use deface_watch::communication::{CommData, UserCommunication};
use deface_watch::comparators::default_chain;
use deface_watch::databases::{StoredDom, TrackedPage, TrackedPageType};
use deface_watch::page_management::{
    decide_check, first_matching_notifier, latest_dom_index, plan_notifications, plan_tick, CheckAction, IndexingSet, PageTask,
};
use deface_watch::store::MemoryStore;

fn page(id: u32, count: u32, threshold: u32) -> TrackedPage {
    TrackedPage::new(id, format!("https://example.com/{}", id), 1, 0, 0, 1800000, count, threshold, false, TrackedPageType::Static)
}

/// Runs one check of `page` against `stored` with `live`, as the scheduler
/// does, and returns how many reports were sent.
fn run_check(store: &mut MemoryStore, page: &mut TrackedPage, stored: &StoredDom, live: &str, contacts: &Vec<UserCommunication>) -> usize {
    let chain = default_chain();
    match decide_check(&chain, page, stored, &String::from(live)) {
        CheckAction::Reset => {
            store.reset_defacement_count(page).unwrap();
            0
        }
        CheckAction::RecordDefacement { notify } => {
            store.increment_defacement_count(page, notify).unwrap();
            let mut sent = 0;
            if notify {
                let matches: Vec<Vec<bool>> = contacts
                    .iter()
                    .map(|c| vec![matches!(c.communication(), CommData::Email(_))])
                    .collect();
                sent = plan_notifications(&matches).iter().filter(|choice| choice.is_some()).count();
            }
            sent
        }
    }
}

fn registered(store: &mut MemoryStore, threshold: u32) -> (TrackedPage, StoredDom) {
    let mut p = store.insert_tracked_page("https://example.com/a", 1, 0).unwrap();
    p.defacement_threshold = threshold;
    let dom = store.insert_dom_for_page(&p, "X").unwrap();
    (p, dom)
}

fn contacts() -> Vec<UserCommunication> {
    vec![
        UserCommunication::new(1, 1, CommData::Email(String::from("owner@example.com"))),
        UserCommunication::new(2, 1, CommData::Email(String::from("admin@example.com"))),
    ]
}

#[test]
fn static_page_clean_check() {
    let mut store = MemoryStore::new();
    let (mut p, dom) = registered(&mut store, 5);
    let sent = run_check(&mut store, &mut p, &dom, "X", &contacts());
    assert_eq!(sent, 0);
    assert_eq!(p.defacement_count(), 0);
    assert!(!p.notified_of_current_breach());
}

#[test]
fn static_page_defaced_notifies_once() {
    let mut store = MemoryStore::new();
    let (mut p, dom) = registered(&mut store, 1);
    let sent = run_check(&mut store, &mut p, &dom, "Y", &contacts());
    assert_eq!(p.defacement_count(), 1);
    assert!(p.notified_of_current_breach());
    assert_eq!(sent, 2);
    let sent = run_check(&mut store, &mut p, &dom, "Y", &contacts());
    assert_eq!(p.defacement_count(), 2);
    assert!(p.notified_of_current_breach());
    assert_eq!(sent, 0);
}

#[test]
fn static_page_recovery_rearms_notification() {
    let mut store = MemoryStore::new();
    let (mut p, dom) = registered(&mut store, 1);
    assert_eq!(run_check(&mut store, &mut p, &dom, "Y", &contacts()), 2);
    assert_eq!(run_check(&mut store, &mut p, &dom, "Y", &contacts()), 0);
    assert_eq!(run_check(&mut store, &mut p, &dom, "X", &contacts()), 0);
    assert_eq!(p.defacement_count(), 0);
    assert!(!p.notified_of_current_breach());
    assert_eq!(run_check(&mut store, &mut p, &dom, "Y", &contacts()), 2);
    assert_eq!(p.defacement_count(), 1);
    assert!(p.notified_of_current_breach());
}

#[test]
fn episode_sends_at_most_one_report_per_contact() {
    let mut store = MemoryStore::new();
    let (mut p, dom) = registered(&mut store, 3);
    let mut total = 0;
    for _ in 0..10 {
        total += run_check(&mut store, &mut p, &dom, "Y", &contacts());
        assert!(!p.notified_of_current_breach() || p.defacement_count() >= p.defacement_threshold());
    }
    assert_eq!(total, 2);
    assert_eq!(p.defacement_count(), 10);
}

#[test]
fn notify_only_at_threshold() {
    let p = page(1, 3, 5);
    let chain = default_chain();
    let stored = StoredDom::new(1, 1, String::from("X"));
    assert_eq!(decide_check(&chain, &p, &stored, &String::from("Y")), CheckAction::RecordDefacement { notify: false });
    let p = page(1, 4, 5);
    assert_eq!(decide_check(&chain, &p, &stored, &String::from("Y")), CheckAction::RecordDefacement { notify: true });
    let mut p = page(1, 7, 5);
    p.set_notified_of_current_breach(true);
    assert_eq!(decide_check(&chain, &p, &stored, &String::from("Y")), CheckAction::RecordDefacement { notify: false });
    assert_eq!(decide_check(&chain, &p, &stored, &String::from("X")), CheckAction::Reset);
}

#[test]
fn reindex_skipped_during_breach() {
    let mut busy = IndexingSet::new();
    let breached = page(7, 3, 5);
    let tasks = plan_tick(&mut busy, &vec![breached.clone()], &Vec::new());
    assert!(tasks.is_empty());
    assert!(!busy.contains(7));
    let tasks = plan_tick(&mut busy, &vec![breached.clone()], &vec![breached.clone()]);
    assert_eq!(tasks, vec![PageTask::Check(breached)]);
}

#[test]
fn one_task_per_page_per_tick() {
    let mut busy = IndexingSet::new();
    let a = page(1, 0, 5);
    let b = page(2, 0, 5);
    let tasks = plan_tick(&mut busy, &vec![a.clone()], &vec![a.clone(), b.clone(), b.clone()]);
    assert_eq!(tasks, vec![PageTask::Reindex(a.clone()), PageTask::Check(b.clone())]);
    assert!(busy.contains(1) && busy.contains(2));
    // both still held: the next tick hands out nothing
    let tasks = plan_tick(&mut busy, &vec![a.clone()], &vec![b.clone()]);
    assert!(tasks.is_empty());
    busy.release(1);
    let tasks = plan_tick(&mut busy, &Vec::new(), &vec![a.clone(), b.clone()]);
    assert_eq!(tasks.len(), 1);
    assert_eq!(tasks[0].page_id(), 1);
}

#[test]
fn claimed_page_is_not_claimed_twice() {
    let mut busy = IndexingSet::new();
    assert!(busy.try_claim(4));
    assert!(!busy.try_claim(4));
    busy.release(4);
    assert!(busy.try_claim(4));
}

#[test]
fn page_without_stored_dom_cannot_be_checked() {
    let doms: Vec<StoredDom> = Vec::new();
    assert_eq!(latest_dom_index(&doms), None);
    let mut store = MemoryStore::new();
    let p = store.insert_tracked_page("https://example.com/a", 1, 0).unwrap();
    assert_eq!(latest_dom_index(&store.read_doms_for_page(&p)), None);
}

#[test]
fn latest_dom_has_largest_id() {
    let doms = vec![
        StoredDom::new(3, 1, String::from("b")),
        StoredDom::new(9, 1, String::from("c")),
        StoredDom::new(1, 1, String::from("a")),
        StoredDom::new(9, 1, String::from("d")),
    ];
    assert_eq!(latest_dom_index(&doms), Some(1));
}

#[test]
fn first_matching_notifier_is_chosen() {
    assert_eq!(first_matching_notifier(&vec![false, true, true]), Some(1));
    assert_eq!(first_matching_notifier(&vec![false, false]), None);
    assert_eq!(first_matching_notifier(&Vec::new()), None);
}

#[test]
fn one_notifier_per_contact() {
    let plan = plan_notifications(&vec![vec![false, true, true], vec![false, false], vec![true], Vec::new()]);
    assert_eq!(plan, vec![Some(1), None, Some(0), None]);
}
