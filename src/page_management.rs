use std::collections::BTreeSet;
use vstd::prelude::*;
use vstd::laws_cmp::obeys_cmp;
use crate::comparators::{chain_verdict, verify_page, CompareResult, ComparatorKind};
use crate::databases::{after_defacement, after_reset, breach_consistent, notify_due, StoredDom, TrackedPage, TrackedPageType, DEFAULT_INDEXING_INTERVAL};

verus! {

broadcast use vstd::laws_cmp::group_laws_cmp, vstd::std_specs::btree::group_btree_axioms;

/// Default time after which a page is due for a new check, in milliseconds (60 minutes).
pub const TIME_BETWEEN_CHECKS: u128 = 3600000;

/// Time between two ticks of the scheduler, in milliseconds.
pub const TIME_INTERVAL_MS: u64 = 1000;

/// The pages that a check or a re-index is working on right now. A page in
/// the set is not handed to a second task.
pub struct IndexingSet {
    pub ids: BTreeSet<u32>,
}

impl IndexingSet {
    pub open spec fn view(&self) -> Set<u32> {
        self.ids@
    }

    pub fn new() -> (r: Self)
        ensures
            r.view() == Set::<u32>::empty(),
    {
        IndexingSet { ids: BTreeSet::new() }
    }

    pub fn contains(&self, page_id: u32) -> (r: bool)
        ensures
            r == self.view().contains(page_id),
    {
        proof {
            assert(obeys_cmp::<u32>());
        }
        self.ids.contains(&page_id)
    }

    /// Claims a page: `true`, and the page joins the set, when no task holds
    /// it; `false`, and nothing changes, when one does.
    pub fn try_claim(&mut self, page_id: u32) -> (r: bool)
        ensures
            r == !old(self).view().contains(page_id),
            final(self).view() == old(self).view().insert(page_id),
    {
        proof {
            assert(obeys_cmp::<u32>());
        }
        self.ids.insert(page_id)
    }

    /// Releases a page once its task is over.
    pub fn release(&mut self, page_id: u32)
        ensures
            final(self).view() == old(self).view().remove(page_id),
    {
        proof {
            assert(obeys_cmp::<u32>());
        }
        self.ids.remove(&page_id);
    }
}

/// A unit of work handed out by a tick.
#[derive(PartialEq, Debug, Clone)]
pub enum PageTask {
    /// Fetch the page again and store its DOM as the new reference.
    Reindex(TrackedPage),
    /// Compare the live page with its reference.
    Check(TrackedPage),
}

impl PageTask {
    pub open spec fn page(self) -> TrackedPage {
        match self {
            PageTask::Reindex(p) => p,
            PageTask::Check(p) => p,
        }
    }

    pub fn page_id(&self) -> (r: u32)
        ensures
            r == self.page().page_id,
    {
        match self {
            PageTask::Reindex(p) => p.page_id,
            PageTask::Check(p) => p.page_id,
        }
    }
}

/// The reindex sweep: in order, each page whose breach count is 0 and which
/// no task holds becomes a `Reindex` task and is claimed.
pub open spec fn plan_reindex(busy: Set<u32>, pages: Seq<TrackedPage>) -> (Seq<PageTask>, Set<u32>)
    decreases pages.len(),
{
    if pages.len() == 0 {
        (Seq::empty(), busy)
    } else {
        let (tasks, held) = plan_reindex(busy, pages.drop_last());
        let p = pages.last();
        if p.defacement_count == 0 && !held.contains(p.page_id) {
            (tasks.push(PageTask::Reindex(p)), held.insert(p.page_id))
        } else {
            (tasks, held)
        }
    }
}

/// The check sweep: in order, each page that no task holds becomes a `Check`
/// task and is claimed.
pub open spec fn plan_checks(busy: Set<u32>, pages: Seq<TrackedPage>) -> (Seq<PageTask>, Set<u32>)
    decreases pages.len(),
{
    if pages.len() == 0 {
        (Seq::empty(), busy)
    } else {
        let (tasks, held) = plan_checks(busy, pages.drop_last());
        let p = pages.last();
        if !held.contains(p.page_id) {
            (tasks.push(PageTask::Check(p)), held.insert(p.page_id))
        } else {
            (tasks, held)
        }
    }
}

/// One tick: the reindex sweep, then the check sweep on what it left free.
pub open spec fn plan_tick_spec(
    busy: Set<u32>,
    due_for_reindex: Seq<TrackedPage>,
    due_for_check: Seq<TrackedPage>,
) -> (Seq<PageTask>, Set<u32>) {
    let (reindex, held) = plan_reindex(busy, due_for_reindex);
    let (checks, held_after) = plan_checks(held, due_for_check);
    (reindex + checks, held_after)
}

/// Every task's page was free before, is held after, and no two tasks share
/// a page.
pub open spec fn tasks_exclusive(tasks: Seq<PageTask>, before: Set<u32>, after: Set<u32>) -> bool {
    &&& forall|i: int| 0 <= i < tasks.len() ==> !before.contains(#[trigger] tasks[i].page().page_id)
    &&& forall|i: int| 0 <= i < tasks.len() ==> after.contains(#[trigger] tasks[i].page().page_id)
    &&& forall|i: int, j: int|
        0 <= i < j < tasks.len() ==> #[trigger] tasks[i].page().page_id != #[trigger] tasks[j].page().page_id
    &&& before.subset_of(after)
}

/// No page in breach is re-indexed.
pub open spec fn reindex_only_clean(tasks: Seq<PageTask>) -> bool {
    forall|i: int|
        0 <= i < tasks.len() ==> (#[trigger] tasks[i] is Reindex ==> tasks[i].page().defacement_count
            == 0)
}

proof fn lemma_plan_reindex(busy: Set<u32>, pages: Seq<TrackedPage>)
    ensures
        tasks_exclusive(plan_reindex(busy, pages).0, busy, plan_reindex(busy, pages).1),
        reindex_only_clean(plan_reindex(busy, pages).0),
        forall|i: int| 0 <= i < plan_reindex(busy, pages).0.len() ==> #[trigger] plan_reindex(busy, pages).0[i] is Reindex,
    decreases pages.len(),
{
    if pages.len() > 0 {
        lemma_plan_reindex(busy, pages.drop_last());
    }
}

proof fn lemma_plan_checks(busy: Set<u32>, pages: Seq<TrackedPage>)
    ensures
        tasks_exclusive(plan_checks(busy, pages).0, busy, plan_checks(busy, pages).1),
        forall|i: int| 0 <= i < plan_checks(busy, pages).0.len() ==> #[trigger] plan_checks(busy, pages).0[i] is Check,
    decreases pages.len(),
{
    if pages.len() > 0 {
        lemma_plan_checks(busy, pages.drop_last());
    }
}

/// Within one tick, each page gets at most one task, check or re-index, and
/// none that a running task already holds; a page in breach is never
/// re-indexed.
pub proof fn lemma_one_task_per_page(
    busy: Set<u32>,
    due_for_reindex: Seq<TrackedPage>,
    due_for_check: Seq<TrackedPage>,
)
    ensures
        tasks_exclusive(
            plan_tick_spec(busy, due_for_reindex, due_for_check).0,
            busy,
            plan_tick_spec(busy, due_for_reindex, due_for_check).1,
        ),
        reindex_only_clean(plan_tick_spec(busy, due_for_reindex, due_for_check).0),
{
    let (reindex, held) = plan_reindex(busy, due_for_reindex);
    let (checks, held_after) = plan_checks(held, due_for_check);
    lemma_plan_reindex(busy, due_for_reindex);
    lemma_plan_checks(held, due_for_check);
    let all = reindex + checks;
    assert forall|i: int, j: int| 0 <= i < j < all.len() implies #[trigger] all[i].page().page_id
        != #[trigger] all[j].page().page_id by {
        if j >= reindex.len() && i < reindex.len() {
            assert(held.contains(all[i].page().page_id));
            assert(all[j] == checks[j - reindex.len()]);
            assert(!held.contains(all[j].page().page_id));
        }
        if i >= reindex.len() {
            assert(all[i] == checks[i - reindex.len()]);
            assert(all[j] == checks[j - reindex.len()]);
        }
    }
    assert forall|i: int| 0 <= i < all.len() implies !busy.contains(#[trigger] all[i].page().page_id) by {
        if i >= reindex.len() {
            assert(all[i] == checks[i - reindex.len()]);
        }
    }
    assert forall|i: int| 0 <= i < all.len() implies held_after.contains(#[trigger] all[i].page().page_id) by {
        if i >= reindex.len() {
            assert(all[i] == checks[i - reindex.len()]);
        }
    }
    assert forall|i: int| 0 <= i < all.len() && #[trigger] all[i] is Reindex implies all[i].page().defacement_count == 0 by {
        if i >= reindex.len() {
            assert(all[i] == checks[i - reindex.len()]);
        }
    }
}

/// The `Reindex` tasks for the pages whose breach count is 0, in order.
pub open spec fn clean_reindex_tasks(pages: Seq<TrackedPage>) -> Seq<PageTask>
    decreases pages.len(),
{
    if pages.len() == 0 {
        Seq::empty()
    } else if pages.last().defacement_count == 0 {
        clean_reindex_tasks(pages.drop_last()).push(PageTask::Reindex(pages.last()))
    } else {
        clean_reindex_tasks(pages.drop_last())
    }
}

/// When the pages due for re-indexing have distinct ids and no task holds
/// any of them, every page with breach count 0 gets exactly one `Reindex`
/// task, in order, and no other page gets one.
pub proof fn lemma_reindex_each_clean_page(busy: Set<u32>, pages: Seq<TrackedPage>)
    requires
        forall|i: int, j: int| 0 <= i < j < pages.len() ==> pages[i].page_id != pages[j].page_id,
        forall|i: int| 0 <= i < pages.len() ==> !busy.contains(#[trigger] pages[i].page_id),
    ensures
        plan_reindex(busy, pages).0 == clean_reindex_tasks(pages),
        forall|x: u32| #[trigger] plan_reindex(busy, pages).1.contains(x) ==> busy.contains(x) || exists|i: int|
            0 <= i < pages.len() && pages[i].page_id == x,
    decreases pages.len(),
{
    if pages.len() > 0 {
        let rest = pages.drop_last();
        lemma_reindex_each_clean_page(busy, rest);
        let held = plan_reindex(busy, rest).1;
        let p = pages.last();
        if held.contains(p.page_id) {
            let i = choose|i: int| 0 <= i < rest.len() && rest[i].page_id == p.page_id;
            assert(pages[i].page_id == pages[pages.len() - 1].page_id);
        }
        assert forall|x: u32| #[trigger] plan_reindex(busy, pages).1.contains(x) implies busy.contains(x)
            || exists|i: int| 0 <= i < pages.len() && pages[i].page_id == x by {
            if x != p.page_id {
                assert(held.contains(x));
                if !busy.contains(x) {
                    let i = choose|i: int| 0 <= i < rest.len() && rest[i].page_id == x;
                    assert(pages[i].page_id == x);
                }
            } else {
                assert(pages[pages.len() - 1].page_id == x);
            }
        }
    }
}

/// Plans one tick of the scheduler from the pages that the store handed out
/// as due for re-indexing and as due for a check. Pages in breach are left
/// out of re-indexing, each page gets at most one task, and each task's page
/// is claimed in `busy` until the task releases it.
pub fn plan_tick(
    busy: &mut IndexingSet,
    due_for_reindex: &Vec<TrackedPage>,
    due_for_check: &Vec<TrackedPage>,
) -> (r: Vec<PageTask>)
    ensures
        (r@, final(busy).view()) == plan_tick_spec(old(busy).view(), due_for_reindex@, due_for_check@),
        tasks_exclusive(r@, old(busy).view(), final(busy).view()),
        reindex_only_clean(r@),
{
    let ghost start = busy.view();
    let mut tasks: Vec<PageTask> = Vec::new();
    let mut i: usize = 0;
    while i < due_for_reindex.len()
        invariant
            0 <= i <= due_for_reindex@.len(),
            (tasks@, busy.view()) == plan_reindex(start, due_for_reindex@.take(i as int)),
        decreases due_for_reindex@.len() - i,
    {
        assert(due_for_reindex@.take(i + 1).drop_last() =~= due_for_reindex@.take(i as int));
        let page = &due_for_reindex[i];
        if page.defacement_count == 0 {
            if busy.try_claim(page.page_id) {
                tasks.push(PageTask::Reindex(page.duplicate()));
            }
        }
        i = i + 1;
    }
    assert(due_for_reindex@.take(i as int) =~= due_for_reindex@);
    let ghost reindex_tasks = tasks@;
    let ghost held = busy.view();
    let mut checks: Vec<PageTask> = Vec::new();
    let mut j: usize = 0;
    while j < due_for_check.len()
        invariant
            0 <= j <= due_for_check@.len(),
            (checks@, busy.view()) == plan_checks(held, due_for_check@.take(j as int)),
        decreases due_for_check@.len() - j,
    {
        assert(due_for_check@.take(j + 1).drop_last() =~= due_for_check@.take(j as int));
        let page = &due_for_check[j];
        if busy.try_claim(page.page_id) {
            checks.push(PageTask::Check(page.duplicate()));
        }
        j = j + 1;
    }
    assert(due_for_check@.take(j as int) =~= due_for_check@);
    let ghost check_tasks = checks@;
    tasks.append(&mut checks);
    assert(tasks@ =~= reindex_tasks + check_tasks);
    proof {
        lemma_one_task_per_page(start, due_for_reindex@, due_for_check@);
    }
    tasks
}

/// The position of the reference DOM: the first one with the largest id, or
/// `None` when the page has no stored DOM and cannot be checked.
pub fn latest_dom_index(doms: &Vec<StoredDom>) -> (r: Option<usize>)
    ensures
        r is None <==> doms@.len() == 0,
        r matches Some(k) ==> {
            &&& k < doms@.len()
            &&& forall|j: int| 0 <= j < doms@.len() ==> doms@[j].dom_id <= doms@[k as int].dom_id
            &&& forall|j: int| 0 <= j < k ==> doms@[j].dom_id < doms@[k as int].dom_id
        },
{
    if doms.len() == 0 {
        return None;
    }
    let mut best: usize = 0;
    let mut i: usize = 1;
    while i < doms.len()
        invariant
            1 <= i <= doms@.len(),
            best < i,
            forall|j: int| 0 <= j < i ==> doms@[j].dom_id <= doms@[best as int].dom_id,
            forall|j: int| 0 <= j < best ==> doms@[j].dom_id < doms@[best as int].dom_id,
        decreases doms@.len() - i,
    {
        if doms[i].dom_id > doms[best].dom_id {
            best = i;
        }
        i = i + 1;
    }
    Some(best)
}

/// What a check does to the page's breach state.
#[derive(PartialEq, Eq, Structural, Debug, Clone, Copy)]
pub enum CheckAction {
    /// The page is clean: the breach count goes back to 0.
    Reset,
    /// The page is defaced: the count goes up, and the owner's contacts are
    /// notified when `notify` holds.
    RecordDefacement { notify: bool },
}

/// The action that a check takes, from the chain's verdict on the reference
/// and the live DOM.
pub open spec fn check_action(
    chain: Seq<ComparatorKind>,
    page: TrackedPage,
    reference: Seq<char>,
    current: Seq<char>,
) -> CheckAction {
    if chain_verdict(chain, page.tracked_page_type, reference, current) == CompareResult::NotDefaced {
        CheckAction::Reset
    } else {
        CheckAction::RecordDefacement { notify: notify_due(page) }
    }
}

/// The page's breach state after the store has applied a check's action.
pub open spec fn after_check(page: TrackedPage, action: CheckAction) -> TrackedPage {
    match action {
        CheckAction::Reset => after_reset(page),
        CheckAction::RecordDefacement { notify } => after_defacement(page, notify),
    }
}

/// A check keeps the breach state consistent (notified only at or past the
/// threshold); its count is 0 after a clean verdict and positive after a
/// defaced one.
pub proof fn lemma_check_keeps_breach_consistent(
    chain: Seq<ComparatorKind>,
    page: TrackedPage,
    reference: Seq<char>,
    current: Seq<char>,
)
    requires
        breach_consistent(page),
    ensures
        breach_consistent(after_check(page, check_action(chain, page, reference, current))),
        check_action(chain, page, reference, current) == CheckAction::Reset ==> after_check(
            page,
            check_action(chain, page, reference, current),
        ).defacement_count == 0,
        check_action(chain, page, reference, current) != CheckAction::Reset ==> after_check(
            page,
            check_action(chain, page, reference, current),
        ).defacement_count > 0,
{
}

/// One check, as `decide_check` decides it and the store applies it: once
/// the episode is reported no further report is due; a defaced verdict adds
/// one to the count (below `u32::MAX`) and keeps the flag; only a clean
/// verdict brings the count to 0, and it clears the flag.
pub proof fn lemma_check_step(
    chain: Seq<ComparatorKind>,
    page: TrackedPage,
    reference: Seq<char>,
    current: Seq<char>,
)
    ensures
        page.notified_of_current_breach ==> check_action(chain, page, reference, current)
            != (CheckAction::RecordDefacement { notify: true }),
        check_action(chain, page, reference, current) == CheckAction::Reset <==> chain_verdict(
            chain,
            page.tracked_page_type,
            reference,
            current,
        ) == CompareResult::NotDefaced,
        chain_verdict(chain, page.tracked_page_type, reference, current) != CompareResult::NotDefaced
            && page.defacement_count < u32::MAX ==> after_check(
            page,
            check_action(chain, page, reference, current),
        ).defacement_count == page.defacement_count + 1,
        chain_verdict(chain, page.tracked_page_type, reference, current) != CompareResult::NotDefaced
            ==> (page.notified_of_current_breach ==> after_check(
            page,
            check_action(chain, page, reference, current),
        ).notified_of_current_breach),
        chain_verdict(chain, page.tracked_page_type, reference, current) == CompareResult::NotDefaced
            ==> after_check(page, check_action(chain, page, reference, current)).defacement_count == 0
            && !after_check(page, check_action(chain, page, reference, current)).notified_of_current_breach,
{
}

/// Decides a check: a clean verdict resets the breach; a defaced one records
/// it, and notifies when the count reaches the threshold with this episode
/// not yet reported.
pub fn decide_check(
    chain: &Vec<ComparatorKind>,
    page: &TrackedPage,
    reference: &StoredDom,
    current_dom: &String,
) -> (r: CheckAction)
    ensures
        r == check_action(chain@, *page, reference.dom@, current_dom@),
{
    if verify_page(chain, page, reference, current_dom) {
        CheckAction::Reset
    } else {
        CheckAction::RecordDefacement { notify: page.notify_on_next_defacement() }
    }
}

/// The notifier that serves a contact: the first one whose channel matches,
/// given as `matches[k]` for notifier `k`. At most one notifier is used per
/// contact.
pub fn first_matching_notifier(matches: &Vec<bool>) -> (r: Option<usize>)
    ensures
        r is None <==> forall|k: int| 0 <= k < matches@.len() ==> !matches@[k],
        r matches Some(k) ==> k < matches@.len() && matches@[k as int] && forall|j: int|
            0 <= j < k ==> !matches@[j],
{
    let mut i: usize = 0;
    while i < matches.len()
        invariant
            0 <= i <= matches@.len(),
            forall|j: int| 0 <= j < i ==> !matches@[j],
        decreases matches@.len() - i,
    {
        if matches[i] {
            return Some(i);
        }
        i = i + 1;
    }
    None
}

/// The notifier for each contact: `matches[c][k]` tells whether notifier `k`
/// serves contact `c`; each contact gets the first notifier that serves it,
/// or none, and so at most one report.
pub fn plan_notifications(matches: &Vec<Vec<bool>>) -> (r: Vec<Option<usize>>)
    ensures
        r@.len() == matches@.len(),
        forall|c: int| 0 <= c < r@.len() ==> {
            &&& (#[trigger] r@[c] is None <==> forall|k: int| 0 <= k < matches@[c]@.len() ==> !matches@[c]@[k])
            &&& (r@[c] matches Some(k) ==> k < matches@[c]@.len() && matches@[c]@[k as int] && forall|j: int|
                0 <= j < k ==> !matches@[c]@[j])
        },
{
    let mut r: Vec<Option<usize>> = Vec::new();
    let mut c: usize = 0;
    while c < matches.len()
        invariant
            0 <= c <= matches@.len(),
            r@.len() == c,
            forall|d: int| 0 <= d < c ==> {
                &&& (#[trigger] r@[d] is None <==> forall|k: int| 0 <= k < matches@[d]@.len() ==> !matches@[d]@[k])
                &&& (r@[d] matches Some(k) ==> k < matches@[d]@.len() && matches@[d]@[k as int] && forall|j: int|
                    0 <= j < k ==> !matches@[d]@[j])
            },
        decreases matches@.len() - c,
    {
        let choice = first_matching_notifier(&matches[c]);
        r.push(choice);
        c = c + 1;
    }
    r
}

/// The page type that a re-index commits: a static page stays static; a
/// dynamic page takes the calibrated tolerance, and without one (no pair of
/// samples came in) nothing is committed.
pub open spec fn reindexed_type(page_type: TrackedPageType, calibrated: Option<u64>) -> Option<TrackedPageType> {
    match page_type {
        TrackedPageType::Static => Some(TrackedPageType::Static),
        TrackedPageType::Dynamic(_) => match calibrated {
            Some(t) => Some(TrackedPageType::Dynamic(t)),
            None => None,
        },
    }
}

/// Applies the outcome of calibration to a page being re-indexed: `true`, with
/// the new type set, when the re-index can go on; `false`, with the page
/// untouched, when a dynamic page got no tolerance and must be reported
/// instead of stored.
pub fn apply_calibration(page: &mut TrackedPage, calibrated: Option<u64>) -> (r: bool)
    ensures
        r == reindexed_type(old(page).tracked_page_type, calibrated) is Some,
        r ==> *final(page) == (TrackedPage {
            tracked_page_type: reindexed_type(old(page).tracked_page_type, calibrated)->Some_0,
            ..*old(page)
        }),
        !r ==> *final(page) == *old(page),
{
    match page.tracked_page_type {
        TrackedPageType::Static => true,
        TrackedPageType::Dynamic(_) => match calibrated {
            Some(t) => {
                page.tracked_page_type = TrackedPageType::Dynamic(t);
                true
            },
            None => false,
        },
    }
}

/// The page type that the operator's menu choice selects: 1 static, 2
/// dynamic (to be calibrated), anything else keeps the current type.
pub open spec fn chosen_type(choice: u32, current: TrackedPageType) -> TrackedPageType {
    if choice == 1 {
        TrackedPageType::Static
    } else if choice == 2 {
        TrackedPageType::Dynamic(0)
    } else {
        current
    }
}

pub fn page_type_for_choice(choice: u32, current: TrackedPageType) -> (r: TrackedPageType)
    ensures
        r == chosen_type(choice, current),
{
    if choice == 1 {
        TrackedPageType::Static
    } else if choice == 2 {
        TrackedPageType::Dynamic(0)
    } else {
        current
    }
}

/// The re-index interval, in milliseconds, for a number of minutes; the
/// default interval when none is given.
pub fn index_interval_for(minutes: Option<u32>) -> (r: u128)
    ensures
        r == match minutes {
            Some(m) => m as int * 60000,
            None => DEFAULT_INDEXING_INTERVAL as int,
        },
{
    match minutes {
        Some(m) => (m as u128) * 60000,
        None => DEFAULT_INDEXING_INTERVAL as u128,
    }
}

} // verus!
