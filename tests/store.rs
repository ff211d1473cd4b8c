use deface_watch::databases::{TrackedPageType, DEFAULT_DEFACEMENT_THRESHOLD, DEFAULT_INDEXING_INTERVAL};
use deface_watch::store::{matches_ignoring_ascii_case, MemoryStore, StoreError};

#[test]
fn insert_then_delete_restores_store() {
    let mut store = MemoryStore::new();
    let first = store.insert_tracked_page("https://example.com/a", 1, 10).unwrap();
    store.insert_dom_for_page(&first, "X").unwrap();
    let pages_before = store.list_all_tracked_pages();
    let doms_before = store.read_doms_for_page(&first);
    let added = store.insert_tracked_page("https://example.com/b", 2, 20).unwrap();
    assert!(store.del_tracked_page(&added));
    assert_eq!(store.list_all_tracked_pages(), pages_before);
    assert_eq!(store.read_doms_for_page(&first), doms_before);
    assert_eq!(store.doms.len(), 1);
}

#[test]
fn new_page_defaults() {
    let mut store = MemoryStore::new();
    let p = store.insert_tracked_page("https://example.com/a", 1, 77).unwrap();
    assert_eq!(p.page_id(), 1);
    assert_eq!(p.page_url(), "https://example.com/a");
    assert_eq!(p.owning_user_id(), 1);
    assert_eq!(p.last_time_checked(), 77);
    assert_eq!(p.last_time_indexed(), 0);
    assert_eq!(p.index_interval(), DEFAULT_INDEXING_INTERVAL as u128);
    assert_eq!(p.defacement_count(), 0);
    assert_eq!(p.defacement_threshold(), DEFAULT_DEFACEMENT_THRESHOLD);
    assert_eq!(*p.tracked_page_type(), TrackedPageType::Static);
    assert_eq!(store.get_information_for_tracked_page(1).unwrap(), p);
    assert_eq!(store.get_information_for_page("HTTPS://EXAMPLE.COM/A").unwrap(), p);
    assert_eq!(store.get_information_for_tracked_page(2), Err(StoreError::NotFound));
}

#[test]
fn duplicate_url_is_refused_without_case() {
    let mut store = MemoryStore::new();
    assert!(store.insert_tracked_page("https://google.com", 0, 0).is_ok());
    assert_eq!(store.insert_tracked_page("https://google.com", 0, 0), Err(StoreError::Duplicate));
    assert_eq!(store.insert_tracked_page("HTTPS://Google.COM", 3, 0), Err(StoreError::Duplicate));
    assert_eq!(store.list_all_tracked_pages().len(), 1);
    assert!(matches_ignoring_ascii_case("abc", "ABC"));
    assert!(!matches_ignoring_ascii_case("abc", "abd"));
    assert!(!matches_ignoring_ascii_case("abc", "abcd"));
}

#[test]
fn delete_removes_page_and_its_doms() {
    let mut store = MemoryStore::new();
    let p = store.insert_tracked_page("https://google.com", 0, 0).unwrap();
    let q = store.insert_tracked_page("https://example.com", 0, 0).unwrap();
    let d = store.insert_dom_for_page(&p, "<>").unwrap();
    store.insert_dom_for_page(&q, "<q>").unwrap();
    assert_eq!(store.read_doms_for_page(&p), vec![d]);
    assert!(store.del_tracked_page(&p));
    assert!(store.read_doms_for_page(&p).is_empty());
    assert_eq!(store.read_doms_for_page(&q).len(), 1);
    assert!(!store.del_tracked_page(&p));
    assert!(store.get_information_for_page("https://google.com").is_err());
}

#[test]
fn dom_ids_grow() {
    let mut store = MemoryStore::new();
    let p = store.insert_tracked_page("https://google.com", 0, 0).unwrap();
    let a = store.insert_dom_for_page(&p, "a").unwrap();
    let b = store.insert_dom_for_page(&p, "b").unwrap();
    assert_eq!(a.dom_id(), 1);
    assert_eq!(b.dom_id(), 2);
    assert_eq!(b.owning_page_id(), p.page_id);
    assert_eq!(b.dom(), "b");
    let mut gone = p.clone();
    gone.page_id = 99;
    assert_eq!(store.insert_dom_for_page(&gone, "c"), Err(StoreError::NotFound));
}

#[test]
fn claim_for_check_is_a_soft_lock() {
    let mut store = MemoryStore::new();
    store.insert_tracked_page("https://a.example", 1, 0).unwrap();
    store.insert_tracked_page("https://b.example", 1, 5000).unwrap();
    let claimed = store.list_all_pages_not_checked_for(3000, 1000);
    assert_eq!(claimed.len(), 1);
    assert_eq!(claimed[0].page_url(), "https://a.example");
    assert_eq!(claimed[0].last_time_checked(), 3000);
    assert!(store.list_all_pages_not_checked_for(3000, 1000).is_empty());
    let later = store.list_all_pages_not_checked_for(7000, 1000);
    assert_eq!(later.len(), 2);
}

#[test]
fn claim_for_reindex_uses_page_interval() {
    let mut store = MemoryStore::new();
    store.insert_tracked_page("https://a.example", 1, 0).unwrap();
    assert!(store.list_all_pages_not_indexed_for(1800000).is_empty());
    let claimed = store.list_all_pages_not_indexed_for(1800001);
    assert_eq!(claimed.len(), 1);
    assert_eq!(claimed[0].last_time_indexed(), 1800001);
    assert!(store.list_all_pages_not_indexed_for(1800002).is_empty());
}

#[test]
fn breach_counter_round_trip() {
    let mut store = MemoryStore::new();
    let mut p = store.insert_tracked_page("https://a.example", 1, 0).unwrap();
    store.increment_defacement_count(&mut p, false).unwrap();
    store.increment_defacement_count(&mut p, true).unwrap();
    store.increment_defacement_count(&mut p, false).unwrap();
    assert_eq!(p.defacement_count(), 3);
    assert!(p.notified_of_current_breach());
    assert_eq!(store.get_information_for_tracked_page(p.page_id).unwrap(), p);
    store.reset_defacement_count(&mut p).unwrap();
    assert_eq!(p.defacement_count(), 0);
    assert!(!p.notified_of_current_breach());
    assert_eq!(store.get_information_for_tracked_page(p.page_id).unwrap(), p);
    let mut gone = p.clone();
    gone.page_id = 42;
    assert_eq!(store.increment_defacement_count(&mut gone, true), Err(StoreError::NotFound));
    assert_eq!(store.reset_defacement_count(&mut gone), Err(StoreError::NotFound));
}

#[test]
fn tracking_type_update() {
    let mut store = MemoryStore::new();
    let mut p = store.insert_tracked_page("https://a.example", 1, 0).unwrap();
    p.set_tracked_page_type(TrackedPageType::Dynamic(2600));
    p.set_index_interval(60000);
    store.update_tracking_type_for_page(&p, 500).unwrap();
    let row = store.get_information_for_tracked_page(p.page_id).unwrap();
    assert_eq!(row.tracked_page_type, TrackedPageType::Dynamic(2600));
    assert_eq!(row.index_interval, 60000);
    assert_eq!(row.last_time_indexed, 500);
}

#[test]
fn insert_with_free_url_succeeds() {
    let mut store = MemoryStore::new();
    let a = store.insert_tracked_page("https://a.example", 1, 0).unwrap();
    let b = store.insert_tracked_page("https://b.example", 2, 0).unwrap();
    assert_eq!((a.page_id, b.page_id), (1, 2));
    assert!(store.del_tracked_page(&a));
    // the URL is free again
    assert!(store.insert_tracked_page("https://a.example", 1, 0).is_ok());
    let d = store.insert_dom_for_page(&b, "<b>").unwrap();
    assert_eq!(d.owning_page_id, b.page_id);
}

#[test]
fn index_time_never_goes_back() {
    let mut store = MemoryStore::new();
    let p = store.insert_tracked_page("https://a.example", 1, 0).unwrap();
    store.update_tracking_type_for_page(&p, 900).unwrap();
    store.update_tracking_type_for_page(&p, 500).unwrap();
    assert_eq!(store.get_information_for_tracked_page(p.page_id).unwrap().last_time_indexed, 900);
}

#[test]
fn insert_doms_then_delete_restores_store() {
    let mut store = MemoryStore::new();
    let first = store.insert_tracked_page("https://example.com/a", 1, 10).unwrap();
    store.insert_dom_for_page(&first, "X").unwrap();
    let pages_before = store.list_all_tracked_pages();
    let doms_before = store.doms.clone();
    let added = store.insert_tracked_page("https://example.com/b", 2, 20).unwrap();
    store.insert_dom_for_page(&added, "b1").unwrap();
    store.insert_dom_for_page(&added, "b2").unwrap();
    assert!(store.del_tracked_page(&added));
    assert_eq!(store.list_all_tracked_pages(), pages_before);
    assert_eq!(store.doms, doms_before);
    assert!(store.get_information_for_page("https://example.com/b").is_err());
}
