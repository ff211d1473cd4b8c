use deface_watch::calibration::{analyse_samples, tolerance_from_total, Calibration, DYNAMIC_CHECK_COUNT};
use deface_watch::databases::{TrackedPage, TrackedPageType};
use deface_watch::page_management::apply_calibration;

fn sample(k: u32) -> String {
    let mut s = format!("u{}\n", k);
    s.push_str(&"x".repeat(96));
    s.push('\n');
    s
}

fn dynamic_page() -> TrackedPage {
    TrackedPage::new(2, String::from("https://example.com/b"), 1, 0, 0, 1800000, 0, 5, false, TrackedPageType::Dynamic(0))
}

#[test]
fn calibration_of_ten_samples_at_two_percent() {
    let mut cal = Calibration::new();
    let mut k: u32 = 0;
    while !cal.is_complete() {
        cal.record(Ok(sample(k)));
        k += 1;
    }
    assert_eq!(k, DYNAMIC_CHECK_COUNT);
    assert_eq!(cal.samples.len(), 10);
    assert_eq!(cal.tolerance(), Some(2600));
    let mut page = dynamic_page();
    assert!(apply_calibration(&mut page, cal.tolerance()));
    assert_eq!(page.tracked_page_type, TrackedPageType::Dynamic(2600));
}

#[test]
fn calibration_with_all_fetches_failing_gives_no_tolerance() {
    let mut cal = Calibration::new();
    while !cal.is_complete() {
        cal.record(Err(String::from("fetch failed")));
    }
    assert_eq!(cal.attempts, 10);
    assert!(cal.samples.is_empty());
    assert_eq!(cal.tolerance(), None);
    let mut page = dynamic_page();
    let before = page.clone();
    assert!(!apply_calibration(&mut page, cal.tolerance()));
    assert_eq!(page, before);
}

#[test]
fn calibration_with_one_sample_gives_no_tolerance() {
    assert_eq!(analyse_samples(&vec![sample(0)]), None);
    assert_eq!(analyse_samples(&Vec::new()), None);
}

#[test]
fn calibration_skips_failed_samples() {
    let mut cal = Calibration::new();
    cal.record(Ok(sample(0)));
    cal.record(Err(String::from("timeout")));
    cal.record(Ok(sample(1)));
    assert_eq!(cal.attempts, 3);
    assert_eq!(cal.samples.len(), 2);
    assert_eq!(cal.tolerance(), Some(2600));
}

#[test]
fn calibration_of_identical_samples_is_zero() {
    assert_eq!(analyse_samples(&vec![sample(3), sample(3), sample(3)]), Some(0));
}

#[test]
fn static_page_needs_no_calibration() {
    let mut page = dynamic_page();
    page.tracked_page_type = TrackedPageType::Static;
    assert!(apply_calibration(&mut page, None));
    assert_eq!(page.tracked_page_type, TrackedPageType::Static);
}

#[test]
fn tolerance_from_pair_total() {
    // ten samples, 90 ordered pairs at 2.0 % each
    assert_eq!(tolerance_from_total(90 * 2000, 10), Some(2600));
    assert_eq!(tolerance_from_total(2 * 1000, 2), Some(1300));
    assert_eq!(tolerance_from_total(7, 2), Some(5));
    assert_eq!(tolerance_from_total(0, 10), Some(0));
    assert_eq!(tolerance_from_total(0, 1), None);
    assert_eq!(tolerance_from_total(0, 0), None);
}

#[test]
fn calibration_of_large_pages_keeps_their_change() {
    // one line differs between fetches of a 300 000-byte page
    let mut a = "x".repeat(299_997);
    a.push_str("\na");
    let mut b = "x".repeat(299_997);
    b.push_str("\nb");
    let t = analyse_samples(&vec![a.clone(), b.clone()]).unwrap();
    assert_eq!(t, 2);
    let page = TrackedPage::new(2, String::from("u"), 1, 0, 0, 0, 0, 5, false, TrackedPageType::Dynamic(t));
    let diff = deface_watch::comparators::DiffComparator::new();
    assert_eq!(diff.compare_between(&page, &a, &b), deface_watch::comparators::CompareResult::MaybeDefaced);
}
