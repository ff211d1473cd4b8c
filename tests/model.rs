use deface_watch::columns::tolerance_from_text;
use deface_watch::communication::{CommData, EmailSMTPData, UserCommunication};
use deface_watch::databases::{tracked_page_type_from_columns, tracked_page_type_to_str, StoredDom, TrackedPage, TrackedPageType, User};
use deface_watch::page_management::{index_interval_for, page_type_for_choice};
use deface_watch::parsers::{read_website_to_pdf, ChromiumParser};

#[test]
fn page_type_names() {
    assert_eq!(tracked_page_type_to_str(&TrackedPageType::Static), "Static");
    assert_eq!(tracked_page_type_to_str(&TrackedPageType::Dynamic(2600)), "Dynamic");
}

#[test]
fn breach_state_transitions() {
    let mut p = TrackedPage::new(1, String::from("u"), 1, 0, 0, 0, 4, 5, false, TrackedPageType::Static);
    assert!(p.notify_on_next_defacement());
    p.record_defacement(true);
    assert_eq!(p.defacement_count(), 5);
    assert!(p.notified_of_current_breach());
    assert!(!p.notify_on_next_defacement());
    p.record_defacement(false);
    assert_eq!(p.defacement_count(), 6);
    assert!(p.notified_of_current_breach());
    p.reset_defacements();
    assert_eq!(p.defacement_count(), 0);
    assert!(!p.notified_of_current_breach());
    p.set_defacement_count(u32::MAX);
    p.record_defacement(false);
    assert_eq!(p.defacement_count(), u32::MAX);
}

#[test]
fn users_and_contacts() {
    let u = User::new(3, String::from("teste"));
    assert_eq!(u.user_id(), 3);
    assert_eq!(u.user(), "teste");
    let c = UserCommunication::new(9, 3, CommData::Email(String::from("a@b.c")));
    assert_eq!(c.comm_id(), 9);
    assert_eq!(c.user_id(), 3);
    assert_eq!(c.communication().channel_tag(), "EMAIL");
    assert_eq!(c.communication().address(), "a@b.c");
}

#[test]
fn smtp_settings() {
    let s = EmailSMTPData::new(
        String::from("smtp.example.com"),
        String::from("user"),
        String::from("SECRET-REDACTED"),
        Some(587),
        String::from("Monitor"),
        String::from("monitor@example.com"),
    );
    assert_eq!(s.smtp_server(), "smtp.example.com");
    assert_eq!(s.username(), "user");
    assert_eq!(s.password(), "SECRET-REDACTED");
    assert_eq!(s.port(), Some(587));
    assert_eq!(s.from_name(), "Monitor");
    assert_eq!(s.from_email(), "monitor@example.com");
}

#[test]
fn stored_dom_accessors() {
    let mut d = StoredDom::new(4, 2, String::from("<a>"));
    assert_eq!(d.dom_id(), 4);
    assert_eq!(d.owning_page_id(), 2);
    d.set_dom(String::from("<b>"));
    assert_eq!(d.dom(), "<b>");
}

#[test]
fn chromium_command_line() {
    let parser = ChromiumParser::new();
    let cmd = parser.dump_dom_command("https://example.com");
    assert_eq!(cmd, vec!["chromium", "--headless", "--dump-dom", "https://example.com"]);
    read_website_to_pdf("https://example.com");
}

#[test]
fn page_type_from_stored_columns() {
    assert_eq!(tracked_page_type_from_columns("Dynamic", Some(2600)), Some(TrackedPageType::Dynamic(2600)));
    assert_eq!(tracked_page_type_from_columns("dynamic", Some(5)), Some(TrackedPageType::Dynamic(5)));
    assert_eq!(tracked_page_type_from_columns("Dynamic", None), None);
    assert_eq!(tracked_page_type_from_columns("Static", None), Some(TrackedPageType::Static));
    assert_eq!(tracked_page_type_from_columns("Static", Some(7)), Some(TrackedPageType::Static));
}

#[test]
fn contact_from_stored_columns() {
    assert_eq!(CommData::from_columns("EMAIL", String::from("a@b.c")), Some(CommData::Email(String::from("a@b.c"))));
    assert_eq!(CommData::from_columns("email", String::from("a@b.c")), None);
    assert_eq!(CommData::from_columns("SMS", String::from("123")), None);
}

#[test]
fn operator_choices() {
    assert_eq!(page_type_for_choice(1, TrackedPageType::Dynamic(9)), TrackedPageType::Static);
    assert_eq!(page_type_for_choice(2, TrackedPageType::Static), TrackedPageType::Dynamic(0));
    assert_eq!(page_type_for_choice(3, TrackedPageType::Dynamic(9)), TrackedPageType::Dynamic(9));
    assert_eq!(index_interval_for(None), 1800000);
    assert_eq!(index_interval_for(Some(5)), 300000);
    assert_eq!(index_interval_for(Some(u32::MAX)), u32::MAX as u128 * 60000);
}

#[test]
fn stored_tolerance_text() {
    assert_eq!(tolerance_from_text("2.600"), Some(2600));
    assert_eq!(tolerance_from_text("2.6"), Some(2600));
    assert_eq!(tolerance_from_text("2"), Some(2000));
    assert_eq!(tolerance_from_text("0.0005"), Some(1));
    assert_eq!(tolerance_from_text("2.5999999999999996"), Some(2600));
    assert_eq!(tolerance_from_text("2.6004"), Some(2600));
    assert_eq!(tolerance_from_text("100.000"), Some(100000));
    assert_eq!(tolerance_from_text("999999999.999"), Some(999999999999));
    assert_eq!(tolerance_from_text("1000000000"), None);
    assert_eq!(tolerance_from_text(""), None);
    assert_eq!(tolerance_from_text("."), None);
    assert_eq!(tolerance_from_text("2."), None);
    assert_eq!(tolerance_from_text(".5"), None);
    assert_eq!(tolerance_from_text("-1.0"), None);
    assert_eq!(tolerance_from_text("NaN"), None);
    assert_eq!(tolerance_from_text("1.2.3"), None);
}

#[test]
fn stored_tolerance_written_and_read_back() {
    use_round_trip(2600, "2.600");
    use_round_trip(0, "0.000");
    use_round_trip(5, "0.005");
    use_round_trip(100000, "100.000");
    use_round_trip(999999999999, "999999999.999");
}

fn use_round_trip(t: u64, text: &str) {
    let written = deface_watch::columns::tolerance_to_text(t);
    assert_eq!(written, text);
    assert_eq!(tolerance_from_text(&written), Some(t));
}
