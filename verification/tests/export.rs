use calshare::ical::assemble_document;
use calshare::ical::export_calendar;
use calshare::ical::render_event;
use calshare::model::EventRecord;
use calshare::model::Resource;
use calshare::resolver::list_calendar_leaves;
use calshare::text::decimal_string;
use calshare::text::str_eq;

const HEADER: &str = "BEGIN:VCALENDAR\r\nVERSION:2.0\r\nPRODID:-//CalShare//Calendar Share//EN\r\n";
const FOOTER: &str = "END:VCALENDAR\r\n";

fn leaf(document_id: u32, collection_id: u32) -> Resource {
    Resource { document_id, collection_id, is_container: false }
}

fn container(document_id: u32, collection_id: u32) -> Resource {
    Resource { document_id, collection_id, is_container: true }
}

fn record(document_id: u32, body: &str) -> EventRecord {
    EventRecord { document_id, body: Some(body.to_string()) }
}

fn event_body(uid: u32) -> String {
    format!("BEGIN:VEVENT\r\nUID:{}\r\nEND:VEVENT\r\n", uid)
}

#[test]
fn export_counts_matching_leaves() {
    let resources = vec![
        container(0, 3),
        leaf(1, 3),
        leaf(2, 4),
        leaf(3, 3),
        leaf(4, 4),
        leaf(5, 3),
    ];
    let records: Vec<EventRecord> =
        (1..=5).map(|d| record(d, &event_body(d))).collect();
    let doc = export_calendar("3", &resources, &records);
    assert_eq!(doc.matches("BEGIN:VEVENT").count(), 3);
    assert!(doc.contains("UID:1\r\n"));
    assert!(doc.contains("UID:3\r\n"));
    assert!(doc.contains("UID:5\r\n"));
    assert!(!doc.contains("UID:2\r\n"));
    assert!(!doc.contains("UID:4\r\n"));
}

#[test]
fn export_skips_leaf_with_missing_record() {
    let resources = vec![leaf(1, 3), leaf(2, 4), leaf(3, 3), leaf(4, 4), leaf(5, 3)];
    // No record is stored for document 3.
    let records = vec![
        record(1, &event_body(1)),
        record(2, &event_body(2)),
        record(4, &event_body(4)),
        record(5, &event_body(5)),
    ];
    let doc = export_calendar("3", &resources, &records);
    assert_eq!(doc.matches("BEGIN:VEVENT").count(), 2);
    assert!(doc.contains("UID:1\r\n"));
    assert!(doc.contains("UID:5\r\n"));
    assert!(!doc.contains("UID:3\r\n"));
}

#[test]
fn export_skips_undecodable_record() {
    let resources = vec![leaf(1, 3), leaf(2, 3)];
    let records = vec![
        record(1, &event_body(1)),
        EventRecord { document_id: 2, body: None },
    ];
    let doc = export_calendar("3", &resources, &records);
    assert_eq!(doc.matches("BEGIN:VEVENT").count(), 1);
    assert!(doc.contains("UID:1\r\n"));
}

#[test]
fn export_empty_calendar_is_framed_not_an_error() {
    let resources: Vec<Resource> = Vec::new();
    let records: Vec<EventRecord> = Vec::new();
    let doc = export_calendar("3", &resources, &records);
    assert_eq!(doc, format!("{}{}", HEADER, FOOTER));
    assert!(doc.starts_with("BEGIN:VCALENDAR\r\n"));
    assert!(doc.ends_with("END:VCALENDAR\r\n"));
}

#[test]
fn export_exact_document_in_listing_order() {
    let resources = vec![leaf(2, 7), leaf(1, 7)];
    let records = vec![record(1, "ONE\r\n"), record(2, "TWO\r\n")];
    let doc = export_calendar("7", &resources, &records);
    assert_eq!(doc, format!("{}TWO\r\nONE\r\n{}", HEADER, FOOTER));
}

#[test]
fn export_document_is_always_framed() {
    let resources = vec![leaf(1, 3)];
    let records = vec![record(1, &event_body(1))];
    let doc = export_calendar("3", &resources, &records);
    assert!(doc.starts_with("BEGIN:VCALENDAR\r\n"));
    assert!(doc.ends_with("END:VCALENDAR\r\n"));
}

#[test]
fn render_event_finds_first_record_for_document() {
    let records = vec![record(1, "A\r\n"), record(1, "B\r\n")];
    assert_eq!(render_event(&records, &leaf(1, 3)), Some("A\r\n".to_string()));
    assert_eq!(render_event(&records, &leaf(2, 3)), None);
}

#[test]
fn assemble_document_with_no_leaves() {
    let records = vec![record(1, "A\r\n")];
    let leaves: Vec<Resource> = Vec::new();
    assert_eq!(assemble_document(&records, &leaves), format!("{}{}", HEADER, FOOTER));
}

#[test]
fn list_calendar_leaves_filters_and_keeps_order() {
    let resources = vec![
        container(0, 3),
        leaf(1, 3),
        leaf(2, 4),
        leaf(3, 3),
    ];
    let out = list_calendar_leaves(&resources, "3");
    assert_eq!(out, vec![leaf(1, 3), leaf(3, 3)]);
    let none = list_calendar_leaves(&resources, "9");
    assert_eq!(none, Vec::<Resource>::new());
}

#[test]
fn collection_identifiers_compare_textually() {
    // "007" is not the decimal rendering of 7, so it matches nothing.
    let resources = vec![leaf(1, 7), leaf(2, 10)];
    let records = vec![record(1, "S\r\n"), record(2, "T\r\n")];
    assert_eq!(
        export_calendar("007", &resources, &records),
        format!("{}{}", HEADER, FOOTER)
    );
    assert_eq!(
        export_calendar("10", &resources, &records),
        format!("{}T\r\n{}", HEADER, FOOTER)
    );
}

#[test]
fn decimal_string_renders_exactly() {
    assert_eq!(decimal_string(0), "0");
    assert_eq!(decimal_string(7), "7");
    assert_eq!(decimal_string(10), "10");
    assert_eq!(decimal_string(305), "305");
    assert_eq!(decimal_string(u32::MAX), "4294967295");
}

#[test]
fn str_eq_compares_contents() {
    assert!(str_eq("", ""));
    assert!(str_eq("abc", "abc"));
    assert!(!str_eq("abc", "abd"));
    assert!(!str_eq("abc", "ab"));
    assert!(str_eq("naïve", "naïve"));
}
