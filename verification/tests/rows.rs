use epar::fields::{extract, FieldMap};
use epar::pipeline::{render, report};
use epar::error::ErrorKind;
use epar::row::{encode_header, encode_row};
use epar::settings::Settings;

fn list(items: &[&str]) -> Vec<String> {
    items.iter().map(|s| s.to_string()).collect()
}

#[test]
fn a_row_with_an_absent_field() {
    let mut found = FieldMap::new();
    found.insert("A".to_string(), "x".to_string());
    assert_eq!(encode_row(&list(&["A", "B"]), &found, ","), "\"x\",\"\"\n");
}

#[test]
fn a_header_of_two_fields() {
    assert_eq!(encode_header(&list(&["A", "B"]), ","), "\"A\",\"B\"\n");
}

#[test]
fn round_trip_of_one_message() {
    let fields = list(&["Name", "Date"]);
    let body = "Name: Alice\nDate: 2024-01-01\nbody text\nDate: 2024-01-02\n";
    let found = extract(body, &fields);
    assert_eq!(encode_row(&fields, &found, ","), "\"Alice\",\"2024-01-02\"\n");
}

#[test]
fn a_single_field_has_no_delimiter() {
    let mut found = FieldMap::new();
    found.insert("A".to_string(), "x".to_string());
    assert_eq!(encode_row(&list(&["A"]), &found, ","), "\"x\"\n");
    assert_eq!(encode_header(&list(&["A"]), ","), "\"A\"\n");
}

#[test]
fn a_longer_delimiter_is_written_as_it_stands() {
    let mut found = FieldMap::new();
    found.insert("A".to_string(), "1".to_string());
    found.insert("C".to_string(), "3".to_string());
    let fields = list(&["A", "B", "C"]);
    assert_eq!(encode_row(&fields, &found, " | "), "\"1\" | \"\" | \"3\"\n");
    assert_eq!(encode_header(&fields, ";"), "\"A\";\"B\";\"C\"\n");
}

#[test]
fn nothing_inside_a_cell_is_escaped() {
    let mut found = FieldMap::new();
    found.insert("A".to_string(), "say \"hi\", twice".to_string());
    assert_eq!(encode_row(&list(&["A"]), &found, ","), "\"say \"hi\", twice\"\n");
}

#[test]
fn an_empty_value_and_an_absent_one_render_alike() {
    let mut found = FieldMap::new();
    found.insert("A".to_string(), String::new());
    assert_eq!(encode_row(&list(&["A", "B"]), &found, ","), "\"\",\"\"\n");
}

#[test]
fn columns_follow_the_order_of_the_fields() {
    let mut found = FieldMap::new();
    found.insert("A".to_string(), "1".to_string());
    found.insert("B".to_string(), "2".to_string());
    assert_eq!(encode_row(&list(&["B", "A"]), &found, ","), "\"2\",\"1\"\n");
    assert_eq!(encode_row(&list(&["A", "A"]), &found, ","), "\"1\",\"1\"\n");
}

#[test]
fn values_of_other_names_do_not_show() {
    let mut found = FieldMap::new();
    found.insert("Z".to_string(), "9".to_string());
    assert_eq!(encode_row(&list(&["A"]), &found, ","), "\"\"\n");
}

#[test]
fn no_field_gives_a_bare_line_feed() {
    let found = FieldMap::new();
    assert_eq!(encode_row(&Vec::new(), &found, ","), "\n");
    assert_eq!(encode_header(&Vec::new(), ","), "\n");
}

#[test]
fn the_table_has_a_header_and_a_row_for_each_body() {
    let fields = list(&["Name", "Date"]);
    let bodies = list(&["Name: Alice\nDate: 1\n", "nothing here", "Date: 3\nName: Carol"]);
    let lines = render(&bodies, &fields, ",");
    assert_eq!(
        lines,
        list(&["\"Name\",\"Date\"\n", "\"Alice\",\"1\"\n", "\"\",\"\"\n", "\"Carol\",\"3\"\n"])
    );
}

#[test]
fn the_table_of_no_body_is_the_header_alone() {
    let lines = render(&Vec::new(), &list(&["A"]), ",");
    assert_eq!(lines, list(&["\"A\"\n"]));
}

fn settings(delimiter: Option<&str>) -> Settings {
    Settings::new(
        "imap.example.org".to_string(),
        "alice@example.org".to_string(),
        "Order".to_string(),
        list(&["Name", "Date"]),
        delimiter.map(|d| d.to_string()),
        "out.csv".to_string(),
    )
    .unwrap()
}

#[test]
fn a_report_of_bodies_is_their_table() {
    let bodies = list(&["Name: Alice\nDate: 1\n"]);
    let lines = report(Ok(bodies), &settings(Some(";"))).unwrap();
    assert_eq!(lines, list(&["\"Name\";\"Date\"\n", "\"Alice\";\"1\"\n"]));
}

#[test]
fn a_report_uses_the_comma_by_default() {
    let bodies = list(&["Name: Alice\nDate: 1\n"]);
    let lines = report(Ok(bodies), &settings(None)).unwrap();
    assert_eq!(lines, list(&["\"Name\",\"Date\"\n", "\"Alice\",\"1\"\n"]));
}

#[test]
fn a_report_of_a_failure_has_no_line() {
    let kinds = [
        ErrorKind::ConnectionFailed,
        ErrorKind::AuthenticationFailed,
        ErrorKind::MailboxUnavailable,
        ErrorKind::SearchFailed,
    ];
    for kind in kinds {
        assert_eq!(report(Err(kind), &settings(None)), Err(kind));
    }
}
