use epar::fields::{extract, FieldMap};

fn names(list: &[&str]) -> Vec<String> {
    list.iter().map(|s| s.to_string()).collect()
}

fn value(found: &FieldMap, key: &str) -> Option<String> {
    found.get(&key.to_string()).cloned()
}

#[test]
fn a_field_line_gives_its_value() {
    let found = extract("Name: Alice\n", &names(&["Name"]));
    assert_eq!(value(&found, "Name"), Some("Alice".to_string()));
}

#[test]
fn the_value_is_trimmed_on_both_sides() {
    let found = extract("Name:   Alice \t \r\nother", &names(&["Name"]));
    assert_eq!(value(&found, "Name"), Some("Alice".to_string()));
}

#[test]
fn trimming_agrees_with_the_standard_library() {
    let samples = [
        "plain",
        "  two  words  ",
        "\u{a0}no-break\u{a0}",
        "\u{2003}em space\u{3000}",
        "\u{85}next line\u{2028}\u{2029}",
        "\u{1680}ogham\u{202f}\u{205f}",
        "\u{200b}zero width stays\u{200b}",
        "\u{0b}\u{0c}vertical\u{0b}",
        "",
        "   ",
    ];
    for sample in samples {
        let body = format!("K: {}", sample);
        let found = extract(&body, &names(&["K"]));
        assert_eq!(value(&found, "K"), Some(sample.trim().to_string()));
    }
}

#[test]
fn a_field_without_a_line_has_no_entry() {
    let found = extract("Name: Alice\nbody text\n", &names(&["Name", "Date"]));
    assert_eq!(value(&found, "Date"), None);
    assert!(!found.contains_key(&"Date".to_string()));
    assert!(found.contains_key(&"Name".to_string()));
}

#[test]
fn an_empty_value_is_not_an_absent_one() {
    let found = extract("Name: \nDate:\n", &names(&["Name", "Date"]));
    assert_eq!(value(&found, "Name"), Some(String::new()));
    assert_eq!(value(&found, "Date"), None);
}

#[test]
fn the_later_line_wins() {
    let found = extract("Date: 2024-01-01\nDate: 2024-01-02\n", &names(&["Date"]));
    assert_eq!(value(&found, "Date"), Some("2024-01-02".to_string()));
}

#[test]
fn a_later_empty_line_of_the_field_wins_too() {
    let found = extract("Date: 2024-01-01\nDate: \n", &names(&["Date"]));
    assert_eq!(value(&found, "Date"), Some(String::new()));
}

#[test]
fn the_prefix_is_exact() {
    let fields = names(&["Name"]);
    assert_eq!(value(&extract("name: Alice", &fields), "Name"), None);
    assert_eq!(value(&extract("Name:Alice", &fields), "Name"), None);
    assert_eq!(value(&extract(" Name: Alice", &fields), "Name"), None);
    assert_eq!(value(&extract("Name : Alice", &fields), "Name"), None);
    assert_eq!(value(&extract("Name:\tAlice", &fields), "Name"), None);
    assert_eq!(value(&extract("Surname: Alice", &fields), "Name"), None);
    assert_eq!(value(&extract("Name: Alice", &fields), "Name"), Some("Alice".to_string()));
}

#[test]
fn only_the_first_physical_line_of_a_folded_value_is_taken() {
    let found = extract("Subject: first part\n second part\n", &names(&["Subject"]));
    assert_eq!(value(&found, "Subject"), Some("first part".to_string()));
}

#[test]
fn names_outside_the_configured_fields_are_ignored() {
    let found = extract("Name: Alice\nFrom: bob\n", &names(&["Name"]));
    assert_eq!(value(&found, "From"), None);
}

#[test]
fn a_name_listed_twice_is_kept_once() {
    let found = extract("A: 1\nA: 2\n", &names(&["A", "A"]));
    assert_eq!(value(&found, "A"), Some("2".to_string()));
}

#[test]
fn one_line_can_belong_to_two_fields() {
    let found = extract("A: B: c\n", &names(&["A", "A: B"]));
    assert_eq!(value(&found, "A"), Some("B: c".to_string()));
    assert_eq!(value(&found, "A: B"), Some("c".to_string()));
}

#[test]
fn text_beyond_ascii_is_kept() {
    let found = extract("Ort: Zürich – 東京\n", &names(&["Ort"]));
    assert_eq!(value(&found, "Ort"), Some("Zürich – 東京".to_string()));
    let found = extract("Größe: 12\n", &names(&["Größe"]));
    assert_eq!(value(&found, "Größe"), Some("12".to_string()));
}

#[test]
fn an_empty_body_gives_an_empty_map() {
    let found = extract("", &names(&["Name"]));
    assert_eq!(value(&found, "Name"), None);
}

#[test]
fn the_last_line_needs_no_line_feed() {
    let found = extract("x\nName: Alice", &names(&["Name"]));
    assert_eq!(value(&found, "Name"), Some("Alice".to_string()));
}

#[test]
fn a_map_keeps_the_last_value_inserted() {
    let mut found = FieldMap::new();
    found.insert("A".to_string(), "1".to_string());
    found.insert("B".to_string(), "2".to_string());
    found.insert("A".to_string(), "3".to_string());
    assert_eq!(value(&found, "A"), Some("3".to_string()));
    assert_eq!(value(&found, "B"), Some("2".to_string()));
    found.clear();
    assert_eq!(value(&found, "A"), None);
    assert!(!found.contains_key(&"B".to_string()));
}
