use snippets::tag::{valid_tag_name, SnipTag, TagTable};

fn names(list: &[&str]) -> Vec<String> {
    list.iter().map(|n| n.to_string()).collect()
}

fn table() -> TagTable {
    TagTable::new(&names(&["Rust", "Bio", "Shell", "Code", "Rust", "Git"])).unwrap()
}

#[test]
fn table_is_sorted_and_without_repeats() {
    let table = table();
    assert_eq!(table.len(), 5);
    let found: Vec<String> =
        table.all_tags().into_iter().map(|t| table.name_of(t).unwrap()).collect();
    assert_eq!(found, names(&["Bio", "Code", "Git", "Rust", "Shell"]));
}

#[test]
fn tag_codes_count_from_zero() {
    let codes: Vec<usize> = table().all_tags().iter().map(|t| t.code).collect();
    assert_eq!(codes, vec![0, 1, 2, 3, 4]);
}

#[test]
fn name_has_to_begin_with_an_uppercase_letter() {
    assert!(valid_tag_name("Rust"));
    assert!(valid_tag_name("R"));
    assert!(valid_tag_name("Évian"));
    assert!(!valid_tag_name("rust"));
    assert!(!valid_tag_name(""));
    assert!(!valid_tag_name("1Rust"));
    assert!(!valid_tag_name(" Rust"));
    assert!(!valid_tag_name("_Rust"));
}

#[test]
fn table_with_a_bad_name_is_refused() {
    assert!(TagTable::new(&names(&["Rust", "bio"])).is_none());
    assert!(TagTable::new(&names(&[""])).is_none());
    assert!(TagTable::new(&names(&[])).is_some());
}

#[test]
fn tag_is_found_by_its_name_in_lowercase() {
    let table = table();
    assert_eq!(table.string_to_tag("rust"), Some(SnipTag { code: 3 }));
    assert_eq!(table.string_to_tag("bio"), Some(SnipTag { code: 0 }));
    assert_eq!(table.string_to_tag("Rust"), None);
    assert_eq!(table.string_to_tag("python"), None);
    assert_eq!(table.string_to_tag(""), None);
}

#[test]
fn names_that_differ_in_case_give_the_first() {
    let table = TagTable::new(&names(&["Rust", "RUST", "RuSt"])).unwrap();
    assert_eq!(table.len(), 3);
    assert_eq!(table.name_of(SnipTag { code: 0 }), Some("RUST".to_string()));
    assert_eq!(table.string_to_tag("rust"), Some(SnipTag { code: 0 }));
}

#[test]
fn tag_outside_the_table_has_no_name() {
    let table = table();
    assert_eq!(table.name_of(SnipTag { code: 4 }), Some("Shell".to_string()));
    assert_eq!(table.name_of(SnipTag { code: 5 }), None);
}

#[test]
fn names_are_ordered_by_code_point() {
    let table = TagTable::new(&names(&["Zeta", "Ärger", "Alpha", "Zebra", "Al"])).unwrap();
    let found: Vec<String> =
        table.all_tags().into_iter().map(|t| table.name_of(t).unwrap()).collect();
    let mut expected = names(&["Zeta", "Ärger", "Alpha", "Zebra", "Al"]);
    expected.sort();
    assert_eq!(found, expected);
    assert_eq!(found, names(&["Al", "Alpha", "Zebra", "Zeta", "Ärger"]));
}
