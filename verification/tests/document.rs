use semgrep_adapter::document::{find_member, Document, Member, Number};

fn entry(key: &str, value: Document) -> Member {
    Member { key: key.to_string(), value }
}

#[test]
fn is_object_tells_objects_from_other_nodes() {
    assert!(Document::Object(vec![]).is_object());
    assert!(!Document::Null.is_object());
    assert!(!Document::Bool(true).is_object());
    assert!(!Document::Number(Number::Real(0x3ff8_0000_0000_0000)).is_object());
    assert!(!Document::String("scan".to_string()).is_object());
    assert!(!Document::Array(vec![Document::Object(vec![])]).is_object());
}

#[test]
fn get_finds_the_value_under_a_key() {
    let doc = Document::Object(vec![
        entry("a", Document::Bool(true)),
        entry("b", Document::Number(Number::Unsigned(2))),
    ]);
    assert_eq!(doc.get(&"a".to_string()), Some(&Document::Bool(true)));
    assert_eq!(doc.get(&"b".to_string()), Some(&Document::Number(Number::Unsigned(2))));
    assert_eq!(doc.get(&"c".to_string()), None);
    assert_eq!(doc.get(&"".to_string()), None);
}

#[test]
fn get_on_other_nodes_finds_nothing() {
    assert_eq!(Document::Null.get(&"a".to_string()), None);
    assert_eq!(Document::Array(vec![Document::Null]).get(&"0".to_string()), None);
    assert_eq!(Document::String("a".to_string()).get(&"a".to_string()), None);
}

#[test]
fn get_takes_the_first_of_repeated_keys() {
    let doc = Document::Object(vec![
        entry("k", Document::Number(Number::Unsigned(1))),
        entry("k", Document::Number(Number::Unsigned(2))),
    ]);
    assert_eq!(doc.get(&"k".to_string()), Some(&Document::Number(Number::Unsigned(1))));
}

#[test]
fn find_member_gives_the_first_index() {
    let members = vec![
        entry("x", Document::Null),
        entry("y", Document::Null),
        entry("x", Document::Bool(false)),
    ];
    assert_eq!(find_member(&members, &"x".to_string()), Some(0));
    assert_eq!(find_member(&members, &"y".to_string()), Some(1));
    assert_eq!(find_member(&members, &"z".to_string()), None);
    assert_eq!(find_member(&Vec::new(), &"x".to_string()), None);
}

#[test]
fn is_well_formed_accepts_distinct_keys() {
    assert!(Document::Null.is_well_formed());
    assert!(Document::Object(vec![]).is_well_formed());
    assert!(Document::Array(vec![]).is_well_formed());
    let doc = Document::Object(vec![
        entry("a", Document::Object(vec![entry("a", Document::Null)])),
        entry("b", Document::Array(vec![Document::Object(vec![entry("a", Document::Null)])])),
    ]);
    assert!(doc.is_well_formed());
}

#[test]
fn is_well_formed_rejects_repeated_keys_at_any_depth() {
    let twice = Document::Object(vec![entry("a", Document::Null), entry("a", Document::Null)]);
    assert!(!twice.is_well_formed());
    assert!(!Document::Array(vec![Document::Null, twice.clone()]).is_well_formed());
    assert!(!Document::Object(vec![entry("outer", twice.clone())]).is_well_formed());
    let apart = Document::Object(vec![
        entry("a", Document::Null),
        entry("b", Document::Null),
        entry("a", Document::Null),
    ]);
    assert!(!apart.is_well_formed());
}
