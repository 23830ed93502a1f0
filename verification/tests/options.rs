use semgrep_adapter::document::{Document, Member, Number};
use semgrep_adapter::options::{
    baseline, initialization_options, AUTO, CONFIGURATION, ONLY_GIT_DIRTY, SCAN,
};

fn pair(key: &str, value: Document) -> Member {
    Member { key: key.to_string(), value }
}

fn expected_baseline() -> Document {
    Document::Object(vec![pair(
        "scan",
        Document::Object(vec![
            pair("configuration", Document::Array(vec![Document::String("auto".to_string())])),
            pair("only_git_dirty", Document::Bool(false)),
        ]),
    )])
}

#[test]
fn option_keys_are_the_documented_ones() {
    assert_eq!(SCAN, "scan");
    assert_eq!(CONFIGURATION, "configuration");
    assert_eq!(ONLY_GIT_DIRTY, "only_git_dirty");
    assert_eq!(AUTO, "auto");
}

#[test]
fn baseline_has_the_fixed_shape() {
    assert_eq!(baseline(), expected_baseline());
    assert!(baseline().is_well_formed());
}

#[test]
fn initialization_options_without_overrides_are_the_baseline() {
    assert_eq!(initialization_options(None), expected_baseline());
    assert_eq!(initialization_options(Some(Document::Object(vec![]))), expected_baseline());
}

#[test]
fn initialization_options_merge_overrides_into_the_baseline() {
    let overrides = Document::Object(vec![
        pair("scan", Document::Object(vec![pair("only_git_dirty", Document::Bool(true))])),
        pair("extra", Document::Number(Number::Unsigned(1))),
    ]);
    let expected = Document::Object(vec![
        pair(
            "scan",
            Document::Object(vec![
                pair("configuration", Document::Array(vec![Document::String("auto".to_string())])),
                pair("only_git_dirty", Document::Bool(true)),
            ]),
        ),
        pair("extra", Document::Number(Number::Unsigned(1))),
    ]);
    assert_eq!(initialization_options(Some(overrides)), expected);
}

#[test]
fn initialization_options_keep_scan_an_object() {
    let overrides = Document::Object(vec![pair("trace", Document::Bool(true))]);
    let options = initialization_options(Some(overrides));
    let scan = options.get(&"scan".to_string()).cloned();
    assert!(matches!(scan, Some(Document::Object(_))));
    let overrides = Document::Object(vec![pair(
        "scan",
        Document::Object(vec![pair("configuration", Document::Array(vec![]))]),
    )]);
    let options = initialization_options(Some(overrides));
    assert_eq!(
        options.get(&"scan".to_string()),
        Some(&Document::Object(vec![
            pair("configuration", Document::Array(vec![])),
            pair("only_git_dirty", Document::Bool(false)),
        ]))
    );
}

#[test]
fn initialization_options_let_a_scalar_scan_override_win() {
    let overrides = Document::Object(vec![pair("scan", Document::Bool(false))]);
    let options = initialization_options(Some(overrides));
    assert_eq!(options, Document::Object(vec![pair("scan", Document::Bool(false))]));
}

#[test]
fn initialization_options_replaced_by_non_object_overrides() {
    assert_eq!(initialization_options(Some(Document::Null)), Document::Null);
}
