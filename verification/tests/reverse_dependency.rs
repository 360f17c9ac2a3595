use did_i_break_it::json::{JsonNumber, JsonValue};
use did_i_break_it::reverse_dependency::ReverseDependency;

fn text(s: &str) -> JsonValue {
    JsonValue::String(s.to_string())
}

fn unsigned(n: u64) -> JsonValue {
    JsonValue::Number(JsonNumber::Unsigned(n))
}

fn object(members: Vec<(&str, JsonValue)>) -> JsonValue {
    JsonValue::Object(members.into_iter().map(|(k, v)| (k.to_string(), v)).collect())
}

fn requirement(version_id: u64, req: &str) -> JsonValue {
    object(vec![
        ("crate_id", text("centerline")),
        ("default_features", JsonValue::Bool(true)),
        ("id", unsigned(version_id + 7)),
        ("req", text(req)),
        ("version_id", unsigned(version_id)),
    ])
}

fn version(id: u64, name: &str, num: &str) -> JsonValue {
    object(vec![("crate", text(name)), ("id", unsigned(id)), ("num", text(num)), ("yanked", JsonValue::Bool(false))])
}

fn answer(dependencies: Vec<JsonValue>, versions: Vec<JsonValue>) -> JsonValue {
    object(vec![
        ("dependencies", JsonValue::Array(dependencies)),
        ("meta", object(vec![("total", unsigned(2))])),
        ("versions", JsonValue::Array(versions)),
    ])
}

#[test]
fn reads_versions_in_order_with_their_requirements() {
    let json = answer(
        vec![requirement(10, "^0.4"), requirement(20, "=0.4.1")],
        vec![version(20, "usvg", "0.9.0"), version(10, "lyon_geom", "1.0.1")],
    );
    let found = ReverseDependency::from_json(&json).unwrap();
    assert_eq!(found.len(), 2);
    assert_eq!(found[0].get_crate_name(), "usvg-0.9.0");
    assert_eq!(found[0].get_version_required(), "=0.4.1");
    assert_eq!(found[1].get_crate_name(), "lyon_geom-1.0.1");
    assert_eq!(found[1].get_version_required(), "^0.4");
}

#[test]
fn a_later_requirement_for_the_same_version_wins() {
    let json = answer(vec![requirement(10, "^0.4"), requirement(10, "^0.5")], vec![version(10, "a", "1.0.0")]);
    let found = ReverseDependency::from_json(&json).unwrap();
    assert_eq!(found[0].get_version_required(), "^0.5");
}

#[test]
fn empty_answer_reads_as_nothing() {
    let found = ReverseDependency::from_json(&answer(vec![], vec![])).unwrap();
    assert!(found.is_empty());
}

#[test]
fn missing_or_mistyped_fields_are_errors() {
    // no dependencies array
    let json = object(vec![("versions", JsonValue::Array(vec![]))]);
    assert!(ReverseDependency::from_json(&json).is_err());
    // dependencies is no array
    let json = object(vec![("dependencies", text("x")), ("versions", JsonValue::Array(vec![]))]);
    assert!(ReverseDependency::from_json(&json).is_err());
    // version_id is negative
    let bad = object(vec![("version_id", JsonValue::Number(JsonNumber::Negative(-1))), ("req", text("*"))]);
    assert!(ReverseDependency::from_json(&answer(vec![bad], vec![])).is_err());
    // version_id is fractional
    let bad = object(vec![("version_id", JsonValue::Number(JsonNumber::Fractional)), ("req", text("*"))]);
    assert!(ReverseDependency::from_json(&answer(vec![bad], vec![])).is_err());
    // req missing
    let bad = object(vec![("version_id", unsigned(1))]);
    assert!(ReverseDependency::from_json(&answer(vec![bad], vec![])).is_err());
    // no versions array
    let json = object(vec![("dependencies", JsonValue::Array(vec![]))]);
    assert!(ReverseDependency::from_json(&json).is_err());
    // version without crate, num or id
    for bad in [
        object(vec![("id", unsigned(1)), ("num", text("1.0.0"))]),
        object(vec![("id", unsigned(1)), ("crate", text("a"))]),
        object(vec![("crate", text("a")), ("num", text("1.0.0"))]),
        object(vec![("crate", unsigned(3)), ("num", text("1.0.0")), ("id", unsigned(1))]),
        JsonValue::Null,
    ] {
        let json = answer(vec![requirement(1, "*")], vec![bad]);
        assert!(ReverseDependency::from_json(&json).is_err());
    }
    // the document is no object
    assert!(ReverseDependency::from_json(&JsonValue::Array(vec![])).is_err());
}

#[test]
fn a_version_without_requirement_is_singled_out() {
    let json = answer(vec![requirement(1, "*")], vec![version(2, "a", "1.0.0")]);
    assert!(ReverseDependency::try_from_json(&json).is_none());
    // a malformed version before it decides first
    let json = answer(vec![requirement(1, "*")], vec![JsonValue::Null, version(2, "a", "1.0.0")]);
    assert!(matches!(ReverseDependency::try_from_json(&json), Some(Err(()))));
    // a malformed requirement decides before any version
    let json = answer(vec![JsonValue::Null], vec![version(2, "a", "1.0.0")]);
    assert!(matches!(ReverseDependency::try_from_json(&json), Some(Err(()))));
}

#[test]
fn crate_name_and_download_url() {
    let dependency = ReverseDependency::new("tesseract".to_string(), "0.13.0".to_string(), "~0.10".to_string());
    assert_eq!(dependency.get_crate_name(), "tesseract-0.13.0");
    assert_eq!(
        dependency.get_cdn_download_url("https://static.crates.io"),
        "https://static.crates.io/crates/tesseract/tesseract-0.13.0.crate"
    );
    assert_eq!(dependency.get_version_required(), "~0.10");
}

#[test]
fn json_accessors() {
    let value = object(vec![("a", unsigned(3)), ("b", text("x")), ("a", text("later"))]);
    assert_eq!(value.get(&"a".to_string()).unwrap().as_u64(), Some(3));
    assert_eq!(value.get(&"b".to_string()).unwrap().as_str(), Some("x"));
    assert!(value.get(&"c".to_string()).is_none());
    assert!(text("x").get(&"a".to_string()).is_none());
    assert!(JsonValue::Array(vec![JsonValue::Null]).as_array().is_some());
    assert!(unsigned(1).as_array().is_none());
    assert_eq!(JsonValue::Number(JsonNumber::Negative(-4)).as_u64(), None);
}

const ANSWER: &str = r#"{
  "dependencies": [
    {"id": 1, "version_id": 300, "crate_id": "centerline", "req": "^0.1", "optional": false},
    {"id": 2, "version_id": 200, "crate_id": "centerline", "req": "^0.2", "optional": false},
    {"id": 3, "version_id": 300, "crate_id": "centerline", "req": "^0.3", "optional": false}
  ],
  "versions": [
    {"id": 200, "crate": "usvg", "num": "0.9.0", "yanked": false},
    {"id": 300, "crate": "lyon_geom", "num": "1.0.1", "yanked": false}
  ],
  "meta": {"total": 2}
}"#;

#[test]
fn reads_the_text_of_an_answer() {
    let found = ReverseDependency::from(ANSWER).unwrap();
    assert_eq!(found.len(), 2);
    assert_eq!(found[0].get_crate_name(), "usvg-0.9.0");
    assert_eq!(found[0].get_version_required(), "^0.2");
    assert_eq!(found[1].get_crate_name(), "lyon_geom-1.0.1");
    // the last dependencies entry for version 300 counts
    assert_eq!(found[1].get_version_required(), "^0.3");
    assert!(matches!(ReverseDependency::try_from_content(ANSWER), Some(Ok(v)) if v.len() == 2));
}

#[test]
fn text_that_is_no_answer_is_an_error() {
    assert!(ReverseDependency::from("not json").is_err());
    assert!(ReverseDependency::from("").is_err());
    assert!(ReverseDependency::from("[1, 2]").is_err());
    assert!(ReverseDependency::from(r#"{"dependencies": [], "versions": [{"id": -1, "crate": "a", "num": "1"}]}"#).is_err());
    assert!(ReverseDependency::from(r#"{"dependencies": [{"version_id": 1.5, "req": "*"}], "versions": []}"#).is_err());
    assert!(matches!(ReverseDependency::try_from_content("{"), Some(Err(()))));
}

#[test]
fn text_with_an_unknown_requirement_id_is_singled_out() {
    let text = r#"{"dependencies": [{"version_id": 1, "req": "*"}], "versions": [{"id": 2, "crate": "a", "num": "1.0.0"}]}"#;
    assert!(ReverseDependency::try_from_content(text).is_none());
}
