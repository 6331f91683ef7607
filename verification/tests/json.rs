use hydroxyl::domain::json::edit::{flatten_json, get_json, json_preview, set_json_scalar_from_string, JsonPreview};
use hydroxyl::domain::json::path::{JsonPath, JsonPathSegment};
use hydroxyl::domain::json::value::{JsonNumber, JsonValue};

fn sample() -> JsonValue {
    JsonValue::Object(vec![
        ("stats".to_owned(), JsonValue::Object(vec![
            ("minecraft:jump".to_owned(), JsonValue::Number(JsonNumber::PosInt(12))),
            ("flag".to_owned(), JsonValue::Bool(false)),
        ])),
        ("DataVersion".to_owned(), JsonValue::Number(JsonNumber::PosInt(3465))),
        ("list".to_owned(), JsonValue::Array(vec![JsonValue::Null, JsonValue::String("x".to_owned())])),
        ("ratio".to_owned(), JsonValue::Number(JsonNumber::Float(0.5f64.to_bits()))),
    ])
}

#[test]
fn flattening_orders_members_by_name() {
    let rows = flatten_json(&sample());
    let labels: Vec<&str> = rows.iter().map(|r| r.label.as_str()).collect();
    assert_eq!(labels, vec!["root", "DataVersion", "list", "0", "1", "ratio", "stats", "flag", "minecraft:jump"]);
    assert_eq!(rows[3].path.to_text(), "/list[0]");
    assert_eq!(rows[0].preview, JsonPreview::Text("4 keys".to_owned()));
    assert_eq!(rows[2].preview, JsonPreview::Text("2 items".to_owned()));
    assert_eq!(rows[3].preview, JsonPreview::Text("null".to_owned()));
    assert!(!rows[2].editable);
    assert!(rows[3].editable);
}

#[test]
fn editing_follows_the_kind_of_the_value() {
    let mut root = sample();
    let jump = JsonPath::default().child_key("stats").child_key("minecraft:jump");
    assert!(set_json_scalar_from_string(&mut root, &jump, "-5", None));
    assert_eq!(get_json(&root, &jump), Some(&JsonValue::Number(JsonNumber::NegInt(-5))));
    assert!(set_json_scalar_from_string(&mut root, &jump, "lots", None));
    assert_eq!(get_json(&root, &jump), Some(&JsonValue::String("lots".to_owned())));

    let flag = JsonPath::default().child_key("stats").child_key("flag");
    assert!(set_json_scalar_from_string(&mut root, &flag, " yes ", None));
    assert_eq!(get_json(&root, &flag), Some(&JsonValue::Bool(true)));
    assert!(set_json_scalar_from_string(&mut root, &flag, "on", None));
    assert_eq!(get_json(&root, &flag), Some(&JsonValue::Bool(false)));

    let ratio = JsonPath::default().child_key("ratio");
    assert!(set_json_scalar_from_string(&mut root, &ratio, "0.25", Some(0.25f64.to_bits())));
    assert_eq!(get_json(&root, &ratio), Some(&JsonValue::Number(JsonNumber::Float(0.25f64.to_bits()))));
    assert!(set_json_scalar_from_string(&mut root, &ratio, "inf", Some(f64::INFINITY.to_bits())));
    assert_eq!(get_json(&root, &ratio), Some(&JsonValue::String("inf".to_owned())));

    let null = JsonPath(vec![JsonPathSegment::Key("list".to_owned()), JsonPathSegment::Index(0)]);
    assert!(set_json_scalar_from_string(&mut root, &null, "hi", None));
    assert_eq!(get_json(&root, &null), Some(&JsonValue::String("hi".to_owned())));

    let list = JsonPath::default().child_key("list");
    assert!(!set_json_scalar_from_string(&mut root, &list, "1", None));
    let missing = JsonPath::default().child_key("nope");
    assert!(!set_json_scalar_from_string(&mut root, &missing, "1", None));
}

#[test]
fn entering_a_number_preview_keeps_the_value() {
    let mut root = sample();
    let version = JsonPath::default().child_key("DataVersion");
    let shown = match json_preview(get_json(&root, &version).unwrap()) {
        JsonPreview::Text(t) => t,
        _ => panic!("expected text"),
    };
    assert!(set_json_scalar_from_string(&mut root, &version, &shown, None));
    assert_eq!(get_json(&root, &version), Some(&JsonValue::Number(JsonNumber::PosInt(3465))));
}

#[test]
fn path_labels_and_text() {
    assert_eq!(JsonPathSegment::Key("a".to_owned()).label(), "a");
    assert_eq!(JsonPathSegment::Index(12).label(), "12");
    assert_eq!(JsonPath::default().to_text(), "/");
    assert_eq!(JsonPath::default().child_key("a").child_index(3).to_text(), "/a[3]");
}

#[test]
fn every_json_row_path_leads_to_its_value() {
    let root = sample();
    for row in flatten_json(&root) {
        let value = get_json(&root, &row.path).unwrap();
        assert_eq!(json_preview(value), row.preview);
    }
}
