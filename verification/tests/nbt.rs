use hydroxyl::domain::nbt::edit::{
    flatten, get, insert_entry, parse_number_list, preview, set_at, set_scalar_from_string, NbtPreview,
};
use hydroxyl::domain::nbt::path::{NbtPath, NbtPathSegment};
use hydroxyl::domain::nbt::value::{as_i64, get_field, value_type_name, NbtValue};
use hydroxyl::util::error::HydroxylError;

fn sample() -> NbtValue {
    NbtValue::Compound(vec![
        ("Health".to_owned(), NbtValue::Float(20.0f32.to_bits())),
        ("XpLevel".to_owned(), NbtValue::Int(7)),
        ("Pos".to_owned(), NbtValue::List(vec![NbtValue::Double(1.5f64.to_bits()), NbtValue::Double(64.0f64.to_bits())])),
        ("Dimension".to_owned(), NbtValue::String("minecraft:overworld".to_owned())),
        ("Bytes".to_owned(), NbtValue::ByteArray(vec![1, 2, 3])),
    ])
}

#[test]
fn flatten_lists_rows_in_name_order_below_the_root() {
    let rows = flatten(&sample());
    let labels: Vec<&str> = rows.iter().map(|r| r.label.as_str()).collect();
    assert_eq!(labels, vec!["root", "Bytes", "Dimension", "Health", "Pos", "0", "1", "XpLevel"]);
    assert_eq!(rows[0].depth, 0);
    assert_eq!(rows[0].path.to_text(), "/");
    assert_eq!(rows[5].path.to_text(), "/Pos[0]");
    assert_eq!(rows[5].depth, 2);
    assert_eq!(rows[4].type_label, "List");
    assert!(!rows[4].editable);
    assert!(rows[7].editable);
}

#[test]
fn every_row_path_leads_to_its_value() {
    let root = sample();
    for row in flatten(&root) {
        let value = get(&root, &row.path).unwrap();
        assert_eq!(value_type_name(value), row.type_label);
        assert_eq!(preview(value), row.preview);
    }
}

#[test]
fn previews_show_integers_strings_and_counts() {
    assert_eq!(preview(&NbtValue::Int(-42)), NbtPreview::Text("-42".to_owned()));
    assert_eq!(preview(&NbtValue::ByteArray(vec![1, 2, 3])), NbtPreview::Text("3 bytes".to_owned()));
    assert_eq!(preview(&sample()), NbtPreview::Text("5 keys".to_owned()));
    assert_eq!(preview(&NbtValue::Float(7)), NbtPreview::Float(7));
}

#[test]
fn set_then_get_reads_the_new_value() {
    let mut root = sample();
    let path = NbtPath::root().child_key("Pos").child_index(1);
    assert!(set_at(&mut root, &path, NbtValue::Double(70.0f64.to_bits())));
    assert_eq!(get(&root, &path), Some(&NbtValue::Double(70.0f64.to_bits())));
    let missing = NbtPath::root().child_key("Nope");
    assert!(!set_at(&mut root, &missing, NbtValue::Int(1)));
    assert_eq!(get(&root, &missing), None);
}

#[test]
fn scalar_edits_parse_for_the_tag() {
    let mut root = sample();
    let xp = NbtPath(vec![NbtPathSegment::Key("XpLevel".to_owned())]);
    set_scalar_from_string(&mut root, &xp, "30", None, None).unwrap();
    assert_eq!(get(&root, &xp), Some(&NbtValue::Int(30)));

    let err = set_scalar_from_string(&mut root, &xp, "3x", None, None).unwrap_err();
    assert_eq!(err, HydroxylError::InvalidNumber("3x".to_owned()));
    assert_eq!(get(&root, &xp), Some(&NbtValue::Int(30)));

    let health = NbtPath::root().child_key("Health");
    set_scalar_from_string(&mut root, &health, "12.5", Some(12.5f32.to_bits()), None).unwrap();
    assert_eq!(get(&root, &health), Some(&NbtValue::Float(12.5f32.to_bits())));

    let bytes = NbtPath::root().child_key("Bytes");
    set_scalar_from_string(&mut root, &bytes, " 4, 5 ", None, None).unwrap();
    assert_eq!(get(&root, &bytes), Some(&NbtValue::ByteArray(vec![4, 5])));

    let pos = NbtPath::root().child_key("Pos");
    let err = set_scalar_from_string(&mut root, &pos, "1", None, None).unwrap_err();
    assert!(matches!(err, HydroxylError::InvalidData(_)));

    let missing = NbtPath::root().child_key("Missing");
    assert_eq!(
        set_scalar_from_string(&mut root, &missing, "1", None, None).unwrap_err(),
        HydroxylError::InvalidData("missing NBT path".to_owned())
    );
}

#[test]
fn entering_an_integer_preview_keeps_the_value() {
    let mut root = sample();
    let xp = NbtPath::root().child_key("XpLevel");
    let shown = match preview(get(&root, &xp).unwrap()) {
        NbtPreview::Text(t) => t,
        _ => panic!("expected text"),
    };
    set_scalar_from_string(&mut root, &xp, &shown, None, None).unwrap();
    assert_eq!(get(&root, &xp), Some(&NbtValue::Int(7)));
}

#[test]
fn number_lists_report_the_first_bad_piece() {
    assert_eq!(parse_number_list("", -128, 127).unwrap(), Vec::<i64>::new());
    assert_eq!(parse_number_list("1,-2", -128, 127).unwrap(), vec![1, -2]);
    assert_eq!(
        parse_number_list("1, 300", -128, 127).unwrap_err(),
        HydroxylError::InvalidNumber("300".to_owned())
    );
}

#[test]
fn insert_entry_replaces_or_appends() {
    let mut entries = vec![("a".to_owned(), NbtValue::Int(1))];
    insert_entry(&mut entries, "a", NbtValue::Int(2));
    insert_entry(&mut entries, "b", NbtValue::Int(3));
    assert_eq!(entries, vec![("a".to_owned(), NbtValue::Int(2)), ("b".to_owned(), NbtValue::Int(3))]);
}

#[test]
fn integers_read_from_any_numeric_tag() {
    assert_eq!(as_i64(&NbtValue::Byte(-3)), Some(-3));
    assert_eq!(as_i64(&NbtValue::Float(2.75f32.to_bits())), Some(2));
    assert_eq!(as_i64(&NbtValue::Double((-1e30f64).to_bits())), Some(i64::MIN));
    assert_eq!(as_i64(&NbtValue::String("1".to_owned())), None);
    assert_eq!(get_field(&sample(), "XpLevel"), Some(&NbtValue::Int(7)));
}

#[test]
fn inserting_an_existing_name_replaces_its_entry() {
    let mut root = sample();
    let bytes = NbtPath::root().child_key("Bytes");
    set_scalar_from_string(&mut root, &bytes, "7", None, None).unwrap();
    if let NbtValue::Compound(entries) = &root {
        let names: Vec<&str> = entries.iter().map(|(k, _)| k.as_str()).collect();
        let mut sorted = names.clone();
        sorted.sort();
        sorted.dedup();
        assert_eq!(sorted.len(), names.len());
    } else {
        panic!("expected a compound");
    }
}
