use hydroxyl::domain::files::source::DocumentSource;
use hydroxyl::domain::minecraft::player::{PlayerData, PlayerSection};
use hydroxyl::domain::nbt::edit::get;
use hydroxyl::domain::nbt::path::NbtPath;
use hydroxyl::domain::nbt::value::{NbtValue, Numeric};
use hydroxyl::persistence::nbt_codec::{CompressionKind, NbtFile};
use hydroxyl::services::player::{find_inventory_slot, parse_bool, PlayerService};
use hydroxyl::session::action::PlayerField;
use hydroxyl::session::document::PlayerDocument;
use hydroxyl::session::tab::DocumentId;
use hydroxyl::util::error::HydroxylError;
use hydroxyl::util::fs::FilePath;

fn player_root() -> NbtValue {
    NbtValue::Compound(vec![
        ("Health".to_owned(), NbtValue::Float(20.0f32.to_bits())),
        ("foodLevel".to_owned(), NbtValue::Int(20)),
        ("Air".to_owned(), NbtValue::Short(300)),
        ("XpLevel".to_owned(), NbtValue::Int(3)),
        ("Pos".to_owned(), NbtValue::List(vec![
            NbtValue::Double(0.5f64.to_bits()),
            NbtValue::Double(64.0f64.to_bits()),
            NbtValue::Double((-3.5f64).to_bits()),
        ])),
        ("abilities".to_owned(), NbtValue::Compound(vec![
            ("flying".to_owned(), NbtValue::Byte(0)),
            ("mayBuild".to_owned(), NbtValue::Byte(1)),
        ])),
        ("Inventory".to_owned(), NbtValue::List(vec![NbtValue::Compound(vec![
            ("Slot".to_owned(), NbtValue::Byte(0)),
            ("id".to_owned(), NbtValue::String("minecraft:stone".to_owned())),
            ("Count".to_owned(), NbtValue::Byte(5)),
        ])])),
    ])
}

fn open() -> PlayerDocument {
    PlayerService.open(
        DocumentId(1),
        &FilePath::from_text("w/playerdata/069a79f4-44e9-4726-a5be-fca90e38aaf5.dat"),
        DocumentSource::Direct,
        None,
        NbtFile { root: player_root(), compression: CompressionKind::Gzip },
    )
}

#[test]
fn opening_reads_the_player() {
    let doc = open();
    assert_eq!(doc.meta.title, "069a79f4-44e9-4726-a5be-fca90e38aaf5.dat");
    assert_eq!(doc.data.identity.uuid, Some(0x069a79f444e94726a5befca90e38aaf5));
    assert_eq!(doc.data.attributes.food_level, 20);
    assert_eq!(doc.data.attributes.air, 300);
    assert_eq!(doc.data.attributes.health, Numeric::Float(20.0f32.to_bits()));
    assert!(!doc.data.abilities.flying);
    assert!(doc.data.abilities.may_build);
    assert_eq!(doc.data.inventory.occupied_count(), 1);
    assert_eq!(doc.data.active_section(), PlayerSection::Overview);
    assert!(!doc.meta.dirty.is_dirty());
}

#[test]
fn editing_numbers_updates_tree_and_view() {
    let mut doc = open();
    PlayerService.edit_field(&mut doc, PlayerField::FoodLevel, "7", None, None).unwrap();
    assert_eq!(doc.data.attributes.food_level, 7);
    assert!(doc.meta.dirty.is_dirty());
    PlayerService.edit_field(&mut doc, PlayerField::PosY, "70", None, Some(70.0f64.to_bits())).unwrap();
    let y = NbtPath::root().child_key("Pos").child_index(1);
    assert_eq!(get(&doc.root, &y), Some(&NbtValue::Double(70.0f64.to_bits())));
    PlayerService.edit_field(&mut doc, PlayerField::Air, "-2", None, None).unwrap();
    assert_eq!(doc.data.attributes.air, -2);
}

#[test]
fn bad_numbers_and_missing_keys_change_nothing() {
    let mut doc = open();
    let err = PlayerService.edit_field(&mut doc, PlayerField::Air, "40000", None, None).unwrap_err();
    assert_eq!(err, HydroxylError::InvalidNumber("40000".to_owned()));
    let err = PlayerService.edit_field(&mut doc, PlayerField::Health, "x", None, None).unwrap_err();
    assert_eq!(err, HydroxylError::InvalidNumber("x".to_owned()));
    let err = PlayerService.edit_field(&mut doc, PlayerField::XpTotal, "5", None, None).unwrap_err();
    assert_eq!(err, HydroxylError::InvalidData("missing key XpTotal".to_owned()));
    let err = PlayerService
        .edit_field(&mut doc, PlayerField::Yaw, "5", Some(5.0f32.to_bits()), None)
        .unwrap_err();
    assert_eq!(err, HydroxylError::InvalidData("missing list key Rotation".to_owned()));
    assert!(!doc.meta.dirty.is_dirty());
    assert_eq!(doc.data.attributes.air, 300);
}

#[test]
fn abilities_are_written_into_their_compound() {
    let mut doc = open();
    PlayerService.edit_field(&mut doc, PlayerField::Flying, " Yes ", None, None).unwrap();
    assert!(doc.data.abilities.flying);
    PlayerService
        .edit_field(&mut doc, PlayerField::WalkSpeed, "0.2", Some(0.2f32.to_bits()), None)
        .unwrap();
    assert_eq!(doc.data.abilities.walk_speed, Numeric::Float(0.2f32.to_bits()));
    let mut bare = PlayerService.open(
        DocumentId(2),
        &FilePath::from_text("p.dat"),
        DocumentSource::Direct,
        None,
        NbtFile { root: NbtValue::Compound(vec![]), compression: CompressionKind::Raw },
    );
    let err = PlayerService.edit_field(&mut bare, PlayerField::MayFly, "1", None, None).unwrap_err();
    assert_eq!(err, HydroxylError::InvalidData("missing compound abilities".to_owned()));
}

#[test]
fn inventory_edits_go_to_the_selected_slot() {
    let mut doc = open();
    doc.data.inventory.selection.index = 27;
    PlayerService.edit_field(&mut doc, PlayerField::InventoryCount, "9", None, None).unwrap();
    assert_eq!(doc.data.inventory.main[27].count(), 9);
    PlayerService.edit_field(&mut doc, PlayerField::InventoryId, "minecraft:dirt", None, None).unwrap();
    assert_eq!(doc.data.inventory.main[27].item.as_ref().unwrap().item_id, "minecraft:dirt");
    assert_eq!(doc.data.inventory.selection.index, 27);
    assert_eq!(find_inventory_slot(&doc.root, 0), Some(0));
    assert_eq!(find_inventory_slot(&doc.root, 1), None);
    doc.data.inventory.selection.index = 0;
    PlayerService.edit_field(&mut doc, PlayerField::InventoryCount, "bad", None, None).unwrap();
}

#[test]
fn flags_read_common_words() {
    assert!(parse_bool("1"));
    assert!(parse_bool(" TRUE "));
    assert!(parse_bool("on"));
    assert!(!parse_bool("0"));
    assert!(!parse_bool("nope"));
}

#[test]
fn refresh_keeps_selections_in_range() {
    let mut doc = open();
    doc.data.selected_section = 9;
    doc.data.raw_selected = 1000;
    doc.data.field_selected = 4;
    PlayerService.refresh(&mut doc);
    assert_eq!(doc.data.selected_section, 5);
    assert_eq!(doc.data.raw_selected, doc.data.raw_entries.len() - 1);
    assert_eq!(doc.data.field_selected, 4);
    let data = PlayerData::from_root(&FilePath::from_text("x.dat"), &player_root());
    assert_eq!(data.raw_entries.len(), doc.data.raw_entries.len());
}
