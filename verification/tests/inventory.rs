use hydroxyl::domain::minecraft::inventory::{
    armor_index_for_slot_id, equipment_slot_title, main_index_for_slot_id, main_slot_id_for_index,
    InventoryModel, InventoryRegion, HOTBAR_VISUAL_START,
};
use hydroxyl::domain::minecraft::item::ItemStack;

#[test]
fn main_slot_mapping_matches_visual_layout() {
    assert_eq!(main_slot_id_for_index(0), 9);
    assert_eq!(main_slot_id_for_index(26), 35);
    assert_eq!(main_slot_id_for_index(HOTBAR_VISUAL_START), 0);
    assert_eq!(main_slot_id_for_index(35), 8);

    assert_eq!(main_index_for_slot_id(9), Some(0));
    assert_eq!(main_index_for_slot_id(35), Some(26));
    assert_eq!(main_index_for_slot_id(0), Some(HOTBAR_VISUAL_START));
    assert_eq!(main_index_for_slot_id(8), Some(35));
    assert_eq!(armor_index_for_slot_id(103), Some(0));
}

#[test]
fn selection_walks_between_main_armor_and_offhand() {
    let mut inventory = InventoryModel::default();
    inventory.selection.index = 8;
    inventory.move_horizontal(1);
    assert_eq!(inventory.selection.region, InventoryRegion::Armor);
    assert_eq!(inventory.selection.index, 0);

    inventory.move_vertical(3);
    assert_eq!(inventory.selection.region, InventoryRegion::Armor);
    assert_eq!(inventory.selection.index, 3);

    inventory.move_vertical(1);
    assert_eq!(inventory.selection.region, InventoryRegion::Offhand);

    inventory.move_horizontal(-1);
    assert_eq!(inventory.selection.region, InventoryRegion::Main);
    assert_eq!(inventory.selection.index, 35);
}

#[test]
fn slot_mapping_round_trips_for_every_cell() {
    for index in 0..36usize {
        let slot = main_slot_id_for_index(index);
        assert_eq!(main_index_for_slot_id(slot), Some(index));
    }
    assert_eq!(main_index_for_slot_id(36), None);
    assert_eq!(main_index_for_slot_id(-1), None);
    assert_eq!(armor_index_for_slot_id(100), Some(3));
    assert_eq!(armor_index_for_slot_id(99), None);
}

#[test]
fn opposite_steps_undo_each_other() {
    let mut inventory = InventoryModel::default();
    inventory.selection.index = 4;
    inventory.move_horizontal(1);
    inventory.move_horizontal(-1);
    assert_eq!(inventory.selection.index, 4);
    inventory.move_vertical(1);
    assert_eq!(inventory.selection.index, 13);
    inventory.move_vertical(-1);
    assert_eq!(inventory.selection.index, 4);
}

#[test]
fn placing_a_stack_fills_the_cell_of_its_slot() {
    let mut inventory = InventoryModel::default();
    let stack = ItemStack {
        slot: 0,
        item_id: "minecraft:stone".to_owned(),
        count: 12,
        damage: None,
        tag: None,
    };
    inventory.place(stack);
    assert_eq!(inventory.main[HOTBAR_VISUAL_START].count(), 12);
    assert_eq!(inventory.occupied_count(), 1);
    inventory.selection.index = HOTBAR_VISUAL_START;
    assert_eq!(inventory.selected_slot_id(), 0);
    assert!(inventory.selected_item().is_some());
}

#[test]
fn equipment_titles_name_the_armor_slots() {
    assert_eq!(equipment_slot_title(103), "Helmet");
}
