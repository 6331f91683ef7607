//! Reading a player's `.dat` tree into the parts the editor shows.
use vstd::prelude::*;
use crate::domain::files::naming::{parse_uuid_from_path, uuid_of_stem, stem_text};
use crate::domain::minecraft::abilities::{PlayerAbilities, F32_WALK_SPEED, F32_FLY_SPEED};
use crate::domain::minecraft::attributes::PlayerAttributes;
use crate::domain::minecraft::inventory::{
    InventoryModel, InventoryView, place_model, empty_inventory, inventory_wf, main_index,
    armor_index,
};
use crate::domain::minecraft::item::{ItemStack, ItemModel};
use crate::domain::minecraft::position::{PlayerPosition, PositionModel, default_position};
use crate::domain::minecraft::profile::PlayerIdentity;
use crate::domain::nbt::edit::{NbtEntry, EntryModel, flatten, flat, entries_model, height_fits, copy_tree};
use crate::domain::nbt::value::{
    NbtValue, NbtTree, Numeric, field, as_int, as_numeric_spec, as_i64, as_numeric, as_str,
    get_field, items_view, lemma_list_view, lemma_compound_view, entries_view,
};
use crate::text::{int_dec, i64_to_text, parse_int, lemma_parse_int_dec};
use crate::util::fs::{FilePath, PathModel, file_name, file_name_of};

verus! {

/// The sections of the player view, in order.
#[derive(Debug, Clone, Copy, PartialEq, Eq, Structural)]
pub enum PlayerSection {
    Overview,
    Inventory,
    Attributes,
    Position,
    Abilities,
    RawNbt,
}

/// The number of sections.
pub const PLAYER_SECTION_COUNT: usize = 6;

pub open spec fn section_at(i: int) -> PlayerSection {
    if i == 0 {
        PlayerSection::Overview
    } else if i == 1 {
        PlayerSection::Inventory
    } else if i == 2 {
        PlayerSection::Attributes
    } else if i == 3 {
        PlayerSection::Position
    } else if i == 4 {
        PlayerSection::Abilities
    } else {
        PlayerSection::RawNbt
    }
}

impl PlayerSection {
    /// The section at position `i` of the list of all sections
    /// (`PlayerSection::ALL[i]`).
    pub fn from_index(i: usize) -> (r: PlayerSection)
        requires
            i < PLAYER_SECTION_COUNT,
        ensures
            r == section_at(i as int),
    {
        if i == 0 {
            PlayerSection::Overview
        } else if i == 1 {
            PlayerSection::Inventory
        } else if i == 2 {
            PlayerSection::Attributes
        } else if i == 3 {
            PlayerSection::Position
        } else if i == 4 {
            PlayerSection::Abilities
        } else {
            PlayerSection::RawNbt
        }
    }

    pub fn title(self) -> (r: &'static str)
        ensures
            r@ == (match self {
                PlayerSection::Overview => "Overview"@,
                PlayerSection::Inventory => "Inventory"@,
                PlayerSection::Attributes => "Attributes"@,
                PlayerSection::Position => "Position"@,
                PlayerSection::Abilities => "Abilities"@,
                PlayerSection::RawNbt => "Raw NBT"@,
            }),
    {
        match self {
            PlayerSection::Overview => "Overview",
            PlayerSection::Inventory => "Inventory",
            PlayerSection::Attributes => "Attributes",
            PlayerSection::Position => "Position",
            PlayerSection::Abilities => "Abilities",
            PlayerSection::RawNbt => "Raw NBT",
        }
    }
}

/// Everything the player view shows of one player file.
#[derive(Debug, PartialEq)]
pub struct PlayerData {
    pub title: String,
    pub identity: PlayerIdentity,
    pub inventory: InventoryModel,
    pub attributes: PlayerAttributes,
    pub position: PlayerPosition,
    pub abilities: PlayerAbilities,
    pub selected_section: usize,
    pub field_selected: usize,
    pub raw_entries: Vec<NbtEntry>,
    pub raw_selected: usize,
}

// ---------------------------------------------------------------------------
// Reading fields
// ---------------------------------------------------------------------------

/// The integer (`as_i64`) at `key` of a compound, or `default`.
pub open spec fn int_or(t: NbtTree, key: Seq<char>, default: int) -> int {
    match field(t, key) {
        Some(v) => match as_int(v) {
            Some(i) => i,
            None => default,
        },
        None => default,
    }
}

/// The number (`as_f64`) at `key` of a compound, or `default`.
pub open spec fn numeric_or(t: NbtTree, key: Seq<char>, default: Numeric) -> Numeric {
    match field(t, key) {
        Some(v) => match as_numeric_spec(v) {
            Some(n) => n,
            None => default,
        },
        None => default,
    }
}

pub fn int_field_or(value: &NbtValue, key: &str, default: i64) -> (r: i64)
    ensures
        r as int == int_or(value@, key@, default as int),
{
    match get_field(value, key) {
        Some(v) => match as_i64(v) {
            Some(i) => i,
            None => default,
        },
        None => default,
    }
}

fn numeric_field_or(value: &NbtValue, key: &str, default: Numeric) -> (r: Numeric)
    ensures
        r == numeric_or(value@, key@, default),
{
    match get_field(value, key) {
        Some(v) => match as_numeric(v) {
            Some(n) => n,
            None => default,
        },
        None => default,
    }
}

/// `20.0f64`, `5.0f64`, `0.1f64`, `0.05f64`: the defaults that the reading
/// code gives as `f64` literals.
pub const F64_TWENTY: u64 = 0x4034_0000_0000_0000;
pub const F64_FIVE: u64 = 0x4014_0000_0000_0000;
pub const F64_WALK_SPEED: u64 = 0x3FB9_9999_9999_999A;
pub const F64_FLY_SPEED: u64 = 0x3FA9_9999_9999_999A;

/// The attributes a player tree holds, each with its default.
pub open spec fn attributes_of(root: NbtTree) -> PlayerAttributes {
    PlayerAttributes {
        health: numeric_or(root, "Health"@, Numeric::Double(F64_TWENTY)),
        food_level: int_or(root, "foodLevel"@, 20) as i32,
        food_saturation: numeric_or(root, "foodSaturationLevel"@, Numeric::Double(F64_FIVE)),
        xp_level: int_or(root, "XpLevel"@, 0) as i32,
        xp_progress: numeric_or(root, "XpP"@, Numeric::Double(0)),
        xp_total: int_or(root, "XpTotal"@, 0) as i32,
        air: int_or(root, "Air"@, 300) as i32,
    }
}

pub fn parse_attributes(root: &NbtValue) -> (r: PlayerAttributes)
    ensures
        r == attributes_of(root@),
{
    PlayerAttributes {
        health: numeric_field_or(root, "Health", Numeric::Double(F64_TWENTY)),
        food_level: int_field_or(root, "foodLevel", 20) as i32,
        food_saturation: numeric_field_or(root, "foodSaturationLevel", Numeric::Double(F64_FIVE)),
        xp_level: int_field_or(root, "XpLevel", 0) as i32,
        xp_progress: numeric_field_or(root, "XpP", Numeric::Double(0)),
        xp_total: int_field_or(root, "XpTotal", 0) as i32,
        air: int_field_or(root, "Air", 300) as i32,
    }
}

/// The abilities a player tree holds: read from its `abilities` compound
/// when there is one (a flag is set when its integer is not 0), else the
/// defaults.
pub open spec fn abilities_of(root: NbtTree) -> PlayerAbilities {
    match field(root, "abilities"@) {
        Some(a) => if a is Compound {
            PlayerAbilities {
                flying: int_or(a, "flying"@, 0) != 0,
                may_fly: int_or(a, "mayfly"@, 0) != 0,
                instabuild: int_or(a, "instabuild"@, 0) != 0,
                invulnerable: int_or(a, "invulnerable"@, 0) != 0,
                may_build: int_or(a, "mayBuild"@, 1) != 0,
                walk_speed: numeric_or(a, "walkSpeed"@, Numeric::Double(F64_WALK_SPEED)),
                fly_speed: numeric_or(a, "flySpeed"@, Numeric::Double(F64_FLY_SPEED)),
            }
        } else {
            default_abilities()
        },
        None => default_abilities(),
    }
}

pub open spec fn default_abilities() -> PlayerAbilities {
    PlayerAbilities {
        flying: false,
        may_fly: false,
        instabuild: false,
        invulnerable: false,
        may_build: true,
        walk_speed: Numeric::Float(F32_WALK_SPEED),
        fly_speed: Numeric::Float(F32_FLY_SPEED),
    }
}

pub fn parse_abilities(root: &NbtValue) -> (r: PlayerAbilities)
    ensures
        r == abilities_of(root@),
{
    let mut abilities = PlayerAbilities::default();
    if let Some(a) = get_field(root, "abilities") {
        if let NbtValue::Compound(_) = a {
            abilities.flying = int_field_or(a, "flying", 0) != 0;
            abilities.may_fly = int_field_or(a, "mayfly", 0) != 0;
            abilities.instabuild = int_field_or(a, "instabuild", 0) != 0;
            abilities.invulnerable = int_field_or(a, "invulnerable", 0) != 0;
            abilities.may_build = int_field_or(a, "mayBuild", 1) != 0;
            abilities.walk_speed = numeric_field_or(a, "walkSpeed", Numeric::Double(F64_WALK_SPEED));
            abilities.fly_speed = numeric_field_or(a, "flySpeed", Numeric::Double(F64_FLY_SPEED));
        }
    }
    abilities
}

/// The number at position `i` of a list (`as_f64`), or `default`.
pub open spec fn list_numeric_or(l: Seq<NbtTree>, i: int, default: Numeric) -> Numeric {
    if 0 <= i < l.len() {
        match as_numeric_spec(l[i]) {
            Some(n) => n,
            None => default,
        }
    } else {
        default
    }
}

/// The position a player tree holds: `Pos` (x, y, z) and `Rotation` (yaw,
/// pitch) read item by item with the defaults for missing items, and
/// `Dimension` as text or as the decimal form of an integer id.
pub open spec fn position_of(root: NbtTree) -> PositionModel {
    let d = default_position();
    let (x, y, z) = match field(root, "Pos"@) {
        Some(NbtTree::List(l)) => (
            list_numeric_or(l, 0, d.x),
            list_numeric_or(l, 1, d.y),
            list_numeric_or(l, 2, d.z),
        ),
        _ => (d.x, d.y, d.z),
    };
    let (yaw, pitch) = match field(root, "Rotation"@) {
        Some(NbtTree::List(l)) => (list_numeric_or(l, 0, d.yaw), list_numeric_or(l, 1, d.pitch)),
        _ => (d.yaw, d.pitch),
    };
    let dimension = match field(root, "Dimension"@) {
        Some(NbtTree::String(s)) => s,
        Some(v) => match as_int(v) {
            Some(i) => int_dec(i),
            None => d.dimension,
        },
        None => d.dimension,
    };
    PositionModel { x, y, z, yaw, pitch, dimension }
}

/// The dimension a player tree stores is what its position shows: a text
/// as it is, and an integer id (as older files store it) as decimal text
/// that reads back as that id.
pub proof fn lemma_dimension_shown(root: NbtTree)
    ensures
        field(root, "Dimension"@) matches Some(NbtTree::String(s)) ==> position_of(root).dimension
            == s,
        field(root, "Dimension"@) matches Some(v) ==> (!(v is String) && as_int(v) is Some
            ==> parse_int(position_of(root).dimension) == as_int(v)),
{
    if let Some(v) = field(root, "Dimension"@) {
        if let Some(i) = as_int(v) {
            lemma_parse_int_dec(i);
        }
    }
}

fn list_numeric_or_exec(items: &Vec<NbtValue>, i: usize, default: Numeric) -> (r: Numeric)
    ensures
        r == list_numeric_or(items_view(items@), i as int, default),
{
    if i < items.len() {
        match as_numeric(&items[i]) {
            Some(n) => n,
            None => default,
        }
    } else {
        default
    }
}

pub fn parse_position(root: &NbtValue) -> (r: PlayerPosition)
    ensures
        r@ == position_of(root@),
{
    let mut position = PlayerPosition::default();
    if let Some(NbtValue::List(values)) = get_field(root, "Pos") {
        proof {
            lemma_list_view(values);
        }
        position.x = list_numeric_or_exec(values, 0, position.x);
        position.y = list_numeric_or_exec(values, 1, position.y);
        position.z = list_numeric_or_exec(values, 2, position.z);
    }
    if let Some(NbtValue::List(values)) = get_field(root, "Rotation") {
        proof {
            lemma_list_view(values);
        }
        position.yaw = list_numeric_or_exec(values, 0, position.yaw);
        position.pitch = list_numeric_or_exec(values, 1, position.pitch);
    }
    if let Some(value) = get_field(root, "Dimension") {
        if let Some(text) = as_str(value) {
            position.dimension = text.clone();
        } else if let Some(id) = as_i64(value) {
            position.dimension = i64_to_text(id);
        }
    }
    position
}

// ---------------------------------------------------------------------------
// Inventory
// ---------------------------------------------------------------------------

/// The stack an inventory entry describes: it needs an integer `Slot` and a
/// string `id`; `Count` defaults to 1, `Damage` is optional, `tag` is kept.
pub open spec fn item_of(t: NbtTree) -> Option<ItemModel> {
    match field(t, "Slot"@) {
        Some(s) => match as_int(s) {
            Some(slot) => match field(t, "id"@) {
                Some(NbtTree::String(id)) => Some(
                    ItemModel {
                        slot: slot as i32,
                        item_id: id,
                        count: int_or(t, "Count"@, 1) as i32,
                        damage: match field(t, "Damage"@) {
                            Some(dv) => match as_int(dv) {
                                Some(x) => Some(x as i32),
                                None => None,
                            },
                            None => None,
                        },
                        tag: field(t, "tag"@),
                    },
                ),
                _ => None,
            },
            None => None,
        },
        None => None,
    }
}

pub fn parse_item_stack(value: &NbtValue) -> (r: Option<ItemStack>)
    ensures
        r matches Some(it) ==> item_of(value@) == Some(it@),
        r is None ==> item_of(value@) is None,
{
    let slot = match get_field(value, "Slot") {
        Some(s) => match as_i64(s) {
            Some(v) => v as i32,
            None => {
                return None;
            },
        },
        None => {
            return None;
        },
    };
    let item_id = match get_field(value, "id") {
        Some(v) => match as_str(v) {
            Some(text) => text.clone(),
            None => {
                return None;
            },
        },
        None => {
            return None;
        },
    };
    let count = int_field_or(value, "Count", 1) as i32;
    let damage = match get_field(value, "Damage") {
        Some(dv) => match as_i64(dv) {
            Some(x) => Some(x as i32),
            None => None,
        },
        None => None,
    };
    let tag = match get_field(value, "tag") {
        Some(t) => Some(copy_tree(t)),
        None => None,
    };
    Some(ItemStack { slot, item_id, count, damage, tag })
}

/// The inventory after placing, in order, the stacks that the first `k`
/// entries describe.
pub open spec fn placed(items: Seq<NbtTree>, k: nat) -> InventoryView
    decreases k,
{
    if k == 0 || k > items.len() {
        empty_inventory()
    } else {
        let prev = placed(items, (k - 1) as nat);
        match item_of(items[k - 1]) {
            Some(it) => place_model(prev, it),
            None => prev,
        }
    }
}

/// The inventory a player tree holds: the empty layout with every stack of
/// its `Inventory` list placed in list order.
pub open spec fn inventory_of(root: NbtTree) -> InventoryView {
    match field(root, "Inventory"@) {
        Some(NbtTree::List(l)) => placed(l, l.len()),
        _ => empty_inventory(),
    }
}

pub fn parse_inventory(root: &NbtValue) -> (r: InventoryModel)
    ensures
        r@ == inventory_of(root@),
        inventory_wf(r),
{
    let mut model = InventoryModel::new_empty();
    if let Some(NbtValue::List(items)) = get_field(root, "Inventory") {
        proof {
            lemma_list_view(items);
        }
        let ghost l = items_view(items@);
        let mut i: usize = 0;
        while i < items.len()
            invariant
                i <= items@.len(),
                l == items_view(items@),
                inventory_wf(model),
                model@ == placed(l, i as nat),
            decreases items.len() - i,
        {
            if let Some(item) = parse_item_stack(&items[i]) {
                model.place(item);
            }
            i = i + 1;
        }
    }
    model
}

// ---------------------------------------------------------------------------
// The whole player
// ---------------------------------------------------------------------------

/// Whether `d` holds what the player view reads from the tree `root`
/// loaded from `path` (everything but the positions selected in the view):
/// the file name as title, the UUID that the file's stem names, the
/// inventory, attributes, position and abilities, and the rows of the whole
/// tree.
pub open spec fn data_read(d: PlayerData, path: PathModel, root: NbtTree) -> bool {
    &&& d.title@ == (match file_name_of(path) {
        Some(n) => n,
        None => Seq::empty(),
    })
    &&& d.identity.uuid == uuid_of_stem(stem_text(path))
    &&& d.identity.name is None
    &&& d.identity.skin_url is None
    &&& d.inventory@.main == inventory_of(root).main
    &&& d.inventory@.armor == inventory_of(root).armor
    &&& d.inventory@.offhand == inventory_of(root).offhand
    &&& inventory_wf(d.inventory)
    &&& d.attributes == attributes_of(root)
    &&& d.position@ == position_of(root)
    &&& d.abilities == abilities_of(root)
    &&& entries_model(d.raw_entries@) == flat(root, Seq::empty(), 0, "root"@)
}

impl PlayerData {
    /// Reads a player tree loaded from `path`.
    pub fn from_root(path: &FilePath, root: &NbtValue) -> (r: PlayerData)
        requires
            height_fits(root@),
        ensures
            data_read(r, path@, root@),
            r.inventory@.selection == inventory_of(root@).selection,
            r.selected_section == 0,
            r.field_selected == 0,
            r.raw_selected == 0,
    {
        let uuid = parse_uuid_from_path(path);
        let title = file_name(path);
        PlayerData {
            title,
            identity: PlayerIdentity { uuid, name: None, skin_url: None },
            inventory: parse_inventory(root),
            attributes: parse_attributes(root),
            position: parse_position(root),
            abilities: parse_abilities(root),
            selected_section: 0,
            field_selected: 0,
            raw_entries: flatten(root),
            raw_selected: 0,
        }
    }

    /// The section shown (the last one for a position past the end).
    pub fn active_section(&self) -> (r: PlayerSection)
        ensures
            r == section_at(if self.selected_section < 5 { self.selected_section as int } else { 5 }),
    {
        let i = if self.selected_section < PLAYER_SECTION_COUNT - 1 {
            self.selected_section
        } else {
            PLAYER_SECTION_COUNT - 1
        };
        PlayerSection::from_index(i)
    }
}

} // verus!
