//! Opening, refreshing and editing player documents.
use vstd::prelude::*;
use crate::domain::files::source::DocumentSource;
use crate::domain::minecraft::inventory::{inventory_wf, InventoryModel};
use crate::domain::minecraft::player::{
    PlayerData, int_or, int_field_or, data_read, inventory_of, attributes_of, abilities_of, position_of,
};
use crate::domain::nbt::value::Numeric;
use crate::domain::minecraft::inventory::InventoryView;
use crate::persistence::dirty::DirtyState;
use crate::persistence::nbt_codec::NbtFile;
use crate::session::action::PlayerField;
use crate::session::document::{PlayerDocument, DocumentMeta, DocumentKind};
use crate::session::tab::DocumentId;
use crate::text::{parse_int_in, parse_int_range};
use crate::util::fs::{FilePath, PathModel, file_name, file_name_of};
use crate::domain::minecraft::profile::SkinState;
use crate::domain::minecraft::server::ServerContext;
use crate::domain::nbt::edit::{
    tree_set, tree_get, height, height_fits, set_at, compound_insert, insert_entry, copy_tree,
    lemma_set_height, lemma_insert_leaf_height, lemma_get_set, distinct_names, lemma_set_distinct,
    lemma_get_distinct, lemma_insert_distinct,
};
use crate::domain::nbt::path::{NbtPath, Segment};
use crate::domain::nbt::value::{
    NbtValue, NbtTree, field, get_field, entries_view, items_view, lemma_compound_view,
    lemma_list_view, key_index, lemma_key_index,
};
use crate::text::{chars_of, concat, trim, trim_chars, lower_seq, lower_chars, chars_eq_str};
use crate::util::error::{HydroxylError, ErrorModel};

verus! {

// ---------------------------------------------------------------------------
// Booleans from text
// ---------------------------------------------------------------------------

/// The texts that make a flag true: `1`, `true`, `yes` and `on`, after
/// trimming, in any ASCII case.
pub open spec fn bool_text(s: Seq<char>) -> bool {
    let l = lower_seq(trim(s));
    l == "1"@ || l == "true"@ || l == "yes"@ || l == "on"@
}

/// Reads a flag from text.
pub fn parse_bool(input: &str) -> (r: bool)
    ensures
        r == bool_text(input@),
{
    let l = lower_chars(&trim_chars(&chars_of(input)));
    chars_eq_str(&l, "1") || chars_eq_str(&l, "true") || chars_eq_str(&l, "yes") || chars_eq_str(
        &l,
        "on",
    )
}

// ---------------------------------------------------------------------------
// Setting values of the tree
// ---------------------------------------------------------------------------

/// The tree after setting the value at `path`, or the error `message`
/// when the path does not exist (the tree is then unchanged).
pub open spec fn set_or(root: NbtTree, path: Seq<Segment>, v: NbtTree, message: Seq<char>) -> Result<NbtTree, ErrorModel> {
    match tree_set(root, path, v) {
        Some(u) => Ok(u),
        None => Err(ErrorModel::InvalidData(message)),
    }
}

/// Whether a call that changes `root` met the outcome `o`: on success the
/// new tree, on failure the error with the tree unchanged.
pub open spec fn meets(o: Result<NbtTree, ErrorModel>, before: NbtTree, after: NbtTree, r: Result<(), HydroxylError>) -> bool {
    match o {
        Ok(u) => r is Ok && after == u,
        Err(e) => r matches Err(x) && x@ == e && after == before,
    }
}

/// Sets the top-level entry `key` of a compound root.
pub fn set_number(root: &mut NbtValue, key: &str, value: NbtValue) -> (r: Result<(), HydroxylError>)
    ensures
        meets(
            set_or(old(root)@, seq![Segment::Key(key@)], value@, "missing key "@ + key@),
            old(root)@,
            final(root)@,
            r,
        ),
{
    let path = NbtPath::root().child_key(key);
    assert(path@ =~= seq![Segment::Key(key@)]);
    if set_at(root, &path, value) {
        Ok(())
    } else {
        proof {
            reveal_strlit("missing key ");
        }
        Err(HydroxylError::InvalidData(concat("missing key ", key)))
    }
}

/// Sets item `index` of the top-level list `key`.
pub fn set_list_number(root: &mut NbtValue, key: &str, index: usize, value: NbtValue) -> (r: Result<
    (),
    HydroxylError,
>)
    ensures
        meets(
            set_or(
                old(root)@,
                seq![Segment::Key(key@), Segment::Index(index as nat)],
                value@,
                "missing list key "@ + key@,
            ),
            old(root)@,
            final(root)@,
            r,
        ),
{
    let path = NbtPath::root().child_key(key).child_index(index);
    assert(path@ =~= seq![Segment::Key(key@), Segment::Index(index as nat)]);
    if set_at(root, &path, value) {
        Ok(())
    } else {
        proof {
            reveal_strlit("missing list key ");
        }
        Err(HydroxylError::InvalidData(concat("missing list key ", key)))
    }
}

/// The tree after inserting `key: v` into the `abilities` compound, or the
/// error: the root must be a compound with an `abilities` compound.
pub open spec fn ability_outcome(root: NbtTree, key: Seq<char>, v: NbtTree) -> Result<NbtTree, ErrorModel> {
    if root is Compound {
        match field(root, "abilities"@) {
            Some(NbtTree::Compound(a)) => Ok(
                tree_set(
                    root,
                    seq![Segment::Key("abilities"@)],
                    NbtTree::Compound(compound_insert(a, key, v)),
                ).unwrap(),
            ),
            _ => Err(ErrorModel::InvalidData("missing compound abilities"@)),
        }
    } else {
        Err(ErrorModel::InvalidData("root is not a compound"@))
    }
}

fn insert_ability(root: &mut NbtValue, key: &str, value: NbtValue) -> (r: Result<(), HydroxylError>)
    ensures
        meets(ability_outcome(old(root)@, key@, value@), old(root)@, final(root)@, r),
{
    let is_compound = match root {
        NbtValue::Compound(m) => {
            proof {
                lemma_compound_view(m);
            }
            true
        },
        _ => false,
    };
    if !is_compound {
        proof {
            reveal_strlit("root is not a compound");
        }
        return Err(HydroxylError::invalid_data("root is not a compound"));
    }
    let copied = match get_field(root, "abilities") {
        Some(a) => copy_tree(a),
        None => {
            proof {
                reveal_strlit("missing compound abilities");
            }
            return Err(HydroxylError::invalid_data("missing compound abilities"));
        },
    };
    match copied {
        NbtValue::Compound(mut entries) => {
            proof {
                lemma_compound_view(&entries);
            }
            insert_entry(&mut entries, key, value);
            let updated = NbtValue::Compound(entries);
            proof {
                lemma_compound_view(&entries);
            }
            let path = NbtPath::root().child_key("abilities");
            assert(path@ =~= seq![Segment::Key("abilities"@)]);
            proof {
                reveal_strlit("abilities");
                assert(path@.drop_first() =~= Seq::<Segment>::empty());
                assert(tree_set(field(root@, "abilities"@).unwrap(), path@.drop_first(), updated@)
                    == Some(updated@));
            }
            let ok = set_at(root, &path, updated);
            Ok(())
        },
        other => {
            proof {
                reveal_strlit("missing compound abilities");
            }
            Err(HydroxylError::invalid_data("missing compound abilities"))
        },
    }
}

/// Sets an ability flag, stored as the byte 1 or 0.
pub fn set_ability(root: &mut NbtValue, key: &str, value: bool) -> (r: Result<(), HydroxylError>)
    ensures
        meets(
            ability_outcome(old(root)@, key@, NbtTree::Byte(if value { 1 } else { 0 })),
            old(root)@,
            final(root)@,
            r,
        ),
{
    insert_ability(root, key, NbtValue::Byte(if value { 1 } else { 0 }))
}

/// Sets an ability speed, stored as an `f32` (given by its bit pattern).
pub fn set_ability_f32(root: &mut NbtValue, key: &str, bits: u32) -> (r: Result<(), HydroxylError>)
    ensures
        meets(ability_outcome(old(root)@, key@, NbtTree::Float(bits)), old(root)@, final(root)@, r),
{
    insert_ability(root, key, NbtValue::Float(bits))
}

// ---------------------------------------------------------------------------
// Inventory slots of the tree
// ---------------------------------------------------------------------------

/// Whether an item of the `Inventory` list is a compound whose `Slot`
/// (read as `as_i64`, default 0, truncated to `i32`) is `slot_id`.
#[verifier::opaque]
pub open spec fn slot_matches(t: NbtTree, slot_id: i32) -> bool {
    t is Compound && (int_or(t, "Slot"@, 0) as i32) == slot_id
}

/// The position of the first of the first `n` items that is for `slot_id`.
pub open spec fn first_slot_upto(l: Seq<NbtTree>, slot_id: i32, n: nat) -> Option<int>
    decreases n,
{
    if n == 0 || n > l.len() {
        None
    } else {
        match first_slot_upto(l, slot_id, (n - 1) as nat) {
            Some(i) => Some(i),
            None => if slot_matches(l[n - 1], slot_id) {
                Some(n - 1)
            } else {
                None
            },
        }
    }
}

/// The position in the `Inventory` list of the first item for `slot_id`.
pub open spec fn inventory_slot_index(root: NbtTree, slot_id: i32) -> Option<int> {
    match field(root, "Inventory"@) {
        Some(NbtTree::List(l)) => first_slot_upto(l, slot_id, l.len()),
        _ => None,
    }
}

proof fn lemma_first_slot_bounds(l: Seq<NbtTree>, slot_id: i32, n: nat)
    ensures
        first_slot_upto(l, slot_id, n) matches Some(i) ==> 0 <= i < n && i < l.len() && slot_matches(l[i], slot_id),
    decreases n,
{
    if n > 0 && n <= l.len() {
        lemma_first_slot_bounds(l, slot_id, (n - 1) as nat);
    }
}

proof fn lemma_first_slot_extend(l: Seq<NbtTree>, slot_id: i32, n: nat, m: nat)
    requires
        n <= m <= l.len(),
        first_slot_upto(l, slot_id, n) is Some,
    ensures
        first_slot_upto(l, slot_id, m) == first_slot_upto(l, slot_id, n),
    decreases m - n,
{
    if m > n {
        lemma_first_slot_extend(l, slot_id, n, (m - 1) as nat);
    }
}

fn item_matches(item: &NbtValue, slot_id: i32) -> (r: bool)
    ensures
        r == slot_matches(item@, slot_id),
{
    proof {
        reveal(slot_matches);
    }
    match item {
        NbtValue::Compound(m) => {
            proof {
                lemma_compound_view(m);
            }
            (int_field_or(item, "Slot", 0) as i32) == slot_id
        },
        _ => false,
    }
}

/// The tree after inserting `key: v` into item `i` of the `Inventory`
/// list (a compound).
pub open spec fn slot_insert(root: NbtTree, i: int, key: Seq<char>, v: NbtTree) -> NbtTree {
    match field(root, "Inventory"@) {
        Some(NbtTree::List(l)) => match l[i] {
            NbtTree::Compound(c) => tree_set(
                root,
                seq![Segment::Key("Inventory"@), Segment::Index(i as nat)],
                NbtTree::Compound(compound_insert(c, key, v)),
            ).unwrap(),
            _ => root,
        },
        _ => root,
    }
}

/// Finds the `Inventory` item for `slot_id`.
pub fn find_inventory_slot(root: &NbtValue, slot_id: i32) -> (r: Option<usize>)
    ensures
        r matches Some(i) ==> inventory_slot_index(root@, slot_id) == Some(i as int),
        r is None ==> inventory_slot_index(root@, slot_id) is None,
{
    match get_field(root, "Inventory") {
        Some(NbtValue::List(items)) => {
            proof {
                lemma_list_view(items);
            }
            let ghost l = items_view(items@);
            let mut i: usize = 0;
            while i < items.len()
                invariant
                    i <= items@.len(),
                    l == items_view(items@),
                    field(root@, "Inventory"@) == Some(NbtTree::List(l)),
                    first_slot_upto(l, slot_id, i as nat) is None,
                decreases items.len() - i,
            {
                if item_matches(&items[i], slot_id) {
                    proof {
                        assert(first_slot_upto(l, slot_id, (i + 1) as nat) == Some(i as int));
                        lemma_first_slot_extend(l, slot_id, (i + 1) as nat, l.len());
                        assert(field(root@, "Inventory"@) == Some(NbtTree::List(l)));
                        assert(inventory_slot_index(root@, slot_id) == first_slot_upto(l, slot_id, l.len()));
                    }
                    return Some(i);
                }
                i = i + 1;
            }
            None
        },
        _ => None,
    }
}

/// Inserts `key: value` into the `Inventory` item at position `i` (found by
/// `find_inventory_slot`).
fn insert_into_slot(root: &mut NbtValue, i: usize, slot_id: i32, key: &str, value: NbtValue)
    requires
        inventory_slot_index(old(root)@, slot_id) == Some(i as int),
    ensures
        final(root)@ == slot_insert(old(root)@, i as int, key@, value@),
{
    proof {
        if let Some(NbtTree::List(l)) = field(root@, "Inventory"@) {
            lemma_first_slot_bounds(l, slot_id, l.len());
        }
    }
    let copied = match get_field(root, "Inventory") {
        Some(NbtValue::List(items)) => {
            proof {
                lemma_list_view(items);
            }
            copy_tree(&items[i])
        },
        _ => {
            return;
        },
    };
    match copied {
        NbtValue::Compound(mut entries) => {
            proof {
                lemma_compound_view(&entries);
            }
            insert_entry(&mut entries, key, value);
            let updated = NbtValue::Compound(entries);
            proof {
                lemma_compound_view(&entries);
            }
            let path = NbtPath::root().child_key("Inventory").child_index(i);
            let ghost p = seq![Segment::Key("Inventory"@), Segment::Index(i as nat)];
            assert(path@ =~= p);
            proof {
                reveal_strlit("Inventory");
                let l = field(root@, "Inventory"@).unwrap()->List_0;
                assert(p.drop_first() =~= seq![Segment::Index(i as nat)]);
                assert(p.drop_first().drop_first() =~= Seq::<Segment>::empty());
                assert(tree_set(l[i as int], p.drop_first().drop_first(), updated@) == Some(updated@));
                assert(tree_set(NbtTree::List(l), p.drop_first(), updated@) == Some(
                    NbtTree::List(l.update(i as int, updated@)),
                ));
            }
            let ok = set_at(root, &path, updated);
        },
        _ => {},
    }
}

// ---------------------------------------------------------------------------
// Editing fields
// ---------------------------------------------------------------------------

/// The integer `input` denotes in `lo..=hi`, or the error for it.
pub open spec fn int_input(input: Seq<char>, lo: int, hi: int) -> Result<int, ErrorModel> {
    match parse_int_in(input, lo, hi) {
        Some(v) => Ok(v),
        None => Err(ErrorModel::InvalidNumber(input)),
    }
}

/// The `f32` that `input` denotes (given as the result of parsing it), or
/// the error for it.
pub open spec fn f32_input(input: Seq<char>, bits: Option<u32>) -> Result<u32, ErrorModel> {
    match bits {
        Some(b) => Ok(b),
        None => Err(ErrorModel::InvalidNumber(input)),
    }
}

/// The `f64` that `input` denotes (given as the result of parsing it), or
/// the error for it.
pub open spec fn f64_input(input: Seq<char>, bits: Option<u64>) -> Result<u64, ErrorModel> {
    match bits {
        Some(b) => Ok(b),
        None => Err(ErrorModel::InvalidNumber(input)),
    }
}

/// Setting the top-level entry `key` to a value that may have failed to
/// parse.
pub open spec fn top_set(root: NbtTree, key: Seq<char>, v: Result<NbtTree, ErrorModel>) -> Result<NbtTree, ErrorModel> {
    match v {
        Ok(t) => set_or(root, seq![Segment::Key(key)], t, "missing key "@ + key),
        Err(e) => Err(e),
    }
}

/// Setting item `index` of the top-level list `key` to a value that may
/// have failed to parse.
pub open spec fn list_set(root: NbtTree, key: Seq<char>, index: nat, v: Result<NbtTree, ErrorModel>) -> Result<NbtTree, ErrorModel> {
    match v {
        Ok(t) => set_or(
            root,
            seq![Segment::Key(key), Segment::Index(index)],
            t,
            "missing list key "@ + key,
        ),
        Err(e) => Err(e),
    }
}

/// Writing `key: v` into the `Inventory` item of the selected stack's
/// slot: nothing happens without a selected stack or without such an item;
/// the value is only parsed when the item exists.
pub open spec fn slot_set(root: NbtTree, selected_slot: Option<i32>, key: Seq<char>, v: Result<NbtTree, ErrorModel>) -> Result<NbtTree, ErrorModel> {
    match selected_slot {
        None => Ok(root),
        Some(slot) => match inventory_slot_index(root, slot) {
            None => Ok(root),
            Some(i) => match v {
                Ok(t) => Ok(slot_insert(root, i, key, t)),
                Err(e) => Err(e),
            },
        },
    }
}

/// The tree after editing `field` with `input`, or the error. Numbers are
/// parsed for the tag each field is stored with (`f32` and `f64` parses
/// are given as their results); flags read `input` as a boolean; the
/// dimension and an item id are stored as strings; a raw section is not
/// edited here. `selected_slot` is the slot of the inventory stack under
/// the cursor.
pub open spec fn field_edit(
    root: NbtTree,
    field: PlayerField,
    input: Seq<char>,
    float_bits: Option<u32>,
    double_bits: Option<u64>,
    selected_slot: Option<i32>,
) -> Result<NbtTree, ErrorModel> {
    let as_float = match f32_input(input, float_bits) {
        Ok(b) => Ok(NbtTree::Float(b)),
        Err(e) => Err(e),
    };
    let as_double = match f64_input(input, double_bits) {
        Ok(b) => Ok(NbtTree::Double(b)),
        Err(e) => Err(e),
    };
    let as_int = match int_input(input, i32::MIN as int, i32::MAX as int) {
        Ok(v) => Ok(NbtTree::Int(v as i32)),
        Err(e) => Err(e),
    };
    let flag = NbtTree::Byte(if bool_text(input) { 1 } else { 0 });
    match field {
        PlayerField::Health => top_set(root, "Health"@, as_float),
        PlayerField::FoodLevel => top_set(root, "foodLevel"@, as_int),
        PlayerField::FoodSaturation => top_set(root, "foodSaturationLevel"@, as_float),
        PlayerField::XpLevel => top_set(root, "XpLevel"@, as_int),
        PlayerField::XpProgress => top_set(root, "XpP"@, as_float),
        PlayerField::XpTotal => top_set(root, "XpTotal"@, as_int),
        PlayerField::Air => top_set(
            root,
            "Air"@,
            match int_input(input, i16::MIN as int, i16::MAX as int) {
                Ok(v) => Ok(NbtTree::Short(v as i16)),
                Err(e) => Err(e),
            },
        ),
        PlayerField::PosX => list_set(root, "Pos"@, 0, as_double),
        PlayerField::PosY => list_set(root, "Pos"@, 1, as_double),
        PlayerField::PosZ => list_set(root, "Pos"@, 2, as_double),
        PlayerField::Yaw => list_set(root, "Rotation"@, 0, as_float),
        PlayerField::Pitch => list_set(root, "Rotation"@, 1, as_float),
        PlayerField::Dimension => top_set(root, "Dimension"@, Ok(NbtTree::String(input))),
        PlayerField::Flying => ability_outcome(root, "flying"@, flag),
        PlayerField::MayFly => ability_outcome(root, "mayfly"@, flag),
        PlayerField::Instabuild => ability_outcome(root, "instabuild"@, flag),
        PlayerField::Invulnerable => ability_outcome(root, "invulnerable"@, flag),
        PlayerField::MayBuild => ability_outcome(root, "mayBuild"@, flag),
        PlayerField::WalkSpeed => match f32_input(input, float_bits) {
            Ok(b) => ability_outcome(root, "walkSpeed"@, NbtTree::Float(b)),
            Err(e) => Err(e),
        },
        PlayerField::FlySpeed => match f32_input(input, float_bits) {
            Ok(b) => ability_outcome(root, "flySpeed"@, NbtTree::Float(b)),
            Err(e) => Err(e),
        },
        PlayerField::InventoryCount => slot_set(
            root,
            selected_slot,
            "Count"@,
            match int_input(input, i8::MIN as int, i8::MAX as int) {
                Ok(v) => Ok(NbtTree::Byte(v as i8)),
                Err(e) => Err(e),
            },
        ),
        PlayerField::InventoryId => slot_set(root, selected_slot, "id"@, Ok(NbtTree::String(input))),
        PlayerField::RawSection(_) => Ok(root),
    }
}

fn int_from(input: &str, lo: i64, hi: i64) -> (r: Result<i64, HydroxylError>)
    requires
        lo <= 0 <= hi,
    ensures
        match int_input(input@, lo as int, hi as int) {
            Ok(v) => r matches Ok(x) && x == v,
            Err(e) => r matches Err(x) && x@ == e,
        },
{
    match parse_int_range(&chars_of(input), lo, hi) {
        Some(v) => Ok(v),
        None => Err(HydroxylError::invalid_number(input)),
    }
}

fn f32_from(input: &str, bits: Option<u32>) -> (r: Result<u32, HydroxylError>)
    ensures
        match f32_input(input@, bits) {
            Ok(v) => r matches Ok(x) && x == v,
            Err(e) => r matches Err(x) && x@ == e,
        },
{
    match bits {
        Some(b) => Ok(b),
        None => Err(HydroxylError::invalid_number(input)),
    }
}

fn f64_from(input: &str, bits: Option<u64>) -> (r: Result<u64, HydroxylError>)
    ensures
        match f64_input(input@, bits) {
            Ok(v) => r matches Ok(x) && x == v,
            Err(e) => r matches Err(x) && x@ == e,
        },
{
    match bits {
        Some(b) => Ok(b),
        None => Err(HydroxylError::invalid_number(input)),
    }
}

fn slot_write(
    root: &mut NbtValue,
    selected_slot: Option<i32>,
    key: &str,
    input: &str,
    count: bool,
) -> (r: Result<(), HydroxylError>)
    ensures
        meets(
            slot_set(
                old(root)@,
                selected_slot,
                key@,
                if count {
                    match int_input(input@, i8::MIN as int, i8::MAX as int) {
                        Ok(v) => Ok(NbtTree::Byte(v as i8)),
                        Err(e) => Err(e),
                    }
                } else {
                    Ok(NbtTree::String(input@))
                },
            ),
            old(root)@,
            final(root)@,
            r,
        ),
{
    let slot = match selected_slot {
        None => {
            return Ok(());
        },
        Some(s) => s,
    };
    match find_inventory_slot(root, slot) {
        None => Ok(()),
        Some(i) => {
            let value = if count {
                let c = int_from(input, -128, 127)?;
                NbtValue::Byte(c as i8)
            } else {
                NbtValue::String(input.to_owned())
            };
            insert_into_slot(root, i, slot, key, value);
            Ok(())
        },
    }
}

#[verifier::rlimit(40)]
fn apply_field(
    root: &mut NbtValue,
    field: PlayerField,
    input: &str,
    float_bits: Option<u32>,
    double_bits: Option<u64>,
    selected_slot: Option<i32>,
) -> (r: Result<(), HydroxylError>)
    ensures
        meets(
            field_edit(old(root)@, field, input@, float_bits, double_bits, selected_slot),
            old(root)@,
            final(root)@,
            r,
        ),
{
    match field {
        PlayerField::Health => {
            let b = f32_from(input, float_bits)?;
            set_number(root, "Health", NbtValue::Float(b))
        },
        PlayerField::FoodLevel => {
            let v = int_from(input, i32::MIN as i64, i32::MAX as i64)?;
            set_number(root, "foodLevel", NbtValue::Int(v as i32))
        },
        PlayerField::FoodSaturation => {
            let b = f32_from(input, float_bits)?;
            set_number(root, "foodSaturationLevel", NbtValue::Float(b))
        },
        PlayerField::XpLevel => {
            let v = int_from(input, i32::MIN as i64, i32::MAX as i64)?;
            set_number(root, "XpLevel", NbtValue::Int(v as i32))
        },
        PlayerField::XpProgress => {
            let b = f32_from(input, float_bits)?;
            set_number(root, "XpP", NbtValue::Float(b))
        },
        PlayerField::XpTotal => {
            let v = int_from(input, i32::MIN as i64, i32::MAX as i64)?;
            set_number(root, "XpTotal", NbtValue::Int(v as i32))
        },
        PlayerField::Air => {
            let v = int_from(input, i16::MIN as i64, i16::MAX as i64)?;
            set_number(root, "Air", NbtValue::Short(v as i16))
        },
        PlayerField::PosX => {
            let b = f64_from(input, double_bits)?;
            set_list_number(root, "Pos", 0, NbtValue::Double(b))
        },
        PlayerField::PosY => {
            let b = f64_from(input, double_bits)?;
            set_list_number(root, "Pos", 1, NbtValue::Double(b))
        },
        PlayerField::PosZ => {
            let b = f64_from(input, double_bits)?;
            set_list_number(root, "Pos", 2, NbtValue::Double(b))
        },
        PlayerField::Yaw => {
            let b = f32_from(input, float_bits)?;
            set_list_number(root, "Rotation", 0, NbtValue::Float(b))
        },
        PlayerField::Pitch => {
            let b = f32_from(input, float_bits)?;
            set_list_number(root, "Rotation", 1, NbtValue::Float(b))
        },
        PlayerField::Dimension => set_number(root, "Dimension", NbtValue::String(input.to_owned())),
        PlayerField::Flying => set_ability(root, "flying", parse_bool(input)),
        PlayerField::MayFly => set_ability(root, "mayfly", parse_bool(input)),
        PlayerField::Instabuild => set_ability(root, "instabuild", parse_bool(input)),
        PlayerField::Invulnerable => set_ability(root, "invulnerable", parse_bool(input)),
        PlayerField::MayBuild => set_ability(root, "mayBuild", parse_bool(input)),
        PlayerField::WalkSpeed => {
            let b = f32_from(input, float_bits)?;
            set_ability_f32(root, "walkSpeed", b)
        },
        PlayerField::FlySpeed => {
            let b = f32_from(input, float_bits)?;
            set_ability_f32(root, "flySpeed", b)
        },
        PlayerField::InventoryCount => slot_write(root, selected_slot, "Count", input, true),
        PlayerField::InventoryId => slot_write(root, selected_slot, "id", input, false),
        PlayerField::RawSection(_) => Ok(()),
    }
}

// ---------------------------------------------------------------------------
// Heights under field edits
// ---------------------------------------------------------------------------

proof fn lemma_set_leaf_height(t: NbtTree, p: Seq<Segment>, v: NbtTree)
    requires
        height(v) == 0,
    ensures
        tree_set(t, p, v) matches Some(u) ==> height(u) <= height(t),
{
    lemma_get_set(t, p, v);
    if tree_set(t, p, v) is Some {
        lemma_set_height(t, p, v);
    }
}

proof fn lemma_ability_height(root: NbtTree, key: Seq<char>, v: NbtTree)
    requires
        height(v) == 0,
    ensures
        ability_outcome(root, key, v) matches Ok(u) ==> height(u) <= height(root),
{
    if root is Compound {
        if let Some(NbtTree::Compound(a)) = field(root, "abilities"@) {
            let p = seq![Segment::Key("abilities"@)];
            assert(p.drop_first() =~= Seq::<Segment>::empty());
            assert(tree_get(NbtTree::Compound(a), p.drop_first()) == Some(NbtTree::Compound(a)));
            assert(crate::domain::nbt::edit::step(root, p[0]) == Some(NbtTree::Compound(a)));
            assert(tree_get(root, p) == Some(NbtTree::Compound(a)));
            lemma_insert_leaf_height(a, key, v);
            lemma_set_height(root, p, NbtTree::Compound(compound_insert(a, key, v)));
            lemma_get_set(root, p, NbtTree::Compound(compound_insert(a, key, v)));
        }
    }
}

proof fn lemma_slot_height(root: NbtTree, selected_slot: Option<i32>, key: Seq<char>, v: Result<NbtTree, ErrorModel>)
    requires
        v matches Ok(t) ==> height(t) == 0,
    ensures
        slot_set(root, selected_slot, key, v) matches Ok(u) ==> height(u) <= height(root),
{
    if let Some(slot) = selected_slot {
        if let Some(i) = inventory_slot_index(root, slot) {
            if let Ok(t) = v {
                if let Some(NbtTree::List(l)) = field(root, "Inventory"@) {
                    lemma_first_slot_bounds(l, slot, l.len());
                    reveal(slot_matches);
                    if let NbtTree::Compound(c) = l[i] {
                        let p = seq![Segment::Key("Inventory"@), Segment::Index(i as nat)];
                        assert(p.drop_first() =~= seq![Segment::Index(i as nat)]);
                        assert(p.drop_first().drop_first() =~= Seq::<Segment>::empty());
                        assert(tree_get(l[i], p.drop_first().drop_first()) == Some(l[i]));
                        assert(tree_get(NbtTree::List(l), p.drop_first()) == Some(l[i]));
                        assert(tree_get(root, p) == Some(NbtTree::Compound(c)));
                        lemma_insert_leaf_height(c, key, t);
                        lemma_set_height(root, p, NbtTree::Compound(compound_insert(c, key, t)));
                        lemma_get_set(root, p, NbtTree::Compound(compound_insert(c, key, t)));
                    }
                }
            }
        }
    }
}

/// Editing a field never makes the tree taller.
pub proof fn lemma_field_edit_height(
    root: NbtTree,
    field: PlayerField,
    input: Seq<char>,
    float_bits: Option<u32>,
    double_bits: Option<u64>,
    selected_slot: Option<i32>,
)
    ensures
        field_edit(root, field, input, float_bits, double_bits, selected_slot) matches Ok(u) ==> height(u)
            <= height(root),
{
    let flag = NbtTree::Byte(if bool_text(input) { 1 } else { 0 });
    match field {
        PlayerField::Health | PlayerField::FoodSaturation | PlayerField::XpProgress => {
            if let Some(b) = float_bits {
                let key = match field {
                    PlayerField::Health => "Health"@,
                    PlayerField::FoodSaturation => "foodSaturationLevel"@,
                    _ => "XpP"@,
                };
                lemma_set_leaf_height(root, seq![Segment::Key(key)], NbtTree::Float(b));
            }
        },
        PlayerField::FoodLevel | PlayerField::XpLevel | PlayerField::XpTotal => {
            if let Some(v) = parse_int_in(input, i32::MIN as int, i32::MAX as int) {
                let key = match field {
                    PlayerField::FoodLevel => "foodLevel"@,
                    PlayerField::XpLevel => "XpLevel"@,
                    _ => "XpTotal"@,
                };
                lemma_set_leaf_height(root, seq![Segment::Key(key)], NbtTree::Int(v as i32));
            }
        },
        PlayerField::Air => {
            if let Some(v) = parse_int_in(input, i16::MIN as int, i16::MAX as int) {
                lemma_set_leaf_height(root, seq![Segment::Key("Air"@)], NbtTree::Short(v as i16));
            }
        },
        PlayerField::PosX | PlayerField::PosY | PlayerField::PosZ => {
            if let Some(b) = double_bits {
                let idx: nat = match field {
                    PlayerField::PosX => 0,
                    PlayerField::PosY => 1,
                    _ => 2,
                };
                lemma_set_leaf_height(
                    root,
                    seq![Segment::Key("Pos"@), Segment::Index(idx)],
                    NbtTree::Double(b),
                );
            }
        },
        PlayerField::Yaw | PlayerField::Pitch => {
            if let Some(b) = float_bits {
                let idx: nat = match field {
                    PlayerField::Yaw => 0,
                    _ => 1,
                };
                lemma_set_leaf_height(
                    root,
                    seq![Segment::Key("Rotation"@), Segment::Index(idx)],
                    NbtTree::Float(b),
                );
            }
        },
        PlayerField::Dimension => {
            lemma_set_leaf_height(root, seq![Segment::Key("Dimension"@)], NbtTree::String(input));
        },
        PlayerField::Flying => lemma_ability_height(root, "flying"@, flag),
        PlayerField::MayFly => lemma_ability_height(root, "mayfly"@, flag),
        PlayerField::Instabuild => lemma_ability_height(root, "instabuild"@, flag),
        PlayerField::Invulnerable => lemma_ability_height(root, "invulnerable"@, flag),
        PlayerField::MayBuild => lemma_ability_height(root, "mayBuild"@, flag),
        PlayerField::WalkSpeed | PlayerField::FlySpeed => {
            if let Some(b) = float_bits {
                lemma_ability_height(root, "walkSpeed"@, NbtTree::Float(b));
                lemma_ability_height(root, "flySpeed"@, NbtTree::Float(b));
            }
        },
        PlayerField::InventoryCount => {
            lemma_slot_height(
                root,
                selected_slot,
                "Count"@,
                match int_input(input, i8::MIN as int, i8::MAX as int) {
                    Ok(v) => Ok(NbtTree::Byte(v as i8)),
                    Err(e) => Err(e),
                },
            );
        },
        PlayerField::InventoryId => {
            lemma_slot_height(root, selected_slot, "id"@, Ok(NbtTree::String(input)));
        },
        PlayerField::RawSection(_) => {},
    }
}

proof fn lemma_set_leaf_distinct(t: NbtTree, p: Seq<Segment>, v: NbtTree)
    requires
        distinct_names(v),
        distinct_names(t),
    ensures
        tree_set(t, p, v) matches Some(u) ==> distinct_names(u),
{
    lemma_set_distinct(t, p, v);
}

proof fn lemma_ability_distinct(root: NbtTree, key: Seq<char>, v: NbtTree)
    requires
        distinct_names(v),
        distinct_names(root),
    ensures
        ability_outcome(root, key, v) matches Ok(u) ==> distinct_names(u),
{
    if root is Compound {
        if let Some(NbtTree::Compound(a)) = field(root, "abilities"@) {
            let p = seq![Segment::Key("abilities"@)];
            assert(p.drop_first() =~= Seq::<Segment>::empty());
            assert(tree_get(NbtTree::Compound(a), p.drop_first()) == Some(NbtTree::Compound(a)));
            assert(crate::domain::nbt::edit::step(root, p[0]) == Some(NbtTree::Compound(a)));
            assert(tree_get(root, p) == Some(NbtTree::Compound(a)));
            lemma_get_distinct(root, p);
            lemma_insert_distinct(a, key, v);
            lemma_set_distinct(root, p, NbtTree::Compound(compound_insert(a, key, v)));
            lemma_get_set(root, p, NbtTree::Compound(compound_insert(a, key, v)));
        }
    }
}

proof fn lemma_slot_distinct(root: NbtTree, selected_slot: Option<i32>, key: Seq<char>, v: Result<NbtTree, ErrorModel>)
    requires
        v matches Ok(t) ==> distinct_names(t),
        distinct_names(root),
    ensures
        slot_set(root, selected_slot, key, v) matches Ok(u) ==> distinct_names(u),
{
    if let Some(slot) = selected_slot {
        if let Some(i) = inventory_slot_index(root, slot) {
            if let Ok(t) = v {
                if let Some(NbtTree::List(l)) = field(root, "Inventory"@) {
                    lemma_first_slot_bounds(l, slot, l.len());
                    reveal(slot_matches);
                    if let NbtTree::Compound(c) = l[i] {
                        let p = seq![Segment::Key("Inventory"@), Segment::Index(i as nat)];
                        assert(p.drop_first() =~= seq![Segment::Index(i as nat)]);
                        assert(p.drop_first().drop_first() =~= Seq::<Segment>::empty());
                        assert(tree_get(l[i], p.drop_first().drop_first()) == Some(l[i]));
                        assert(tree_get(NbtTree::List(l), p.drop_first()) == Some(l[i]));
                        assert(tree_get(root, p) == Some(NbtTree::Compound(c)));
                        lemma_get_distinct(root, p);
                        lemma_insert_distinct(c, key, t);
                        lemma_set_distinct(root, p, NbtTree::Compound(compound_insert(c, key, t)));
                        lemma_get_set(root, p, NbtTree::Compound(compound_insert(c, key, t)));
                    }
                }
            }
        }
    }
}

/// Editing a field keeps the tree's compounds free of repeated names.
pub proof fn lemma_field_edit_distinct(
    root: NbtTree,
    field: PlayerField,
    input: Seq<char>,
    float_bits: Option<u32>,
    double_bits: Option<u64>,
    selected_slot: Option<i32>,
)
    requires
        distinct_names(root),
    ensures
        field_edit(root, field, input, float_bits, double_bits, selected_slot) matches Ok(u)
            ==> distinct_names(u),
{
    let flag = NbtTree::Byte(if bool_text(input) { 1 } else { 0 });
    match field {
        PlayerField::Health | PlayerField::FoodSaturation | PlayerField::XpProgress => {
            if let Some(b) = float_bits {
                let key = match field {
                    PlayerField::Health => "Health"@,
                    PlayerField::FoodSaturation => "foodSaturationLevel"@,
                    _ => "XpP"@,
                };
                lemma_set_leaf_distinct(root, seq![Segment::Key(key)], NbtTree::Float(b));
            }
        },
        PlayerField::FoodLevel | PlayerField::XpLevel | PlayerField::XpTotal => {
            if let Some(v) = parse_int_in(input, i32::MIN as int, i32::MAX as int) {
                let key = match field {
                    PlayerField::FoodLevel => "foodLevel"@,
                    PlayerField::XpLevel => "XpLevel"@,
                    _ => "XpTotal"@,
                };
                lemma_set_leaf_distinct(root, seq![Segment::Key(key)], NbtTree::Int(v as i32));
            }
        },
        PlayerField::Air => {
            if let Some(v) = parse_int_in(input, i16::MIN as int, i16::MAX as int) {
                lemma_set_leaf_distinct(root, seq![Segment::Key("Air"@)], NbtTree::Short(v as i16));
            }
        },
        PlayerField::PosX | PlayerField::PosY | PlayerField::PosZ => {
            if let Some(b) = double_bits {
                let idx: nat = match field {
                    PlayerField::PosX => 0,
                    PlayerField::PosY => 1,
                    _ => 2,
                };
                lemma_set_leaf_distinct(
                    root,
                    seq![Segment::Key("Pos"@), Segment::Index(idx)],
                    NbtTree::Double(b),
                );
            }
        },
        PlayerField::Yaw | PlayerField::Pitch => {
            if let Some(b) = float_bits {
                let idx: nat = match field {
                    PlayerField::Yaw => 0,
                    _ => 1,
                };
                lemma_set_leaf_distinct(
                    root,
                    seq![Segment::Key("Rotation"@), Segment::Index(idx)],
                    NbtTree::Float(b),
                );
            }
        },
        PlayerField::Dimension => {
            lemma_set_leaf_distinct(root, seq![Segment::Key("Dimension"@)], NbtTree::String(input));
        },
        PlayerField::Flying => lemma_ability_distinct(root, "flying"@, flag),
        PlayerField::MayFly => lemma_ability_distinct(root, "mayfly"@, flag),
        PlayerField::Instabuild => lemma_ability_distinct(root, "instabuild"@, flag),
        PlayerField::Invulnerable => lemma_ability_distinct(root, "invulnerable"@, flag),
        PlayerField::MayBuild => lemma_ability_distinct(root, "mayBuild"@, flag),
        PlayerField::WalkSpeed | PlayerField::FlySpeed => {
            if let Some(b) = float_bits {
                lemma_ability_distinct(root, "walkSpeed"@, NbtTree::Float(b));
                lemma_ability_distinct(root, "flySpeed"@, NbtTree::Float(b));
            }
        },
        PlayerField::InventoryCount => {
            lemma_slot_distinct(
                root,
                selected_slot,
                "Count"@,
                match int_input(input, i8::MIN as int, i8::MAX as int) {
                    Ok(v) => Ok(NbtTree::Byte(v as i8)),
                    Err(e) => Err(e),
                },
            );
        },
        PlayerField::InventoryId => {
            lemma_slot_distinct(root, selected_slot, "id"@, Ok(NbtTree::String(input)));
        },
        PlayerField::RawSection(_) => {},
    }
}

// ---------------------------------------------------------------------------
// The service
// ---------------------------------------------------------------------------

/// What a player document keeps true: its tree's rows can be numbered and
/// its inventory has the fixed layout.
pub open spec fn player_doc_wf(d: PlayerDocument) -> bool {
    height_fits(d.root@) && inventory_wf(d.data.inventory)
}

/// The slot of the stack under the inventory cursor, if the cell holds one.
pub open spec fn selected_slot_of(inv: InventoryModel) -> Option<i32> {
    match inv.selected_cell_spec().item {
        Some(it) => Some(it.slot),
        None => None,
    }
}

/// The smaller of two numbers.
pub open spec fn min_nat(a: int, b: int) -> int {
    if a < b {
        a
    } else {
        b
    }
}

/// Whether `after` is the document `before` re-read from its tree (now
/// `after.root`): the view is read again, the selected section, field,
/// inventory cell and raw row are kept (clamped to what exists), and the
/// rest of the document is unchanged.
pub open spec fn refreshed(before: PlayerDocument, after: PlayerDocument) -> bool {
    &&& data_read(after.data, after.meta.path@, after.root@)
    &&& after.data.inventory@.selection == before.data.inventory@.selection
    &&& after.data.selected_section == min_nat(before.data.selected_section as int, 5)
    &&& after.data.field_selected == before.data.field_selected
    &&& after.data.raw_selected == min_nat(
        before.data.raw_selected as int,
        if after.data.raw_entries@.len() > 0 {
            after.data.raw_entries@.len() - 1
        } else {
            0
        },
    )
    &&& after.server == before.server
    &&& after.skin_state == before.skin_state
    &&& after.compression == before.compression
}

/// Opens, refreshes and edits player documents.
pub struct PlayerService;

impl PlayerService {
    /// The document for a player file read from `path`.
    pub fn open(
        &self,
        id: DocumentId,
        path: &FilePath,
        source: DocumentSource,
        server: Option<ServerContext>,
        file: NbtFile,
    ) -> (r: PlayerDocument)
        requires
            height_fits(file.root@),
        ensures
            r.meta.id == id,
            r.meta.kind == DocumentKind::Player,
            r.meta.path@ == path@,
            r.meta.title@ == (match file_name_of(path@) {
                Some(n) => n,
                None => Seq::empty(),
            }),
            r.meta.source == source,
            !r.meta.dirty@,
            r.server == server,
            r.compression == file.compression,
            r.root == file.root,
            data_read(r.data, path@, r.root@),
            r.data.selected_section == 0,
            r.data.field_selected == 0,
            r.data.raw_selected == 0,
            r.skin_state is NotRequested,
            player_doc_wf(r),
    {
        let data = PlayerData::from_root(path, &file.root);
        PlayerDocument {
            meta: DocumentMeta {
                id,
                kind: DocumentKind::Player,
                path: path.copy(),
                title: file_name(path),
                source,
                dirty: DirtyState::clean(),
            },
            server,
            compression: file.compression,
            root: file.root,
            data,
            skin_state: SkinState::NotRequested,
        }
    }

    /// Reads the view again from the document's tree.
    pub fn refresh(&self, document: &mut PlayerDocument)
        requires
            player_doc_wf(*old(document)),
        ensures
            refreshed(*old(document), *final(document)),
            final(document).root == old(document).root,
            final(document).meta == old(document).meta,
            player_doc_wf(*final(document)),
    {
        let preserved_section = document.data.selected_section;
        let preserved_field = document.data.field_selected;
        let preserved_selection = document.data.inventory.selection;
        let preserved_raw = document.data.raw_selected;
        let mut data = PlayerData::from_root(&document.meta.path, &document.root);
        data.selected_section = if preserved_section < 5 {
            preserved_section
        } else {
            5
        };
        data.field_selected = preserved_field;
        data.inventory.selection = preserved_selection;
        let last = if data.raw_entries.len() > 0 {
            data.raw_entries.len() - 1
        } else {
            0
        };
        data.raw_selected = if preserved_raw < last {
            preserved_raw
        } else {
            last
        };
        document.data = data;
    }

    /// Edits one field of the player from the text the user entered, then
    /// marks the document changed and reads the view again. `float_bits`
    /// and `double_bits` are the results of parsing `input` as an `f32` and
    /// an `f64`. On an error nothing changes.
    pub fn edit_field(
        &self,
        document: &mut PlayerDocument,
        field: PlayerField,
        input: &str,
        float_bits: Option<u32>,
        double_bits: Option<u64>,
    ) -> (r: Result<(), HydroxylError>)
        requires
            player_doc_wf(*old(document)),
        ensures
            match field_edit(
                old(document).root@,
                field,
                input@,
                float_bits,
                double_bits,
                selected_slot_of(old(document).data.inventory),
            ) {
                Ok(u) => {
                    &&& r is Ok
                    &&& final(document).root@ == u
                    &&& final(document).meta.dirty@
                    &&& final(document).meta == (DocumentMeta {
                        dirty: final(document).meta.dirty,
                        ..old(document).meta
                    })
                    &&& refreshed(*old(document), *final(document))
                },
                Err(e) => {
                    &&& r matches Err(x) && x@ == e
                    &&& final(document).root@ == old(document).root@
                    &&& final(document).meta == old(document).meta
                    &&& final(document).data == old(document).data
                },
            },
            player_doc_wf(*final(document)),
            distinct_names(old(document).root@) ==> distinct_names(final(document).root@),
    {
        let selected_slot = match document.data.inventory.selected_item() {
            Some(item) => Some(item.slot),
            None => None,
        };
        proof {
            if distinct_names(document.root@) {
                lemma_field_edit_distinct(document.root@, field, input@, float_bits, double_bits, selected_slot);
            }
            lemma_field_edit_height(
                document.root@,
                field,
                input@,
                float_bits,
                double_bits,
                selected_slot,
            );
        }
        apply_field(&mut document.root, field, input, float_bits, double_bits, selected_slot)?;
        document.meta.dirty.mark_dirty();
        self.refresh(document);
        Ok(())
    }

    /// Sets the count of the stack under the inventory cursor, in the
    /// tree's `Inventory` item for its slot.
    pub fn edit_inventory_count(&self, document: &mut PlayerDocument, input: &str) -> (r: Result<
        (),
        HydroxylError,
    >)
        requires
            player_doc_wf(*old(document)),
        ensures
            meets(
                field_edit(
                    old(document).root@,
                    PlayerField::InventoryCount,
                    input@,
                    None,
                    None,
                    selected_slot_of(old(document).data.inventory),
                ),
                old(document).root@,
                final(document).root@,
                r,
            ),
            final(document).meta == old(document).meta,
            final(document).data == old(document).data,
            player_doc_wf(*final(document)),
            distinct_names(old(document).root@) ==> distinct_names(final(document).root@),
    {
        let selected_slot = match document.data.inventory.selected_item() {
            Some(item) => Some(item.slot),
            None => None,
        };
        proof {
            if distinct_names(document.root@) {
                lemma_field_edit_distinct(document.root@, PlayerField::InventoryCount, input@, None, None, selected_slot);
            }
            lemma_field_edit_height(
                document.root@,
                PlayerField::InventoryCount,
                input@,
                None,
                None,
                selected_slot,
            );
        }
        slot_write(&mut document.root, selected_slot, "Count", input, true)
    }

    /// Sets the item id of the stack under the inventory cursor, in the
    /// tree's `Inventory` item for its slot.
    pub fn edit_inventory_id(&self, document: &mut PlayerDocument, input: &str) -> (r: Result<
        (),
        HydroxylError,
    >)
        requires
            player_doc_wf(*old(document)),
        ensures
            meets(
                field_edit(
                    old(document).root@,
                    PlayerField::InventoryId,
                    input@,
                    None,
                    None,
                    selected_slot_of(old(document).data.inventory),
                ),
                old(document).root@,
                final(document).root@,
                r,
            ),
            final(document).meta == old(document).meta,
            final(document).data == old(document).data,
            player_doc_wf(*final(document)),
            distinct_names(old(document).root@) ==> distinct_names(final(document).root@),
    {
        let selected_slot = match document.data.inventory.selected_item() {
            Some(item) => Some(item.slot),
            None => None,
        };
        proof {
            if distinct_names(document.root@) {
                lemma_field_edit_distinct(document.root@, PlayerField::InventoryId, input@, None, None, selected_slot);
            }
            lemma_field_edit_height(
                document.root@,
                PlayerField::InventoryId,
                input@,
                None,
                None,
                selected_slot,
            );
        }
        slot_write(&mut document.root, selected_slot, "id", input, false)
    }
}

// ---------------------------------------------------------------------------
// What the view reads back after an edit
// ---------------------------------------------------------------------------

proof fn lemma_get_one(u: NbtTree, key: Seq<char>)
    ensures
        tree_get(u, seq![Segment::Key(key)]) == field(u, key),
{
    let p = seq![Segment::Key(key)];
    assert(p.drop_first() =~= Seq::<Segment>::empty());
    if let Some(c) = crate::domain::nbt::edit::step(u, p[0]) {
        assert(tree_get(c, p.drop_first()) == Some(c));
    }
}

proof fn lemma_get_two(u: NbtTree, key: Seq<char>, i: nat)
    ensures
        tree_get(u, seq![Segment::Key(key), Segment::Index(i)]) == match field(u, key) {
            Some(NbtTree::List(l)) => if i < l.len() {
                Some(l[i as int])
            } else {
                None
            },
            _ => None,
        },
{
    let p = seq![Segment::Key(key), Segment::Index(i)];
    let q = p.drop_first();
    assert(q =~= seq![Segment::Index(i)]);
    assert(q.drop_first() =~= Seq::<Segment>::empty());
    if let Some(c) = crate::domain::nbt::edit::step(u, p[0]) {
        if let Some(d) = crate::domain::nbt::edit::step(c, q[0]) {
            assert(tree_get(d, q.drop_first()) == Some(d));
        }
        assert(tree_get(c, q) == match crate::domain::nbt::edit::step(c, q[0]) {
            Some(d) => tree_get(d, q.drop_first()),
            None => None,
        });
    }
}

proof fn lemma_top_reads(root: NbtTree, key: Seq<char>, t: NbtTree)
    ensures
        tree_set(root, seq![Segment::Key(key)], t) matches Some(u) ==> field(u, key) == Some(t),
{
    lemma_get_set(root, seq![Segment::Key(key)], t);
    if let Some(u) = tree_set(root, seq![Segment::Key(key)], t) {
        lemma_get_one(u, key);
    }
}

proof fn lemma_list_reads(root: NbtTree, key: Seq<char>, i: nat, t: NbtTree)
    ensures
        tree_set(root, seq![Segment::Key(key), Segment::Index(i)], t) matches Some(u) ==> (field(u, key) matches Some(
            NbtTree::List(l),
        ) && i < l.len() && l[i as int] == t),
{
    lemma_get_set(root, seq![Segment::Key(key), Segment::Index(i)], t);
    if let Some(u) = tree_set(root, seq![Segment::Key(key), Segment::Index(i)], t) {
        lemma_get_two(u, key, i);
    }
}

proof fn lemma_insert_reads(m: Seq<(Seq<char>, NbtTree)>, k: Seq<char>, v: NbtTree)
    ensures
        field(NbtTree::Compound(compound_insert(m, k, v)), k) == Some(v),
{
    lemma_key_index(m, k);
    let m2 = compound_insert(m, k, v);
    match key_index(m, k) {
        Some(i) => {
            assert forall|j: int| 0 <= j < i implies m2[j].0 != k by {
                assert(m2[j] == m[j]);
            }
            crate::domain::nbt::value::lemma_key_index_unique(m2, k, i);
        },
        None => {
            assert forall|j: int| 0 <= j < m.len() implies m2[j].0 != k by {
                assert(m2[j] == m[j]);
            }
            crate::domain::nbt::value::lemma_key_index_unique(m2, k, m.len() as int);
        },
    }
}

proof fn lemma_ability_reads(root: NbtTree, key: Seq<char>, v: NbtTree)
    ensures
        ability_outcome(root, key, v) matches Ok(u) ==> (field(u, "abilities"@) matches Some(a) && a is Compound
            && field(a, key) == Some(v)),
{
    if root is Compound {
        if let Some(NbtTree::Compound(a)) = field(root, "abilities"@) {
            let c = NbtTree::Compound(compound_insert(a, key, v));
            lemma_top_reads(root, "abilities"@, c);
            lemma_get_set(root, seq![Segment::Key("abilities"@)], c);
            assert(seq![Segment::Key("abilities"@)].drop_first() =~= Seq::<Segment>::empty());
            assert(tree_get(root, seq![Segment::Key("abilities"@)]) is Some) by {
                lemma_get_one(root, "abilities"@);
            }
            lemma_insert_reads(a, key, v);
        }
    }
}

/// After an edit succeeds, the player view read from the new tree shows the
/// value entered: the number for a numeric field (as the tag it is stored
/// with), the text for the dimension, and for a flag whether the text was
/// truthy.
pub proof fn lemma_edit_reads_back(
    root: NbtTree,
    field: PlayerField,
    input: Seq<char>,
    float_bits: Option<u32>,
    double_bits: Option<u64>,
    selected_slot: Option<i32>,
)
    ensures
        field_edit(root, field, input, float_bits, double_bits, selected_slot) matches Ok(u) ==> match field {
            PlayerField::Health => attributes_of(u).health == Numeric::Float(float_bits.unwrap()),
            PlayerField::FoodLevel => attributes_of(u).food_level as int == parse_int_in(
                input,
                i32::MIN as int,
                i32::MAX as int,
            ).unwrap(),
            PlayerField::FoodSaturation => attributes_of(u).food_saturation == Numeric::Float(
                float_bits.unwrap(),
            ),
            PlayerField::XpLevel => attributes_of(u).xp_level as int == parse_int_in(
                input,
                i32::MIN as int,
                i32::MAX as int,
            ).unwrap(),
            PlayerField::XpProgress => attributes_of(u).xp_progress == Numeric::Float(float_bits.unwrap()),
            PlayerField::XpTotal => attributes_of(u).xp_total as int == parse_int_in(
                input,
                i32::MIN as int,
                i32::MAX as int,
            ).unwrap(),
            PlayerField::Air => attributes_of(u).air as int == parse_int_in(
                input,
                i16::MIN as int,
                i16::MAX as int,
            ).unwrap(),
            PlayerField::PosX => position_of(u).x == Numeric::Double(double_bits.unwrap()),
            PlayerField::PosY => position_of(u).y == Numeric::Double(double_bits.unwrap()),
            PlayerField::PosZ => position_of(u).z == Numeric::Double(double_bits.unwrap()),
            PlayerField::Yaw => position_of(u).yaw == Numeric::Float(float_bits.unwrap()),
            PlayerField::Pitch => position_of(u).pitch == Numeric::Float(float_bits.unwrap()),
            PlayerField::Dimension => position_of(u).dimension == input,
            PlayerField::Flying => abilities_of(u).flying == bool_text(input),
            PlayerField::MayFly => abilities_of(u).may_fly == bool_text(input),
            PlayerField::Instabuild => abilities_of(u).instabuild == bool_text(input),
            PlayerField::Invulnerable => abilities_of(u).invulnerable == bool_text(input),
            PlayerField::MayBuild => abilities_of(u).may_build == bool_text(input),
            PlayerField::WalkSpeed => abilities_of(u).walk_speed == Numeric::Float(float_bits.unwrap()),
            PlayerField::FlySpeed => abilities_of(u).fly_speed == Numeric::Float(float_bits.unwrap()),
            _ => true,
        },
{
    let flag = NbtTree::Byte(if bool_text(input) { 1 } else { 0 });
    match field {
        PlayerField::Health => if let Some(b) = float_bits {
            lemma_top_reads(root, "Health"@, NbtTree::Float(b));
        },
        PlayerField::FoodSaturation => if let Some(b) = float_bits {
            lemma_top_reads(root, "foodSaturationLevel"@, NbtTree::Float(b));
        },
        PlayerField::XpProgress => if let Some(b) = float_bits {
            lemma_top_reads(root, "XpP"@, NbtTree::Float(b));
        },
        PlayerField::FoodLevel => if let Some(v) = parse_int_in(input, i32::MIN as int, i32::MAX as int) {
            lemma_top_reads(root, "foodLevel"@, NbtTree::Int(v as i32));
        },
        PlayerField::XpLevel => if let Some(v) = parse_int_in(input, i32::MIN as int, i32::MAX as int) {
            lemma_top_reads(root, "XpLevel"@, NbtTree::Int(v as i32));
        },
        PlayerField::XpTotal => if let Some(v) = parse_int_in(input, i32::MIN as int, i32::MAX as int) {
            lemma_top_reads(root, "XpTotal"@, NbtTree::Int(v as i32));
        },
        PlayerField::Air => if let Some(v) = parse_int_in(input, i16::MIN as int, i16::MAX as int) {
            lemma_top_reads(root, "Air"@, NbtTree::Short(v as i16));
        },
        PlayerField::PosX => if let Some(b) = double_bits {
            lemma_list_reads(root, "Pos"@, 0, NbtTree::Double(b));
        },
        PlayerField::PosY => if let Some(b) = double_bits {
            lemma_list_reads(root, "Pos"@, 1, NbtTree::Double(b));
        },
        PlayerField::PosZ => if let Some(b) = double_bits {
            lemma_list_reads(root, "Pos"@, 2, NbtTree::Double(b));
        },
        PlayerField::Yaw => if let Some(b) = float_bits {
            lemma_list_reads(root, "Rotation"@, 0, NbtTree::Float(b));
        },
        PlayerField::Pitch => if let Some(b) = float_bits {
            lemma_list_reads(root, "Rotation"@, 1, NbtTree::Float(b));
        },
        PlayerField::Dimension => {
            lemma_top_reads(root, "Dimension"@, NbtTree::String(input));
        },
        PlayerField::Flying => lemma_ability_reads(root, "flying"@, flag),
        PlayerField::MayFly => lemma_ability_reads(root, "mayfly"@, flag),
        PlayerField::Instabuild => lemma_ability_reads(root, "instabuild"@, flag),
        PlayerField::Invulnerable => lemma_ability_reads(root, "invulnerable"@, flag),
        PlayerField::MayBuild => lemma_ability_reads(root, "mayBuild"@, flag),
        PlayerField::WalkSpeed => if let Some(b) = float_bits {
            lemma_ability_reads(root, "walkSpeed"@, NbtTree::Float(b));
        },
        PlayerField::FlySpeed => if let Some(b) = float_bits {
            lemma_ability_reads(root, "flySpeed"@, NbtTree::Float(b));
        },
        _ => {},
    }
}

} // verus!
