//! The player inventory as it is laid out on screen: 36 main cells (three
//! rows of storage above the hotbar), four armor cells and the offhand, and
//! a cursor that walks between them.
use vstd::prelude::*;
use crate::domain::minecraft::item::{ItemStack, ItemModel};
use crate::text::{
    chars_of, string_from_chars, after_last, after_last_chars, concat, int_dec, i64_to_text,
    sub_chars,
};

verus! {

pub const MAIN_SLOT_COUNT: usize = 36;
pub const ARMOR_SLOT_COUNT: usize = 4;
pub const HOTBAR_VISUAL_START: usize = 27;
pub const OFFHAND_SLOT_ID: i32 = -106;

/// One cell: the NBT slot id it shows and the stack in it, if any.
#[derive(Debug, PartialEq)]
pub struct InventoryCell {
    pub slot_id: i32,
    pub item: Option<ItemStack>,
}

/// The model of a cell.
pub struct CellModel {
    pub slot_id: i32,
    pub item: Option<ItemModel>,
}

impl View for InventoryCell {
    type V = CellModel;

    open spec fn view(&self) -> CellModel {
        CellModel {
            slot_id: self.slot_id,
            item: match self.item {
                Some(it) => Some(it@),
                None => None,
            },
        }
    }
}

/// The model of the whole inventory.
pub struct InventoryView {
    pub main: Seq<CellModel>,
    pub armor: Seq<CellModel>,
    pub offhand: CellModel,
    pub selection: InventorySelection,
}

pub open spec fn cells_view(cells: Seq<InventoryCell>) -> Seq<CellModel> {
    Seq::new(cells.len(), |i: int| cells[i]@)
}

impl View for InventoryModel {
    type V = InventoryView;

    open spec fn view(&self) -> InventoryView {
        InventoryView {
            main: cells_view(self.main@),
            armor: cells_view(self.armor@),
            offhand: self.offhand@,
            selection: self.selection,
        }
    }
}

/// The layout with every cell empty and the cursor on the first hotbar cell.
pub open spec fn empty_inventory() -> InventoryView {
    InventoryView {
        main: Seq::new(36, |i: int| CellModel { slot_id: main_slot_id(i) as i32, item: None }),
        armor: Seq::new(4, |i: int| CellModel { slot_id: armor_slot_id(i) as i32, item: None }),
        offhand: CellModel { slot_id: OFFHAND_SLOT_ID, item: None },
        selection: InventorySelection { region: InventoryRegion::Main, index: 27 },
    }
}

/// The inventory with a stack put where its slot is shown.
pub open spec fn place_model(inv: InventoryView, item: ItemModel) -> InventoryView {
    match main_index(item.slot as int) {
        Some(i) => InventoryView {
            main: inv.main.update(i, CellModel { slot_id: inv.main[i].slot_id, item: Some(item) }),
            ..inv
        },
        None => match armor_index(item.slot as int) {
            Some(i) => InventoryView {
                armor: inv.armor.update(
                    i,
                    CellModel { slot_id: inv.armor[i].slot_id, item: Some(item) },
                ),
                ..inv
            },
            None => if item.slot == OFFHAND_SLOT_ID {
                InventoryView {
                    offhand: CellModel { slot_id: inv.offhand.slot_id, item: Some(item) },
                    ..inv
                }
            } else {
                inv
            },
        },
    }
}

/// The first `width` characters of `s` (none for a width of 0).
pub open spec fn truncated(s: Seq<char>, width: nat) -> Seq<char> {
    if width == 0 {
        Seq::empty()
    } else if width < s.len() {
        s.take(width as int)
    } else {
        s
    }
}

/// The first `width` characters of `input`.
pub fn truncate(input: &str, width: usize) -> (r: String)
    ensures
        r@ == truncated(input@, width as nat),
{
    if width == 0 {
        return String::new();
    }
    let c = chars_of(input);
    if width < c.len() {
        assert(c@.subrange(0, width as int) =~= c@.take(width as int));
        string_from_chars(&sub_chars(&c, 0, width))
    } else {
        input.to_owned()
    }
}

impl InventoryCell {
    /// A cell without a stack.
    pub fn empty(slot_id: i32) -> (r: InventoryCell)
        ensures
            r.slot_id == slot_id,
            r.item is None,
    {
        InventoryCell { slot_id, item: None }
    }

    pub fn is_empty(&self) -> (r: bool)
        ensures
            r == self.item is None,
    {
        self.item.is_none()
    }

    /// The stack size, 0 for an empty cell.
    pub fn count(&self) -> (r: i32)
        ensures
            r == (match self.item {
                Some(it) => it.count,
                None => 0,
            }),
    {
        match &self.item {
            Some(it) => it.count,
            None => 0,
        }
    }

    /// The item id without its namespace (the text after the last `:`),
    /// cut to `width` characters; `Empty` for an empty cell.
    pub fn short_label(&self, width: usize) -> (r: String)
        ensures
            r@ == (match self.item {
                Some(it) => truncated(after_last(it.item_id@, ':'), width as nat),
                None => "Empty"@,
            }),
    {
        match &self.item {
            None => "Empty".to_owned(),
            Some(it) => {
                let id = chars_of(it.item_id.as_str());
                let leaf = string_from_chars(&after_last_chars(&id, ':'));
                truncate(leaf.as_str(), width)
            },
        }
    }

    /// `-` for an empty cell, else `x` and the count.
    pub fn quantity_label(&self) -> (r: String)
        ensures
            r@ == (match self.item {
                Some(it) => seq!['x'] + int_dec(it.count as int),
                None => "-"@,
            }),
    {
        if self.is_empty() {
            "-".to_owned()
        } else {
            let n = i64_to_text(self.count() as i64);
            let r = concat("x", n.as_str());
            proof {
                reveal_strlit("x");
            }
            r
        }
    }
}

#[derive(Debug, Clone, Copy, PartialEq, Eq, Structural)]
pub enum InventoryRegion {
    Main,
    Armor,
    Offhand,
}

/// The cursor: a region and a position in it.
#[derive(Debug, Clone, Copy, PartialEq, Eq, Structural)]
pub struct InventorySelection {
    pub region: InventoryRegion,
    pub index: usize,
}

impl Default for InventorySelection {
    /// The first hotbar cell.
    fn default() -> (r: InventorySelection)
        ensures
            r == (InventorySelection { region: InventoryRegion::Main, index: HOTBAR_VISUAL_START }),
    {
        InventorySelection { region: InventoryRegion::Main, index: HOTBAR_VISUAL_START }
    }
}

#[derive(Debug, PartialEq)]
pub struct InventoryModel {
    pub main: Vec<InventoryCell>,
    pub armor: Vec<InventoryCell>,
    pub offhand: InventoryCell,
    pub selection: InventorySelection,
}

// ---------------------------------------------------------------------------
// Slot ids
// ---------------------------------------------------------------------------

/// The NBT slot id shown in main cell `index`: the three storage rows hold
/// slots 9..=35 and the hotbar row (cells 27..=35) holds slots 0..=8.
pub open spec fn main_slot_id(index: int) -> int {
    if 0 <= index <= 26 {
        index + 9
    } else if 27 <= index <= 35 {
        index - 27
    } else {
        0
    }
}

/// The main cell that shows NBT slot `slot_id`, if any.
pub open spec fn main_index(slot_id: int) -> Option<int> {
    if 9 <= slot_id <= 35 {
        Some(slot_id - 9)
    } else if 0 <= slot_id <= 8 {
        Some(27 + slot_id)
    } else {
        None
    }
}

/// The armor cell that shows NBT slot `slot_id`: helmet, chest, legs, boots.
pub open spec fn armor_index(slot_id: int) -> Option<int> {
    if slot_id == 103 {
        Some(0)
    } else if slot_id == 102 {
        Some(1)
    } else if slot_id == 101 {
        Some(2)
    } else if slot_id == 100 {
        Some(3)
    } else {
        None
    }
}

/// The NBT slot id of armor cell `index`.
pub open spec fn armor_slot_id(index: int) -> int {
    103 - index
}

pub fn main_slot_id_for_index(index: usize) -> (r: i32)
    ensures
        r as int == main_slot_id(index as int),
{
    if index <= 26 {
        index as i32 + 9
    } else if index <= 35 {
        (index - HOTBAR_VISUAL_START) as i32
    } else {
        0
    }
}

pub fn main_index_for_slot_id(slot_id: i32) -> (r: Option<usize>)
    ensures
        r matches Some(i) ==> main_index(slot_id as int) == Some(i as int),
        r is None ==> main_index(slot_id as int) is None,
{
    if 9 <= slot_id && slot_id <= 35 {
        Some((slot_id - 9) as usize)
    } else if 0 <= slot_id && slot_id <= 8 {
        Some(HOTBAR_VISUAL_START + slot_id as usize)
    } else {
        None
    }
}

pub fn armor_index_for_slot_id(slot_id: i32) -> (r: Option<usize>)
    ensures
        r matches Some(i) ==> armor_index(slot_id as int) == Some(i as int),
        r is None ==> armor_index(slot_id as int) is None,
{
    if slot_id == 103 {
        Some(0)
    } else if slot_id == 102 {
        Some(1)
    } else if slot_id == 101 {
        Some(2)
    } else if slot_id == 100 {
        Some(3)
    } else {
        None
    }
}

/// The short title of an equipment slot.
pub fn equipment_slot_title(slot_id: i32) -> (r: &'static str)
    ensures
        r@ == (if slot_id == 103 {
            "Helmet"@
        } else if slot_id == 102 {
            "Chest"@
        } else if slot_id == 101 {
            "Legs"@
        } else if slot_id == 100 {
            "Boots"@
        } else if slot_id == OFFHAND_SLOT_ID {
            "Hand"@
        } else {
            "Slot"@
        }),
{
    if slot_id == 103 {
        "Helmet"
    } else if slot_id == 102 {
        "Chest"
    } else if slot_id == 101 {
        "Legs"
    } else if slot_id == 100 {
        "Boots"
    } else if slot_id == OFFHAND_SLOT_ID {
        "Hand"
    } else {
        "Slot"
    }
}

/// The long label of an NBT slot.
pub open spec fn slot_label_text(slot: int) -> Seq<char> {
    if 0 <= slot <= 8 {
        "Hotbar "@ + int_dec(slot + 1)
    } else if 9 <= slot <= 35 {
        "Inventory "@ + int_dec(slot - 8)
    } else if slot == 100 {
        "Boots"@
    } else if slot == 101 {
        "Leggings"@
    } else if slot == 102 {
        "Chestplate"@
    } else if slot == 103 {
        "Helmet"@
    } else if slot == OFFHAND_SLOT_ID {
        "Offhand"@
    } else {
        "Slot "@ + int_dec(slot)
    }
}

pub fn slot_label(slot: i32) -> (r: String)
    ensures
        r@ == slot_label_text(slot as int),
{
    if 0 <= slot && slot <= 8 {
        concat("Hotbar ", i64_to_text(slot as i64 + 1).as_str())
    } else if 9 <= slot && slot <= 35 {
        concat("Inventory ", i64_to_text(slot as i64 - 8).as_str())
    } else if slot == 100 {
        "Boots".to_owned()
    } else if slot == 101 {
        "Leggings".to_owned()
    } else if slot == 102 {
        "Chestplate".to_owned()
    } else if slot == 103 {
        "Helmet".to_owned()
    } else if slot == OFFHAND_SLOT_ID {
        "Offhand".to_owned()
    } else {
        concat("Slot ", i64_to_text(slot as i64).as_str())
    }
}

// ---------------------------------------------------------------------------
// The cursor
// ---------------------------------------------------------------------------

/// A cursor that points at a cell: a main cell below 36, an armor cell
/// below 4, or the offhand.
pub open spec fn selection_valid(s: InventorySelection) -> bool {
    match s.region {
        InventoryRegion::Main => s.index < 36,
        InventoryRegion::Armor => s.index < 4,
        InventoryRegion::Offhand => true,
    }
}

/// The layout the model is built with: 36 main cells, 4 armor cells, and a
/// cursor on one of them.
pub open spec fn inventory_wf(m: InventoryModel) -> bool {
    &&& m.main@.len() == 36
    &&& m.armor@.len() == 4
    &&& selection_valid(m.selection)
}

pub open spec fn min_int(a: int, b: int) -> int {
    if a < b {
        a
    } else {
        b
    }
}

/// One step left: within a main row, from armor to the end of the matching
/// main row, from the offhand to the last main cell.
pub open spec fn step_left(s: InventorySelection) -> InventorySelection {
    match s.region {
        InventoryRegion::Main => if s.index % 9 > 0 {
            InventorySelection { index: (s.index - 1) as usize, ..s }
        } else {
            s
        },
        InventoryRegion::Armor => InventorySelection {
            region: InventoryRegion::Main,
            index: (min_int(s.index as int, 3) * 9 + 8) as usize,
        },
        InventoryRegion::Offhand => InventorySelection { region: InventoryRegion::Main, index: 35 },
    }
}

/// One step right: within a main row, and from the end of a row to the
/// matching armor cell.
pub open spec fn step_right(s: InventorySelection) -> InventorySelection {
    match s.region {
        InventoryRegion::Main => if s.index % 9 < 8 {
            InventorySelection { index: (s.index + 1) as usize, ..s }
        } else {
            InventorySelection {
                region: InventoryRegion::Armor,
                index: min_int(s.index as int / 9, 3) as usize,
            }
        },
        _ => s,
    }
}

/// One step up: a main row up, an armor cell up, from the offhand to boots.
pub open spec fn step_up(s: InventorySelection) -> InventorySelection {
    match s.region {
        InventoryRegion::Main => if s.index >= 9 {
            InventorySelection { index: (s.index - 9) as usize, ..s }
        } else {
            s
        },
        InventoryRegion::Armor => if s.index > 0 {
            InventorySelection { index: (s.index - 1) as usize, ..s }
        } else {
            s
        },
        InventoryRegion::Offhand => InventorySelection { region: InventoryRegion::Armor, index: 3 },
    }
}

/// One step down: a main row down while one exists, an armor cell down,
/// from boots to the offhand.
pub open spec fn step_down(s: InventorySelection, main_len: nat) -> InventorySelection {
    match s.region {
        InventoryRegion::Main => if s.index + 9 < main_len {
            InventorySelection { index: (s.index + 9) as usize, ..s }
        } else {
            s
        },
        InventoryRegion::Armor => if s.index < 3 {
            InventorySelection { index: (s.index + 1) as usize, ..s }
        } else {
            InventorySelection { region: InventoryRegion::Offhand, index: 0 }
        },
        InventoryRegion::Offhand => s,
    }
}

pub open spec fn steps_left(s: InventorySelection, n: nat) -> InventorySelection
    decreases n,
{
    if n == 0 {
        s
    } else {
        steps_left(step_left(s), (n - 1) as nat)
    }
}

pub open spec fn steps_right(s: InventorySelection, n: nat) -> InventorySelection
    decreases n,
{
    if n == 0 {
        s
    } else {
        steps_right(step_right(s), (n - 1) as nat)
    }
}

pub open spec fn steps_up(s: InventorySelection, n: nat) -> InventorySelection
    decreases n,
{
    if n == 0 {
        s
    } else {
        steps_up(step_up(s), (n - 1) as nat)
    }
}

pub open spec fn steps_down(s: InventorySelection, n: nat, main_len: nat) -> InventorySelection
    decreases n,
{
    if n == 0 {
        s
    } else {
        steps_down(step_down(s, main_len), (n - 1) as nat, main_len)
    }
}

/// Where `move_horizontal(delta)` leaves the cursor.
pub open spec fn moved_horizontally(s: InventorySelection, delta: int) -> InventorySelection {
    if delta > 0 {
        steps_right(s, delta as nat)
    } else {
        steps_left(s, (-delta) as nat)
    }
}

/// Where `move_vertical(delta)` leaves the cursor.
pub open spec fn moved_vertically(s: InventorySelection, delta: int, main_len: nat) -> InventorySelection {
    if delta > 0 {
        steps_down(s, delta as nat, main_len)
    } else {
        steps_up(s, (-delta) as nat)
    }
}

/// A single step keeps a valid cursor valid.
pub proof fn lemma_steps_keep_valid(s: InventorySelection)
    requires
        selection_valid(s),
    ensures
        selection_valid(step_left(s)),
        selection_valid(step_right(s)),
        selection_valid(step_up(s)),
        selection_valid(step_down(s, 36)),
{
}

pub proof fn lemma_steps_left_valid(s: InventorySelection, n: nat)
    requires
        selection_valid(s),
    ensures
        selection_valid(steps_left(s, n)),
    decreases n,
{
    if n > 0 {
        lemma_steps_keep_valid(s);
        lemma_steps_left_valid(step_left(s), (n - 1) as nat);
    }
}

pub proof fn lemma_steps_right_valid(s: InventorySelection, n: nat)
    requires
        selection_valid(s),
    ensures
        selection_valid(steps_right(s, n)),
    decreases n,
{
    if n > 0 {
        lemma_steps_keep_valid(s);
        lemma_steps_right_valid(step_right(s), (n - 1) as nat);
    }
}

pub proof fn lemma_steps_up_valid(s: InventorySelection, n: nat)
    requires
        selection_valid(s),
    ensures
        selection_valid(steps_up(s, n)),
    decreases n,
{
    if n > 0 {
        lemma_steps_keep_valid(s);
        lemma_steps_up_valid(step_up(s), (n - 1) as nat);
    }
}

pub proof fn lemma_steps_down_valid(s: InventorySelection, n: nat)
    requires
        selection_valid(s),
    ensures
        selection_valid(steps_down(s, n, 36)),
    decreases n,
{
    if n > 0 {
        lemma_steps_keep_valid(s);
        lemma_steps_down_valid(step_down(s, 36), (n - 1) as nat);
    }
}

impl InventoryModel {
    /// The empty layout: main cells with their slot ids, armor cells for
    /// slots 103, 102, 101, 100, the offhand (slot -106), and the cursor on
    /// the first hotbar cell.
    pub fn new_empty() -> (r: InventoryModel)
        ensures
            inventory_wf(r),
            r@ == empty_inventory(),
            forall|i: int| 0 <= i < 36 ==> #[trigger] r.main@[i] == InventoryCell::empty_spec(
                main_slot_id(i) as i32,
            ),
            forall|i: int| 0 <= i < 4 ==> #[trigger] r.armor@[i] == InventoryCell::empty_spec(
                armor_slot_id(i) as i32,
            ),
            r.offhand == InventoryCell::empty_spec(OFFHAND_SLOT_ID),
            r.selection == (InventorySelection { region: InventoryRegion::Main, index: 27 }),
    {
        let mut main: Vec<InventoryCell> = Vec::new();
        let mut i: usize = 0;
        while i < MAIN_SLOT_COUNT
            invariant
                i <= 36,
                main@.len() == i,
                forall|k: int| 0 <= k < i ==> #[trigger] main@[k] == InventoryCell::empty_spec(
                    main_slot_id(k) as i32,
                ),
            decreases 36 - i,
        {
            main.push(InventoryCell::empty(main_slot_id_for_index(i)));
            i = i + 1;
        }
        assert(cells_view(main@) =~= empty_inventory().main);
        let mut armor: Vec<InventoryCell> = Vec::new();
        armor.push(InventoryCell::empty(103));
        armor.push(InventoryCell::empty(102));
        armor.push(InventoryCell::empty(101));
        armor.push(InventoryCell::empty(100));
        assert(cells_view(armor@) =~= empty_inventory().armor);
        InventoryModel {
            main,
            armor,
            offhand: InventoryCell::empty(OFFHAND_SLOT_ID),
            selection: InventorySelection::default(),
        }
    }

    /// Puts a stack in the cell that shows its slot; a stack whose slot has
    /// no cell is dropped.
    pub fn place(&mut self, item: ItemStack)
        requires
            main_index(item.slot as int) matches Some(i) ==> i < old(self).main@.len(),
            armor_index(item.slot as int) matches Some(i) ==> i < old(self).armor@.len(),
        ensures
            final(self)@ == place_model(old(self)@, item@),
            final(self).selection == old(self).selection,
            final(self).main@.len() == old(self).main@.len(),
            final(self).armor@.len() == old(self).armor@.len(),
            match main_index(item.slot as int) {
                Some(i) => final(self).main@ == old(self).main@.update(
                    i,
                    InventoryCell { slot_id: old(self).main@[i].slot_id, item: Some(item) },
                ) && final(self).armor@ == old(self).armor@ && final(self).offhand == old(
                    self,
                ).offhand,
                None => match armor_index(item.slot as int) {
                    Some(i) => final(self).armor@ == old(self).armor@.update(
                        i,
                        InventoryCell { slot_id: old(self).armor@[i].slot_id, item: Some(item) },
                    ) && final(self).main@ == old(self).main@ && final(self).offhand == old(
                        self,
                    ).offhand,
                    None => final(self).main@ == old(self).main@ && final(self).armor@ == old(
                        self,
                    ).armor@ && if item.slot == OFFHAND_SLOT_ID {
                        final(self).offhand == (InventoryCell {
                            slot_id: old(self).offhand.slot_id,
                            item: Some(item),
                        })
                    } else {
                        final(self).offhand == old(self).offhand
                    },
                },
            },
    {
        let ghost before = self@;
        let ghost it = item@;
        if let Some(index) = main_index_for_slot_id(item.slot) {
            let slot_id = self.main[index].slot_id;
            self.main.set(index, InventoryCell { slot_id, item: Some(item) });
            assert(cells_view(self.main@) =~= before.main.update(
                index as int,
                CellModel { slot_id, item: Some(it) },
            ));
        } else if let Some(index) = armor_index_for_slot_id(item.slot) {
            let slot_id = self.armor[index].slot_id;
            self.armor.set(index, InventoryCell { slot_id, item: Some(item) });
            assert(cells_view(self.armor@) =~= before.armor.update(
                index as int,
                CellModel { slot_id, item: Some(it) },
            ));
        } else if item.slot == OFFHAND_SLOT_ID {
            self.offhand.item = Some(item);
        }
    }

    /// The cell under the cursor (a position past the end of its region
    /// means that region's last cell).
    pub fn selected_cell(&self) -> (r: &InventoryCell)
        requires
            self.selection.region is Main ==> self.main@.len() > 0,
            self.selection.region is Armor ==> self.armor@.len() > 0,
        ensures
            *r == (match self.selection.region {
                InventoryRegion::Main => self.main@[min_int(
                    self.selection.index as int,
                    self.main@.len() - 1,
                )],
                InventoryRegion::Armor => self.armor@[min_int(
                    self.selection.index as int,
                    self.armor@.len() - 1,
                )],
                InventoryRegion::Offhand => self.offhand,
            }),
    {
        match self.selection.region {
            InventoryRegion::Main => {
                let last = self.main.len() - 1;
                let i = if self.selection.index < last { self.selection.index } else { last };
                &self.main[i]
            },
            InventoryRegion::Armor => {
                let last = self.armor.len() - 1;
                let i = if self.selection.index < last { self.selection.index } else { last };
                &self.armor[i]
            },
            InventoryRegion::Offhand => &self.offhand,
        }
    }

    /// The stack under the cursor.
    pub fn selected_item(&self) -> (r: Option<&ItemStack>)
        requires
            self.selection.region is Main ==> self.main@.len() > 0,
            self.selection.region is Armor ==> self.armor@.len() > 0,
        ensures
            r == (match self.selected_cell_spec().item {
                Some(it) => Some(&it),
                None => None,
            }),
    {
        match &self.selected_cell().item {
            Some(it) => Some(it),
            None => None,
        }
    }

    /// The slot id of the cell under the cursor.
    pub fn selected_slot_id(&self) -> (r: i32)
        requires
            self.selection.region is Main ==> self.main@.len() > 0,
            self.selection.region is Armor ==> self.armor@.len() > 0,
        ensures
            r == self.selected_cell_spec().slot_id,
    {
        self.selected_cell().slot_id
    }

    /// The cell under the cursor.
    pub open spec fn selected_cell_spec(&self) -> InventoryCell {
        match self.selection.region {
            InventoryRegion::Main => self.main@[min_int(self.selection.index as int, self.main@.len() - 1)],
            InventoryRegion::Armor => self.armor@[min_int(
                self.selection.index as int,
                self.armor@.len() - 1,
            )],
            InventoryRegion::Offhand => self.offhand,
        }
    }

    /// How many cells hold a stack.
    pub fn occupied_count(&self) -> (r: usize)
        requires
            self.main@.len() + self.armor@.len() + 1 <= usize::MAX,
        ensures
            r == occupied(self.main@, self.main@.len() as nat) + occupied(
                self.armor@,
                self.armor@.len() as nat,
            ) + (if self.offhand.item is Some { 1int } else { 0int }),
    {
        let mut n: usize = 0;
        let mut i: usize = 0;
        while i < self.main.len()
            invariant
                i <= self.main@.len(),
                n == occupied(self.main@, i as nat),
                n <= i,
            decreases self.main.len() - i,
        {
            if !self.main[i].is_empty() {
                n = n + 1;
            }
            i = i + 1;
        }
        let mut m: usize = 0;
        let mut j: usize = 0;
        while j < self.armor.len()
            invariant
                j <= self.armor@.len(),
                m == occupied(self.armor@, j as nat),
                m <= j,
            decreases self.armor.len() - j,
        {
            if !self.armor[j].is_empty() {
                m = m + 1;
            }
            j = j + 1;
        }
        n + m + if self.offhand.is_empty() { 0 } else { 1 }
    }

    /// Moves the cursor `delta` steps right (or `-delta` steps left).
    pub fn move_horizontal(&mut self, delta: isize)
        requires
            inventory_wf(*old(self)),
        ensures
            final(self).selection == moved_horizontally(old(self).selection, delta as int),
            final(self).main == old(self).main,
            final(self).armor == old(self).armor,
            final(self).offhand == old(self).offhand,
            inventory_wf(*final(self)),
    {
        proof {
            lemma_steps_right_valid(self.selection, 0);
        }
        if delta > 0 {
            let n = delta as usize;
            let mut k: usize = 0;
            while k < n
                invariant
                    k <= n,
                    n as int == delta as int,
                    inventory_wf(*self),
                    self.selection == steps_right(old(self).selection, k as nat),
                    self.main == old(self).main,
                    self.armor == old(self).armor,
                    self.offhand == old(self).offhand,
                decreases n - k,
            {
                proof {
                    lemma_steps_right_split(old(self).selection, k as nat);
                    lemma_steps_keep_valid(self.selection);
                }
                self.step_right();
                k = k + 1;
            }
        } else {
            let n: usize = if delta == isize::MIN {
                (isize::MAX as usize) + 1
            } else {
                (-delta) as usize
            };
            let mut k: usize = 0;
            while k < n
                invariant
                    k <= n,
                    n as int == -(delta as int),
                    inventory_wf(*self),
                    self.selection == steps_left(old(self).selection, k as nat),
                    self.main == old(self).main,
                    self.armor == old(self).armor,
                    self.offhand == old(self).offhand,
                decreases n - k,
            {
                proof {
                    lemma_steps_left_split(old(self).selection, k as nat);
                    lemma_steps_keep_valid(self.selection);
                }
                self.step_left();
                k = k + 1;
            }
        }
    }

    /// Moves the cursor `delta` steps down (or `-delta` steps up).
    pub fn move_vertical(&mut self, delta: isize)
        requires
            inventory_wf(*old(self)),
        ensures
            final(self).selection == moved_vertically(old(self).selection, delta as int, 36),
            final(self).main == old(self).main,
            final(self).armor == old(self).armor,
            final(self).offhand == old(self).offhand,
            inventory_wf(*final(self)),
    {
        if delta > 0 {
            let n = delta as usize;
            let mut k: usize = 0;
            while k < n
                invariant
                    k <= n,
                    n as int == delta as int,
                    inventory_wf(*self),
                    self.selection == steps_down(old(self).selection, k as nat, 36),
                    self.main == old(self).main,
                    self.armor == old(self).armor,
                    self.offhand == old(self).offhand,
                decreases n - k,
            {
                proof {
                    lemma_steps_down_split(old(self).selection, k as nat, 36);
                    lemma_steps_keep_valid(self.selection);
                }
                self.step_down();
                k = k + 1;
            }
        } else {
            let n: usize = if delta == isize::MIN {
                (isize::MAX as usize) + 1
            } else {
                (-delta) as usize
            };
            let mut k: usize = 0;
            while k < n
                invariant
                    k <= n,
                    n as int == -(delta as int),
                    inventory_wf(*self),
                    self.selection == steps_up(old(self).selection, k as nat),
                    self.main == old(self).main,
                    self.armor == old(self).armor,
                    self.offhand == old(self).offhand,
                decreases n - k,
            {
                proof {
                    lemma_steps_up_split(old(self).selection, k as nat);
                    lemma_steps_keep_valid(self.selection);
                }
                self.step_up();
                k = k + 1;
            }
        }
    }

    fn step_left(&mut self)
        requires
            selection_valid(old(self).selection),
        ensures
            final(self).selection == step_left(old(self).selection),
            final(self).main == old(self).main,
            final(self).armor == old(self).armor,
            final(self).offhand == old(self).offhand,
    {
        match self.selection.region {
            InventoryRegion::Main => {
                let column = self.selection.index % 9;
                if column > 0 {
                    self.selection.index = self.selection.index - 1;
                }
            },
            InventoryRegion::Armor => {
                let row = if self.selection.index < 3 { self.selection.index } else { 3 };
                self.selection = InventorySelection { region: InventoryRegion::Main, index: row * 9 + 8 };
            },
            InventoryRegion::Offhand => {
                self.selection = InventorySelection { region: InventoryRegion::Main, index: 35 };
            },
        }
    }

    fn step_right(&mut self)
        requires
            selection_valid(old(self).selection),
        ensures
            final(self).selection == step_right(old(self).selection),
            final(self).main == old(self).main,
            final(self).armor == old(self).armor,
            final(self).offhand == old(self).offhand,
    {
        match self.selection.region {
            InventoryRegion::Main => {
                let column = self.selection.index % 9;
                let row = self.selection.index / 9;
                if column < 8 {
                    self.selection.index = self.selection.index + 1;
                } else {
                    self.selection = InventorySelection {
                        region: InventoryRegion::Armor,
                        index: if row < 3 { row } else { 3 },
                    };
                }
            },
            InventoryRegion::Armor | InventoryRegion::Offhand => {},
        }
    }

    fn step_up(&mut self)
        requires
            selection_valid(old(self).selection),
        ensures
            final(self).selection == step_up(old(self).selection),
            final(self).main == old(self).main,
            final(self).armor == old(self).armor,
            final(self).offhand == old(self).offhand,
    {
        match self.selection.region {
            InventoryRegion::Main => {
                if self.selection.index >= 9 {
                    self.selection.index = self.selection.index - 9;
                }
            },
            InventoryRegion::Armor => {
                if self.selection.index > 0 {
                    self.selection.index = self.selection.index - 1;
                }
            },
            InventoryRegion::Offhand => {
                self.selection = InventorySelection { region: InventoryRegion::Armor, index: 3 };
            },
        }
    }

    fn step_down(&mut self)
        requires
            inventory_wf(*old(self)),
        ensures
            final(self).selection == step_down(old(self).selection, 36),
            final(self).main == old(self).main,
            final(self).armor == old(self).armor,
            final(self).offhand == old(self).offhand,
    {
        match self.selection.region {
            InventoryRegion::Main => {
                if self.selection.index + 9 < self.main.len() {
                    self.selection.index = self.selection.index + 9;
                }
            },
            InventoryRegion::Armor => {
                if self.selection.index < 3 {
                    self.selection.index = self.selection.index + 1;
                } else {
                    self.selection = InventorySelection { region: InventoryRegion::Offhand, index: 0 };
                }
            },
            InventoryRegion::Offhand => {},
        }
    }
}

impl InventoryCell {
    pub open spec fn empty_spec(slot_id: i32) -> InventoryCell {
        InventoryCell { slot_id, item: None }
    }
}

impl Default for InventoryModel {
    fn default() -> (r: InventoryModel)
        ensures
            inventory_wf(r),
            r@ == empty_inventory(),
            forall|i: int| 0 <= i < 36 ==> #[trigger] r.main@[i] == InventoryCell::empty_spec(
                main_slot_id(i) as i32,
            ),
            forall|i: int| 0 <= i < 4 ==> #[trigger] r.armor@[i] == InventoryCell::empty_spec(
                armor_slot_id(i) as i32,
            ),
            r.offhand == InventoryCell::empty_spec(OFFHAND_SLOT_ID),
            r.selection == (InventorySelection { region: InventoryRegion::Main, index: 27 }),
    {
        InventoryModel::new_empty()
    }
}

/// How many of the first `k` cells hold a stack.
pub open spec fn occupied(cells: Seq<InventoryCell>, k: nat) -> int
    decreases k,
{
    if k == 0 || k > cells.len() {
        0
    } else {
        occupied(cells, (k - 1) as nat) + if cells[k - 1].item is Some { 1int } else { 0int }
    }
}

proof fn lemma_steps_right_split(s: InventorySelection, k: nat)
    ensures
        steps_right(s, k + 1) == step_right(steps_right(s, k)),
    decreases k,
{
    reveal_with_fuel(steps_right, 2);
    if k > 0 {
        lemma_steps_right_split(step_right(s), (k - 1) as nat);
    }
}

proof fn lemma_steps_left_split(s: InventorySelection, k: nat)
    ensures
        steps_left(s, k + 1) == step_left(steps_left(s, k)),
    decreases k,
{
    reveal_with_fuel(steps_left, 2);
    if k > 0 {
        lemma_steps_left_split(step_left(s), (k - 1) as nat);
    }
}

proof fn lemma_steps_up_split(s: InventorySelection, k: nat)
    ensures
        steps_up(s, k + 1) == step_up(steps_up(s, k)),
    decreases k,
{
    reveal_with_fuel(steps_up, 2);
    if k > 0 {
        lemma_steps_up_split(step_up(s), (k - 1) as nat);
    }
}

proof fn lemma_steps_down_split(s: InventorySelection, k: nat, main_len: nat)
    ensures
        steps_down(s, k + 1, main_len) == step_down(steps_down(s, k, main_len), main_len),
    decreases k,
{
    reveal_with_fuel(steps_down, 2);
    if k > 0 {
        lemma_steps_down_split(step_down(s, main_len), (k - 1) as nat, main_len);
    }
}

// ---------------------------------------------------------------------------
// Laws of the layout and of the cursor
// ---------------------------------------------------------------------------

/// Main cells and slot ids correspond one to one: each of the 36 cells
/// shows the slot that maps back to it, and each slot 0..=35 is shown in
/// the cell that maps back to it; the four armor cells likewise show slots
/// 103 down to 100.
pub proof fn lemma_slot_mapping_roundtrip()
    ensures
        forall|i: int| 0 <= i < 36 ==> main_index(#[trigger] main_slot_id(i)) == Some(i),
        forall|s: int| 0 <= s <= 35 ==> ((#[trigger] main_index(s)) matches Some(i) && 0 <= i < 36
            && main_slot_id(i) == s),
        forall|i: int| 0 <= i < 4 ==> armor_index(#[trigger] armor_slot_id(i)) == Some(i),
{
}

/// Steps in opposite directions undo each other wherever the first step
/// moves within the layout: left after right (in a main row, and back from
/// armor), right after left, up after down and down after up.
pub proof fn lemma_steps_undo(s: InventorySelection)
    requires
        selection_valid(s),
    ensures
        s.region is Main && s.index % 9 < 8 ==> step_left(step_right(s)) == s,
        s.region is Main && s.index % 9 > 0 ==> step_right(step_left(s)) == s,
        s.region is Armor ==> step_right(step_left(s)) == s,
        s.region is Main && s.index + 9 < 36 ==> step_up(step_down(s, 36)) == s,
        s.region is Main && s.index >= 9 ==> step_down(step_up(s), 36) == s,
        s.region is Armor && s.index < 3 ==> step_up(step_down(s, 36)) == s,
        s.region is Armor && s.index > 0 ==> step_down(step_up(s), 36) == s,
{
    if s.region is Armor {
        let l = step_left(s);
        assert(min_int(s.index as int, 3) == s.index);
        assert((s.index * 9 + 8) / 9 == s.index) by (nonlinear_arith)
            requires
                s.index < 4,
        ;
        assert(((s.index * 9 + 8) % 9) == 8) by (nonlinear_arith)
            requires
                s.index < 4,
        ;
    }
}

/// Up undoes down and down undoes up wherever the first step moves the
/// cursor: within the main grid, along the armor column, and between the
/// boots and the offhand below them (the offhand cell is index 0). Left undoes right wherever right
/// moves (within a row, or from the end of a row to its armor cell), and
/// right undoes left wherever left moves, except from the offhand, which
/// left leaves for the last main cell.
pub proof fn lemma_moves_undo(s: InventorySelection)
    requires
        selection_valid(s),
    ensures
        step_down(s, 36) != s ==> step_up(step_down(s, 36)) == s,
        step_up(s) != s && !(s.region is Offhand && s.index != 0) ==> step_down(step_up(s), 36)
            == s,
        step_right(s) != s ==> step_left(step_right(s)) == s,
        step_left(s) != s && !(s.region is Offhand) ==> step_right(step_left(s)) == s,
{
    lemma_steps_undo(s);
    if s.region is Main && s.index % 9 == 8 {
        let k = s.index as int / 9;
        assert(0 <= k <= 3 && s.index == k * 9 + 8);
        assert(min_int(k, 3) == k);
    }
}

} // verus!
