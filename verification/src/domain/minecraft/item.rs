//! An item stack in a player's inventory.
use vstd::prelude::*;
use crate::domain::nbt::value::{NbtValue, NbtTree};

verus! {

/// One stack: the slot it sits in, its item id, how many, its damage and
/// its extra tag data.
#[derive(Debug, PartialEq)]
pub struct ItemStack {
    pub slot: i32,
    pub item_id: String,
    pub count: i32,
    pub damage: Option<i32>,
    pub tag: Option<NbtValue>,
}

/// The model of a stack.
pub struct ItemModel {
    pub slot: i32,
    pub item_id: Seq<char>,
    pub count: i32,
    pub damage: Option<i32>,
    pub tag: Option<NbtTree>,
}

impl View for ItemStack {
    type V = ItemModel;

    open spec fn view(&self) -> ItemModel {
        ItemModel {
            slot: self.slot,
            item_id: self.item_id@,
            count: self.count,
            damage: self.damage,
            tag: match self.tag {
                Some(t) => Some(t@),
                None => None,
            },
        }
    }
}

impl Default for ItemStack {
    fn default() -> (r: ItemStack)
        ensures
            r.slot == 0,
            r.item_id@ == Seq::<char>::empty(),
            r.count == 0,
            r.damage is None,
            r.tag is None,
    {
        ItemStack { slot: 0, item_id: String::new(), count: 0, damage: None, tag: None }
    }
}

impl ItemStack {
    /// The item id, or `Empty` for a stack without one.
    pub fn title(&self) -> (r: &str)
        ensures
            r@ == (if self.item_id@.len() == 0 { "Empty"@ } else { self.item_id@ }),
    {
        if self.item_id.as_str().is_empty() {
            "Empty"
        } else {
            self.item_id.as_str()
        }
    }
}

} // verus!
