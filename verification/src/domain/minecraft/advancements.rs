//! The typed reading of an advancements file.
use vstd::prelude::*;
use crate::domain::json::value::JsonValue;

verus! {

/// The progress of one advancement: whether it is done, its criteria, and
/// any other members.
#[derive(Debug, PartialEq)]
pub struct AdvancementProgress {
    pub done: bool,
    pub criteria: Vec<(String, JsonValue)>,
    pub extra: Vec<(String, JsonValue)>,
}

impl Default for AdvancementProgress {
    fn default() -> (r: AdvancementProgress)
        ensures
            !r.done,
            r.criteria@.len() == 0,
            r.extra@.len() == 0,
    {
        AdvancementProgress { done: false, criteria: Vec::new(), extra: Vec::new() }
    }
}

/// An advancements file: each advancement's progress by its id, in
/// ascending id order.
pub type AdvancementsFile = Vec<(String, AdvancementProgress)>;

} // verus!
