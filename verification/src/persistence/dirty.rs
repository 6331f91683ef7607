//! Whether a document holds changes that are not saved yet.
use vstd::prelude::*;

verus! {

/// A document's unsaved-changes flag.
#[derive(Debug, Clone, Copy, PartialEq, Eq, Structural)]
pub struct DirtyState {
    dirty: bool,
}

impl View for DirtyState {
    type V = bool;

    closed spec fn view(&self) -> bool {
        self.dirty
    }
}

impl DirtyState {
    /// A state with no unsaved changes.
    pub fn clean() -> (r: DirtyState)
        ensures
            !r@,
    {
        DirtyState { dirty: false }
    }

    /// Records that the document changed.
    pub fn mark_dirty(&mut self)
        ensures
            final(self)@,
    {
        self.dirty = true;
    }

    /// Records that the document was saved.
    pub fn mark_clean(&mut self)
        ensures
            !final(self)@,
    {
        self.dirty = false;
    }

    /// Whether there are unsaved changes.
    pub fn is_dirty(self) -> (r: bool)
        ensures
            r == self@,
    {
        self.dirty
    }
}

impl Default for DirtyState {
    fn default() -> (r: DirtyState)
        ensures
            !r@,
    {
        DirtyState::clean()
    }
}

} // verus!
