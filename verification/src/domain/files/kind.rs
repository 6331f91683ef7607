//! The kinds of file the editor opens.
use vstd::prelude::*;

verus! {

#[derive(Debug, Clone, Copy, PartialEq, Eq, Structural)]
pub enum FileKind {
    Workspace,
    PlayerData,
    Nbt,
    Stats,
    Advancements,
    Unknown,
}

impl Default for FileKind {
    fn default() -> (r: FileKind)
        ensures
            r == FileKind::Unknown,
    {
        FileKind::Unknown
    }
}

} // verus!
