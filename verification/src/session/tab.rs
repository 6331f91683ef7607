//! Tabs and the identifiers of documents and tabs.
use vstd::prelude::*;

verus! {

/// The identifier of an open document.
#[derive(Debug, Clone, Copy, PartialEq, Eq, Structural)]
pub struct DocumentId(pub usize);

/// The identifier of a tab.
#[derive(Debug, Clone, Copy, PartialEq, Eq, Structural)]
pub struct TabId(pub usize);

/// What a tab shows: the document it belongs to, by kind.
#[derive(Debug, Clone, Copy, PartialEq, Eq, Structural)]
pub enum TabKind {
    Home(DocumentId),
    Player(DocumentId),
    Nbt(DocumentId),
    Stats(DocumentId),
    Advancements(DocumentId),
}

/// The document a tab shows.
pub open spec fn tab_document(k: TabKind) -> DocumentId {
    match k {
        TabKind::Home(id) => id,
        TabKind::Player(id) => id,
        TabKind::Nbt(id) => id,
        TabKind::Stats(id) => id,
        TabKind::Advancements(id) => id,
    }
}

impl TabKind {
    /// The document the tab shows.
    pub fn document(self) -> (r: DocumentId)
        ensures
            r == tab_document(self),
    {
        match self {
            TabKind::Home(id) => id,
            TabKind::Player(id) => id,
            TabKind::Nbt(id) => id,
            TabKind::Stats(id) => id,
            TabKind::Advancements(id) => id,
        }
    }
}

/// One tab: its identifier, its title and what it shows.
#[derive(Debug, PartialEq, Eq)]
pub struct TabState {
    pub id: TabId,
    pub title: String,
    pub kind: TabKind,
}

} // verus!
