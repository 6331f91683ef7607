//! Open documents: their common metadata and the state of each kind.
use vstd::prelude::*;
use crate::domain::files::source::DocumentSource;
use crate::domain::json::edit::JsonEntry;
use crate::domain::json::value::JsonValue;
use crate::domain::minecraft::advancements::AdvancementsFile;
use crate::domain::minecraft::player::PlayerData;
use crate::domain::minecraft::profile::SkinState;
use crate::domain::minecraft::server::{ServerContext, WorkspaceEntry, WorkspacePane, WorkspaceSelection};
use crate::domain::minecraft::stats::StatsFile;
use crate::domain::nbt::edit::NbtEntry;
use crate::domain::nbt::value::NbtValue;
use crate::persistence::dirty::DirtyState;
use crate::persistence::nbt_codec::CompressionKind;
use crate::session::tab::DocumentId;
use crate::util::fs::FilePath;

verus! {

#[derive(Debug, Clone, Copy, PartialEq, Eq, Structural)]
pub enum DocumentKind {
    Workspace,
    Player,
    Nbt,
    Stats,
    Advancements,
}

/// What every document has: its identifier, kind, file, title, how it was
/// reached and whether it has unsaved changes.
#[derive(Debug, PartialEq, Eq)]
pub struct DocumentMeta {
    pub id: DocumentId,
    pub kind: DocumentKind,
    pub path: FilePath,
    pub title: String,
    pub source: DocumentSource,
    pub dirty: DirtyState,
}

impl DocumentMeta {
    /// Whether the document has unsaved changes.
    pub fn is_dirty(&self) -> (r: bool)
        ensures
            r == self.dirty@,
    {
        self.dirty.is_dirty()
    }
}

/// The home view of a server or world.
#[derive(Debug, PartialEq, Eq)]
pub struct WorkspaceDocument {
    pub meta: DocumentMeta,
    pub server: ServerContext,
    pub selection: WorkspaceSelection,
}

/// The rows of the active pane.
pub open spec fn active_entries_of(d: WorkspaceDocument) -> Seq<WorkspaceEntry> {
    match d.selection.active_pane {
        WorkspacePane::Players => d.server.player_entries@,
        WorkspacePane::Stats => d.server.stats_entries@,
        WorkspacePane::Advancements => d.server.advancements_entries@,
    }
}

/// The selected row of the active pane.
pub open spec fn selected_index_of(s: WorkspaceSelection) -> usize {
    match s.active_pane {
        WorkspacePane::Players => s.player_index,
        WorkspacePane::Stats => s.stats_index,
        WorkspacePane::Advancements => s.advancements_index,
    }
}

/// A selection with the active pane's row set to `i`.
pub open spec fn with_selected_index(s: WorkspaceSelection, i: usize) -> WorkspaceSelection {
    match s.active_pane {
        WorkspacePane::Players => WorkspaceSelection { player_index: i, ..s },
        WorkspacePane::Stats => WorkspaceSelection { stats_index: i, ..s },
        WorkspacePane::Advancements => WorkspaceSelection { advancements_index: i, ..s },
    }
}

impl WorkspaceDocument {
    /// The rows of the active pane.
    pub fn active_entries(&self) -> (r: &Vec<WorkspaceEntry>)
        ensures
            r@ == active_entries_of(*self),
    {
        match self.selection.active_pane {
            WorkspacePane::Players => &self.server.player_entries,
            WorkspacePane::Stats => &self.server.stats_entries,
            WorkspacePane::Advancements => &self.server.advancements_entries,
        }
    }

    /// The selected row number of the active pane.
    pub fn selected_index(&self) -> (r: usize)
        ensures
            r == selected_index_of(self.selection),
    {
        match self.selection.active_pane {
            WorkspacePane::Players => self.selection.player_index,
            WorkspacePane::Stats => self.selection.stats_index,
            WorkspacePane::Advancements => self.selection.advancements_index,
        }
    }

    /// The selected row number of the active pane, to be changed.
    pub fn selected_index_mut(&mut self) -> (r: &mut usize)
        ensures
            *r == selected_index_of(old(self).selection),
            final(self).meta == old(self).meta,
            final(self).server == old(self).server,
            final(self).selection == with_selected_index(old(self).selection, *final(r)),
    {
        match self.selection.active_pane {
            WorkspacePane::Players => &mut self.selection.player_index,
            WorkspacePane::Stats => &mut self.selection.stats_index,
            WorkspacePane::Advancements => &mut self.selection.advancements_index,
        }
    }

    /// The selected row of the active pane, if it exists.
    pub fn selected_entry(&self) -> (r: Option<&WorkspaceEntry>)
        ensures
            selected_index_of(self.selection) < active_entries_of(*self).len() ==> r == Some(
                &active_entries_of(*self)[selected_index_of(self.selection) as int],
            ),
            selected_index_of(self.selection) >= active_entries_of(*self).len() ==> r is None,
    {
        let entries = self.active_entries();
        let i = self.selected_index();
        if i < entries.len() {
            Some(&entries[i])
        } else {
            None
        }
    }
}

/// A player file: its tree, what the player view reads from it, and the
/// workspace it was opened from, if any.
#[derive(Debug)]
pub struct PlayerDocument {
    pub meta: DocumentMeta,
    pub server: Option<ServerContext>,
    pub compression: CompressionKind,
    pub root: NbtValue,
    pub data: PlayerData,
    pub skin_state: SkinState,
}

/// Any NBT file, shown as rows.
#[derive(Debug)]
pub struct NbtDocument {
    pub meta: DocumentMeta,
    pub compression: CompressionKind,
    pub root: NbtValue,
    pub entries: Vec<NbtEntry>,
    pub selected: usize,
}

/// A stats file.
#[derive(Debug)]
pub struct StatsDocument {
    pub meta: DocumentMeta,
    pub typed: StatsFile,
    pub root: JsonValue,
    pub entries: Vec<JsonEntry>,
    pub selected: usize,
}

/// An advancements file.
#[derive(Debug)]
pub struct AdvancementsDocument {
    pub meta: DocumentMeta,
    pub typed: AdvancementsFile,
    pub root: JsonValue,
    pub entries: Vec<JsonEntry>,
    pub selected: usize,
}

/// An open document of any kind.
#[derive(Debug)]
pub enum Document {
    Workspace(WorkspaceDocument),
    Player(PlayerDocument),
    Nbt(NbtDocument),
    Stats(StatsDocument),
    Advancements(AdvancementsDocument),
}

/// A document's metadata.
pub open spec fn doc_meta(d: Document) -> DocumentMeta {
    match d {
        Document::Workspace(v) => v.meta,
        Document::Player(v) => v.meta,
        Document::Nbt(v) => v.meta,
        Document::Stats(v) => v.meta,
        Document::Advancements(v) => v.meta,
    }
}

/// The document with its metadata replaced.
pub open spec fn with_meta(d: Document, m: DocumentMeta) -> Document {
    match d {
        Document::Workspace(v) => Document::Workspace(WorkspaceDocument { meta: m, ..v }),
        Document::Player(v) => Document::Player(PlayerDocument { meta: m, ..v }),
        Document::Nbt(v) => Document::Nbt(NbtDocument { meta: m, ..v }),
        Document::Stats(v) => Document::Stats(StatsDocument { meta: m, ..v }),
        Document::Advancements(v) => Document::Advancements(AdvancementsDocument { meta: m, ..v }),
    }
}

impl Document {
    /// The document's metadata.
    pub fn meta(&self) -> (r: &DocumentMeta)
        ensures
            *r == doc_meta(*self),
    {
        match self {
            Document::Workspace(v) => &v.meta,
            Document::Player(v) => &v.meta,
            Document::Nbt(v) => &v.meta,
            Document::Stats(v) => &v.meta,
            Document::Advancements(v) => &v.meta,
        }
    }

    /// The document's metadata, to be changed.
    pub fn meta_mut(&mut self) -> (r: &mut DocumentMeta)
        ensures
            *r == doc_meta(*old(self)),
            *final(self) == with_meta(*old(self), *final(r)),
    {
        match self {
            Document::Workspace(v) => &mut v.meta,
            Document::Player(v) => &mut v.meta,
            Document::Nbt(v) => &mut v.meta,
            Document::Stats(v) => &mut v.meta,
            Document::Advancements(v) => &mut v.meta,
        }
    }

    /// The document's title.
    pub fn title(&self) -> (r: &str)
        ensures
            r@ == doc_meta(*self).title@,
    {
        self.meta().title.as_str()
    }

    /// Whether the document has unsaved changes.
    pub fn is_dirty(&self) -> (r: bool)
        ensures
            r == doc_meta(*self).dirty@,
    {
        self.meta().is_dirty()
    }

    /// The document's identifier.
    pub fn id(&self) -> (r: DocumentId)
        ensures
            r == doc_meta(*self).id,
    {
        self.meta().id
    }
}

} // verus!
