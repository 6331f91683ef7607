//! A server (or world) opened as a workspace: its files and what the home
//! view lists of them.
use vstd::prelude::*;
use crate::domain::files::kind::FileKind;
use crate::text::concat;
use crate::util::fs::{FilePath, PathModel};

verus! {

/// The lists of the home view.
#[derive(Debug, Clone, Copy, PartialEq, Eq, Structural)]
pub enum WorkspacePane {
    Players,
    Stats,
    Advancements,
}

/// The number of panes.
pub const WORKSPACE_PANE_COUNT: usize = 3;

/// The pane at position `i` of the list of all panes.
pub open spec fn pane_at(i: int) -> WorkspacePane {
    if i == 0 {
        WorkspacePane::Players
    } else if i == 1 {
        WorkspacePane::Stats
    } else {
        WorkspacePane::Advancements
    }
}

impl WorkspacePane {
    /// The pane at position `i` of the list of all panes
    /// (`WorkspacePane::ALL[i]`).
    pub fn from_index(i: usize) -> (r: WorkspacePane)
        requires
            i < WORKSPACE_PANE_COUNT,
        ensures
            r == pane_at(i as int),
    {
        if i == 0 {
            WorkspacePane::Players
        } else if i == 1 {
            WorkspacePane::Stats
        } else {
            WorkspacePane::Advancements
        }
    }

    /// The pane's heading.
    pub fn title(self) -> (r: &'static str)
        ensures
            r@ == (match self {
                WorkspacePane::Players => "Player Data"@,
                WorkspacePane::Stats => "Stats"@,
                WorkspacePane::Advancements => "Advancements"@,
            }),
    {
        proof {
            reveal_strlit("Player Data");
            reveal_strlit("Stats");
            reveal_strlit("Advancements");
        }
        match self {
            WorkspacePane::Players => "Player Data",
            WorkspacePane::Stats => "Stats",
            WorkspacePane::Advancements => "Advancements",
        }
    }
}

impl Default for WorkspacePane {
    fn default() -> (r: WorkspacePane)
        ensures
            r == WorkspacePane::Players,
    {
        WorkspacePane::Players
    }
}

/// Which pane is active and which row of each pane is selected.
#[derive(Debug, Clone, Copy, PartialEq, Eq, Structural)]
pub struct WorkspaceSelection {
    pub active_pane: WorkspacePane,
    pub player_index: usize,
    pub stats_index: usize,
    pub advancements_index: usize,
}

impl Default for WorkspaceSelection {
    fn default() -> (r: WorkspaceSelection)
        ensures
            r.active_pane == WorkspacePane::Players,
            r.player_index == 0,
            r.stats_index == 0,
            r.advancements_index == 0,
    {
        WorkspaceSelection {
            active_pane: WorkspacePane::Players,
            player_index: 0,
            stats_index: 0,
            advancements_index: 0,
        }
    }
}

/// One row of a pane: a file and what is known of it.
#[derive(Debug, PartialEq, Eq)]
pub struct WorkspaceEntry {
    pub label: String,
    pub path: FilePath,
    pub kind: FileKind,
    /// The player's UUID, for a player file whose stem is one.
    pub uuid: Option<u128>,
    /// The player's name, once it has been looked up.
    pub resolved_name: Option<String>,
}

/// The text a row shows: a player file with a known name shows
/// `name (label)`, any other row its label.
pub open spec fn display_label_of(
    label: Seq<char>,
    kind: FileKind,
    resolved_name: Option<Seq<char>>,
) -> Seq<char> {
    match resolved_name {
        Some(name) => if kind == FileKind::PlayerData {
            name + " ("@ + label + ")"@
        } else {
            label
        },
        None => label,
    }
}

impl WorkspaceEntry {
    /// A copy of the row.
    pub fn copy(&self) -> (r: WorkspaceEntry)
        ensures
            r.label@ == self.label@,
            r.path@ == self.path@,
            r.kind == self.kind,
            r.uuid == self.uuid,
            r.resolved_name == self.resolved_name,
    {
        WorkspaceEntry {
            label: self.label.clone(),
            path: self.path.copy(),
            kind: self.kind,
            uuid: self.uuid,
            resolved_name: match &self.resolved_name {
                Some(n) => Some(n.clone()),
                None => None,
            },
        }
    }

    /// The text the row shows.
    pub fn display_label(&self) -> (r: String)
        ensures
            r@ == display_label_of(
                self.label@,
                self.kind,
                match self.resolved_name {
                    Some(n) => Some(n@),
                    None => None,
                },
            ),
    {
        match &self.resolved_name {
            Some(name) => {
                if self.kind == FileKind::PlayerData {
                    let a = concat(name.as_str(), " (");
                    let b = concat(a.as_str(), self.label.as_str());
                    proof {
                        reveal_strlit(" (");
                        reveal_strlit(")");
                    }
                    concat(b.as_str(), ")")
                } else {
                    self.label.clone()
                }
            },
            None => self.label.clone(),
        }
    }
}

/// A loaded server or world: where it lives, its settings, and its player,
/// stats and advancements files with the rows listing them.
#[derive(Debug, PartialEq, Eq)]
pub struct ServerContext {
    pub root: FilePath,
    pub world_path: FilePath,
    pub level_name: String,
    pub online_mode: bool,
    pub player_files: Vec<FilePath>,
    pub stats_files: Vec<FilePath>,
    pub advancements_files: Vec<FilePath>,
    pub player_entries: Vec<WorkspaceEntry>,
    pub stats_entries: Vec<WorkspaceEntry>,
    pub advancements_entries: Vec<WorkspaceEntry>,
}

impl Default for ServerContext {
    fn default() -> (r: ServerContext)
        ensures
            r.root@ == (PathModel { absolute: false, parts: Seq::empty() }),
            r.world_path@ == (PathModel { absolute: false, parts: Seq::empty() }),
            r.level_name@ == Seq::<char>::empty(),
            !r.online_mode,
            r.player_files@.len() == 0,
            r.stats_files@.len() == 0,
            r.advancements_files@.len() == 0,
            r.player_entries@.len() == 0,
            r.stats_entries@.len() == 0,
            r.advancements_entries@.len() == 0,
    {
        let r = ServerContext {
            root: FilePath { absolute: false, parts: Vec::new() },
            world_path: FilePath { absolute: false, parts: Vec::new() },
            level_name: String::new(),
            online_mode: false,
            player_files: Vec::new(),
            stats_files: Vec::new(),
            advancements_files: Vec::new(),
            player_entries: Vec::new(),
            stats_entries: Vec::new(),
            advancements_entries: Vec::new(),
        };
        assert(r.root@.parts =~= Seq::<Seq<char>>::empty());
        assert(r.world_path@.parts =~= Seq::<Seq<char>>::empty());
        r
    }
}

} // verus!
