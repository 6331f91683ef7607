//! What the program was asked to open at launch.
use vstd::prelude::*;
use crate::util::fs::FilePath;

verus! {

/// The first thing to open.
#[derive(Debug, PartialEq, Eq)]
pub enum OpenTarget {
    Home,
    World(FilePath),
    Player(FilePath),
    Nbt(FilePath),
    Stats(FilePath),
    Advancements(FilePath),
}

/// Where a world keeps its player files: `playerdata/`, `stats/` and
/// `advancements/` (legacy), or under `players/` (new).
#[derive(Debug, Clone, Copy, PartialEq, Eq, Structural)]
pub enum WorldFileStructure {
    Legacy,
    New,
}

/// The launch settings.
#[derive(Debug, PartialEq, Eq)]
pub struct LaunchConfig {
    pub target: OpenTarget,
    pub world_file_structure: WorldFileStructure,
}

impl Default for LaunchConfig {
    fn default() -> (r: LaunchConfig)
        ensures
            r.target == OpenTarget::Home,
            r.world_file_structure == WorldFileStructure::Legacy,
    {
        LaunchConfig { target: OpenTarget::Home, world_file_structure: WorldFileStructure::Legacy }
    }
}

/// What the whole application was started with.
#[derive(Debug)]
pub struct AppContext {
    pub launch_config: LaunchConfig,
}

impl AppContext {
    pub fn new(launch_config: LaunchConfig) -> (r: AppContext)
        ensures
            r.launch_config == launch_config,
    {
        AppContext { launch_config }
    }
}

} // verus!
