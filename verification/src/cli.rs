//! The command line: what it holds and the launch settings it gives.
use vstd::prelude::*;
use crate::session::context::{LaunchConfig, OpenTarget, WorldFileStructure};
use crate::util::error::HydroxylError;
use crate::util::fs::FilePath;

verus! {

/// What to open at launch.
#[derive(Debug, PartialEq, Eq)]
pub enum CliCommand {
    /// A server root or world directory.
    World { path: FilePath },
    /// A single player `.dat` file.
    Player { path: FilePath },
    /// A standalone NBT file.
    Nbt { path: FilePath },
    /// A standalone stats JSON file.
    Stats { path: FilePath },
    /// A standalone advancements JSON file.
    Advancements { path: FilePath },
}

/// The parsed command line: the global `--new-file-structure` flag and the
/// optional command.
#[derive(Debug, PartialEq, Eq)]
pub struct Cli {
    pub new_file_structure: bool,
    pub command: Option<CliCommand>,
}

/// The target a command line names.
pub open spec fn target_of(command: Option<CliCommand>) -> OpenTarget {
    match command {
        Some(CliCommand::World { path }) => OpenTarget::World(path),
        Some(CliCommand::Player { path }) => OpenTarget::Player(path),
        Some(CliCommand::Nbt { path }) => OpenTarget::Nbt(path),
        Some(CliCommand::Stats { path }) => OpenTarget::Stats(path),
        Some(CliCommand::Advancements { path }) => OpenTarget::Advancements(path),
        None => OpenTarget::Home,
    }
}

/// Whether the target of `t` is `u`, paths compared by their models.
pub open spec fn same_target(t: OpenTarget, u: OpenTarget) -> bool {
    match (t, u) {
        (OpenTarget::Home, OpenTarget::Home) => true,
        (OpenTarget::World(a), OpenTarget::World(b)) => a@ == b@,
        (OpenTarget::Player(a), OpenTarget::Player(b)) => a@ == b@,
        (OpenTarget::Nbt(a), OpenTarget::Nbt(b)) => a@ == b@,
        (OpenTarget::Stats(a), OpenTarget::Stats(b)) => a@ == b@,
        (OpenTarget::Advancements(a), OpenTarget::Advancements(b)) => a@ == b@,
        _ => false,
    }
}

/// The launch settings of a command line: the command's target (the home
/// view without one) and the world file structure (new with the flag,
/// legacy without).
pub fn resolve(cli: &Cli) -> (r: Result<LaunchConfig, HydroxylError>)
    ensures
        r matches Ok(c) && same_target(c.target, target_of(cli.command)) && c.world_file_structure == (
        if cli.new_file_structure {
            WorldFileStructure::New
        } else {
            WorldFileStructure::Legacy
        }),
{
    let target = match &cli.command {
        Some(CliCommand::World { path }) => OpenTarget::World(path.copy()),
        Some(CliCommand::Player { path }) => OpenTarget::Player(path.copy()),
        Some(CliCommand::Nbt { path }) => OpenTarget::Nbt(path.copy()),
        Some(CliCommand::Stats { path }) => OpenTarget::Stats(path.copy()),
        Some(CliCommand::Advancements { path }) => OpenTarget::Advancements(path.copy()),
        None => OpenTarget::Home,
    };
    let world_file_structure = if cli.new_file_structure {
        WorldFileStructure::New
    } else {
        WorldFileStructure::Legacy
    };
    Ok(LaunchConfig { target, world_file_structure })
}

/// The number of startup targets a command line selects.
pub open spec fn selected_targets(cli: Cli) -> nat {
    if cli.command is Some {
        1
    } else {
        0
    }
}

/// Refuses a command line that selects more than one startup target.
/// (With a single optional command, at most one is ever selected.)
pub fn validate(cli: &Cli) -> (r: Result<(), HydroxylError>)
    ensures
        r is Ok <==> selected_targets(*cli) <= 1,
{
    let selected: usize = if cli.command.is_some() {
        1
    } else {
        0
    };
    if selected > 1 {
        return Err(HydroxylError::invalid_cli("choose only one startup target at a time"));
    }
    Ok(())
}

} // verus!
