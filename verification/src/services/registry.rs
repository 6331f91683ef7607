//! All the services of the editor, in one place.
use vstd::prelude::*;
use crate::services::workspace::WorkspaceService;
use crate::services::player::PlayerService;
use crate::services::nbt::NbtService;
use crate::services::stats::{StatsService, AdvancementsService};
use crate::services::save::{SaveService, BackupService};
use crate::services::skin::{SkinService, UpdateModel};

verus! {

/// The editor's services.
pub struct AppServices {
    pub workspace: WorkspaceService,
    pub player: PlayerService,
    pub nbt: NbtService,
    pub stats: StatsService,
    pub advancements: AdvancementsService,
    pub backup: BackupService,
    pub save: SaveService,
    pub skins: SkinService,
}

impl AppServices {
    /// The services, with no face known or being looked up.
    pub fn new() -> (r: AppServices)
        ensures
            r.skins.answers() == Map::<u128, UpdateModel>::empty(),
            r.skins.in_flight() == Set::<u128>::empty(),
    {
        AppServices {
            workspace: WorkspaceService,
            player: PlayerService,
            nbt: NbtService,
            stats: StatsService,
            advancements: AdvancementsService,
            backup: BackupService,
            save: SaveService,
            skins: SkinService::new(),
        }
    }
}

} // verus!
