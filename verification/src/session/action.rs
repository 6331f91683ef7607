//! What the user asks for: actions and the targets of an edit.
use vstd::prelude::*;
use crate::domain::json::path::JsonPath;
use crate::domain::minecraft::player::PlayerSection;
use crate::domain::nbt::path::NbtPath;
use crate::session::tab::DocumentId;

verus! {

/// The value being edited.
#[derive(Debug, PartialEq, Eq)]
#[allow(inconsistent_fields)]
pub enum EditTarget {
    PlayerField { document_id: DocumentId, field: PlayerField },
    NbtValue { document_id: DocumentId, path: NbtPath },
    JsonValue { document_id: DocumentId, path: JsonPath },
}

/// The fields of the player view that can be edited.
#[derive(Debug, Clone, Copy, PartialEq, Eq, Structural)]
pub enum PlayerField {
    Health,
    FoodLevel,
    FoodSaturation,
    XpLevel,
    XpProgress,
    XpTotal,
    Air,
    PosX,
    PosY,
    PosZ,
    Yaw,
    Pitch,
    Dimension,
    Flying,
    MayFly,
    Instabuild,
    Invulnerable,
    MayBuild,
    WalkSpeed,
    FlySpeed,
    InventoryCount,
    InventoryId,
    RawSection(PlayerSection),
}

/// One user action.
#[derive(Debug, Clone, Copy, PartialEq, Eq, Structural)]
pub enum Action {
    NextTab,
    PreviousTab,
    FocusNext,
    MoveUp,
    MoveDown,
    MoveLeft,
    MoveRight,
    SaveActive,
    RequestQuit,
    CloseActiveTab,
    StartEdit,
    ConfirmEdit,
    CancelEdit,
    InputChar(char),
    Backspace,
    OpenSelected,
    Noop,
}

} // verus!
