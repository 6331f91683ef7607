//! The operations behind the editor: loading workspaces, opening, editing
//! and saving documents, and looking up player skins.
pub mod workspace;
pub mod player;
pub mod nbt;
pub mod stats;
pub mod document;
pub mod save;
pub mod skin;
pub mod registry;
