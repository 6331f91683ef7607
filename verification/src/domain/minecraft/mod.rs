//! Minecraft player data: inventory, attributes, position, abilities,
//! identity, and the files of a server.
pub mod item;
pub mod inventory;
pub mod attributes;
pub mod abilities;
pub mod position;
pub mod profile;
pub mod player;
pub mod server;
pub mod stats;
pub mod advancements;
