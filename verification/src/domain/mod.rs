//! The domain model: NBT documents, Minecraft player data and file kinds.
pub mod files;
pub mod minecraft;
pub mod nbt;
pub mod json;
