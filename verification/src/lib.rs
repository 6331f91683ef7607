//! Hydroxyl: the verified core of a Minecraft server-files manager.
pub mod text;
pub mod domain;
pub mod util;
pub mod order;
pub mod session;
pub mod persistence;
pub mod services;
pub mod cli;
