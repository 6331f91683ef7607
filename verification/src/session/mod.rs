//! The editor session: what was asked for at launch, open documents, tabs,
//! messages, key bindings and edit targets.
pub mod context;
pub mod tab;
pub mod message;
pub mod document;
pub mod action;
pub mod state;
pub mod router;
pub mod event;
