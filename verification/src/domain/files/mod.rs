//! What kind of file a path names, and the player UUID in a file's name.
pub mod kind;
pub mod source;
pub mod detect;
pub mod naming;
