//! Keeping documents on disk: change tracking, compression framing and
//! backup names.
pub mod dirty;
pub mod nbt_codec;
pub mod backup;
