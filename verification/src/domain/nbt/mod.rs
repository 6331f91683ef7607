//! Named Binary Tag values, paths into them, and editing.
pub mod value;
pub mod path;
pub mod edit;
pub mod convert;
