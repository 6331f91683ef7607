//! JSON documents (stats and advancements): the value tree, paths into it,
//! flattening into rows and editing a scalar from text.
pub mod value;
pub mod path;
pub mod edit;
