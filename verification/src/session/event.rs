//! What the editor reacts to.
use vstd::prelude::*;
use crate::services::skin::SkinUpdate;
use crate::session::router::KeyEvent;

verus! {

/// One event: a key press, a clock tick, or the result of a face lookup.
#[derive(Debug)]
pub enum AppEvent {
    Key(KeyEvent),
    Tick,
    SkinFetched(SkinUpdate),
}

} // verus!
