//! Status messages.
use vstd::prelude::*;

verus! {

#[derive(Debug, Clone, Copy, PartialEq, Eq, Structural)]
pub enum MessageLevel {
    Info,
    Warning,
    Error,
}

/// A status message and its level.
#[derive(Debug, PartialEq, Eq)]
pub struct Message {
    pub level: MessageLevel,
    pub text: String,
}

impl Message {
    /// An informational message.
    pub fn info(text: &str) -> (r: Message)
        ensures
            r.level == MessageLevel::Info,
            r.text@ == text@,
    {
        Message { level: MessageLevel::Info, text: text.to_owned() }
    }

    /// A warning.
    pub fn warning(text: &str) -> (r: Message)
        ensures
            r.level == MessageLevel::Warning,
            r.text@ == text@,
    {
        Message { level: MessageLevel::Warning, text: text.to_owned() }
    }

    /// An error message.
    pub fn error(text: &str) -> (r: Message)
        ensures
            r.level == MessageLevel::Error,
            r.text@ == text@,
    {
        Message { level: MessageLevel::Error, text: text.to_owned() }
    }
}

} // verus!
