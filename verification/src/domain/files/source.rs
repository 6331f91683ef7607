//! How a document was reached.
use vstd::prelude::*;
use crate::util::fs::FilePath;

verus! {

/// Opened directly, or from a workspace rooted at `root`.
#[derive(Debug, PartialEq, Eq)]
pub enum DocumentSource {
    Direct,
    Workspace { root: FilePath },
}

impl DocumentSource {
    /// A copy of the source.
    pub fn copy(&self) -> (r: DocumentSource)
        ensures
            match (r, *self) {
                (DocumentSource::Direct, DocumentSource::Direct) => true,
                (DocumentSource::Workspace { root: a }, DocumentSource::Workspace { root: b }) => a@ == b@,
                _ => false,
            },
    {
        match self {
            DocumentSource::Direct => DocumentSource::Direct,
            DocumentSource::Workspace { root } => DocumentSource::Workspace { root: root.copy() },
        }
    }
}

} // verus!
