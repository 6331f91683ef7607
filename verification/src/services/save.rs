//! Saving documents and taking backups.
use vstd::prelude::*;
use crate::persistence::backup::{backup_path, backup_path_of};
use crate::persistence::dirty::DirtyState;
use crate::session::document::{Document, doc_meta, with_meta, DocumentMeta};
use crate::util::error::HydroxylError;
use crate::util::fs::FilePath;

verus! {

/// How a document is written to its file.
#[derive(Debug, Clone, Copy, PartialEq, Eq, Structural)]
pub enum SaveFormat {
    /// Not written at all (a workspace's home view).
    Skip,
    /// Its NBT tree, framed as it was read.
    Nbt,
    /// Its JSON tree, pretty-printed with a final newline.
    Json,
}

/// The format a document is written in.
pub open spec fn save_format_of(d: Document) -> SaveFormat {
    match d {
        Document::Workspace(_) => SaveFormat::Skip,
        Document::Player(_) => SaveFormat::Nbt,
        Document::Nbt(_) => SaveFormat::Nbt,
        Document::Stats(_) => SaveFormat::Json,
        Document::Advancements(_) => SaveFormat::Json,
    }
}

/// Saves documents.
pub struct SaveService;

impl SaveService {
    /// How `document` is written.
    pub fn format(&self, document: &Document) -> (r: SaveFormat)
        ensures
            r == save_format_of(*document),
    {
        match document {
            Document::Workspace(_) => SaveFormat::Skip,
            Document::Player(_) => SaveFormat::Nbt,
            Document::Nbt(_) => SaveFormat::Nbt,
            Document::Stats(_) => SaveFormat::Json,
            Document::Advancements(_) => SaveFormat::Json,
        }
    }

    /// Finishes saving `document`, given the outcome of writing it in its
    /// format: a written document has no unsaved changes any more; a failed
    /// write is reported and changes nothing. A home view is never written
    /// and always saves.
    pub fn save(&self, document: &mut Document, written: Result<(), HydroxylError>) -> (r: Result<
        (),
        HydroxylError,
    >)
        ensures
            save_format_of(*old(document)) == SaveFormat::Skip ==> r is Ok && *final(document)
                == *old(document),
            save_format_of(*old(document)) != SaveFormat::Skip ==> match written {
                Ok(()) => r is Ok && !doc_meta(*final(document)).dirty@ && *final(document) == with_meta(
                    *old(document),
                    DocumentMeta { dirty: doc_meta(*final(document)).dirty, ..doc_meta(*old(document)) },
                ),
                Err(e) => r == Err::<(), HydroxylError>(e) && *final(document) == *old(document),
            },
    {
        if self.format(document) == SaveFormat::Skip {
            return Ok(());
        }
        match written {
            Ok(()) => {
                let meta = document.meta_mut();
                meta.dirty.mark_clean();
                Ok(())
            },
            Err(e) => Err(e),
        }
    }
}

/// Names backups.
pub struct BackupService;

impl BackupService {
    /// The path that the backup of `path`, taken at `timestamp` (seconds
    /// since the Unix epoch), is copied to.
    pub fn create_backup(&self, path: &FilePath, timestamp: u64) -> (r: FilePath)
        ensures
            r@ == backup_path_of(path@, timestamp),
    {
        backup_path(path, timestamp)
    }
}

} // verus!
