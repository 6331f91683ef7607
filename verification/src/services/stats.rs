//! Opening, refreshing and editing stats and advancements documents.
//!
//! The typed reading of a document (`typed`) is produced by the JSON
//! codec where the document's tree is read; these functions take it as
//! given.
use vstd::prelude::*;
use crate::domain::files::source::DocumentSource;
use crate::domain::json::edit::{
    flatten_json, json_flat, json_entries_model, json_height_fits, set_json_scalar_from_string,
    json_edit_outcome, lemma_json_edit_height, json_distinct,
};
use crate::domain::json::value::JsonValue;
use crate::domain::minecraft::advancements::AdvancementsFile;
use crate::domain::minecraft::stats::StatsFile;
use crate::persistence::dirty::DirtyState;
use crate::services::nbt::clamp_selected;
use crate::session::document::{StatsDocument, AdvancementsDocument, DocumentMeta, DocumentKind};
use crate::session::tab::DocumentId;
use crate::util::fs::{FilePath, file_name, file_name_of};

verus! {

/// Opens, refreshes and edits stats documents.
pub struct StatsService;

impl StatsService {
    /// The document for a stats file read from `path`, with its typed
    /// reading.
    pub fn open(
        &self,
        id: DocumentId,
        path: &FilePath,
        source: DocumentSource,
        root: JsonValue,
        typed: StatsFile,
    ) -> (r: StatsDocument)
        requires
            json_height_fits(root@),
        ensures
            r.meta.id == id,
            r.meta.kind == DocumentKind::Stats,
            r.meta.path@ == path@,
            r.meta.title@ == (match file_name_of(path@) {
                Some(n) => n,
                None => Seq::empty(),
            }),
            r.meta.source == source,
            !r.meta.dirty@,
            r.typed == typed,
            r.root == root,
            json_entries_model(r.entries@) == json_flat(r.root@, Seq::empty(), 0, "root"@),
            r.selected == 0,
    {
        let entries = flatten_json(&root);
        StatsDocument {
            meta: DocumentMeta {
                id,
                kind: DocumentKind::Stats,
                path: path.copy(),
                title: file_name(path),
                source,
                dirty: DirtyState::clean(),
            },
            typed,
            entries,
            root,
            selected: 0,
        }
    }

    /// Takes the typed reading of the current tree and lists the rows
    /// again, keeping the selected row where it still exists.
    pub fn refresh(&self, document: &mut StatsDocument, typed: StatsFile)
        requires
            json_height_fits(old(document).root@),
        ensures
            final(document).typed == typed,
            json_entries_model(final(document).entries@) == json_flat(
                final(document).root@,
                Seq::empty(),
                0,
                "root"@,
            ),
            final(document).selected == clamp_selected(
                old(document).selected as int,
                final(document).entries@.len() as int,
            ),
            final(document).root == old(document).root,
            final(document).meta == old(document).meta,
    {
        document.typed = typed;
        document.entries = flatten_json(&document.root);
        let n = document.entries.len();
        let last = if n > 0 {
            n - 1
        } else {
            0
        };
        if document.selected >= last {
            document.selected = last;
        }
    }

    /// Replaces the scalar of the selected row from `input` (see
    /// `set_json_scalar_from_string`; `parsed_f64` is the result of parsing
    /// it as an `f64`); when that changes the document it is marked
    /// changed and its rows are listed again. Returns whether it changed,
    /// so that the typed reading can be taken again.
    pub fn edit_selected(&self, document: &mut StatsDocument, input: &str, parsed_f64: Option<u64>) -> (r:
        bool)
        requires
            json_height_fits(old(document).root@),
        ensures
            json_height_fits(final(document).root@),
            json_distinct(old(document).root@) ==> json_distinct(final(document).root@),
            old(document).selected >= old(document).entries@.len() ==> !r && *final(document)
                == *old(document),
            old(document).selected < old(document).entries@.len() ==> match json_edit_outcome(
                old(document).root@,
                old(document).entries@[old(document).selected as int].path@,
                input@,
                parsed_f64,
            ) {
                Some(u) => {
                    &&& r
                    &&& final(document).root@ == u
                    &&& final(document).meta.dirty@
                    &&& final(document).meta == (DocumentMeta {
                        dirty: final(document).meta.dirty,
                        ..old(document).meta
                    })
                    &&& final(document).typed == old(document).typed
                    &&& json_entries_model(final(document).entries@) == json_flat(
                        u,
                        Seq::empty(),
                        0,
                        "root"@,
                    )
                    &&& final(document).selected == clamp_selected(
                        old(document).selected as int,
                        final(document).entries@.len() as int,
                    )
                },
                None => !r && final(document).root@ == old(document).root@ && final(document).meta
                    == old(document).meta && final(document).entries == old(document).entries
                    && final(document).selected == old(document).selected,
            },
    {
        if document.selected < document.entries.len() {
            let path = document.entries[document.selected].path.copy();
            proof {
                lemma_json_edit_height(document.root@, path@, input@, parsed_f64);
            }
            if set_json_scalar_from_string(&mut document.root, &path, input, parsed_f64) {
                document.meta.dirty.mark_dirty();
                document.entries = flatten_json(&document.root);
                let n = document.entries.len();
                let last = if n > 0 {
                    n - 1
                } else {
                    0
                };
                if document.selected >= last {
                    document.selected = last;
                }
                return true;
            }
        }
        false
    }
}

/// Opens advancements documents.
pub struct AdvancementsService;

impl AdvancementsService {
    /// The document for an advancements file read from `path`, with its
    /// typed reading.
    pub fn open(
        &self,
        id: DocumentId,
        path: &FilePath,
        source: DocumentSource,
        root: JsonValue,
        typed: AdvancementsFile,
    ) -> (r: AdvancementsDocument)
        requires
            json_height_fits(root@),
        ensures
            r.meta.id == id,
            r.meta.kind == DocumentKind::Advancements,
            r.meta.path@ == path@,
            r.meta.title@ == (match file_name_of(path@) {
                Some(n) => n,
                None => Seq::empty(),
            }),
            r.meta.source == source,
            !r.meta.dirty@,
            r.typed == typed,
            r.root == root,
            json_entries_model(r.entries@) == json_flat(r.root@, Seq::empty(), 0, "root"@),
            r.selected == 0,
    {
        let entries = flatten_json(&root);
        AdvancementsDocument {
            meta: DocumentMeta {
                id,
                kind: DocumentKind::Advancements,
                path: path.copy(),
                title: file_name(path),
                source,
                dirty: DirtyState::clean(),
            },
            typed,
            entries,
            root,
            selected: 0,
        }
    }
}

} // verus!
