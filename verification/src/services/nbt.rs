//! Opening, refreshing and editing generic NBT documents.
use vstd::prelude::*;
use crate::domain::files::source::DocumentSource;
use crate::domain::nbt::edit::{
    flatten, flat, entries_model, height_fits, set_scalar_from_string, edit_outcome, distinct_names,
    lemma_edit_outcome_height,
};
use crate::domain::nbt::value::NbtValue;
use crate::persistence::dirty::DirtyState;
use crate::persistence::nbt_codec::NbtFile;
use crate::session::document::{NbtDocument, DocumentMeta, DocumentKind};
use crate::session::tab::DocumentId;
use crate::util::error::{HydroxylError, ErrorModel};
use crate::util::fs::{FilePath, file_name, file_name_of};

verus! {

/// What an NBT document keeps true: its tree's rows can be numbered.
pub open spec fn nbt_doc_wf(d: NbtDocument) -> bool {
    height_fits(d.root@)
}

/// The row kept selected after the rows change: the old one, or the last
/// row when there are fewer now.
pub open spec fn clamp_selected(selected: int, rows: int) -> int {
    let last = if rows > 0 {
        rows - 1
    } else {
        0
    };
    if selected < last {
        selected
    } else {
        last
    }
}

/// Opens, refreshes and edits generic NBT documents.
pub struct NbtService;

impl NbtService {
    /// The document for an NBT file read from `path`.
    pub fn open(&self, id: DocumentId, path: &FilePath, source: DocumentSource, file: NbtFile) -> (r:
        NbtDocument)
        requires
            height_fits(file.root@),
        ensures
            r.meta.id == id,
            r.meta.kind == DocumentKind::Nbt,
            r.meta.path@ == path@,
            r.meta.title@ == (match file_name_of(path@) {
                Some(n) => n,
                None => Seq::empty(),
            }),
            r.meta.source == source,
            !r.meta.dirty@,
            r.compression == file.compression,
            r.root == file.root,
            entries_model(r.entries@) == flat(r.root@, Seq::empty(), 0, "root"@),
            r.selected == 0,
            nbt_doc_wf(r),
    {
        let entries = flatten(&file.root);
        NbtDocument {
            meta: DocumentMeta {
                id,
                kind: DocumentKind::Nbt,
                path: path.copy(),
                title: file_name(path),
                source,
                dirty: DirtyState::clean(),
            },
            compression: file.compression,
            entries,
            root: file.root,
            selected: 0,
        }
    }

    /// Lists the rows of the tree again, keeping the selected row where
    /// it still exists.
    pub fn refresh(&self, document: &mut NbtDocument)
        requires
            nbt_doc_wf(*old(document)),
        ensures
            entries_model(final(document).entries@) == flat(final(document).root@, Seq::empty(), 0, "root"@),
            final(document).selected == clamp_selected(
                old(document).selected as int,
                final(document).entries@.len() as int,
            ),
            final(document).root == old(document).root,
            final(document).meta == old(document).meta,
            final(document).compression == old(document).compression,
    {
        document.entries = flatten(&document.root);
        let n = document.entries.len();
        let last = if n > 0 {
            n - 1
        } else {
            0
        };
        if document.selected >= last {
            document.selected = last;
        }
    }

    /// Replaces the scalar of the selected row with the value `input`
    /// denotes (`float_bits` and `double_bits` are the results of parsing
    /// it as an `f32` and an `f64`), marks the document changed and lists
    /// the rows again. Without a selected row nothing happens; on an error
    /// nothing changes.
    pub fn edit_scalar(
        &self,
        document: &mut NbtDocument,
        input: &str,
        float_bits: Option<u32>,
        double_bits: Option<u64>,
    ) -> (r: Result<(), HydroxylError>)
        requires
            nbt_doc_wf(*old(document)),
        ensures
            nbt_doc_wf(*final(document)),
            distinct_names(old(document).root@) ==> distinct_names(final(document).root@),
            old(document).selected >= old(document).entries@.len() ==> r is Ok && *final(document)
                == *old(document),
            old(document).selected < old(document).entries@.len() ==> match edit_outcome(
                old(document).root@,
                old(document).entries@[old(document).selected as int].path@,
                input@,
                float_bits,
                double_bits,
            ) {
                Ok(u) => {
                    &&& r is Ok
                    &&& final(document).root@ == u
                    &&& final(document).meta.dirty@
                    &&& final(document).meta == (DocumentMeta {
                        dirty: final(document).meta.dirty,
                        ..old(document).meta
                    })
                    &&& final(document).compression == old(document).compression
                    &&& entries_model(final(document).entries@) == flat(u, Seq::empty(), 0, "root"@)
                    &&& final(document).selected == clamp_selected(
                        old(document).selected as int,
                        final(document).entries@.len() as int,
                    )
                },
                Err(e) => {
                    &&& r matches Err(x) && x@ == e
                    &&& final(document).root@ == old(document).root@
                    &&& final(document).meta == old(document).meta
                    &&& final(document).selected == old(document).selected
                    &&& final(document).entries == old(document).entries
                },
            },
    {
        if document.selected < document.entries.len() {
            let path = document.entries[document.selected].path.copy();
            proof {
                lemma_edit_outcome_height(document.root@, path@, input@, float_bits, double_bits);
            }
            set_scalar_from_string(&mut document.root, &path, input, float_bits, double_bits)?;
            document.meta.dirty.mark_dirty();
            self.refresh(document);
        }
        Ok(())
    }

    /// Replaces the whole tree and lists its rows.
    pub fn set_root(&self, document: &mut NbtDocument, root: NbtValue)
        requires
            height_fits(root@),
        ensures
            final(document).root == root,
            entries_model(final(document).entries@) == flat(root@, Seq::empty(), 0, "root"@),
            final(document).selected == clamp_selected(
                old(document).selected as int,
                final(document).entries@.len() as int,
            ),
            final(document).meta == old(document).meta,
    {
        document.root = root;
        self.refresh(document);
    }
}

} // verus!
