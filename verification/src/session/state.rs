//! The whole editor state: documents, tabs, focus, prompts and messages.
use vstd::prelude::*;
use std::collections::VecDeque;
use crate::session::action::EditTarget;
use crate::session::context::AppContext;
use crate::session::document::{Document, doc_meta};
use crate::session::message::Message;
use crate::session::tab::{DocumentId, TabState, tab_document};
use crate::text::concat;
use crate::util::fs::{file_name, file_name_of};
use crate::util::error::HydroxylError;

verus! {

/// Where keyboard input goes.
#[derive(Debug, Clone, Copy, PartialEq, Eq, Structural)]
pub enum FocusArea {
    HomePlayers,
    HomeStats,
    HomeAdvancements,
    PlayerSections,
    PlayerInventory,
    PlayerFields,
    RawNbt,
    GenericTree,
}

/// An edit prompt: its title, the text typed so far, the cursor, and what
/// the text will replace.
#[derive(Debug, PartialEq, Eq)]
pub struct InputState {
    pub title: String,
    pub value: String,
    pub cursor: usize,
    pub target: EditTarget,
}

/// What a confirmation prompt confirms.
#[derive(Debug, Clone, Copy, PartialEq, Eq, Structural)]
pub enum ConfirmAction {
    Quit,
    CloseTab(DocumentId),
}

/// A confirmation prompt.
#[derive(Debug, PartialEq, Eq)]
pub struct ConfirmState {
    pub title: String,
    pub message: String,
    pub action: ConfirmAction,
}

/// The number of status messages kept.
pub const MESSAGE_LIMIT: usize = 4;

/// The editor state.
#[derive(Debug)]
pub struct AppState {
    pub context: AppContext,
    pub documents: Vec<Document>,
    pub tabs: Vec<TabState>,
    pub active_tab: usize,
    pub focus: FocusArea,
    pub input: Option<InputState>,
    pub confirm: Option<ConfirmState>,
    /// Newest first.
    pub messages: VecDeque<Message>,
    pub should_quit: bool,
}

/// The position of the first document with identifier `id`.
pub open spec fn document_index(docs: Seq<Document>, id: DocumentId) -> Option<int> {
    if exists|i: int| 0 <= i < docs.len() && doc_meta(docs[i]).id == id {
        Some(
            choose|i: int|
                0 <= i < docs.len() && doc_meta(docs[i]).id == id && forall|j: int|
                    0 <= j < i ==> doc_meta(#[trigger] docs[j]).id != id,
        )
    } else {
        None
    }
}

/// The position of the first document titled `title`.
pub open spec fn titled_index(docs: Seq<Document>, title: Seq<char>) -> Option<int> {
    if exists|i: int| 0 <= i < docs.len() && doc_meta(docs[i]).title@ == title {
        Some(
            choose|i: int|
                0 <= i < docs.len() && doc_meta(docs[i]).title@ == title && forall|j: int|
                    0 <= j < i ==> doc_meta(#[trigger] docs[j]).title@ != title,
        )
    } else {
        None
    }
}

/// The title a tab shows: the title of the first document with the tab's
/// title, with a `*` when that document has unsaved changes, or the tab's
/// own title when no document has it.
pub open spec fn tab_title_of(docs: Seq<Document>, tab: TabState) -> Seq<char> {
    match titled_index(docs, tab.title@) {
        Some(i) => if doc_meta(docs[i]).dirty@ {
            doc_meta(docs[i]).title@ + "*"@
        } else {
            doc_meta(docs[i]).title@
        },
        None => tab.title@,
    }
}

/// The position of the active tab's document, if both exist.
pub open spec fn active_document_index(s: AppState) -> Option<int> {
    if s.active_tab < s.tabs@.len() {
        document_index(s.documents@, tab_document(s.tabs@[s.active_tab as int].kind))
    } else {
        None
    }
}

proof fn lemma_first_unique(docs: Seq<Document>, id: DocumentId, i: int)
    requires
        0 <= i < docs.len(),
        doc_meta(docs[i]).id == id,
        forall|j: int| 0 <= j < i ==> doc_meta(#[trigger] docs[j]).id != id,
    ensures
        document_index(docs, id) == Some(i),
{
    let w = choose|k: int|
        0 <= k < docs.len() && doc_meta(docs[k]).id == id && forall|j: int|
            0 <= j < k ==> doc_meta(#[trigger] docs[j]).id != id;
    if w < i {
        assert(doc_meta(docs[w]).id != id);
    } else if w > i {
        assert(doc_meta(docs[i]).id != id);
    }
}

proof fn lemma_first_titled(docs: Seq<Document>, title: Seq<char>, i: int)
    requires
        0 <= i < docs.len(),
        doc_meta(docs[i]).title@ == title,
        forall|j: int| 0 <= j < i ==> doc_meta(#[trigger] docs[j]).title@ != title,
    ensures
        titled_index(docs, title) == Some(i),
{
    let w = choose|k: int|
        0 <= k < docs.len() && doc_meta(docs[k]).title@ == title && forall|j: int|
            0 <= j < k ==> doc_meta(#[trigger] docs[j]).title@ != title;
    if w < i {
        assert(doc_meta(docs[w]).title@ != title);
    } else if w > i {
        assert(doc_meta(docs[i]).title@ != title);
    }
}

fn find_document(docs: &Vec<Document>, id: DocumentId) -> (r: Option<usize>)
    ensures
        r matches Some(i) ==> i < docs@.len() && document_index(docs@, id) == Some(i as int),
        r is None ==> document_index(docs@, id) is None,
{
    let mut i: usize = 0;
    while i < docs.len()
        invariant
            i <= docs@.len(),
            forall|j: int| 0 <= j < i ==> doc_meta(#[trigger] docs@[j]).id != id,
        decreases docs.len() - i,
    {
        if docs[i].id() == id {
            proof {
                lemma_first_unique(docs@, id, i as int);
            }
            return Some(i);
        }
        i = i + 1;
    }
    None
}

fn find_titled(docs: &Vec<Document>, title: &String) -> (r: Option<usize>)
    ensures
        r matches Some(i) ==> i < docs@.len() && titled_index(docs@, title@) == Some(i as int),
        r is None ==> titled_index(docs@, title@) is None,
{
    let want = crate::text::chars_of(title.as_str());
    let mut i: usize = 0;
    while i < docs.len()
        invariant
            i <= docs@.len(),
            want@ == title@,
            forall|j: int| 0 <= j < i ==> doc_meta(#[trigger] docs@[j]).title@ != title@,
        decreases docs.len() - i,
    {
        let have = crate::text::chars_of(docs[i].title());
        if crate::text::chars_eq(&have, &want) {
            proof {
                lemma_first_titled(docs@, title@, i as int);
            }
            return Some(i);
        }
        i = i + 1;
    }
    None
}

impl AppState {
    /// A state with nothing open.
    pub fn new(context: AppContext) -> (r: AppState)
        ensures
            r.context == context,
            r.documents@.len() == 0,
            r.tabs@.len() == 0,
            r.active_tab == 0,
            r.focus == FocusArea::HomePlayers,
            r.input is None,
            r.confirm is None,
            r.messages@.len() == 0,
            !r.should_quit,
    {
        AppState {
            context,
            documents: Vec::new(),
            tabs: Vec::new(),
            active_tab: 0,
            focus: FocusArea::HomePlayers,
            input: None,
            confirm: None,
            messages: VecDeque::new(),
            should_quit: false,
        }
    }

    /// Shows a message first; only the newest four are kept.
    pub fn push_message(&mut self, message: Message)
        ensures
            final(self).messages@ == (seq![message] + old(self).messages@).take(
                if old(self).messages@.len() + 1 < MESSAGE_LIMIT {
                    (old(self).messages@.len() + 1) as int
                } else {
                    MESSAGE_LIMIT as int
                },
            ),
            final(self).context == old(self).context,
            final(self).documents == old(self).documents,
            final(self).tabs == old(self).tabs,
            final(self).active_tab == old(self).active_tab,
            final(self).focus == old(self).focus,
            final(self).input == old(self).input,
            final(self).confirm == old(self).confirm,
            final(self).should_quit == old(self).should_quit,
    {
        let ghost all = seq![message] + self.messages@;
        self.messages.push_front(message);
        assert(self.messages@ =~= all);
        while self.messages.len() > MESSAGE_LIMIT
            invariant
                all.len() >= 1,
                self.messages@.len() >= 1,
                self.messages@.len() <= all.len(),
                self.messages@ =~= all.take(self.messages@.len() as int),
                self.messages@.len() >= (if all.len() < MESSAGE_LIMIT {
                    all.len() as int
                } else {
                    MESSAGE_LIMIT as int
                }),
                all == seq![message] + old(self).messages@,
                self.context == old(self).context,
                self.documents == old(self).documents,
                self.tabs == old(self).tabs,
                self.active_tab == old(self).active_tab,
                self.focus == old(self).focus,
                self.input == old(self).input,
                self.confirm == old(self).confirm,
                self.should_quit == old(self).should_quit,
            decreases self.messages.len(),
        {
            let ghost before = self.messages@;
            self.messages.pop_back();
            assert(self.messages@ =~= all.take(before.len() - 1));
        }
    }

    /// The active tab, if there is one.
    pub fn active_tab(&self) -> (r: Option<&TabState>)
        ensures
            self.active_tab < self.tabs@.len() ==> r == Some(&self.tabs@[self.active_tab as int]),
            self.active_tab >= self.tabs@.len() ==> r is None,
    {
        if self.active_tab < self.tabs.len() {
            Some(&self.tabs[self.active_tab])
        } else {
            None
        }
    }

    /// The active tab, to be changed, if there is one.
    pub fn active_tab_mut(&mut self) -> (r: Option<&mut TabState>)
        ensures
            old(self).active_tab < old(self).tabs@.len() ==> (r matches Some(t) && *t == old(self).tabs@[old(self).active_tab as int]
                && final(self).tabs@ == old(self).tabs@.update(old(self).active_tab as int, *final(t))),
            old(self).active_tab >= old(self).tabs@.len() ==> r is None && final(self).tabs == old(self).tabs,
            final(self).documents == old(self).documents,
            final(self).active_tab == old(self).active_tab,
            final(self).messages == old(self).messages,
    {
        if self.active_tab < self.tabs.len() {
            let i = self.active_tab;
            Some(&mut self.tabs[i])
        } else {
            None
        }
    }

    /// The document of the active tab, to be changed, if both exist.
    pub fn active_document_mut(&mut self) -> (r: Option<&mut Document>)
        ensures
            active_document_index(*old(self)) matches Some(i) ==> (r matches Some(d) && *d == old(self).documents@[i]
                && final(self).documents@ == old(self).documents@.update(i, *final(d))),
            active_document_index(*old(self)) is None ==> r is None && final(self).documents == old(self).documents,
            final(self).tabs == old(self).tabs,
            final(self).active_tab == old(self).active_tab,
            final(self).messages == old(self).messages,
    {
        match self.active_document_position() {
            Some(i) => Some(&mut self.documents[i]),
            None => None,
        }
    }

    /// The document of the active tab, if both exist.
    pub fn active_document(&self) -> (r: Option<&Document>)
        ensures
            active_document_index(*self) matches Some(i) ==> r == Some(&self.documents@[i]),
            active_document_index(*self) is None ==> r is None,
    {
        match self.active_tab() {
            None => None,
            Some(tab) => match find_document(&self.documents, tab.kind.document()) {
                Some(i) => Some(&self.documents[i]),
                None => None,
            },
        }
    }

    /// The position of the active tab's document, if both exist (the
    /// document that `active_document_mut` hands out).
    pub fn active_document_position(&self) -> (r: Option<usize>)
        ensures
            r matches Some(k) ==> k < self.documents@.len() && active_document_index(*self) == Some(
                k as int,
            ),
            r is None ==> active_document_index(*self) is None,
    {
        match self.active_tab() {
            None => None,
            Some(tab) => find_document(&self.documents, tab.kind.document()),
        }
    }

    /// The titles the tab bar shows, one per tab.
    pub fn tab_titles(&self) -> (r: Vec<String>)
        ensures
            r@.len() == self.tabs@.len(),
            forall|i: int| 0 <= i < r@.len() ==> #[trigger] r@[i]@ == tab_title_of(
                self.documents@,
                self.tabs@[i],
            ),
    {
        let mut out: Vec<String> = Vec::new();
        let mut i: usize = 0;
        while i < self.tabs.len()
            invariant
                i <= self.tabs@.len(),
                out@.len() == i,
                forall|k: int| 0 <= k < i ==> #[trigger] out@[k]@ == tab_title_of(
                    self.documents@,
                    self.tabs@[k],
                ),
            decreases self.tabs.len() - i,
        {
            let tab = &self.tabs[i];
            let title = match find_titled(&self.documents, &tab.title) {
                Some(d) => {
                    let document = &self.documents[d];
                    if document.is_dirty() {
                        proof {
                            reveal_strlit("*");
                        }
                        concat(document.title(), "*")
                    } else {
                        document.title().to_owned()
                    }
                },
                None => tab.title.clone(),
            };
            out.push(title);
            i = i + 1;
        }
        out
    }

    /// The file name of the active document, or `No document`.
    pub fn current_path_label(&self) -> (r: String)
        ensures
            r@ == (match active_document_index(*self) {
                Some(i) => match file_name_of(doc_meta(self.documents@[i]).path@) {
                    Some(n) => n,
                    None => Seq::empty(),
                },
                None => "No document"@,
            }),
    {
        match self.active_document() {
            Some(document) => file_name(&document.meta().path),
            None => {
                proof {
                    reveal_strlit("No document");
                }
                "No document".to_owned()
            },
        }
    }
}

/// The state the editor starts in.
pub fn build_state(context: AppContext) -> (r: Result<AppState, HydroxylError>)
    ensures
        r matches Ok(s) && s.context == context && s.documents@.len() == 0 && s.tabs@.len() == 0
            && s.messages@.len() == 0 && !s.should_quit,
{
    Ok(AppState::new(context))
}

} // verus!
