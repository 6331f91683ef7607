//! Creating documents and their tabs, with fresh identifiers.
use vstd::prelude::*;
use crate::domain::files::source::DocumentSource;
use crate::domain::json::edit::{json_height_fits, json_flat, json_entries_model};
use crate::domain::json::value::JsonValue;
use crate::domain::minecraft::advancements::AdvancementsFile;
use crate::domain::minecraft::player::data_read;
use crate::domain::minecraft::server::{ServerContext, WorkspaceSelection, WorkspacePane};
use crate::domain::minecraft::stats::StatsFile;
use crate::domain::nbt::edit::{height_fits, flat, entries_model};
use crate::persistence::dirty::DirtyState;
use crate::persistence::nbt_codec::NbtFile;
use crate::services::nbt::NbtService;
use crate::services::player::{PlayerService, player_doc_wf};
use crate::services::stats::{StatsService, AdvancementsService};
use crate::session::context::OpenTarget;
use crate::session::document::{Document, DocumentMeta, DocumentKind, WorkspaceDocument, doc_meta};
use crate::session::tab::{DocumentId, TabId, TabKind, TabState};
use crate::text::concat;
use crate::util::error::{HydroxylError, ErrorModel};
use crate::util::fs::{FilePath, PathModel, file_name, file_name_of, display_of};

verus! {

/// The file name of a path as text (empty when it has none).
pub open spec fn name_text(p: PathModel) -> Seq<char> {
    match file_name_of(p) {
        Some(n) => n,
        None => Seq::empty(),
    }
}

/// What was read for a file, by the kind `detect_file_kind` gave it: the
/// loaded workspace, the parsed NBT file, or the JSON tree with its typed
/// reading; nothing for an unknown kind.
#[derive(Debug)]
pub enum LoadedFile {
    Workspace(ServerContext),
    PlayerData(NbtFile),
    Nbt(NbtFile),
    Stats(JsonValue, StatsFile),
    Advancements(JsonValue, AdvancementsFile),
    Unknown,
}

/// Whether every tree that was read can have its rows numbered.
pub open spec fn loaded_fits(l: LoadedFile) -> bool {
    match l {
        LoadedFile::PlayerData(f) => height_fits(f.root@),
        LoadedFile::Nbt(f) => height_fits(f.root@),
        LoadedFile::Stats(root, _) => json_height_fits(root@),
        LoadedFile::Advancements(root, _) => json_height_fits(root@),
        _ => true,
    }
}

/// Whether `d` is a workspace document with identifier `id`, file `path`,
/// title `title`, reached directly, with no unsaved changes, the server
/// `server` and the default selection.
pub open spec fn is_workspace_doc(d: Document, id: DocumentId, path: PathModel, title: Seq<char>, server: ServerContext) -> bool {
    match d {
        Document::Workspace(w) => {
            &&& w.meta.id == id
            &&& w.meta.kind == DocumentKind::Workspace
            &&& w.meta.path@ == path
            &&& w.meta.title@ == title
            &&& w.meta.source == DocumentSource::Direct
            &&& !w.meta.dirty@
            &&& w.server == server
            &&& w.selection.active_pane == WorkspacePane::Players
            &&& w.selection.player_index == 0
            &&& w.selection.stats_index == 0
            &&& w.selection.advancements_index == 0
        },
        _ => false,
    }
}

/// Whether a server context is the empty one of a blank home view.
pub open spec fn is_empty_server(s: ServerContext) -> bool {
    &&& s.root@ == (PathModel { absolute: false, parts: Seq::empty() })
    &&& s.world_path@ == (PathModel { absolute: false, parts: Seq::empty() })
    &&& s.level_name@.len() == 0
    &&& !s.online_mode
    &&& s.player_files@.len() == 0
    &&& s.stats_files@.len() == 0
    &&& s.advancements_files@.len() == 0
    &&& s.player_entries@.len() == 0
    &&& s.stats_entries@.len() == 0
    &&& s.advancements_entries@.len() == 0
}

/// Hands out document and tab identifiers, counting up from 0.
pub struct DocumentService {
    next_document: usize,
    next_tab: usize,
}

impl Default for DocumentService {
    fn default() -> (r: DocumentService)
        ensures
            r.next_document_spec() == 0,
            r.next_tab_spec() == 0,
    {
        DocumentService::new()
    }
}

impl DocumentService {
    /// The next document identifier to be handed out.
    pub closed spec fn next_document_spec(&self) -> nat {
        self.next_document as nat
    }

    /// The next tab identifier to be handed out.
    pub closed spec fn next_tab_spec(&self) -> nat {
        self.next_tab as nat
    }

    /// A service that has handed out nothing yet.
    pub fn new() -> (r: DocumentService)
        ensures
            r.next_document_spec() == 0,
            r.next_tab_spec() == 0,
    {
        DocumentService { next_document: 0, next_tab: 0 }
    }

    /// A fresh document identifier.
    pub fn next_document_id(&mut self) -> (r: DocumentId)
        requires
            old(self).next_document_spec() < usize::MAX,
        ensures
            r.0 == old(self).next_document_spec(),
            final(self).next_document_spec() == old(self).next_document_spec() + 1,
            final(self).next_tab_spec() == old(self).next_tab_spec(),
    {
        let id = self.next_document;
        self.next_document = self.next_document + 1;
        DocumentId(id)
    }

    /// A fresh tab identifier.
    pub fn next_tab_id(&mut self) -> (r: TabId)
        requires
            old(self).next_tab_spec() < usize::MAX,
        ensures
            r.0 == old(self).next_tab_spec(),
            final(self).next_tab_spec() == old(self).next_tab_spec() + 1,
            final(self).next_document_spec() == old(self).next_document_spec(),
    {
        let id = self.next_tab;
        self.next_tab = self.next_tab + 1;
        TabId(id)
    }

    /// An empty home tab, titled `Home`.
    pub fn blank_home_tab(&mut self) -> (r: (Document, TabState))
        requires
            old(self).next_document_spec() < usize::MAX,
            old(self).next_tab_spec() < usize::MAX,
        ensures
            ({
                let id = DocumentId(old(self).next_document_spec() as usize);
                &&& is_workspace_doc(
                    r.0,
                    id,
                    PathModel { absolute: false, parts: Seq::empty() },
                    "Home"@,
                    r.0->Workspace_0.server,
                )
                &&& is_empty_server(r.0->Workspace_0.server)
                &&& r.1.id.0 == old(self).next_tab_spec()
                &&& r.1.title@ == "Home"@
                &&& r.1.kind == TabKind::Home(id)
            }),
            final(self).next_document_spec() == old(self).next_document_spec() + 1,
            final(self).next_tab_spec() == old(self).next_tab_spec() + 1,
    {
        let id = self.next_document_id();
        let document = Document::Workspace(
            WorkspaceDocument {
                meta: DocumentMeta {
                    id,
                    kind: DocumentKind::Workspace,
                    path: FilePath { absolute: false, parts: Vec::new() },
                    title: "Home".to_owned(),
                    source: DocumentSource::Direct,
                    dirty: DirtyState::clean(),
                },
                server: ServerContext::default(),
                selection: WorkspaceSelection::default(),
            },
        );
        proof {
            assert(doc_meta(document).path@.parts =~= Seq::<Seq<char>>::empty());
        }
        let tab = TabState { id: self.next_tab_id(), title: "Home".to_owned(), kind: TabKind::Home(id) };
        (document, tab)
    }

    /// A new empty home tab.
    pub fn create_home_tab(&mut self) -> (r: (Document, TabState))
        requires
            old(self).next_document_spec() < usize::MAX,
            old(self).next_tab_spec() < usize::MAX,
        ensures
            ({
                let id = DocumentId(old(self).next_document_spec() as usize);
                &&& is_workspace_doc(
                    r.0,
                    id,
                    PathModel { absolute: false, parts: Seq::empty() },
                    "Home"@,
                    r.0->Workspace_0.server,
                )
                &&& is_empty_server(r.0->Workspace_0.server)
                &&& r.1.id.0 == old(self).next_tab_spec()
                &&& r.1.title@ == "Home"@
                &&& r.1.kind == TabKind::Home(id)
            }),
            final(self).next_document_spec() == old(self).next_document_spec() + 1,
            final(self).next_tab_spec() == old(self).next_tab_spec() + 1,
    {
        self.blank_home_tab()
    }

    /// The home tab of a loaded workspace: titled `Home: <level name>` when
    /// it is the start page (`title_is_home`), else by the file name.
    pub fn workspace_document(&mut self, path: &FilePath, server: ServerContext, title_is_home: bool) -> (r:
        (Document, TabState))
        requires
            old(self).next_document_spec() < usize::MAX,
            old(self).next_tab_spec() < usize::MAX,
        ensures
            ({
                let id = DocumentId(old(self).next_document_spec() as usize);
                let title = if title_is_home {
                    "Home: "@ + server.level_name@
                } else {
                    name_text(path@)
                };
                &&& is_workspace_doc(r.0, id, path@, title, server)
                &&& r.1.id.0 == old(self).next_tab_spec()
                &&& r.1.title@ == title
                &&& r.1.kind == TabKind::Home(id)
            }),
            final(self).next_document_spec() == old(self).next_document_spec() + 1,
            final(self).next_tab_spec() == old(self).next_tab_spec() + 1,
    {
        let id = self.next_document_id();
        let title = if title_is_home {
            proof {
                reveal_strlit("Home: ");
            }
            concat("Home: ", server.level_name.as_str())
        } else {
            file_name(path)
        };
        let document = Document::Workspace(
            WorkspaceDocument {
                meta: DocumentMeta {
                    id,
                    kind: DocumentKind::Workspace,
                    path: path.copy(),
                    title: title.clone(),
                    source: DocumentSource::Direct,
                    dirty: DirtyState::clean(),
                },
                server,
                selection: WorkspaceSelection::default(),
            },
        );
        let tab = TabState { id: self.next_tab_id(), title, kind: TabKind::Home(id) };
        (document, tab)
    }
}

/// Whether `(d, t)` is what opening the file `path` gives for what was
/// read, `loaded`: a document of the matching kind with identifier `id`
/// (for a workspace, the identifier after it), titled by the file name,
/// holding what was read, and its tab `tab_id`.
pub open spec fn opened(
    d: Document,
    t: TabState,
    id: nat,
    tab_id: nat,
    path: PathModel,
    source: DocumentSource,
    server: Option<ServerContext>,
    loaded: LoadedFile,
) -> bool {
    let did = DocumentId(id as usize);
    &&& t.id.0 == tab_id
    &&& t.title@ == name_text(path)
    &&& match loaded {
        LoadedFile::Workspace(s) => is_workspace_doc(d, DocumentId((id + 1) as usize), path, name_text(path), s)
            && t.kind == TabKind::Home(DocumentId((id + 1) as usize)),
        LoadedFile::PlayerData(f) => match d {
            Document::Player(p) => {
                &&& p.meta.id == did
                &&& p.meta.kind == DocumentKind::Player
                &&& p.meta.path@ == path
                &&& p.meta.title@ == name_text(path)
                &&& p.meta.source == source
                &&& !p.meta.dirty@
                &&& p.server == server
                &&& p.root == f.root
                &&& p.compression == f.compression
                &&& data_read(p.data, path, p.root@)
                &&& p.skin_state is NotRequested
                &&& player_doc_wf(p)
                &&& t.kind == TabKind::Player(did)
            },
            _ => false,
        },
        LoadedFile::Nbt(f) => match d {
            Document::Nbt(n) => {
                &&& n.meta.id == did
                &&& n.meta.kind == DocumentKind::Nbt
                &&& n.meta.path@ == path
                &&& n.meta.title@ == name_text(path)
                &&& n.meta.source == source
                &&& !n.meta.dirty@
                &&& n.root == f.root
                &&& n.compression == f.compression
                &&& entries_model(n.entries@) == flat(n.root@, Seq::empty(), 0, "root"@)
                &&& n.selected == 0
                &&& t.kind == TabKind::Nbt(did)
            },
            _ => false,
        },
        LoadedFile::Stats(root, typed) => match d {
            Document::Stats(st) => {
                &&& st.meta.id == did
                &&& st.meta.kind == DocumentKind::Stats
                &&& st.meta.path@ == path
                &&& st.meta.title@ == name_text(path)
                &&& st.meta.source == source
                &&& !st.meta.dirty@
                &&& st.root == root
                &&& st.typed == typed
                &&& json_entries_model(st.entries@) == json_flat(st.root@, Seq::empty(), 0, "root"@)
                &&& st.selected == 0
                &&& t.kind == TabKind::Stats(did)
            },
            _ => false,
        },
        LoadedFile::Advancements(root, typed) => match d {
            Document::Advancements(a) => {
                &&& a.meta.id == did
                &&& a.meta.kind == DocumentKind::Advancements
                &&& a.meta.path@ == path
                &&& a.meta.title@ == name_text(path)
                &&& a.meta.source == source
                &&& !a.meta.dirty@
                &&& a.root == root
                &&& a.typed == typed
                &&& json_entries_model(a.entries@) == json_flat(a.root@, Seq::empty(), 0, "root"@)
                &&& a.selected == 0
                &&& t.kind == TabKind::Advancements(did)
            },
            _ => false,
        },
        LoadedFile::Unknown => false,
    }
}

impl DocumentService {
    /// Opens the file `path` as a document in a new tab, from what was read
    /// for it (or the error reading it gave). A document identifier is
    /// taken first in every case; an unknown kind of file is refused.
    pub fn open_path(
        &mut self,
        path: &FilePath,
        source: DocumentSource,
        server: Option<ServerContext>,
        loaded: Result<LoadedFile, HydroxylError>,
    ) -> (r: Result<(Document, TabState), HydroxylError>)
        requires
            old(self).next_document_spec() + 1 < usize::MAX,
            old(self).next_tab_spec() < usize::MAX,
            loaded matches Ok(l) ==> loaded_fits(l),
        ensures
            match loaded {
                Err(e) => {
                    &&& r == Err::<(Document, TabState), HydroxylError>(e)
                    &&& final(self).next_document_spec() == old(self).next_document_spec() + 1
                    &&& final(self).next_tab_spec() == old(self).next_tab_spec()
                },
                Ok(LoadedFile::Unknown) => {
                    &&& r matches Err(x) && x@ == ErrorModel::InvalidData(
                        "unsupported file type: "@ + display_of(path@),
                    )
                    &&& final(self).next_document_spec() == old(self).next_document_spec() + 1
                    &&& final(self).next_tab_spec() == old(self).next_tab_spec()
                },
                Ok(l) => {
                    &&& r matches Ok((d, t)) && opened(
                        d,
                        t,
                        old(self).next_document_spec(),
                        old(self).next_tab_spec(),
                        path@,
                        source,
                        server,
                        l,
                    )
                    &&& final(self).next_document_spec() == old(self).next_document_spec() + if l is Workspace {
                        2nat
                    } else {
                        1nat
                    }
                    &&& final(self).next_tab_spec() == old(self).next_tab_spec() + 1
                },
            },
    {
        let id = self.next_document_id();
        let loaded = match loaded {
            Err(e) => {
                return Err(e);
            },
            Ok(l) => l,
        };
        let (document, tab_kind) = match loaded {
            LoadedFile::Workspace(s) => {
                let (document, tab) = self.workspace_document(path, s, false);
                return Ok((document, tab));
            },
            LoadedFile::PlayerData(file) => {
                let doc = PlayerService.open(id, path, source, server, file);
                (Document::Player(doc), TabKind::Player(id))
            },
            LoadedFile::Stats(root, typed) => {
                let doc = StatsService.open(id, path, source, root, typed);
                (Document::Stats(doc), TabKind::Stats(id))
            },
            LoadedFile::Advancements(root, typed) => {
                let doc = AdvancementsService.open(id, path, source, root, typed);
                (Document::Advancements(doc), TabKind::Advancements(id))
            },
            LoadedFile::Nbt(file) => {
                let doc = NbtService.open(id, path, source, file);
                (Document::Nbt(doc), TabKind::Nbt(id))
            },
            LoadedFile::Unknown => {
                let shown = path.display();
                proof {
                    reveal_strlit("unsupported file type: ");
                }
                return Err(HydroxylError::InvalidData(concat("unsupported file type: ", shown.as_str())));
            },
        };
        let tab = TabState { id: self.next_tab_id(), title: file_name(path), kind: tab_kind };
        Ok((document, tab))
    }

    /// The documents to show at launch for `target`: an empty home tab, the
    /// home tab of a world (from `loaded`, its loaded workspace; anything
    /// else read for a world is refused as not being a workspace), or the
    /// file opened directly (with `server`, the workspace it lies in, for a
    /// player file).
    pub fn open_initial(
        &mut self,
        target: &OpenTarget,
        server: Option<ServerContext>,
        loaded: Result<LoadedFile, HydroxylError>,
    ) -> (r: Result<Vec<(Document, TabState)>, HydroxylError>)
        requires
            old(self).next_document_spec() + 1 < usize::MAX,
            old(self).next_tab_spec() < usize::MAX,
            loaded matches Ok(l) ==> loaded_fits(l),
        ensures
            match target {
                OpenTarget::Home => r matches Ok(v) && v@.len() == 1 && is_workspace_doc(
                    v@[0].0,
                    DocumentId(old(self).next_document_spec() as usize),
                    PathModel { absolute: false, parts: Seq::empty() },
                    "Home"@,
                    v@[0].0->Workspace_0.server,
                ) && is_empty_server(v@[0].0->Workspace_0.server) && v@[0].1.id.0 == old(self).next_tab_spec()
                    && v@[0].1.title@ == "Home"@ && v@[0].1.kind == TabKind::Home(
                    DocumentId(old(self).next_document_spec() as usize),
                ),
                OpenTarget::World(path) => match loaded {
                    Ok(LoadedFile::Workspace(s)) => r matches Ok(v) && v@.len() == 1 && is_workspace_doc(
                        v@[0].0,
                        DocumentId(old(self).next_document_spec() as usize),
                        path@,
                        "Home: "@ + s.level_name@,
                        s,
                    ) && v@[0].1.id.0 == old(self).next_tab_spec() && v@[0].1.title@ == "Home: "@
                        + s.level_name@ && v@[0].1.kind == TabKind::Home(
                        DocumentId(old(self).next_document_spec() as usize),
                    ),
                    Err(e) => r == Err::<Vec<(Document, TabState)>, HydroxylError>(e),
                    Ok(_) => r matches Err(x) && x@ == ErrorModel::InvalidData(
                        display_of(path@) + " is not a server root or world directory"@,
                    ),
                },
                OpenTarget::Player(path) | OpenTarget::Nbt(path) | OpenTarget::Stats(path)
                | OpenTarget::Advancements(path) => match loaded {
                    Err(e) => r == Err::<Vec<(Document, TabState)>, HydroxylError>(e),
                    Ok(LoadedFile::Unknown) => r matches Err(x) && x@ == ErrorModel::InvalidData(
                        "unsupported file type: "@ + display_of(path@),
                    ),
                    Ok(l) => r matches Ok(v) && v@.len() == 1 && opened(
                        v@[0].0,
                        v@[0].1,
                        old(self).next_document_spec(),
                        old(self).next_tab_spec(),
                        path@,
                        DocumentSource::Direct,
                        server,
                        l,
                    ),
                },
            },
    {
        match target {
            OpenTarget::Home => {
                let pair = self.blank_home_tab();
                Ok(vec![pair])
            },
            OpenTarget::World(path) => {
                match loaded {
                    Ok(LoadedFile::Workspace(s)) => {
                        let pair = self.workspace_document(path, s, true);
                        Ok(vec![pair])
                    },
                    Err(e) => Err(e),
                    Ok(_) => {
                        let shown = path.display();
                        proof {
                            reveal_strlit(" is not a server root or world directory");
                        }
                        Err(
                            HydroxylError::InvalidData(
                                concat(shown.as_str(), " is not a server root or world directory"),
                            ),
                        )
                    },
                }
            },
            OpenTarget::Player(path) | OpenTarget::Nbt(path) | OpenTarget::Stats(path)
            | OpenTarget::Advancements(path) => {
                let pair = self.open_path(path, DocumentSource::Direct, server, loaded)?;
                Ok(vec![pair])
            },
        }
    }
}

} // verus!
