//! Loading a server root or world directory as a workspace.
//!
//! The file system is asked by the caller: which marker files exist, the
//! text of `server.properties`, and the listings of the three player-file
//! directories. Everything decided from those answers is here.
use vstd::prelude::*;
use crate::domain::files::kind::FileKind;
use crate::domain::files::naming::{parse_uuid_from_path, uuid_of_stem, stem_text};
use crate::domain::minecraft::server::{ServerContext, WorkspaceEntry};
use crate::order::{sorted_order, names_view, sort_order, lemma_sorted_order, is_ascending, is_permutation_of_range};
use crate::text::lex_le;
use crate::session::context::WorldFileStructure;
use crate::text::{
    chars_of, chars_eq, string_from_chars, trim, trim_chars, split_on, split_chars,
    first_index_of, find_char, sub_chars, eq_ignore_ascii_case, eq_ignore_case_chars, concat,
};
use crate::util::error::{HydroxylError, ErrorModel};
use crate::util::fs::{
    FilePath, PathModel, join_of, file_name_of, extension_of, stem_of, display_of, stem,
};

verus! {

// ---------------------------------------------------------------------------
// server.properties
// ---------------------------------------------------------------------------

/// The position of the entry for `k`.
pub open spec fn prop_index(m: Seq<(Seq<char>, Seq<char>)>, k: Seq<char>) -> Option<int>
    decreases m.len(),
{
    if m.len() == 0 {
        None
    } else if m[0].0 == k {
        Some(0)
    } else {
        match prop_index(m.drop_first(), k) {
            Some(i) => Some(i + 1),
            None => None,
        }
    }
}

/// The value set for `k`.
pub open spec fn prop_get(m: Seq<(Seq<char>, Seq<char>)>, k: Seq<char>) -> Option<Seq<char>> {
    match prop_index(m, k) {
        Some(i) => Some(m[i].1),
        None => None,
    }
}

/// `HashMap::insert`: a later value for a key replaces the earlier one.
pub open spec fn prop_insert(m: Seq<(Seq<char>, Seq<char>)>, k: Seq<char>, v: Seq<char>) -> Seq<(Seq<char>, Seq<char>)> {
    match prop_index(m, k) {
        Some(i) => m.update(i, (k, v)),
        None => m.push((k, v)),
    }
}

/// What one line adds: after trimming, a blank line or a `#` comment adds
/// nothing, a line with an `=` sets its trimmed left side to its trimmed
/// right side (split at the first `=`), and any other line adds nothing.
pub open spec fn property_line(m: Seq<(Seq<char>, Seq<char>)>, line: Seq<char>) -> Seq<(Seq<char>, Seq<char>)> {
    let t = trim(line);
    if t.len() == 0 || t[0] == '#' {
        m
    } else {
        match first_index_of(t, '=') {
            Some(i) => prop_insert(m, trim(t.take(i)), trim(t.skip(i + 1))),
            None => m,
        }
    }
}

/// The settings of the first `n` lines.
pub open spec fn properties_upto(lines: Seq<Seq<char>>, n: nat) -> Seq<(Seq<char>, Seq<char>)>
    decreases n,
{
    if n == 0 || n > lines.len() {
        Seq::empty()
    } else {
        property_line(properties_upto(lines, (n - 1) as nat), lines[n - 1])
    }
}

/// The settings of a `server.properties` text. (Its lines are its pieces
/// between `\n`s; a `\r` before a `\n` is trimmed with the line.)
pub open spec fn properties_of(text: Seq<char>) -> Seq<(Seq<char>, Seq<char>)> {
    properties_upto(split_on(text, '\n'), split_on(text, '\n').len())
}

/// The models of settings held as strings.
pub open spec fn props_view(m: Seq<(String, String)>) -> Seq<(Seq<char>, Seq<char>)> {
    Seq::new(m.len(), |i: int| (m[i].0@, m[i].1@))
}

proof fn lemma_prop_index(m: Seq<(Seq<char>, Seq<char>)>, k: Seq<char>)
    ensures
        prop_index(m, k) matches Some(i) ==> 0 <= i < m.len() && m[i].0 == k && forall|j: int|
            0 <= j < i ==> #[trigger] m[j].0 != k,
        prop_index(m, k) is None ==> forall|j: int| 0 <= j < m.len() ==> #[trigger] m[j].0 != k,
    decreases m.len(),
{
    if m.len() > 0 {
        let rest = m.drop_first();
        lemma_prop_index(rest, k);
        assert forall|j: int| 1 <= j < m.len() implies #[trigger] m[j] == rest[j - 1] by {}
    }
}

proof fn lemma_prop_index_unique(m: Seq<(Seq<char>, Seq<char>)>, k: Seq<char>, i: int)
    requires
        0 <= i < m.len(),
        m[i].0 == k,
        forall|j: int| 0 <= j < i ==> m[j].0 != k,
    ensures
        prop_index(m, k) == Some(i),
{
    lemma_prop_index(m, k);
    match prop_index(m, k) {
        Some(w) => {
            if w < i {
                assert(m[w].0 != k);
            } else if w > i {
                assert(m[i].0 != k);
            }
        },
        None => {
            assert(m[i].0 != k);
        },
    }
}

fn find_prop(m: &Vec<(String, String)>, k: &Vec<char>) -> (r: Option<usize>)
    ensures
        r matches Some(i) ==> i < m@.len() && prop_index(props_view(m@), k@) == Some(i as int),
        r is None ==> prop_index(props_view(m@), k@) is None,
{
    let ghost model = props_view(m@);
    let mut i: usize = 0;
    while i < m.len()
        invariant
            i <= m.len(),
            model == props_view(m@),
            forall|j: int| 0 <= j < i ==> model[j].0 != k@,
        decreases m.len() - i,
    {
        let name = chars_of(m[i].0.as_str());
        if chars_eq(&name, k) {
            proof {
                lemma_prop_index_unique(model, k@, i as int);
            }
            return Some(i);
        }
        i = i + 1;
    }
    proof {
        lemma_prop_index(model, k@);
        if let Some(w) = prop_index(model, k@) {
            assert(model[w].0 != k@);
        }
    }
    None
}

fn insert_prop(m: &mut Vec<(String, String)>, k: &Vec<char>, v: &Vec<char>)
    ensures
        props_view(final(m)@) == prop_insert(props_view(old(m)@), k@, v@),
{
    let ghost before = props_view(m@);
    match find_prop(m, k) {
        Some(i) => {
            m.set(i, (string_from_chars(k), string_from_chars(v)));
            assert(props_view(m@) =~= before.update(i as int, (k@, v@)));
        },
        None => {
            m.push((string_from_chars(k), string_from_chars(v)));
            assert(props_view(m@) =~= before.push((k@, v@)));
        },
    }
}

/// Reads the settings of a `server.properties` text.
pub fn parse_properties(text: &str) -> (r: Vec<(String, String)>)
    ensures
        props_view(r@) == properties_of(text@),
{
    let chars = chars_of(text);
    let lines = split_chars(&chars, '\n');
    let ghost sp = split_on(text@, '\n');
    let mut map: Vec<(String, String)> = Vec::new();
    let mut n: usize = 0;
    assert(props_view(map@) =~= Seq::<(Seq<char>, Seq<char>)>::empty());
    while n < lines.len()
        invariant
            n <= lines@.len() == sp.len(),
            forall|k: int| 0 <= k < lines@.len() ==> #[trigger] lines@[k]@ == sp[k],
            props_view(map@) == properties_upto(sp, n as nat),
        decreases lines.len() - n,
    {
        let t = trim_chars(&lines[n]);
        if t.len() == 0 || t[0] == '#' {
        } else {
            match find_char(&t, '=') {
                Some(i) => {
                    let key = trim_chars(&sub_chars(&t, 0, i));
                    let value = trim_chars(&sub_chars(&t, i + 1, t.len()));
                    proof {
                        assert(t@.subrange(0, i as int) =~= t@.take(i as int));
                        assert(t@.subrange(i + 1, t@.len() as int) =~= t@.skip(i + 1));
                    }
                    insert_prop(&mut map, &key, &value);
                },
                None => {},
            }
        }
        n = n + 1;
    }
    map
}

/// The value set for `key`, if any.
pub fn property(props: &Vec<(String, String)>, key: &str) -> (r: Option<String>)
    ensures
        r matches Some(v) ==> prop_get(props_view(props@), key@) == Some(v@),
        r is None ==> prop_get(props_view(props@), key@) is None,
{
    match find_prop(props, &chars_of(key)) {
        Some(i) => Some(props[i].1.clone()),
        None => None,
    }
}

// ---------------------------------------------------------------------------
// Directories of a world
// ---------------------------------------------------------------------------

/// The directory of player `.dat` files.
pub fn player_data_path(world_path: &FilePath, structure: WorldFileStructure) -> (r: FilePath)
    ensures
        r@ == (match structure {
            WorldFileStructure::Legacy => PathModel {
                absolute: world_path@.absolute,
                parts: world_path@.parts.push("playerdata"@),
            },
            WorldFileStructure::New => PathModel {
                absolute: world_path@.absolute,
                parts: world_path@.parts.push("players"@).push("data"@),
            },
        }),
{
    match structure {
        WorldFileStructure::Legacy => world_path.join_name("playerdata"),
        WorldFileStructure::New => world_path.join_name("players").join_name("data"),
    }
}

/// The directory of stats files.
pub fn stats_path(world_path: &FilePath, structure: WorldFileStructure) -> (r: FilePath)
    ensures
        r@ == (match structure {
            WorldFileStructure::Legacy => PathModel {
                absolute: world_path@.absolute,
                parts: world_path@.parts.push("stats"@),
            },
            WorldFileStructure::New => PathModel {
                absolute: world_path@.absolute,
                parts: world_path@.parts.push("players"@).push("stats"@),
            },
        }),
{
    match structure {
        WorldFileStructure::Legacy => world_path.join_name("stats"),
        WorldFileStructure::New => world_path.join_name("players").join_name("stats"),
    }
}

/// The directory of advancements files.
pub fn advancements_path(world_path: &FilePath, structure: WorldFileStructure) -> (r: FilePath)
    ensures
        r@ == (match structure {
            WorldFileStructure::Legacy => PathModel {
                absolute: world_path@.absolute,
                parts: world_path@.parts.push("advancements"@),
            },
            WorldFileStructure::New => PathModel {
                absolute: world_path@.absolute,
                parts: world_path@.parts.push("players"@).push("advancements"@),
            },
        }),
{
    match structure {
        WorldFileStructure::Legacy => world_path.join_name("advancements"),
        WorldFileStructure::New => world_path.join_name("players").join_name("advancements"),
    }
}

// ---------------------------------------------------------------------------
// Listing files
// ---------------------------------------------------------------------------

/// A directory entry as the caller found it: its path and whether it is a
/// regular file.
#[derive(Debug)]
pub struct ListedFile {
    pub path: FilePath,
    pub is_file: bool,
}

/// The models of a listing.
pub open spec fn listing_view(s: Seq<ListedFile>) -> Seq<(PathModel, bool)> {
    Seq::new(s.len(), |i: int| (s[i].path@, s[i].is_file))
}

/// The models of a sequence of paths.
pub open spec fn paths_view(s: Seq<FilePath>) -> Seq<PathModel> {
    Seq::new(s.len(), |i: int| s[i]@)
}

/// Whether a listed entry is kept: a file whose extension is `ext` in any
/// ASCII case.
pub open spec fn keeps(f: (PathModel, bool), ext: Seq<char>) -> bool {
    f.1 && match extension_of(f.0) {
        Some(e) => eq_ignore_ascii_case(e, ext),
        None => false,
    }
}

/// The kept paths among the first `n` entries, in listing order.
pub open spec fn kept_upto(s: Seq<(PathModel, bool)>, ext: Seq<char>, n: nat) -> Seq<PathModel>
    decreases n,
{
    if n == 0 || n > s.len() {
        Seq::empty()
    } else {
        let rest = kept_upto(s, ext, (n - 1) as nat);
        if keeps(s[n - 1], ext) {
            rest.push(s[n - 1].0)
        } else {
            rest
        }
    }
}

/// The name a path sorts by.
pub open spec fn name_key(p: PathModel) -> Seq<char> {
    match file_name_of(p) {
        Some(n) => n,
        None => Seq::empty(),
    }
}

/// Paths in ascending name order (the order of `PathBuf` for the entries
/// of one directory).
pub open spec fn by_name(s: Seq<PathModel>) -> Seq<PathModel> {
    let order = sorted_order(Seq::new(s.len(), |i: int| name_key(s[i])), s.len());
    Seq::new(s.len(), |i: int| s[order[i]])
}

/// The files of a directory listing with extension `ext`, by name.
pub open spec fn listed_files_of(s: Seq<(PathModel, bool)>, ext: Seq<char>) -> Seq<PathModel> {
    by_name(kept_upto(s, ext, s.len()))
}

fn keeps_exec(f: &ListedFile, ext: &Vec<char>) -> (r: bool)
    ensures
        r == keeps((f.path@, f.is_file), ext@),
{
    if !f.is_file {
        return false;
    }
    match f.path.extension() {
        Some(e) => eq_ignore_case_chars(&chars_of(e.as_str()), ext),
        None => false,
    }
}

fn name_key_exec(p: &FilePath) -> (r: Vec<char>)
    ensures
        r@ == name_key(p@),
{
    match p.file_name() {
        Some(n) => chars_of(n.as_str()),
        None => Vec::new(),
    }
}

/// The regular files of one directory's listing whose extension is
/// `extension` (in any ASCII case), sorted by name.
pub fn list_files(listing: &Vec<ListedFile>, extension: &str) -> (r: Vec<FilePath>)
    ensures
        paths_view(r@) == listed_files_of(listing_view(listing@), extension@),
{
    let ghost lv = listing_view(listing@);
    let ext = chars_of(extension);
    let mut kept: Vec<FilePath> = Vec::new();
    let mut i: usize = 0;
    while i < listing.len()
        invariant
            i <= listing@.len(),
            lv == listing_view(listing@),
            ext@ == extension@,
            paths_view(kept@) == kept_upto(lv, extension@, i as nat),
        decreases listing.len() - i,
    {
        let ghost before = paths_view(kept@);
        if keeps_exec(&listing[i], &ext) {
            kept.push(listing[i].path.copy());
            assert(paths_view(kept@) =~= before.push(lv[i as int].0));
        }
        i = i + 1;
    }
    let ghost k = paths_view(kept@);
    let mut names: Vec<Vec<char>> = Vec::new();
    let mut j: usize = 0;
    while j < kept.len()
        invariant
            j <= kept@.len(),
            k == paths_view(kept@),
            names@.len() == j,
            forall|x: int| 0 <= x < j ==> #[trigger] names@[x]@ == name_key(k[x]),
        decreases kept.len() - j,
    {
        names.push(name_key_exec(&kept[j]));
        j = j + 1;
    }
    let ghost keys = Seq::new(k.len(), |x: int| name_key(k[x]));
    assert(names_view(names@) =~= keys);
    let order = sort_order(&names);
    proof {
        lemma_sorted_order(keys, k.len());
    }
    let mut out: Vec<FilePath> = Vec::new();
    let mut m: usize = 0;
    while m < order.len()
        invariant
            m <= order@.len() == k.len(),
            k == paths_view(kept@),
            keys == Seq::new(k.len(), |x: int| name_key(k[x])),
            forall|x: int| 0 <= x < order@.len() ==> #[trigger] order@[x] as int == sorted_order(
                keys,
                k.len(),
            )[x],
            crate::order::is_permutation_of_range(sorted_order(keys, k.len()), k.len()),
            out@.len() == m,
            forall|x: int| 0 <= x < m ==> #[trigger] out@[x]@ == k[sorted_order(keys, k.len())[x]],
        decreases order.len() - m,
    {
        let idx = order[m];
        assert(0 <= sorted_order(keys, k.len())[m as int] < k.len());
        out.push(kept[idx].copy());
        m = m + 1;
    }
    assert(paths_view(out@) =~= by_name(k));
    out
}

// ---------------------------------------------------------------------------
// Loading
// ---------------------------------------------------------------------------

/// What the caller found on disk for a workspace path: whether it is a
/// server root (it has `server.properties`) and that file's text, whether
/// it is a world root (see `world_root_markers`), and the listings of the
/// world's player data, stats and advancements directories (empty where a
/// directory does not exist).
#[derive(Debug)]
pub struct WorkspaceScan {
    pub server_root: bool,
    pub properties: Option<String>,
    pub world_root: bool,
    pub players: Vec<ListedFile>,
    pub stats: Vec<ListedFile>,
    pub advancements: Vec<ListedFile>,
}

/// The settings a scan yields: those of `server.properties` for a server
/// root, none otherwise.
pub open spec fn scan_properties(server_root: bool, text: Option<Seq<char>>) -> Seq<(Seq<char>, Seq<char>)> {
    if server_root {
        match text {
            Some(t) => properties_of(t),
            None => Seq::empty(),
        }
    } else {
        Seq::empty()
    }
}

/// The world directory of a workspace path: the `level-name` directory
/// (default `world`) under a server root, the path itself for a world
/// root, and none for anything else.
pub open spec fn world_path_of(
    path: PathModel,
    server_root: bool,
    world_root: bool,
    props: Seq<(Seq<char>, Seq<char>)>,
) -> Option<PathModel> {
    if server_root {
        Some(
            join_of(
                path,
                match prop_get(props, "level-name"@) {
                    Some(v) => v,
                    None => "world"@,
                },
            ),
        )
    } else if world_root {
        Some(path)
    } else {
        None
    }
}

/// The level name shown: the world directory's name, or `world`.
pub open spec fn level_name_of(world: PathModel) -> Seq<char> {
    match file_name_of(world) {
        Some(n) => n,
        None => "world"@,
    }
}

/// Whether the server runs in online mode: `online-mode` is `true` in any
/// ASCII case.
pub open spec fn online_mode_of(props: Seq<(Seq<char>, Seq<char>)>) -> bool {
    match prop_get(props, "online-mode"@) {
        Some(v) => eq_ignore_ascii_case(v, "true"@),
        None => false,
    }
}

/// Whether a row lists the file `p` as a file of `kind` with the UUID
/// `uuid`, labelled with its stem and with no name resolved yet.
pub open spec fn entry_lists(e: WorkspaceEntry, p: PathModel, kind: FileKind, uuid: Option<u128>) -> bool {
    &&& e.label@ == stem_text(p)
    &&& e.path@ == p
    &&& e.kind == kind
    &&& e.uuid == uuid
    &&& e.resolved_name is None
}

fn entries_for(files: &Vec<FilePath>, kind: FileKind) -> (r: Vec<WorkspaceEntry>)
    ensures
        r@.len() == files@.len(),
        forall|i: int| 0 <= i < r@.len() ==> entry_lists(
            #[trigger] r@[i],
            files@[i]@,
            kind,
            if kind == FileKind::PlayerData {
                uuid_of_stem(stem_text(files@[i]@))
            } else {
                None
            },
        ),
{
    let mut out: Vec<WorkspaceEntry> = Vec::new();
    let mut i: usize = 0;
    while i < files.len()
        invariant
            i <= files@.len(),
            out@.len() == i,
            forall|x: int| 0 <= x < i ==> entry_lists(
                #[trigger] out@[x],
                files@[x]@,
                kind,
                if kind == FileKind::PlayerData {
                    uuid_of_stem(stem_text(files@[x]@))
                } else {
                    None
                },
            ),
        decreases files.len() - i,
    {
        let p = &files[i];
        let uuid = if kind == FileKind::PlayerData {
            parse_uuid_from_path(p)
        } else {
            None
        };
        out.push(WorkspaceEntry { label: stem(p), path: p.copy(), kind, uuid, resolved_name: None });
        i = i + 1;
    }
    out
}

/// Loads workspaces.
pub struct WorkspaceService;

impl WorkspaceService {
    /// The world directory of `path` (see `world_path_of`), or the error
    /// for a path that is neither a server root nor a world root.
    pub fn locate(
        &self,
        path: &FilePath,
        server_root: bool,
        world_root: bool,
        props: &Vec<(String, String)>,
    ) -> (r: Result<FilePath, HydroxylError>)
        ensures
            match world_path_of(path@, server_root, world_root, props_view(props@)) {
                Some(w) => r matches Ok(p) && p@ == w,
                None => r matches Err(e) && e@ == ErrorModel::InvalidData(
                    display_of(path@) + " is not a server root or world directory"@,
                ),
            },
    {
        if server_root {
            let level = match property(props, "level-name") {
                Some(v) => v,
                None => "world".to_owned(),
            };
            proof {
                reveal_strlit("world");
            }
            Ok(path.join_text(level.as_str()))
        } else if world_root {
            Ok(path.copy())
        } else {
            let shown = path.display();
            proof {
                reveal_strlit(" is not a server root or world directory");
            }
            Err(HydroxylError::InvalidData(concat(shown.as_str(), " is not a server root or world directory")))
        }
    }

    /// Loads the workspace at `path` from what the caller found on disk.
    pub fn load(&self, path: &FilePath, structure: WorldFileStructure, scan: &WorkspaceScan) -> (r:
        Result<ServerContext, HydroxylError>)
        ensures
            ({
                let props = scan_properties(
                    scan.server_root,
                    match scan.properties {
                        Some(t) => Some(t@),
                        None => None,
                    },
                );
                match world_path_of(path@, scan.server_root, scan.world_root, props) {
                    None => r matches Err(e) && e@ == ErrorModel::InvalidData(
                        display_of(path@) + " is not a server root or world directory"@,
                    ),
                    Some(w) => r matches Ok(c) && {
                        &&& c.root@ == path@
                        &&& c.world_path@ == w
                        &&& c.level_name@ == level_name_of(w)
                        &&& c.online_mode == online_mode_of(props)
                        &&& paths_view(c.player_files@) == listed_files_of(
                            listing_view(scan.players@),
                            "dat"@,
                        )
                        &&& paths_view(c.stats_files@) == listed_files_of(
                            listing_view(scan.stats@),
                            "json"@,
                        )
                        &&& paths_view(c.advancements_files@) == listed_files_of(
                            listing_view(scan.advancements@),
                            "json"@,
                        )
                        &&& c.player_entries@.len() == c.player_files@.len()
                        &&& c.stats_entries@.len() == c.stats_files@.len()
                        &&& c.advancements_entries@.len() == c.advancements_files@.len()
                        &&& forall|i: int| 0 <= i < c.player_entries@.len() ==> entry_lists(
                            #[trigger] c.player_entries@[i],
                            c.player_files@[i]@,
                            FileKind::PlayerData,
                            uuid_of_stem(stem_text(c.player_files@[i]@)),
                        )
                        &&& forall|i: int| 0 <= i < c.stats_entries@.len() ==> entry_lists(
                            #[trigger] c.stats_entries@[i],
                            c.stats_files@[i]@,
                            FileKind::Stats,
                            None,
                        )
                        &&& forall|i: int| 0 <= i < c.advancements_entries@.len() ==> entry_lists(
                            #[trigger] c.advancements_entries@[i],
                            c.advancements_files@[i]@,
                            FileKind::Advancements,
                            None,
                        )
                    },
                }
            }),
    {
        let props: Vec<(String, String)> = if scan.server_root {
            match &scan.properties {
                Some(t) => parse_properties(t.as_str()),
                None => Vec::new(),
            }
        } else {
            Vec::new()
        };
        assert(props_view(Seq::<(String, String)>::empty()) =~= Seq::<(Seq<char>, Seq<char>)>::empty());
        let world_path = self.locate(path, scan.server_root, scan.world_root, &props)?;
        let level_name = match world_path.file_name() {
            Some(n) => n,
            None => "world".to_owned(),
        };
        let online_mode = match property(&props, "online-mode") {
            Some(v) => eq_ignore_case_chars(&chars_of(v.as_str()), &chars_of("true")),
            None => false,
        };
        proof {
            reveal_strlit("world");
        }
        let player_files = list_files(&scan.players, "dat");
        let stats_files = list_files(&scan.stats, "json");
        let advancements_files = list_files(&scan.advancements, "json");
        let player_entries = entries_for(&player_files, FileKind::PlayerData);
        let stats_entries = entries_for(&stats_files, FileKind::Stats);
        let advancements_entries = entries_for(&advancements_files, FileKind::Advancements);
        Ok(
            ServerContext {
                root: path.copy(),
                world_path,
                level_name,
                online_mode,
                player_files,
                stats_files,
                advancements_files,
                player_entries,
                stats_entries,
                advancements_entries,
            },
        )
    }
}

/// Whether `p` is the path of a kept entry of the listing.
pub open spec fn listed_in(s: Seq<(PathModel, bool)>, ext: Seq<char>, p: PathModel) -> bool {
    exists|j: int| 0 <= j < s.len() && keeps(#[trigger] s[j], ext) && s[j].0 == p
}

proof fn lemma_kept_members(s: Seq<(PathModel, bool)>, ext: Seq<char>, n: nat)
    requires
        n <= s.len(),
    ensures
        forall|x: int| 0 <= x < kept_upto(s, ext, n).len() ==> listed_in(s, ext, #[trigger] kept_upto(s, ext, n)[x]),
    decreases n,
{
    if n > 0 {
        lemma_kept_members(s, ext, (n - 1) as nat);
        let prev = kept_upto(s, ext, (n - 1) as nat);
        assert forall|x: int| 0 <= x < kept_upto(s, ext, n).len() implies listed_in(s, ext, #[trigger] kept_upto(s, ext, n)[x]) by {
            if x < prev.len() {
                assert(kept_upto(s, ext, n)[x] == prev[x]);
            } else {
                assert(kept_upto(s, ext, n)[x] == s[n - 1].0);
                assert(keeps(s[n - 1], ext));
            }
        }
    }
}

/// What a listing yields: one path for each entry kept (a regular file
/// with the extension, in any ASCII case), each of them such an entry,
/// in ascending name order.
pub proof fn lemma_listed_files(s: Seq<(PathModel, bool)>, ext: Seq<char>)
    ensures
        listed_files_of(s, ext).len() == kept_upto(s, ext, s.len()).len(),
        forall|i: int| 0 <= i < listed_files_of(s, ext).len() ==> listed_in(s, ext, #[trigger] listed_files_of(s, ext)[i]),
        forall|i: int, k: int| 0 <= i < k < listed_files_of(s, ext).len() ==> lex_le(
            name_key(#[trigger] listed_files_of(s, ext)[i]),
            name_key(#[trigger] listed_files_of(s, ext)[k]),
        ),
{
    let kept = kept_upto(s, ext, s.len());
    let keys = Seq::new(kept.len(), |i: int| name_key(kept[i]));
    let order = sorted_order(keys, kept.len());
    lemma_sorted_order(keys, kept.len());
    lemma_kept_members(s, ext, s.len());
    let r = listed_files_of(s, ext);
    assert forall|i: int| 0 <= i < r.len() implies listed_in(s, ext, #[trigger] r[i]) by {
        assert(0 <= order[i] < kept.len());
        assert(r[i] == kept[order[i]]);
    }
    assert forall|i: int, k: int| 0 <= i < k < r.len() implies lex_le(
        name_key(#[trigger] r[i]),
        name_key(#[trigger] r[k]),
    ) by {
        assert(0 <= order[i] < kept.len());
        assert(0 <= order[k] < kept.len());
        assert(lex_le(keys[order[i]], keys[order[k]]));
    }
}

/// A setting read later replaces an earlier one of the same key, and
/// leaves the other keys as they were.
pub proof fn lemma_prop_insert(m: Seq<(Seq<char>, Seq<char>)>, k: Seq<char>, v: Seq<char>, other: Seq<char>)
    requires
        other != k,
    ensures
        prop_get(prop_insert(m, k, v), k) == Some(v),
        prop_get(prop_insert(m, k, v), other) == prop_get(m, other),
{
    lemma_prop_index(m, k);
    lemma_prop_index(m, other);
    let m2 = prop_insert(m, k, v);
    lemma_prop_index(m2, other);
    match prop_index(m, k) {
        Some(i) => {
            assert forall|j: int| 0 <= j < i implies m2[j].0 != k by {
                assert(m2[j] == m[j]);
            }
            lemma_prop_index_unique(m2, k, i);
        },
        None => {
            assert forall|j: int| 0 <= j < m.len() implies m2[j].0 != k by {
                assert(m2[j] == m[j]);
            }
            lemma_prop_index_unique(m2, k, m.len() as int);
        },
    }
    match prop_index(m, other) {
        Some(i) => {
            assert forall|j: int| 0 <= j < i implies m2[j].0 != other by {
                if m2[j] != m[j] {
                    assert(m2[j].0 == k);
                }
            }
            assert(m2[i].0 == other);
            lemma_prop_index_unique(m2, other, i);
        },
        None => {
            assert forall|j: int| 0 <= j < m2.len() implies m2[j].0 != other by {
                if j < m.len() && m2[j] == m[j] {
                } else {
                    assert(m2[j].0 == k);
                }
            }
        },
    }
}

} // verus!
