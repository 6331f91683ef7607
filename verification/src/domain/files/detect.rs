//! Deciding what a path is from its name and from which marker files exist.
//!
//! Whether a file exists is asked of the file system by the caller; the
//! functions here name the paths to ask about and decide from the answers.
use vstd::prelude::*;
use crate::domain::files::kind::FileKind;
use crate::session::context::WorldFileStructure;
use crate::text::{chars_of, chars_eq_str};
use crate::util::fs::{
    FilePath, PathModel, extension_of, parent_name_of, parent_of, file_name_of,
};

verus! {

/// The name of the parent of the parent directory is `players` (a file in
/// `players/data/` of the new structure).
pub open spec fn is_new_player_data_path(p: PathModel) -> bool {
    match parent_of(p) {
        Some(q) => parent_name_of(q) == Some("players"@),
        None => false,
    }
}

/// The kind of file a path holds, given whether it is a server root or a
/// world root (`workspace`).
pub open spec fn kind_of(p: PathModel, structure: WorldFileStructure, workspace: bool) -> FileKind {
    if workspace {
        FileKind::Workspace
    } else {
        let ext = match extension_of(p) {
            Some(e) => e,
            None => Seq::empty(),
        };
        let parent = parent_name_of(p);
        if ext == "dat"@ && parent == Some("playerdata"@) && structure == WorldFileStructure::Legacy {
            FileKind::PlayerData
        } else if ext == "dat"@ && parent == Some("data"@) && structure == WorldFileStructure::New
            && is_new_player_data_path(p) {
            FileKind::PlayerData
        } else if ext == "json"@ && parent == Some("stats"@) {
            FileKind::Stats
        } else if ext == "json"@ && parent == Some("advancements"@) {
            FileKind::Advancements
        } else if ext == "dat"@ || ext == "nbt"@ {
            FileKind::Nbt
        } else if ext == "json"@ {
            FileKind::Stats
        } else {
            FileKind::Unknown
        }
    }
}

fn name_is(name: &Option<String>, lit: &str) -> (r: bool)
    ensures
        r == (name matches Some(n) && n@ == lit@),
{
    match name {
        Some(n) => chars_eq_str(&chars_of(n.as_str()), lit),
        None => false,
    }
}

fn parent_name(path: &FilePath) -> (r: Option<String>)
    ensures
        r matches Some(n) ==> parent_name_of(path@) == Some(n@),
        r is None ==> parent_name_of(path@) is None,
{
    match path.parent() {
        Some(q) => q.file_name(),
        None => None,
    }
}

fn is_new_player_data(path: &FilePath) -> (r: bool)
    ensures
        r == is_new_player_data_path(path@),
{
    match path.parent() {
        Some(q) => name_is(&parent_name(&q), "players"),
        None => false,
    }
}

/// The kind of file at `path`; `is_workspace` says whether the path is a
/// server root or a world root (see `server_root_marker` and
/// `world_root_markers`).
pub fn detect_file_kind(path: &FilePath, structure: WorldFileStructure, is_workspace: bool) -> (r:
    FileKind)
    ensures
        r == kind_of(path@, structure, is_workspace),
{
    if is_workspace {
        return FileKind::Workspace;
    }
    let ext: Vec<char> = match path.extension() {
        Some(e) => chars_of(e.as_str()),
        None => Vec::new(),
    };
    let parent = parent_name(path);
    let dat = chars_eq_str(&ext, "dat");
    let json = chars_eq_str(&ext, "json");
    let nbt = chars_eq_str(&ext, "nbt");
    if dat && name_is(&parent, "playerdata") && structure == WorldFileStructure::Legacy {
        FileKind::PlayerData
    } else if dat && name_is(&parent, "data") && structure == WorldFileStructure::New
        && is_new_player_data(path) {
        FileKind::PlayerData
    } else if json && name_is(&parent, "stats") {
        FileKind::Stats
    } else if json && name_is(&parent, "advancements") {
        FileKind::Advancements
    } else if dat || nbt {
        FileKind::Nbt
    } else if json {
        FileKind::Stats
    } else {
        FileKind::Unknown
    }
}

/// How the extension decides the kind of a path that is not a workspace:
/// an `.nbt` file is always a standalone NBT file; a `.dat` file is player
/// data exactly in `playerdata/` (legacy structure) or in `players/data/`
/// (new structure), and a standalone NBT file anywhere else; a `.json` file
/// is an advancements file in `advancements/` and a stats file anywhere
/// else; any other extension, or none, is not a known kind. A workspace is
/// a workspace whatever its name.
pub proof fn lemma_kind_by_extension(p: PathModel, structure: WorldFileStructure, workspace: bool)
    ensures
        workspace ==> kind_of(p, structure, workspace) == FileKind::Workspace,
        !workspace && extension_of(p) == Some("nbt"@) ==> kind_of(p, structure, workspace)
            == FileKind::Nbt,
        !workspace && extension_of(p) == Some("dat"@) ==> (kind_of(p, structure, workspace)
            == FileKind::PlayerData <==> ((structure == WorldFileStructure::Legacy && parent_name_of(p)
            == Some("playerdata"@)) || (structure == WorldFileStructure::New && parent_name_of(p)
            == Some("data"@) && is_new_player_data_path(p)))),
        !workspace && extension_of(p) == Some("dat"@) && kind_of(p, structure, workspace)
            != FileKind::PlayerData ==> kind_of(p, structure, workspace) == FileKind::Nbt,
        !workspace && extension_of(p) == Some("json"@) ==> kind_of(p, structure, workspace) == (
        if parent_name_of(p) == Some("advancements"@) {
            FileKind::Advancements
        } else {
            FileKind::Stats
        }),
        !workspace && !(extension_of(p) == Some("nbt"@) || extension_of(p) == Some("dat"@)
            || extension_of(p) == Some("json"@)) ==> kind_of(p, structure, workspace)
            == FileKind::Unknown,
{
    reveal_strlit("nbt");
    reveal_strlit("dat");
    reveal_strlit("json");
    reveal_strlit("stats");
    reveal_strlit("advancements");
    reveal_strlit("playerdata");
    reveal_strlit("data");
    assert("nbt"@.len() == 3 && "dat"@.len() == 3 && "json"@.len() == 4);
    assert("nbt"@[0] != "dat"@[0]);
    assert("nbt"@ != "dat"@);
    assert("stats"@.len() == 5 && "advancements"@.len() == 12);
}

/// The file whose existence makes `path` a server root.
pub fn server_root_marker(path: &FilePath) -> (r: FilePath)
    ensures
        r@ == (PathModel { absolute: path@.absolute, parts: path@.parts.push("server.properties"@) }),
{
    path.join_name("server.properties")
}

/// Whether `path` is a server root, from whether its marker exists.
pub fn is_server_root(marker_exists: bool) -> (r: bool)
    ensures
        r == marker_exists,
{
    marker_exists
}

/// The directories any one of which makes `path` a world root.
pub open spec fn world_markers(p: PathModel, structure: WorldFileStructure) -> Seq<Seq<Seq<char>>> {
    match structure {
        WorldFileStructure::Legacy => seq![
            p.parts.push("playerdata"@),
            p.parts.push("stats"@),
            p.parts.push("advancements"@),
        ],
        WorldFileStructure::New => seq![
            p.parts.push("players"@).push("data"@),
            p.parts.push("players"@).push("stats"@),
            p.parts.push("players"@).push("advancements"@),
            p.parts.push("dimensions"@).push("minecraft"@).push("overworld"@),
        ],
    }
}

/// The directories whose existence makes `path` a world root.
pub fn world_root_markers(path: &FilePath, structure: WorldFileStructure) -> (r: Vec<FilePath>)
    ensures
        r@.len() == world_markers(path@, structure).len(),
        forall|i: int| 0 <= i < r@.len() ==> #[trigger] r@[i]@ == (PathModel {
            absolute: path@.absolute,
            parts: world_markers(path@, structure)[i],
        }),
{
    let mut out: Vec<FilePath> = Vec::new();
    match structure {
        WorldFileStructure::Legacy => {
            out.push(path.join_name("playerdata"));
            out.push(path.join_name("stats"));
            out.push(path.join_name("advancements"));
        },
        WorldFileStructure::New => {
            out.push(path.join_name("players").join_name("data"));
            out.push(path.join_name("players").join_name("stats"));
            out.push(path.join_name("players").join_name("advancements"));
            out.push(path.join_name("dimensions").join_name("minecraft").join_name("overworld"));
        },
    }
    out
}

/// Whether a path is a world root, from which of its markers exist.
pub fn is_world_root(marker_exists: &Vec<bool>) -> (r: bool)
    ensures
        r == exists|i: int| 0 <= i < marker_exists@.len() && marker_exists@[i],
{
    let mut i: usize = 0;
    while i < marker_exists.len()
        invariant
            i <= marker_exists@.len(),
            forall|k: int| 0 <= k < i ==> !marker_exists@[k],
        decreases marker_exists.len() - i,
    {
        if marker_exists[i] {
            return true;
        }
        i = i + 1;
    }
    false
}

/// The first candidate whose marker exists (`Iterator::find` over the
/// ancestors): used to infer the server root or world root of a file.
pub fn first_marked(candidates: Vec<FilePath>, marked: &Vec<bool>) -> (r: Option<FilePath>)
    requires
        candidates@.len() == marked@.len(),
    ensures
        r matches Some(p) ==> exists|i: int|
            0 <= i < marked@.len() && marked@[i] && p@ == candidates@[i]@ && forall|j: int|
                0 <= j < i ==> !marked@[j],
        r is None ==> forall|j: int| 0 <= j < marked@.len() ==> !marked@[j],
{
    let mut i: usize = 0;
    while i < marked.len()
        invariant
            i <= marked@.len() == candidates@.len(),
            forall|k: int| 0 <= k < i ==> !marked@[k],
        decreases marked.len() - i,
    {
        if marked[i] {
            return Some(candidates[i].copy());
        }
        i = i + 1;
    }
    None
}

/// The paths to test, nearest first, when inferring a root above `path`.
pub fn root_candidates(path: &FilePath) -> (r: Vec<FilePath>)
    ensures
        r@.len() == path@.parts.len() + 1,
        forall|i: int| 0 <= i < r@.len() ==> #[trigger] r@[i]@ == (PathModel {
            absolute: path@.absolute,
            parts: path@.parts.take(path@.parts.len() - i),
        }),
{
    crate::util::fs::ancestors_including(path)
}

/// The nearest of `path` and its ancestors that has `server.properties`;
/// `marked[i]` says whether the `i`-th of them (nearest first, see
/// `root_candidates`) has it.
pub fn infer_server_root(path: &FilePath, marked: &Vec<bool>) -> (r: Option<FilePath>)
    requires
        marked@.len() == path@.parts.len() + 1,
    ensures
        r matches Some(p) ==> exists|i: int|
            0 <= i < marked@.len() && marked@[i] && p@ == (PathModel {
                absolute: path@.absolute,
                parts: path@.parts.take(path@.parts.len() - i),
            }) && forall|j: int| 0 <= j < i ==> !marked@[j],
        r is None ==> forall|j: int| 0 <= j < marked@.len() ==> !marked@[j],
{
    first_marked(root_candidates(path), marked)
}

/// The nearest of `path` and its ancestors that is a world root;
/// `marked[i]` says whether the `i`-th of them (nearest first) is one (see
/// `world_root_markers` and `is_world_root`).
pub fn infer_world_root(path: &FilePath, marked: &Vec<bool>) -> (r: Option<FilePath>)
    requires
        marked@.len() == path@.parts.len() + 1,
    ensures
        r matches Some(p) ==> exists|i: int|
            0 <= i < marked@.len() && marked@[i] && p@ == (PathModel {
                absolute: path@.absolute,
                parts: path@.parts.take(path@.parts.len() - i),
            }) && forall|j: int| 0 <= j < i ==> !marked@[j],
        r is None ==> forall|j: int| 0 <= j < marked@.len() ==> !marked@[j],
{
    first_marked(root_candidates(path), marked)
}

} // verus!
