//! File paths as the library sees them: an optional root and a list of
//! components, with the name, stem and extension rules of `std::path`.
use vstd::prelude::*;
use crate::text::{
    chars_of, string_from_chars, split_on, split_chars, lemma_split_on_nonempty, chars_eq_str,
    sub_chars, concat,
};

verus! {

/// A path: whether it starts at the root, and its components in order. A
/// component is a name, `..`, or a leading `.`; separators and other `.`
/// components are not kept (as in `Path::components`).
#[derive(Debug, PartialEq, Eq)]
pub struct FilePath {
    pub absolute: bool,
    pub parts: Vec<String>,
}

pub struct PathModel {
    pub absolute: bool,
    pub parts: Seq<Seq<char>>,
}

impl View for FilePath {
    type V = PathModel;

    open spec fn view(&self) -> PathModel {
        PathModel { absolute: self.absolute, parts: Seq::new(self.parts@.len(), |i: int| self.parts@[i]@) }
    }
}

/// Whether a component is a name (not `.` or `..`).
pub open spec fn is_name(part: Seq<char>) -> bool {
    part != "."@ && part != ".."@
}

/// `Path::file_name`: the last component when it is a name.
pub open spec fn file_name_of(p: PathModel) -> Option<Seq<char>> {
    if p.parts.len() > 0 && is_name(p.parts.last()) {
        Some(p.parts.last())
    } else {
        None
    }
}

/// `Path::parent`: the path without its last component, if it has one.
pub open spec fn parent_of(p: PathModel) -> Option<PathModel> {
    if p.parts.len() > 0 {
        Some(PathModel { absolute: p.absolute, parts: p.parts.drop_last() })
    } else {
        None
    }
}

/// The position of the last `.` in a name, if any.
pub open spec fn last_dot(name: Seq<char>) -> Option<int>
    decreases name.len(),
{
    if name.len() == 0 {
        None
    } else if name.last() == '.' {
        Some(name.len() - 1)
    } else {
        last_dot(name.drop_last())
    }
}

/// The split of a file name into stem and extension (`rsplit_file_at_dot`):
/// at the last `.`, unless the name is `..` or the only `.` starts it.
pub open spec fn split_name(name: Seq<char>) -> (Seq<char>, Option<Seq<char>>) {
    if name == ".."@ {
        (name, None)
    } else {
        match last_dot(name) {
            Some(i) => if i == 0 {
                (name, None)
            } else {
                (name.take(i), Some(name.skip(i + 1)))
            },
            None => (name, None),
        }
    }
}

/// `Path::extension`.
pub open spec fn extension_of(p: PathModel) -> Option<Seq<char>> {
    match file_name_of(p) {
        Some(n) => split_name(n).1,
        None => None,
    }
}

/// `Path::file_stem`.
pub open spec fn stem_of(p: PathModel) -> Option<Seq<char>> {
    match file_name_of(p) {
        Some(n) => Some(split_name(n).0),
        None => None,
    }
}

/// `Path::with_extension`: the last component replaced by the stem, a `.`
/// and `ext` (the stem alone when `ext` is empty); the path itself when it
/// has no file name.
pub open spec fn with_extension_of(p: PathModel, ext: Seq<char>) -> PathModel {
    match stem_of(p) {
        Some(s) => PathModel {
            absolute: p.absolute,
            parts: p.parts.drop_last().push(
                if ext.len() == 0 {
                    s
                } else {
                    s + seq!['.'] + ext
                },
            ),
        },
        None => p,
    }
}

/// The name of the parent directory (`path.parent()?.file_name()`).
pub open spec fn parent_name_of(p: PathModel) -> Option<Seq<char>> {
    match parent_of(p) {
        Some(q) => file_name_of(q),
        None => None,
    }
}

/// The components that `Path::components` yields for the pieces between
/// `/`s: empty pieces and `.` pieces are dropped, except a `.` that is the
/// first piece of a relative path (`leading`).
pub open spec fn text_parts(pieces: Seq<Seq<char>>, leading: bool) -> Seq<Seq<char>>
    decreases pieces.len(),
{
    if pieces.len() == 0 {
        Seq::empty()
    } else {
        let rest = text_parts(pieces.drop_last(), leading);
        let p = pieces.last();
        if p.len() == 0 || (p == "."@ && !(pieces.len() == 1 && leading)) {
            rest
        } else {
            rest.push(p)
        }
    }
}

/// The path that a text names.
pub open spec fn path_of_text(s: Seq<char>) -> PathModel {
    let absolute = s.len() > 0 && s[0] == '/';
    PathModel { absolute, parts: text_parts(split_on(s, '/'), !absolute) }
}

/// `Path::join`: an absolute text replaces the path, a relative one is
/// appended to it.
pub open spec fn join_of(p: PathModel, s: Seq<char>) -> PathModel {
    let q = path_of_text(s);
    if q.absolute {
        q
    } else {
        let tail = if q.parts.len() > 0 && q.parts[0] == "."@ { q.parts.drop_first() } else { q.parts };
        PathModel { absolute: p.absolute, parts: p.parts + tail }
    }
}

/// The displayed form of a path: components joined by `/`, with a leading
/// `/` for an absolute path.
pub open spec fn joined(parts: Seq<Seq<char>>) -> Seq<char>
    decreases parts.len(),
{
    if parts.len() == 0 {
        Seq::empty()
    } else if parts.len() == 1 {
        parts[0]
    } else {
        joined(parts.drop_last()) + seq!['/'] + parts.last()
    }
}

pub open spec fn display_of(p: PathModel) -> Seq<char> {
    if p.absolute {
        seq!['/'] + joined(p.parts)
    } else {
        joined(p.parts)
    }
}

proof fn lemma_last_dot(name: Seq<char>)
    ensures
        last_dot(name) matches Some(i) ==> 0 <= i < name.len() && name[i] == '.' && forall|j: int|
            i < j < name.len() ==> name[j] != '.',
        last_dot(name) is None ==> forall|j: int| 0 <= j < name.len() ==> name[j] != '.',
    decreases name.len(),
{
    if name.len() > 0 && name.last() != '.' {
        let d = name.drop_last();
        lemma_last_dot(d);
        assert forall|j: int| 0 <= j < d.len() implies d[j] == name[j] by {}
    }
}

fn find_last_dot(name: &Vec<char>) -> (r: Option<usize>)
    ensures
        r matches Some(i) ==> last_dot(name@) == Some(i as int) && i < name@.len(),
        r is None ==> last_dot(name@) is None,
{
    let mut i: usize = name.len();
    assert(name@.take(i as int) =~= name@);
    while i > 0
        invariant
            i <= name@.len(),
            last_dot(name@) == last_dot(name@.take(i as int)),
        decreases i,
    {
        assert(name@.take(i as int).drop_last() =~= name@.take(i - 1));
        if name[i - 1] == '.' {
            proof {
                lemma_last_dot(name@);
            }
            return Some(i - 1);
        }
        i = i - 1;
    }
    None
}

impl FilePath {
    /// A copy of the path.
    pub fn copy(&self) -> (r: FilePath)
        ensures
            r@ == self@,
    {
        let mut parts: Vec<String> = Vec::new();
        let mut i: usize = 0;
        while i < self.parts.len()
            invariant
                i <= self.parts@.len(),
                parts@.len() == i,
                forall|k: int| 0 <= k < i ==> #[trigger] parts@[k]@ == self.parts@[k]@,
            decreases self.parts.len() - i,
        {
            parts.push(self.parts[i].clone());
            i = i + 1;
        }
        let r = FilePath { absolute: self.absolute, parts };
        assert(r@.parts =~= self@.parts);
        r
    }

    /// The path that a `/`-separated text names.
    pub fn from_text(s: &str) -> (r: FilePath)
        ensures
            r@ == path_of_text(s@),
    {
        let chars = chars_of(s);
        let absolute = chars.len() > 0 && chars[0] == '/';
        let pieces = split_chars(&chars, '/');
        let ghost sp = split_on(s@, '/');
        let mut parts: Vec<String> = Vec::new();
        let mut i: usize = 0;
        while i < pieces.len()
            invariant
                i <= pieces@.len() == sp.len(),
                forall|k: int| 0 <= k < pieces@.len() ==> #[trigger] pieces@[k]@ == sp[k],
                Seq::new(parts@.len(), |k: int| parts@[k]@) =~= text_parts(
                    sp.take(i as int),
                    !absolute,
                ),
            decreases pieces.len() - i,
        {
            let p = &pieces[i];
            let is_dot = chars_eq_str(p, ".");
            proof {
                assert(sp.take(i + 1).drop_last() =~= sp.take(i as int));
                assert(sp.take(i + 1).last() == sp[i as int]);
            }
            if p.len() == 0 || (is_dot && !(i == 0 && !absolute)) {
            } else {
                parts.push(string_from_chars(p));
            }
            i = i + 1;
        }
        assert(sp.take(sp.len() as int) =~= sp);
        FilePath { absolute, parts }
    }
}

impl FilePath {
    fn last_is_name(&self) -> (r: bool)
        ensures
            r == (self@.parts.len() > 0 && is_name(self@.parts.last())),
    {
        if self.parts.len() == 0 {
            return false;
        }
        let last = chars_of(self.parts[self.parts.len() - 1].as_str());
        !chars_eq_str(&last, ".") && !chars_eq_str(&last, "..")
    }

    /// `Path::file_name`.
    pub fn file_name(&self) -> (r: Option<String>)
        ensures
            r matches Some(n) ==> file_name_of(self@) == Some(n@),
            r is None ==> file_name_of(self@) is None,
    {
        if self.last_is_name() {
            Some(self.parts[self.parts.len() - 1].clone())
        } else {
            None
        }
    }

    /// `Path::parent`.
    pub fn parent(&self) -> (r: Option<FilePath>)
        ensures
            r matches Some(q) ==> parent_of(self@) == Some(q@),
            r is None ==> parent_of(self@) is None,
    {
        if self.parts.len() == 0 {
            return None;
        }
        let mut q = self.copy();
        q.parts.pop();
        assert(q@.parts =~= self@.parts.drop_last());
        Some(q)
    }

    /// `Path::extension`.
    pub fn extension(&self) -> (r: Option<String>)
        ensures
            r matches Some(e) ==> extension_of(self@) == Some(e@),
            r is None ==> extension_of(self@) is None,
    {
        match self.file_name() {
            None => None,
            Some(n) => {
                let c = chars_of(n.as_str());
                if chars_eq_str(&c, "..") {
                    return None;
                }
                match find_last_dot(&c) {
                    Some(i) => {
                        if i == 0 {
                            None
                        } else {
                            Some(string_from_chars(&sub_chars(&c, i + 1, c.len())))
                        }
                    },
                    None => None,
                }
            },
        }
    }

    /// `Path::file_stem`.
    pub fn file_stem(&self) -> (r: Option<String>)
        ensures
            r matches Some(e) ==> stem_of(self@) == Some(e@),
            r is None ==> stem_of(self@) is None,
    {
        match self.file_name() {
            None => None,
            Some(n) => {
                let c = chars_of(n.as_str());
                if chars_eq_str(&c, "..") {
                    return Some(n);
                }
                match find_last_dot(&c) {
                    Some(i) => {
                        if i == 0 {
                            Some(n)
                        } else {
                            proof {
                                assert(c@.subrange(0, i as int) =~= c@.take(i as int));
                            }
                            Some(string_from_chars(&sub_chars(&c, 0, i)))
                        }
                    },
                    None => Some(n),
                }
            },
        }
    }

    /// `Path::with_extension`.
    pub fn with_extension(&self, ext: &str) -> (r: FilePath)
        ensures
            r@ == with_extension_of(self@, ext@),
    {
        match self.file_stem() {
            None => self.copy(),
            Some(s) => {
                let e = chars_of(ext);
                let name = if e.len() == 0 {
                    s
                } else {
                    let dotted = concat(s.as_str(), ".");
                    proof {
                        reveal_strlit(".");
                    }
                    concat(dotted.as_str(), ext)
                };
                let ghost want = if ext@.len() == 0 {
                    s@
                } else {
                    s@ + seq!['.'] + ext@
                };
                assert(name@ == want);
                let mut q = self.copy();
                q.parts.pop();
                let ghost popped = q@.parts;
                assert(popped =~= self@.parts.drop_last());
                q.parts.push(name);
                assert(q@.parts =~= popped.push(want));
                q
            },
        }
    }

    /// The path with one more component.
    pub fn join_name(&self, name: &str) -> (r: FilePath)
        ensures
            r@ == (PathModel { absolute: self@.absolute, parts: self@.parts.push(name@) }),
    {
        let mut q = self.copy();
        q.parts.push(name.to_owned());
        assert(q@.parts =~= self@.parts.push(name@));
        q
    }

    /// `Path::join` with a `/`-separated text.
    pub fn join_text(&self, text: &str) -> (r: FilePath)
        ensures
            r@ == join_of(self@, text@),
    {
        let q = FilePath::from_text(text);
        if q.absolute {
            return q;
        }
        let mut out = self.copy();
        let mut i: usize = 0;
        let skip_first = q.parts.len() > 0 && chars_eq_str(&chars_of(q.parts[0].as_str()), ".");
        if skip_first {
            i = 1;
        }
        let ghost tail = if skip_first { q@.parts.drop_first() } else { q@.parts };
        let start = i;
        while i < q.parts.len()
            invariant
                start <= i <= q.parts@.len(),
                start == (if skip_first { 1int } else { 0int }),
                skip_first ==> q@.parts.len() > 0,
                tail == (if skip_first { q@.parts.drop_first() } else { q@.parts }),
                out@.absolute == self@.absolute,
                out@.parts =~= self@.parts + tail.take(i - start),
            decreases q.parts.len() - i,
        {
            let ghost before = out@.parts;
            out.parts.push(q.parts[i].clone());
            proof {
                assert(tail[i - start] == q@.parts[i as int]);
                assert(out@.parts =~= before.push(q@.parts[i as int]));
                assert(tail.take(i + 1 - start) =~= tail.take(i - start).push(q@.parts[i as int]));
            }
            i = i + 1;
        }
        assert(tail.take(i - start) =~= tail);
        out
    }

    /// The path as text, with `/` separators.
    pub fn display(&self) -> (r: String)
        ensures
            r@ == display_of(self@),
    {
        let mut out: String = if self.absolute { "/".to_owned() } else { String::new() };
        proof {
            reveal_strlit("/");
        }
        let ghost prefix = out@;
        let mut i: usize = 0;
        while i < self.parts.len()
            invariant
                i <= self.parts@.len(),
                prefix == (if self.absolute { seq!['/'] } else { Seq::<char>::empty() }),
                out@ == prefix + joined(self@.parts.take(i as int)),
            decreases self.parts.len() - i,
        {
            let ghost before = out@;
            if i > 0 {
                out = concat(out.as_str(), "/");
                proof {
                    reveal_strlit("/");
                }
            }
            out = concat(out.as_str(), self.parts[i].as_str());
            proof {
                let t = self@.parts.take(i + 1);
                assert(t.drop_last() =~= self@.parts.take(i as int));
                assert(t.last() == self.parts@[i as int]@);
                if i == 0 {
                    assert(t.len() == 1);
                }
            }
            i = i + 1;
        }
        assert(self@.parts.take(self.parts@.len() as int) =~= self@.parts);
        out
    }

    /// `Path::ancestors`: the path itself, then each parent in turn.
    pub fn ancestors(&self) -> (r: Vec<FilePath>)
        ensures
            r@.len() == self@.parts.len() + 1,
            forall|i: int| 0 <= i < r@.len() ==> #[trigger] r@[i]@ == (PathModel {
                absolute: self@.absolute,
                parts: self@.parts.take(self@.parts.len() - i),
            }),
    {
        let mut out: Vec<FilePath> = Vec::new();
        let mut cur = self.copy();
        let n = self.parts.len();
        assert(self@.parts.take(n as int) =~= self@.parts);
        out.push(self.copy());
        let mut i: usize = 0;
        while i < n
            invariant
                i <= n,
                n == self@.parts.len(),
                out@.len() == i + 1,
                cur.parts@.len() == n - i,
                cur@ == (PathModel { absolute: self@.absolute, parts: self@.parts.take(n - i) }),
                forall|k: int| 0 <= k <= i ==> #[trigger] out@[k]@ == (PathModel {
                    absolute: self@.absolute,
                    parts: self@.parts.take(n - k),
                }),
            decreases n - i,
        {
            cur.parts.pop();
            assert(cur@.parts =~= self@.parts.take(n - i - 1));
            out.push(cur.copy());
            i = i + 1;
        }
        out
    }
}

/// The file name as text (empty when the path has none).
pub fn file_name(path: &FilePath) -> (r: String)
    ensures
        r@ == (match file_name_of(path@) {
            Some(n) => n,
            None => Seq::empty(),
        }),
{
    match path.file_name() {
        Some(n) => n,
        None => String::new(),
    }
}

/// The file stem as text (empty when the path has no file name).
pub fn stem(path: &FilePath) -> (r: String)
    ensures
        r@ == (match stem_of(path@) {
            Some(n) => n,
            None => Seq::empty(),
        }),
{
    match path.file_stem() {
        Some(n) => n,
        None => String::new(),
    }
}

/// The path and all its ancestors, nearest first.
pub fn ancestors_including(path: &FilePath) -> (r: Vec<FilePath>)
    ensures
        r@.len() == path@.parts.len() + 1,
        forall|i: int| 0 <= i < r@.len() ==> #[trigger] r@[i]@ == (PathModel {
            absolute: path@.absolute,
            parts: path@.parts.take(path@.parts.len() - i),
        }),
{
    path.ancestors()
}

} // verus!
