//! Paths from the root of an NBT tree to one of its values.
use vstd::prelude::*;
use crate::text::{nat_dec, chars_of, string_from_chars, push_nat_digits};

verus! {

/// One step of a path: a compound entry by name or a list item by index.
#[derive(Debug, PartialEq, Eq, Hash)]
pub enum NbtPathSegment {
    Key(String),
    Index(usize),
}

/// The model of a path step.
pub enum Segment {
    Key(Seq<char>),
    Index(nat),
}

impl View for NbtPathSegment {
    type V = Segment;

    open spec fn view(&self) -> Segment {
        match self {
            NbtPathSegment::Key(k) => Segment::Key(k@),
            NbtPathSegment::Index(i) => Segment::Index(*i as nat),
        }
    }
}

impl NbtPathSegment {
    /// A copy of the step.
    pub fn copy(&self) -> (r: NbtPathSegment)
        ensures
            r@ == self@,
    {
        match self {
            NbtPathSegment::Key(k) => NbtPathSegment::Key(k.clone()),
            NbtPathSegment::Index(i) => NbtPathSegment::Index(*i),
        }
    }
}

/// A path from the root; the empty path names the root itself.
#[derive(Debug, PartialEq, Eq, Hash)]
pub struct NbtPath(pub Vec<NbtPathSegment>);

/// The models of a sequence of path steps.
pub open spec fn segments_view(s: Seq<NbtPathSegment>) -> Seq<Segment> {
    Seq::new(s.len(), |i: int| s[i]@)
}

impl View for NbtPath {
    type V = Seq<Segment>;

    open spec fn view(&self) -> Seq<Segment> {
        segments_view(self.0@)
    }
}

impl Default for NbtPath {
    fn default() -> (r: NbtPath)
        ensures
            r@ == Seq::<Segment>::empty(),
    {
        NbtPath(Vec::new())
    }
}

/// The text of one step: `/name` or `[index]`.
pub open spec fn segment_text(s: Segment) -> Seq<char> {
    match s {
        Segment::Key(k) => seq!['/'] + k,
        Segment::Index(i) => seq!['['] + nat_dec(i) + seq![']'],
    }
}

/// The concatenated text of all steps.
pub open spec fn segments_text(p: Seq<Segment>) -> Seq<char>
    decreases p.len(),
{
    if p.len() == 0 {
        Seq::empty()
    } else {
        segments_text(p.drop_last()) + segment_text(p.last())
    }
}

/// How a path is displayed: `/` for the root, else its steps in order.
pub open spec fn path_text(p: Seq<Segment>) -> Seq<char> {
    if p.len() == 0 {
        seq!['/']
    } else {
        segments_text(p)
    }
}

impl NbtPath {
    /// The empty path.
    pub fn root() -> (r: NbtPath)
        ensures
            r@ == Seq::<Segment>::empty(),
    {
        NbtPath(Vec::new())
    }

    /// A copy of the path.
    pub fn copy(&self) -> (r: NbtPath)
        ensures
            r@ == self@,
    {
        let mut next: Vec<NbtPathSegment> = Vec::new();
        let mut i: usize = 0;
        while i < self.0.len()
            invariant
                i <= self.0@.len(),
                next@.len() == i,
                forall|j: int| 0 <= j < i ==> #[trigger] next@[j]@ == self.0@[j]@,
            decreases self.0.len() - i,
        {
            let seg = self.0[i].copy();
            let ghost prev = next@;
            next.push(seg);
            proof {
                assert forall|j: int| 0 <= j < i + 1 implies #[trigger] next@[j]@ == self.0@[j]@ by {
                    if j < i {
                        assert(next@[j] == prev[j]);
                    }
                }
            }
            i = i + 1;
        }
        let r = NbtPath(next);
        assert(r@ =~= self@);
        r
    }

    /// The path one step further, into the compound entry `key`.
    pub fn child_key(&self, key: &str) -> (r: NbtPath)
        ensures
            r@ == self@.push(Segment::Key(key@)),
    {
        let mut next = self.copy();
        next.0.push(NbtPathSegment::Key(key.to_owned()));
        assert(next@ =~= self@.push(Segment::Key(key@)));
        next
    }

    /// The path one step further, into list item `index`.
    pub fn child_index(&self, index: usize) -> (r: NbtPath)
        ensures
            r@ == self@.push(Segment::Index(index as nat)),
    {
        let mut next = self.copy();
        next.0.push(NbtPathSegment::Index(index));
        assert(next@ =~= self@.push(Segment::Index(index as nat)));
        next
    }

    /// The displayed form of the path, as its `Display` impl writes it.
    pub fn to_text(&self) -> (r: String)
        ensures
            r@ == path_text(self@),
    {
        if self.0.len() == 0 {
            proof {
                reveal_strlit("/");
            }
            return "/".to_owned();
        }
        let mut out: Vec<char> = Vec::new();
        let mut i: usize = 0;
        while i < self.0.len()
            invariant
                i <= self.0@.len(),
                out@ == segments_text(segments_view(self.0@.take(i as int))),
            decreases self.0.len() - i,
        {
            let ghost before = out@;
            match &self.0[i] {
                NbtPathSegment::Key(k) => {
                    out.push('/');
                    let kc = chars_of(k.as_str());
                    let mut j: usize = 0;
                    while j < kc.len()
                        invariant
                            j <= kc@.len(),
                            out@ == before + seq!['/'] + kc@.take(j as int),
                        decreases kc.len() - j,
                    {
                        out.push(kc[j]);
                        j = j + 1;
                        assert(kc@.take(j as int) =~= kc@.take(j - 1 as int).push(kc@[j - 1]));
                    }
                    assert(kc@.take(kc@.len() as int) =~= kc@);
                },
                NbtPathSegment::Index(n) => {
                    out.push('[');
                    push_nat_digits(&mut out, *n as u64);
                    out.push(']');
                },
            }
            proof {
                let s = segments_view(self.0@.take(i + 1));
                assert(s.drop_last() =~= segments_view(self.0@.take(i as int)));
                assert(s.last() == self.0@[i as int]@);
                assert(out@ =~= before + segment_text(self.0@[i as int]@));
            }
            i = i + 1;
        }
        assert(self.0@.take(self.0@.len() as int) =~= self.0@);
        string_from_chars(&out)
    }
}

} // verus!
