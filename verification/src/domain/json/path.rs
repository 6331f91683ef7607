//! Paths from the root of a JSON document to one of its values.
use vstd::prelude::*;
use crate::domain::nbt::path::{Segment, segment_text, segments_text, path_text};
use crate::text::{nat_dec, chars_of, string_from_chars, push_nat_digits, usize_to_text};

verus! {

/// One step of a path: an object member by name or an array item by index.
#[derive(Debug, PartialEq, Eq, Hash)]
pub enum JsonPathSegment {
    Key(String),
    Index(usize),
}

impl View for JsonPathSegment {
    type V = Segment;

    open spec fn view(&self) -> Segment {
        match self {
            JsonPathSegment::Key(k) => Segment::Key(k@),
            JsonPathSegment::Index(i) => Segment::Index(*i as nat),
        }
    }
}

/// The text a step is listed under: the member name, or the index in
/// decimal.
pub open spec fn segment_label(s: Segment) -> Seq<char> {
    match s {
        Segment::Key(k) => k,
        Segment::Index(i) => nat_dec(i),
    }
}

impl JsonPathSegment {
    /// A copy of the step.
    pub fn copy(&self) -> (r: JsonPathSegment)
        ensures
            r@ == self@,
    {
        match self {
            JsonPathSegment::Key(k) => JsonPathSegment::Key(k.clone()),
            JsonPathSegment::Index(i) => JsonPathSegment::Index(*i),
        }
    }

    /// The step's label.
    pub fn label(&self) -> (r: String)
        ensures
            r@ == segment_label(self@),
    {
        match self {
            JsonPathSegment::Key(k) => k.clone(),
            JsonPathSegment::Index(i) => usize_to_text(*i),
        }
    }
}

/// A path from the root; the empty path names the root itself.
#[derive(Debug, PartialEq, Eq, Hash)]
pub struct JsonPath(pub Vec<JsonPathSegment>);

/// The models of a sequence of path steps.
pub open spec fn json_segments_view(s: Seq<JsonPathSegment>) -> Seq<Segment> {
    Seq::new(s.len(), |i: int| s[i]@)
}

impl View for JsonPath {
    type V = Seq<Segment>;

    open spec fn view(&self) -> Seq<Segment> {
        json_segments_view(self.0@)
    }
}

impl Default for JsonPath {
    fn default() -> (r: JsonPath)
        ensures
            r@ == Seq::<Segment>::empty(),
    {
        JsonPath(Vec::new())
    }
}

impl JsonPath {
    /// A copy of the path.
    pub fn copy(&self) -> (r: JsonPath)
        ensures
            r@ == self@,
    {
        let mut next: Vec<JsonPathSegment> = Vec::new();
        let mut i: usize = 0;
        while i < self.0.len()
            invariant
                i <= self.0@.len(),
                next@.len() == i,
                forall|j: int| 0 <= j < i ==> #[trigger] next@[j]@ == self.0@[j]@,
            decreases self.0.len() - i,
        {
            let seg = self.0[i].copy();
            let ghost prev = next@;
            next.push(seg);
            proof {
                assert forall|j: int| 0 <= j < i + 1 implies #[trigger] next@[j]@ == self.0@[j]@ by {
                    if j < i {
                        assert(next@[j] == prev[j]);
                    }
                }
            }
            i = i + 1;
        }
        let r = JsonPath(next);
        assert(r@ =~= self@);
        r
    }

    /// The path one step further, into the member `key`.
    pub fn child_key(&self, key: &str) -> (r: JsonPath)
        ensures
            r@ == self@.push(Segment::Key(key@)),
    {
        let mut next = self.copy();
        next.0.push(JsonPathSegment::Key(key.to_owned()));
        assert(next@ =~= self@.push(Segment::Key(key@)));
        next
    }

    /// The path one step further, into array item `index`.
    pub fn child_index(&self, index: usize) -> (r: JsonPath)
        ensures
            r@ == self@.push(Segment::Index(index as nat)),
    {
        let mut next = self.copy();
        next.0.push(JsonPathSegment::Index(index));
        assert(next@ =~= self@.push(Segment::Index(index as nat)));
        next
    }

    /// The displayed form of the path, as its `Display` impl writes it:
    /// `/` for the root, else `/name` and `[index]` steps in order.
    pub fn to_text(&self) -> (r: String)
        ensures
            r@ == path_text(self@),
    {
        if self.0.len() == 0 {
            proof {
                reveal_strlit("/");
            }
            return "/".to_owned();
        }
        let mut out: Vec<char> = Vec::new();
        let mut i: usize = 0;
        while i < self.0.len()
            invariant
                i <= self.0@.len(),
                out@ == segments_text(json_segments_view(self.0@.take(i as int))),
            decreases self.0.len() - i,
        {
            let ghost before = out@;
            match &self.0[i] {
                JsonPathSegment::Key(k) => {
                    out.push('/');
                    let kc = chars_of(k.as_str());
                    let mut j: usize = 0;
                    while j < kc.len()
                        invariant
                            j <= kc@.len(),
                            out@ == before + seq!['/'] + kc@.take(j as int),
                        decreases kc.len() - j,
                    {
                        out.push(kc[j]);
                        j = j + 1;
                        assert(kc@.take(j as int) =~= kc@.take(j - 1 as int).push(kc@[j - 1]));
                    }
                    assert(kc@.take(kc@.len() as int) =~= kc@);
                },
                JsonPathSegment::Index(n) => {
                    out.push('[');
                    push_nat_digits(&mut out, *n as u64);
                    out.push(']');
                },
            }
            proof {
                let s = json_segments_view(self.0@.take(i + 1));
                assert(s.drop_last() =~= json_segments_view(self.0@.take(i as int)));
                assert(s.last() == self.0@[i as int]@);
                assert(out@ =~= before + segment_text(self.0@[i as int]@));
            }
            i = i + 1;
        }
        assert(self.0@.take(self.0@.len() as int) =~= self.0@);
        string_from_chars(&out)
    }
}

} // verus!
