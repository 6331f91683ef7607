//! Player UUIDs in file names.
use vstd::prelude::*;
use crate::util::fs::{FilePath, stem, stem_of};
use crate::text::{chars_of, string_from_chars, sub_chars};

verus! {

/// What `uuid::Uuid::parse_str` gives for a text, as the UUID's 128-bit
/// value (`None` when the text is not a UUID).
pub uninterp spec fn uuid_parse(text: Seq<char>) -> Option<u128>;

/// Calls `uuid::Uuid::parse_str` and keeps the value of a parsed UUID
/// (`Uuid::as_u128`). The result is named, not described: the grammar it
/// accepts (simple, hyphenated, braced and URN forms) is the crate's.
#[verifier::external_body]
fn parse_uuid_text(text: &str) -> (r: Option<u128>)
    ensures
        r == uuid_parse(text@),
{
    match uuid::Uuid::parse_str(text) {
        Ok(u) => Some(u.as_u128()),
        Err(_) => None,
    }
}

/// Whether every character is ASCII.
pub open spec fn all_ascii(s: Seq<char>) -> bool {
    forall|i: int| 0 <= i < s.len() ==> (#[trigger] s[i] as u32) < 128
}

/// A 32-character name in UUID layout: `8-4-4-4-12`.
pub open spec fn hyphenated(s: Seq<char>) -> Seq<char> {
    s.subrange(0, 8) + seq!['-'] + s.subrange(8, 12) + seq!['-'] + s.subrange(12, 16) + seq!['-']
        + s.subrange(16, 20) + seq!['-'] + s.subrange(20, 32)
}

/// The UUID a file's stem names: the stem itself parsed as a UUID, or else,
/// for a stem of 32 ASCII characters, the stem with hyphens inserted.
pub open spec fn uuid_of_stem(s: Seq<char>) -> Option<u128> {
    match uuid_parse(s) {
        Some(u) => Some(u),
        None => if s.len() == 32 && all_ascii(s) {
            uuid_parse(hyphenated(s))
        } else {
            None
        },
    }
}

/// The stem of a path as text (empty when it has none).
pub open spec fn stem_text(p: crate::util::fs::PathModel) -> Seq<char> {
    match stem_of(p) {
        Some(n) => n,
        None => Seq::empty(),
    }
}

/// The player UUID that a file's name holds, if any.
///
/// A stem of 32 bytes that is not ASCII never names a UUID; there the
/// byte slicing of the hyphenated retry could stop the program, and this
/// function returns `None` instead.
pub fn parse_uuid_from_path(path: &FilePath) -> (r: Option<u128>)
    ensures
        r == uuid_of_stem(stem_text(path@)),
{
    let candidate = stem(path);
    if let Some(u) = parse_uuid_text(candidate.as_str()) {
        return Some(u);
    }
    let c = chars_of(candidate.as_str());
    if c.len() != 32 {
        return None;
    }
    let mut i: usize = 0;
    while i < 32
        invariant
            i <= 32,
            c@.len() == 32,
            c@ == stem_text(path@),
            uuid_parse(c@) is None,
            forall|k: int| 0 <= k < i ==> (#[trigger] c@[k] as u32) < 128,
        decreases 32 - i,
    {
        if c[i] as u32 >= 128 {
            assert(!all_ascii(c@));
            return None;
        }
        i = i + 1;
    }
    let mut h: Vec<char> = sub_chars(&c, 0, 8);
    h.push('-');
    h.append(&mut sub_chars(&c, 8, 12));
    h.push('-');
    h.append(&mut sub_chars(&c, 12, 16));
    h.push('-');
    h.append(&mut sub_chars(&c, 16, 20));
    h.push('-');
    h.append(&mut sub_chars(&c, 20, 32));
    assert(h@ =~= hyphenated(c@));
    let text = string_from_chars(&h);
    parse_uuid_text(text.as_str())
}

} // verus!
