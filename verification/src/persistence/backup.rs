//! Where a file's backup goes, and which framing a file is saved with.
use vstd::prelude::*;
use crate::persistence::nbt_codec::CompressionKind;
use crate::text::{chars_of, concat, u64_to_text, nat_dec, eq_ignore_ascii_case, eq_ignore_case_chars};
use crate::util::fs::{FilePath, PathModel, extension_of, with_extension_of, file_name_of, stem_of, split_name, last_dot};

verus! {

/// A path's extension, empty when it has none.
pub open spec fn extension_text(p: PathModel) -> Seq<char> {
    match extension_of(p) {
        Some(e) => e,
        None => Seq::empty(),
    }
}

/// The extension a backup gets: the old extension (if any), then
/// `hydroxyl-<timestamp>.bak`.
pub open spec fn backup_extension(ext: Seq<char>, timestamp: u64) -> Seq<char> {
    if ext.len() == 0 {
        "hydroxyl-"@ + nat_dec(timestamp as nat) + ".bak"@
    } else {
        ext + ".hydroxyl-"@ + nat_dec(timestamp as nat) + ".bak"@
    }
}

/// The path of the backup of `p` taken at `timestamp` (seconds since the
/// Unix epoch).
pub open spec fn backup_path_of(p: PathModel, timestamp: u64) -> PathModel {
    with_extension_of(p, backup_extension(extension_text(p), timestamp))
}

fn extension_string(path: &FilePath) -> (r: String)
    ensures
        r@ == extension_text(path@),
{
    match path.extension() {
        Some(e) => e,
        None => String::new(),
    }
}

/// The path that the backup of `path`, taken at `timestamp`, is copied to:
/// `player.dat` becomes `player.dat.hydroxyl-<timestamp>.bak`.
pub fn backup_path(path: &FilePath, timestamp: u64) -> (r: FilePath)
    ensures
        r@ == backup_path_of(path@, timestamp),
{
    let ext = extension_string(path);
    let stamp = u64_to_text(timestamp);
    let suffix = if chars_of(ext.as_str()).len() == 0 {
        let a = concat("hydroxyl-", stamp.as_str());
        proof {
            reveal_strlit("hydroxyl-");
            reveal_strlit(".bak");
        }
        concat(a.as_str(), ".bak")
    } else {
        let a = concat(ext.as_str(), ".hydroxyl-");
        let b = concat(a.as_str(), stamp.as_str());
        proof {
            reveal_strlit(".hydroxyl-");
            reveal_strlit(".bak");
        }
        concat(b.as_str(), ".bak")
    };
    path.with_extension(suffix.as_str())
}

/// The framing a file is saved with: gzip for a `.dat` extension (in any
/// case), raw otherwise.
pub fn preserve_compression(path: &FilePath) -> (r: CompressionKind)
    ensures
        r == (if eq_ignore_ascii_case(extension_text(path@), "dat"@) {
            CompressionKind::Gzip
        } else {
            CompressionKind::Raw
        }),
{
    let ext = chars_of(extension_string(path).as_str());
    let dat = chars_of("dat");
    if eq_ignore_case_chars(&ext, &dat) {
        CompressionKind::Gzip
    } else {
        CompressionKind::Raw
    }
}

proof fn lemma_last_dot(name: Seq<char>)
    ensures
        last_dot(name) matches Some(i) ==> 0 <= i < name.len() && name[i] == '.',
    decreases name.len(),
{
    if name.len() > 0 && name.last() != '.' {
        lemma_last_dot(name.drop_last());
    }
}

/// A backup sits beside its file and is named after it: `name` becomes
/// `name.hydroxyl-<timestamp>.bak`, whatever the name's extension (a name
/// that ends in a single `.` after other text, whose extension is empty,
/// loses that `.`).
pub proof fn lemma_backup_beside(p: PathModel, timestamp: u64)
    requires
        file_name_of(p) is Some,
        extension_of(p) != Some(Seq::<char>::empty()),
    ensures
        backup_path_of(p, timestamp) == (PathModel {
            absolute: p.absolute,
            parts: p.parts.drop_last().push(
                file_name_of(p).unwrap() + ".hydroxyl-"@ + nat_dec(timestamp as nat) + ".bak"@,
            ),
        }),
{
    let n = file_name_of(p).unwrap();
    let ts = nat_dec(timestamp as nat);
    reveal_strlit(".hydroxyl-");
    reveal_strlit("hydroxyl-");
    reveal_strlit(".bak");
    lemma_last_dot(n);
    let (stem, ext) = split_name(n);
    match ext {
        Some(e) => {
            let i = last_dot(n).unwrap();
            assert(stem + seq!['.'] + e =~= n);
            let suffix = backup_extension(e, timestamp);
            let tail = ".hydroxyl-"@ + ts + ".bak"@;
            assert(extension_of(p) == Some(e));
            if e.len() == 0 {
                assert(e =~= Seq::<char>::empty());
            }
            assert(e.len() > 0);
            assert(suffix =~= e + tail);
            assert(suffix.len() > 0);
            let dotted = stem + seq!['.'];
            assert(dotted + (e + tail) =~= (dotted + e) + tail);
            assert(n + ".hydroxyl-"@ + ts + ".bak"@ =~= n + tail);
        },
        None => {
            assert(stem == n);
            let suffix = backup_extension(Seq::empty(), timestamp);
            assert(suffix.len() > 0);
            let tail = ".hydroxyl-"@ + ts + ".bak"@;
            assert(seq!['.'] + suffix =~= tail);
            assert(stem + seq!['.'] + suffix =~= stem + (seq!['.'] + suffix));
            assert(n + ".hydroxyl-"@ + ts + ".bak"@ =~= n + tail);
        },
    }
}

} // verus!
