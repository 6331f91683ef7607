//! Looking up player faces: the cache of answers, the requests in flight,
//! and the decisions around each lookup.
//!
//! The lookups themselves (HTTP requests to Mojang and image decoding) run
//! outside; they hand their results to the functions here.
use vstd::prelude::*;
use std::collections::{HashMap, HashSet};
use crate::domain::minecraft::profile::{Face8x8, FacePixel, face_view};
use crate::util::error::{HydroxylError, ErrorModel};
use crate::text::{chars_of, chars_eq_str};

verus! {

broadcast use vstd::std_specs::hash::group_hash_axioms;

/// The result of one lookup for a player.
#[derive(Debug)]
pub struct SkinUpdate {
    pub uuid: u128,
    pub result: Result<Face8x8, String>,
    pub resolved_name: Option<String>,
    pub skin_url: Option<String>,
}

/// Work to be done outside.
#[derive(Debug, Clone, Copy, PartialEq, Eq, Structural)]
pub enum AsyncCommand {
    /// Look up the profile and face of this player.
    FetchSkin(u128),
}

/// The remembered answer for a player.
#[derive(Debug)]
pub enum SkinRecord {
    Ready { face: Face8x8, name: Option<String>, skin_url: Option<String> },
    Unavailable { message: String, name: Option<String>, skin_url: Option<String> },
}

/// The model of text that may be missing.
pub open spec fn opt_text(o: Option<String>) -> Option<Seq<char>> {
    match o {
        Some(s) => Some(s@),
        None => None,
    }
}

/// The model of a lookup result: the face's pixels or the error text,
/// with the name and skin URL.
pub struct UpdateModel {
    pub result: Result<Seq<Seq<FacePixel>>, Seq<char>>,
    pub name: Option<Seq<char>>,
    pub skin_url: Option<Seq<char>>,
}

/// What a record answers, as a lookup result.
pub open spec fn record_model(r: SkinRecord) -> UpdateModel {
    match r {
        SkinRecord::Ready { face, name, skin_url } => UpdateModel {
            result: Ok(face_view(face)),
            name: opt_text(name),
            skin_url: opt_text(skin_url),
        },
        SkinRecord::Unavailable { message, name, skin_url } => UpdateModel {
            result: Err(message@),
            name: opt_text(name),
            skin_url: opt_text(skin_url),
        },
    }
}

/// The model of a lookup result.
pub open spec fn update_model(u: SkinUpdate) -> UpdateModel {
    UpdateModel {
        result: match u.result {
            Ok(f) => Ok(face_view(f)),
            Err(m) => Err(m@),
        },
        name: opt_text(u.resolved_name),
        skin_url: opt_text(u.skin_url),
    }
}

fn copy_text(o: &Option<String>) -> (r: Option<String>)
    ensures
        opt_text(r) == opt_text(*o),
{
    match o {
        Some(s) => Some(s.clone()),
        None => None,
    }
}

/// The answers known so far, by player.
pub struct SkinCache {
    entries: HashMap<u128, SkinRecord>,
}

impl SkinCache {
    /// The answers, by player.
    pub closed spec fn answers(&self) -> Map<u128, UpdateModel> {
        self.entries@.map_values(|r: SkinRecord| record_model(r))
    }

    /// An empty cache.
    pub fn new() -> (r: SkinCache)
        ensures
            r.answers() == Map::<u128, UpdateModel>::empty(),
    {
        let r = SkinCache { entries: HashMap::new() };
        assert(r.answers() =~= Map::<u128, UpdateModel>::empty());
        r
    }

    /// The answer for a player, if known.
    pub fn get(&self, uuid: &u128) -> (r: Option<&SkinRecord>)
        ensures
            r matches Some(rec) ==> self.answers().contains_key(*uuid) && self.answers()[*uuid]
                == record_model(*rec),
            r is None ==> !self.answers().contains_key(*uuid),
    {
        self.entries.get(uuid)
    }

    /// Remembers the answer for a player, replacing an earlier one.
    pub fn insert(&mut self, uuid: u128, record: SkinRecord)
        ensures
            final(self).answers() == old(self).answers().insert(uuid, record_model(record)),
    {
        let ghost m = record_model(record);
        self.entries.insert(uuid, record);
        assert(self.answers() =~= old(self).answers().insert(uuid, m));
    }
}

impl Default for SkinCache {
    fn default() -> (r: SkinCache)
        ensures
            r.answers() == Map::<u128, UpdateModel>::empty(),
    {
        SkinCache::new()
    }
}

/// Keeps the answers and the lookups in flight.
pub struct SkinService {
    cache: SkinCache,
    pending: HashSet<u128>,
}

impl SkinService {
    /// The answers known so far.
    pub closed spec fn answers(&self) -> Map<u128, UpdateModel> {
        self.cache.answers()
    }

    /// The players whose lookup is in flight.
    pub closed spec fn in_flight(&self) -> Set<u128> {
        self.pending@
    }

    /// A service that knows nothing and waits for nothing.
    pub fn new() -> (r: SkinService)
        ensures
            r.answers() == Map::<u128, UpdateModel>::empty(),
            r.in_flight() == Set::<u128>::empty(),
    {
        SkinService { cache: SkinCache::new(), pending: HashSet::new() }
    }

    /// Asks for the face of a player. A known answer is given at once; a
    /// lookup already in flight is not started again; otherwise the lookup
    /// is started (the command is returned to be run) and recorded as in
    /// flight.
    pub fn request(&mut self, uuid: u128) -> (r: (Option<SkinUpdate>, Option<AsyncCommand>))
        ensures
            old(self).answers().contains_key(uuid) ==> {
                &&& r.0 matches Some(u) && u.uuid == uuid && update_model(u) == old(self).answers()[uuid]
                &&& r.1 is None
                &&& final(self).answers() == old(self).answers()
                &&& final(self).in_flight() == old(self).in_flight()
            },
            !old(self).answers().contains_key(uuid) && old(self).in_flight().contains(uuid) ==> {
                &&& r.0 is None
                &&& r.1 is None
                &&& final(self).answers() == old(self).answers()
                &&& final(self).in_flight() == old(self).in_flight()
            },
            !old(self).answers().contains_key(uuid) && !old(self).in_flight().contains(uuid) ==> {
                &&& r.0 is None
                &&& r.1 == Some(AsyncCommand::FetchSkin(uuid))
                &&& final(self).answers() == old(self).answers()
                &&& final(self).in_flight() == old(self).in_flight().insert(uuid)
            },
    {
        match self.cache.get(&uuid) {
            Some(SkinRecord::Ready { face, name, skin_url }) => {
                let u = SkinUpdate {
                    uuid,
                    result: Ok(face.copy()),
                    resolved_name: copy_text(name),
                    skin_url: copy_text(skin_url),
                };
                return (Some(u), None);
            },
            Some(SkinRecord::Unavailable { message, name, skin_url }) => {
                let u = SkinUpdate {
                    uuid,
                    result: Err(message.clone()),
                    resolved_name: copy_text(name),
                    skin_url: copy_text(skin_url),
                };
                return (Some(u), None);
            },
            None => {},
        }
        if self.pending.contains(&uuid) {
            return (None, None);
        }
        self.pending.insert(uuid);
        (None, Some(AsyncCommand::FetchSkin(uuid)))
    }

    /// Takes in the results of finished lookups, in order: each player is
    /// no longer in flight and its answer is remembered (a later result
    /// replaces an earlier one). The results are handed back.
    pub fn drain_updates(&mut self, updates: Vec<SkinUpdate>) -> (r: Vec<SkinUpdate>)
        ensures
            r@.len() == updates@.len(),
            forall|i: int| 0 <= i < r@.len() ==> #[trigger] r@[i].uuid == updates@[i].uuid
                && update_model(r@[i]) == update_model(updates@[i]),
            forall|k: u128| #[trigger] final(self).in_flight().contains(k) <==> (old(self).in_flight().contains(k)
                && forall|i: int| 0 <= i < updates@.len() ==> updates@[i].uuid != k),
            forall|k: u128| #[trigger] final(self).answers().contains_key(k) <==> (old(self).answers().contains_key(k)
                || exists|i: int| 0 <= i < updates@.len() && updates@[i].uuid == k),
            forall|i: int| 0 <= i < updates@.len() && (forall|j: int| i < j < updates@.len() ==> updates@[j].uuid
                != updates@[i].uuid) ==> #[trigger] final(self).answers()[updates@[i].uuid] == update_model(
                updates@[i],
            ),
            forall|k: u128| old(self).answers().contains_key(k) && (forall|i: int| 0 <= i < updates@.len()
                ==> updates@[i].uuid != k) ==> #[trigger] final(self).answers()[k] == old(self).answers()[k],
    {
        let mut out: Vec<SkinUpdate> = Vec::new();
        let mut rest = updates;
        let ghost all = updates@;
        let ghost n = updates@.len();
        assert(rest@ =~= all.subrange(0, n as int));
        while rest.len() > 0
            invariant
                n == all.len(),
                out@.len() + rest@.len() == n,
                rest@ =~= all.subrange(out@.len() as int, n as int),
                forall|i: int| 0 <= i < out@.len() ==> #[trigger] out@[i].uuid == all[i].uuid
                    && update_model(out@[i]) == update_model(all[i]),
                forall|k: u128| #[trigger] self.in_flight().contains(k) <==> (old(self).in_flight().contains(k)
                    && forall|i: int| 0 <= i < out@.len() ==> all[i].uuid != k),
                forall|k: u128| #[trigger] self.answers().contains_key(k) <==> (old(self).answers().contains_key(k)
                    || exists|i: int| 0 <= i < out@.len() && all[i].uuid == k),
                forall|i: int| 0 <= i < out@.len() && (forall|j: int| i < j < out@.len() ==> all[j].uuid
                    != all[i].uuid) ==> #[trigger] self.answers()[all[i].uuid] == update_model(all[i]),
                forall|k: u128| old(self).answers().contains_key(k) && (forall|i: int| 0 <= i < out@.len()
                    ==> all[i].uuid != k) ==> #[trigger] self.answers()[k] == old(self).answers()[k],
            decreases rest.len(),
        {
            let update = rest.remove(0);
            let k = out.len();
            let ghost prev_flight = self.in_flight();
            let ghost prev_answers = self.answers();
            let ghost prev_out = out@;
            proof {
                assert(update == all[k as int]);
            }
            self.pending.remove(&update.uuid);
            let record = match &update.result {
                Ok(face) => SkinRecord::Ready {
                    face: face.copy(),
                    name: copy_text(&update.resolved_name),
                    skin_url: copy_text(&update.skin_url),
                },
                Err(message) => SkinRecord::Unavailable {
                    message: message.clone(),
                    name: copy_text(&update.resolved_name),
                    skin_url: copy_text(&update.skin_url),
                },
            };
            self.cache.insert(update.uuid, record);
            out.push(update);
            proof {
                assert(rest@ =~= all.subrange(out@.len() as int, n as int));
                assert(self.in_flight() == prev_flight.remove(all[k as int].uuid));
                assert(self.answers() == prev_answers.insert(all[k as int].uuid, update_model(all[k as int])));
                assert forall|x: u128| #[trigger] self.in_flight().contains(x) <==> (old(self).in_flight().contains(x)
                    && forall|i: int| 0 <= i < out@.len() ==> all[i].uuid != x) by {
                    if self.in_flight().contains(x) {
                        assert forall|i: int| 0 <= i < out@.len() implies all[i].uuid != x by {
                            if i < k {
                                assert(prev_out[i].uuid == all[i].uuid);
                            }
                        }
                    }
                    if old(self).in_flight().contains(x) && forall|i: int| 0 <= i < out@.len() ==> all[i].uuid != x {
                        assert(all[k as int].uuid != x);
                        assert forall|i: int| 0 <= i < prev_out.len() implies all[i].uuid != x by {
                            assert(i < out@.len());
                        }
                    }
                }
                assert forall|x: u128| #[trigger] self.answers().contains_key(x) <==> (old(self).answers().contains_key(x)
                    || exists|i: int| 0 <= i < out@.len() && all[i].uuid == x) by {
                    if x == all[k as int].uuid {
                        assert(0 <= k < out@.len() && all[k as int].uuid == x);
                    } else if exists|i: int| 0 <= i < out@.len() && all[i].uuid == x {
                        let i = choose|i: int| 0 <= i < out@.len() && all[i].uuid == x;
                        assert(i < prev_out.len());
                    }
                }
            }
        }
        out
    }
}

// ---------------------------------------------------------------------------
// Mojang profiles
// ---------------------------------------------------------------------------

/// What a profile lookup gives: the player's name and skin URL.
#[derive(Debug, PartialEq, Eq)]
pub struct ResolvedProfile {
    pub name: String,
    pub skin_url: Option<String>,
}

/// Everything one lookup gives: the name, the skin URL and the face.
#[derive(Debug)]
pub struct ResolvedSkin {
    pub name: Option<String>,
    pub skin_url: Option<String>,
    pub face: Face8x8,
}

/// The skin URL to fetch the face from after a profile lookup, if any.
pub fn face_request(profile: &Result<ResolvedProfile, String>) -> (r: Option<String>)
    ensures
        match profile {
            Ok(p) => opt_text(r) == opt_text(p.skin_url),
            Err(_) => r is None,
        },
{
    match profile {
        Ok(p) => copy_text(&p.skin_url),
        Err(_) => None,
    }
}

/// The result of one lookup: after a failed profile lookup, its error and
/// nothing else; after a profile without a skin URL, the error `missing
/// Mojang skin URL`; otherwise the result of fetching the face (`face`,
/// given for the URL of `face_request`), with the name and URL.
pub fn skin_update(uuid: u128, profile: Result<ResolvedProfile, String>, face: Option<Result<Face8x8, String>>) -> (r:
    SkinUpdate)
    requires
        profile matches Ok(p) ==> (p.skin_url is Some <==> face is Some),
    ensures
        r.uuid == uuid,
        match profile {
            Err(m) => update_model(r) == (UpdateModel { result: Err(m@), name: None, skin_url: None }),
            Ok(p) => {
                &&& opt_text(r.resolved_name) == Some(p.name@)
                &&& opt_text(r.skin_url) == opt_text(p.skin_url)
                &&& match face {
                    Some(Ok(f)) => r.result matches Ok(g) && face_view(g) == face_view(f),
                    Some(Err(m)) => r.result matches Err(x) && x@ == m@,
                    None => r.result matches Err(x) && x@ == "missing Mojang skin URL"@,
                }
            },
        },
{
    match profile {
        Ok(p) => {
            let result = match face {
                Some(Ok(f)) => Ok(f),
                Some(Err(m)) => Err(m),
                None => {
                    proof {
                        reveal_strlit("missing Mojang skin URL");
                    }
                    Err("missing Mojang skin URL".to_owned())
                },
            };
            SkinUpdate { uuid, result, resolved_name: Some(p.name), skin_url: p.skin_url }
        },
        Err(m) => SkinUpdate { uuid, result: Err(m), resolved_name: None, skin_url: None },
    }
}

/// The position of the first property named `textures`.
pub open spec fn textures_index(props: Seq<(Seq<char>, Seq<char>)>) -> Option<int> {
    if exists|i: int| 0 <= i < props.len() && props[i].0 == "textures"@ {
        Some(
            choose|i: int|
                0 <= i < props.len() && props[i].0 == "textures"@ && forall|j: int|
                    0 <= j < i ==> (#[trigger] props[j]).0 != "textures"@,
        )
    } else {
        None
    }
}

/// The models of a profile's (name, value) properties.
pub open spec fn properties_view(p: Seq<(String, String)>) -> Seq<(Seq<char>, Seq<char>)> {
    Seq::new(p.len(), |i: int| (p[i].0@, p[i].1@))
}

/// What standard base64 decoding (`base64::engine::general_purpose::
/// STANDARD`) gives for a text, or nothing when it is not valid base64.
pub uninterp spec fn base64_decode_of(text: Seq<char>) -> Option<Seq<u8>>;

/// `Engine::decode` of the standard engine on the text's bytes. The
/// contract names the result as a function of the text; the error is not
/// stated beyond there being one.
#[verifier::external_body]
fn base64_decode(text: &str) -> (r: Option<Vec<u8>>)
    ensures
        r matches Some(v) ==> base64_decode_of(text@) == Some(v@),
        r is None ==> base64_decode_of(text@) is None,
{
    match base64::Engine::decode(&base64::engine::general_purpose::STANDARD, text.as_bytes()) {
        Ok(v) => Some(v),
        Err(_) => None,
    }
}

/// The decoded `textures` property of a profile: its value, base64
/// decoded (the JSON payload naming the skin). A profile without the
/// property, or a value that is not base64, is an error.
pub fn textures_payload(properties: &Vec<(String, String)>) -> (r: Result<Vec<u8>, HydroxylError>)
    ensures
        match textures_index(properties_view(properties@)) {
            None => r matches Err(e) && e@ == ErrorModel::InvalidData("missing Mojang textures property"@),
            Some(i) => match base64_decode_of(properties@[i].1@) {
                Some(b) => r matches Ok(v) && v@ == b,
                None => r matches Err(e) && e@ is Codec,
            },
        },
{
    let ghost pv = properties_view(properties@);
    let mut i: usize = 0;
    while i < properties.len()
        invariant
            i <= properties@.len(),
            pv == properties_view(properties@),
            forall|j: int| 0 <= j < i ==> (#[trigger] pv[j]).0 != "textures"@,
        decreases properties.len() - i,
    {
        if chars_eq_str(&chars_of(properties[i].0.as_str()), "textures") {
            proof {
                assert(pv[i as int].0 == "textures"@);
                let w = choose|k: int|
                    0 <= k < pv.len() && pv[k].0 == "textures"@ && forall|j: int|
                        0 <= j < k ==> (#[trigger] pv[j]).0 != "textures"@;
                if w < i {
                    assert(pv[w].0 != "textures"@);
                } else if w > i {
                    assert(pv[i as int].0 != "textures"@);
                }
            }
            return match base64_decode(properties[i].1.as_str()) {
                Some(v) => Ok(v),
                None => Err(HydroxylError::Codec("invalid base64 in Mojang textures property".to_owned())),
            };
        }
        i = i + 1;
    }
    Err(HydroxylError::invalid_data("missing Mojang textures property"))
}

// ---------------------------------------------------------------------------
// Skin images
// ---------------------------------------------------------------------------

/// What decoding an image file's bytes gives (`image::load_from_memory`,
/// then `to_rgba8`): its width, height and RGBA pixels row by row, or
/// nothing when the bytes are not an image of a supported format.
pub uninterp spec fn rgba_decode_of(bytes: Seq<u8>) -> Option<(u32, u32, Seq<u8>)>;

/// `image::load_from_memory` followed by `DynamicImage::to_rgba8`, kept as
/// width, height and `ImageBuffer::into_raw`. The contract names the result
/// as a function of the bytes and says that the pixel buffer holds four
/// bytes for each of the `width * height` pixels (`to_rgba8` builds a buffer
/// of exactly that size); the decoding error is not stated beyond there
/// being one.
#[verifier::external_body]
pub(crate) fn decode_rgba(bytes: &Vec<u8>) -> (r: Option<(u32, u32, Vec<u8>)>)
    ensures
        r matches Some(t) ==> rgba_decode_of(bytes@) == Some((t.0, t.1, t.2@)),
        r matches Some(t) ==> t.2@.len() == t.0 * t.1 * 4,
        r is None ==> rgba_decode_of(bytes@) is None,
{
    match image::load_from_memory(bytes.as_slice()) {
        Ok(decoded) => {
            let rgba = decoded.to_rgba8();
            Some((rgba.width(), rgba.height(), rgba.into_raw()))
        },
        Err(_) => None,
    }
}

/// The decoded pixels of a downloaded skin: width, height and RGBA bytes.
/// Bytes that are not an image are a codec error.
pub fn face_image(bytes: &Vec<u8>) -> (r: Result<(u32, u32, Vec<u8>), HydroxylError>)
    ensures
        match rgba_decode_of(bytes@) {
            Some(d) => r matches Ok(t) && (t.0, t.1, t.2@) == d && t.2@.len() == t.0 * t.1 * 4,
            None => r matches Err(e) && e@ is Codec,
        },
{
    match decode_rgba(bytes) {
        Some(t) => Ok(t),
        None => Err(HydroxylError::Codec("the skin is not a readable image".to_owned())),
    }
}

/// One RGBA pixel.
#[derive(Debug, Clone, Copy, PartialEq, Eq, Structural)]
pub struct Rgba8 {
    pub red: u8,
    pub green: u8,
    pub blue: u8,
    pub alpha: u8,
}

/// The pixel at column `x`, row `y` of an RGBA buffer `width` pixels wide.
pub open spec fn rgba_at(buf: Seq<u8>, width: int, x: int, y: int) -> Rgba8 {
    let i = (y * width + x) * 4;
    Rgba8 { red: buf[i], green: buf[i + 1], blue: buf[i + 2], alpha: buf[i + 3] }
}

proof fn lemma_face_index(width: int, height: int, x: int, y: int)
    requires
        48 <= width,
        16 <= height,
        0 <= x < 48,
        8 <= y < 16,
    ensures
        0 <= (y * width + x) * 4,
        (y * width + x) * 4 + 3 < width * height * 4,
{
    assert(y * width + x < width * height) by (nonlinear_arith)
        requires
            48 <= width,
            16 <= height,
            0 <= x < 48,
            8 <= y < 16,
    ;
    assert(0 <= y * width) by (nonlinear_arith)
        requires
            48 <= width,
            8 <= y,
    ;
}

fn pixel_at(buf: &Vec<u8>, width: u32, height: u32, x: u32, y: u32) -> (r: Rgba8)
    requires
        buf@.len() == width * height * 4,
        48 <= width,
        16 <= height,
        x < 48,
        8 <= y < 16,
    ensures
        r == rgba_at(buf@, width as int, x as int, y as int),
{
    proof {
        lemma_face_index(width as int, height as int, x as int, y as int);
    }
    assert((y as int) * (width as int) <= 16 * 0xffff_ffff) by (nonlinear_arith)
        requires
            y < 16,
            width <= 0xffff_ffff,
    ;
    let row: u64 = y as u64 * width as u64;
    assert(row == (y as int) * (width as int));
    let j: u64 = (row + x as u64) * 4;
    let len: usize = buf.len();
    assert(j + 3 < len);
    let i: usize = j as usize;
    assert(i == j);
    Rgba8 { red: buf[i], green: buf[i + 1], blue: buf[i + 2], alpha: buf[i + 3] }
}

/// The two layers of a skin's face: for each of the 8 by 8 face pixels
/// (row `y`, column `x`), the head pixel at (8 + x, 8 + y) and the hat
/// pixel over it at (40 + x, 8 + y). An image narrower than 48 or lower
/// than 16 pixels has no face (the placeholder is shown).
pub fn face_layers(width: u32, height: u32, rgba: &Vec<u8>) -> (r: Option<Vec<Vec<(Rgba8, Rgba8)>>>)
    requires
        rgba@.len() == width * height * 4,
    ensures
        (width < 48 || height < 16) <==> r is None,
        r matches Some(rows) ==> rows@.len() == 8 && forall|y: int|
            0 <= y < 8 ==> (#[trigger] rows@[y])@.len() == 8 && forall|x: int|
                0 <= x < 8 ==> rows@[y]@[x] == (
                    rgba_at(rgba@, width as int, 8 + x, 8 + y),
                    rgba_at(rgba@, width as int, 40 + x, 8 + y),
                ),
{
    if width < 48 || height < 16 {
        return None;
    }
    let mut rows: Vec<Vec<(Rgba8, Rgba8)>> = Vec::new();
    let mut y: u32 = 0;
    while y < 8
        invariant
            y <= 8,
            48 <= width,
            16 <= height,
            rgba@.len() == width * height * 4,
            rows@.len() == y,
            forall|j: int|
                0 <= j < y ==> (#[trigger] rows@[j])@.len() == 8 && forall|x: int|
                    0 <= x < 8 ==> rows@[j]@[x] == (
                        rgba_at(rgba@, width as int, 8 + x, 8 + j),
                        rgba_at(rgba@, width as int, 40 + x, 8 + j),
                    ),
        decreases 8 - y,
    {
        let mut row: Vec<(Rgba8, Rgba8)> = Vec::new();
        let mut x: u32 = 0;
        while x < 8
            invariant
                x <= 8,
                y < 8,
                48 <= width,
                16 <= height,
                rgba@.len() == width * height * 4,
                row@.len() == x,
                forall|k: int|
                    0 <= k < x ==> #[trigger] row@[k] == (
                        rgba_at(rgba@, width as int, 8 + k, 8 + y),
                        rgba_at(rgba@, width as int, 40 + k, 8 + y),
                    ),
            decreases 8 - x,
        {
            let head = pixel_at(rgba, width, height, 8 + x, 8 + y);
            let hat = pixel_at(rgba, width, height, 40 + x, 8 + y);
            row.push((head, hat));
            x = x + 1;
        }
        rows.push(row);
        y = y + 1;
    }
    Some(rows)
}

} // verus!
