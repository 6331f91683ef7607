//! The bytes of an NBT file: gzip framing around the NBT payload.
use vstd::prelude::*;
use crate::util::error::{HydroxylError, ErrorModel};
use crate::text::chars_of;
use crate::domain::nbt::value::NbtValue;

verus! {

/// How an NBT file's payload is stored.
#[derive(Debug, Clone, Copy, PartialEq, Eq, Structural)]
pub enum CompressionKind {
    Raw,
    Gzip,
}

/// Whether bytes start with the gzip magic number `1f 8b`.
pub open spec fn has_gzip_magic(bytes: Seq<u8>) -> bool {
    bytes.len() >= 2 && bytes[0] == 0x1f && bytes[1] == 0x8b
}

/// The compression that a file's first bytes announce.
pub open spec fn compression_of(bytes: Seq<u8>) -> CompressionKind {
    if has_gzip_magic(bytes) {
        CompressionKind::Gzip
    } else {
        CompressionKind::Raw
    }
}

/// Detects gzip by its magic number; anything else is a raw payload.
pub fn detect_compression(bytes: &[u8]) -> (r: CompressionKind)
    ensures
        r == compression_of(bytes@),
{
    if bytes.len() >= 2 && bytes[0] == 0x1f && bytes[1] == 0x8b {
        CompressionKind::Gzip
    } else {
        CompressionKind::Raw
    }
}

/// What decoding a whole gzip stream gives: the decompressed bytes, or
/// nothing when the stream is not valid gzip.
pub uninterp spec fn gunzip_of(bytes: Seq<u8>) -> Option<Seq<u8>>;

/// The gzip stream that `flate2` writes for the bytes at its default level.
pub uninterp spec fn gzip_of(bytes: Seq<u8>) -> Seq<u8>;

/// `flate2::read::GzDecoder` read to its end. The contract says that the
/// outcome is a function of the input bytes; the error text is not stated.
#[verifier::external_body]
fn gunzip(bytes: &[u8]) -> (r: Result<Vec<u8>, String>)
    ensures
        r matches Ok(v) ==> gunzip_of(bytes@) == Some(v@),
        r is Err ==> gunzip_of(bytes@) is None,
{
    let mut decoder = flate2::read::GzDecoder::new(bytes);
    let mut out: Vec<u8> = Vec::new();
    match std::io::Read::read_to_end(&mut decoder, &mut out) {
        Ok(_) => Ok(out),
        Err(e) => Err(e.to_string()),
    }
}

/// `flate2::write::GzEncoder` at `Compression::default()`, written to a
/// vector and finished. The contract says that this succeeds (the sink is
/// a `Vec`, whose writes never fail, and the deflate stream is fresh), and
/// that the result is a function of the input, starts with the gzip magic
/// number, and decodes back to the input.
#[verifier::external_body]
fn gzip(bytes: &[u8]) -> (r: Result<Vec<u8>, String>)
    ensures
        r is Ok,
        r matches Ok(v) ==> v@ == gzip_of(bytes@) && has_gzip_magic(v@) && gunzip_of(v@) == Some(
            bytes@,
        ),
{
    let mut encoder = flate2::write::GzEncoder::new(Vec::new(), flate2::Compression::default());
    match std::io::Write::write_all(&mut encoder, bytes) {
        Ok(()) => {},
        Err(e) => return Err(e.to_string()),
    }
    match encoder.finish() {
        Ok(v) => Ok(v),
        Err(e) => Err(e.to_string()),
    }
}

/// A parsed NBT file: its tree and the framing it was stored with.
#[derive(Debug)]
pub struct NbtFile {
    pub root: NbtValue,
    pub compression: CompressionKind,
}

/// An NBT payload with the framing it was read with.
#[derive(Debug)]
pub struct NbtPayload {
    pub payload: Vec<u8>,
    pub compression: CompressionKind,
}

/// What reading a file's bytes gives: the payload and its framing, or
/// nothing when a gzip stream does not decode.
pub open spec fn decoded_payload(bytes: Seq<u8>) -> Option<(Seq<u8>, CompressionKind)> {
    match compression_of(bytes) {
        CompressionKind::Raw => Some((bytes, CompressionKind::Raw)),
        CompressionKind::Gzip => match gunzip_of(bytes) {
            Some(p) => Some((p, CompressionKind::Gzip)),
            None => None,
        },
    }
}

/// Strips the framing from a file's bytes.
pub fn decode_payload(bytes: Vec<u8>) -> (r: Result<NbtPayload, HydroxylError>)
    ensures
        r matches Ok(p) ==> decoded_payload(bytes@) == Some((p.payload@, p.compression)),
        r matches Err(e) ==> decoded_payload(bytes@) is None && e@ is Io,
{
    let compression = detect_compression(bytes.as_slice());
    match compression {
        CompressionKind::Raw => Ok(NbtPayload { payload: bytes, compression }),
        CompressionKind::Gzip => match gunzip(bytes.as_slice()) {
            Ok(payload) => Ok(NbtPayload { payload, compression }),
            Err(message) => Err(HydroxylError::Io(message)),
        },
    }
}

/// Frames a payload for writing. This always succeeds, and reading the
/// result back gives the payload and the framing again; a raw payload must
/// not itself start with the gzip magic number for that (an NBT payload
/// starts with its root tag, never with `1f`).
pub fn encode_payload(payload: &Vec<u8>, compression: CompressionKind) -> (r: Result<
    Vec<u8>,
    HydroxylError,
>)
    ensures
        compression == CompressionKind::Raw ==> (r matches Ok(v) && v@ == payload@),
        compression == CompressionKind::Gzip ==> (r matches Ok(v) && v@ == gzip_of(payload@)),
        (compression == CompressionKind::Gzip || !has_gzip_magic(payload@)) ==> (r matches Ok(v)
            && decoded_payload(v@) == Some((payload@, compression))),
{
    match compression {
        CompressionKind::Raw => Ok(payload.clone()),
        CompressionKind::Gzip => match gzip(payload.as_slice()) {
            Ok(v) => Ok(v),
            Err(message) => Err(HydroxylError::Io(message)),
        },
    }
}

} // verus!
