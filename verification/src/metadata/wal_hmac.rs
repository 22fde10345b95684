//! Authentication keys and the header record that declares how a log is framed.

use crate::hashing::{hmac_call, hmac_of, hmac_verify_call};
use vstd::prelude::*;

verus! {

/// The shortest key that is accepted.
pub const MIN_KEY_LEN: usize = 32;

/// The length of an authentication tag.
pub const TAG_LEN: usize = 32;

/// A key of at least [`MIN_KEY_LEN`] bytes.
#[derive(Debug)]
pub struct HmacKey {
    raw: Vec<u8>,
}

impl HmacKey {
    #[verifier::type_invariant]
    spec fn long_enough(&self) -> bool {
        self.raw@.len() >= MIN_KEY_LEN
    }

    /// The key's bytes.
    pub closed spec fn bytes(self) -> Seq<u8> {
        self.raw@
    }

    /// Takes the bytes of a key file. Fewer than [`MIN_KEY_LEN`] bytes are
    /// refused, with the number there were.
    pub fn new(raw: Vec<u8>) -> (r: Result<HmacKey, usize>)
        ensures
            r is Ok <==> raw@.len() >= MIN_KEY_LEN,
            r is Ok <==> raw@.len() >= 32,
            r matches Ok(k) ==> k.bytes() == raw@,
            r matches Err(n) ==> n == raw@.len(),
    {
        if raw.len() < MIN_KEY_LEN {
            Err(raw.len())
        } else {
            Ok(HmacKey { raw })
        }
    }

    /// The tag over `data`.
    pub fn tag(&self, data: &[u8]) -> (r: Vec<u8>)
        ensures
            r@ == hmac_of(self.bytes(), data@),
            r@.len() == TAG_LEN,
    {
        hmac_call(self.raw.as_slice(), data)
    }

    /// Whether `tag` is the tag over `data`.
    pub fn verify(&self, data: &[u8], tag: &[u8]) -> (r: bool)
        ensures
            r == (tag@ == hmac_of(self.bytes(), data@)),
    {
        hmac_verify_call(self.raw.as_slice(), data, tag)
    }
}

/// The model of an optional key.
pub open spec fn key_bytes(key: Option<&HmacKey>) -> Option<Seq<u8>> {
    match key {
        Some(k) => Some(k.bytes()),
        None => None,
    }
}

/// The framing that the header record declares.
#[derive(Debug, Clone, Copy, PartialEq, Eq, Structural)]
pub enum FramingMode {
    /// A checksum only.
    Plain,
    /// A checksum and an HMAC-SHA256 tag per record.
    HmacSha256,
}

/// How the first bytes of a header record read: `roci-wal` and a zero byte.
pub open spec fn header_magic() -> Seq<u8> {
    seq![0x72u8, 0x6f, 0x63, 0x69, 0x2d, 0x77, 0x61, 0x6c, 0x00]
}

/// The byte that stands for a mode.
pub open spec fn mode_byte(mode: FramingMode) -> u8 {
    match mode {
        FramingMode::Plain => 0,
        FramingMode::HmacSha256 => 1,
    }
}

/// The header record's payload.
pub open spec fn header_payload(mode: FramingMode) -> Seq<u8> {
    header_magic().push(mode_byte(mode))
}

/// The mode that a payload declares, if it is a header.
pub open spec fn header_mode(payload: Seq<u8>) -> Option<FramingMode> {
    if payload.len() >= 10 && payload.take(9) == header_magic() {
        if payload[9] == 0 {
            Some(FramingMode::Plain)
        } else if payload[9] == 1 {
            Some(FramingMode::HmacSha256)
        } else {
            None
        }
    } else {
        None
    }
}

/// The mode a log written with `key` declares.
pub open spec fn mode_for(key: Option<Seq<u8>>) -> FramingMode {
    if key is Some {
        FramingMode::HmacSha256
    } else {
        FramingMode::Plain
    }
}

/// The mode a log written with `key` declares.
pub fn framing_mode(key: Option<&HmacKey>) -> (r: FramingMode)
    ensures
        r == mode_for(key_bytes(key)),
{
    if key.is_some() {
        FramingMode::HmacSha256
    } else {
        FramingMode::Plain
    }
}

/// The first bytes of every header record.
fn magic() -> (r: Vec<u8>)
    ensures
        r@ == header_magic(),
{
    let r: Vec<u8> = vec![0x72, 0x6f, 0x63, 0x69, 0x2d, 0x77, 0x61, 0x6c, 0x00];
    assert(r@ =~= header_magic());
    r
}

/// Encodes the header record's payload.
pub fn encode_header(mode: FramingMode) -> (r: Vec<u8>)
    ensures
        r@ == header_payload(mode),
{
    let mut payload = magic();
    payload.push(
        match mode {
            FramingMode::Plain => 0u8,
            FramingMode::HmacSha256 => 1u8,
        },
    );
    payload
}

/// Decodes a header record's payload.
pub fn decode_header(payload: &[u8]) -> (r: Option<FramingMode>)
    ensures
        r == header_mode(payload@),
{
    let magic = magic();
    if payload.len() < magic.len() + 1 {
        return None;
    }
    let mut i: usize = 0;
    while i < magic.len()
        invariant
            magic@ == header_magic(),
            payload@.len() >= 10,
            i <= 9,
            forall|j: int| 0 <= j < i ==> payload@[j] == magic@[j],
        decreases 9 - i,
    {
        if payload[i] != magic[i] {
            assert(payload@.take(9)[i as int] != header_magic()[i as int]);
            return None;
        }
        i += 1;
    }
    assert(payload@.take(9) =~= header_magic());
    match payload[9] {
        0 => Some(FramingMode::Plain),
        1 => Some(FramingMode::HmacSha256),
        _ => None,
    }
}

/// Decoding an encoded header gives the mode back.
pub proof fn header_roundtrip(mode: FramingMode)
    ensures
        header_mode(header_payload(mode)) == Some(mode),
{
    assert(header_payload(mode).take(9) =~= header_magic());
}

} // verus!
