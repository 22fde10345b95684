//! Checksums, digests and authentication tags: the trusted calls into the
//! hashing crates, and a bitwise CRC32C with an exact contract.

use crate::text::Text;
use vstd::prelude::*;

verus! {

/// The SHA-256 that `sha2::Sha256` computes.
pub uninterp spec fn sha256_bytes(data: Seq<u8>) -> Seq<u8>;

/// The SHA-512 that `sha2::Sha512` computes.
pub uninterp spec fn sha512_bytes(data: Seq<u8>) -> Seq<u8>;

/// The HMAC-SHA256 that `hmac::Hmac<sha2::Sha256>` computes.
pub uninterp spec fn hmac_of(key: Seq<u8>, data: Seq<u8>) -> Seq<u8>;

/// `crc32c::crc32c`. Claimed: the CRC32C (Castagnoli) of the data, the division
/// register after all of it, inverted.
#[verifier::external_body]
pub(crate) fn crc_call(data: &[u8]) -> (r: u32)
    ensures
        r == crc_of(data@),
{
    crc32c::crc32c(data)
}

/// `crc32c::crc32c_append`. Claimed: the division goes on where the checksum `crc`
/// left it, with the data.
#[verifier::external_body]
pub(crate) fn crc_append_call(crc: u32, data: &[u8]) -> (r: u32)
    ensures
        r == !crc_from(!crc, data@),
{
    crc32c::crc32c_append(crc, data)
}

/// `sha2::Sha256::digest`. Claimed: the digest depends on the data alone and is
/// 32 bytes long.
#[verifier::external_body]
pub(crate) fn sha256_call(data: &[u8]) -> (r: Vec<u8>)
    ensures
        r@ == sha256_bytes(data@),
        r@.len() == 32,
{
    <sha2::Sha256 as sha2::Digest>::digest(data).to_vec()
}

/// `sha2::Sha512::digest`. Claimed: the digest depends on the data alone and is
/// 64 bytes long.
#[verifier::external_body]
pub(crate) fn sha512_call(data: &[u8]) -> (r: Vec<u8>)
    ensures
        r@ == sha512_bytes(data@),
        r@.len() == 64,
{
    <sha2::Sha512 as sha2::Digest>::digest(data).to_vec()
}

/// A `sha2::Sha256` that is being fed.
#[verifier::external_body]
#[derive(Debug)]
pub struct RunningSha256 {
    inner: sha2::Sha256,
}

/// A `sha2::Sha512` that is being fed.
#[verifier::external_body]
#[derive(Debug)]
pub struct RunningSha512 {
    inner: sha2::Sha512,
}

/// Everything that a `sha2::Sha256` was fed, in order.
pub uninterp spec fn fed_to_sha256(h: RunningSha256) -> Seq<u8>;

/// Everything that a `sha2::Sha512` was fed, in order.
pub uninterp spec fn fed_to_sha512(h: RunningSha512) -> Seq<u8>;

/// How many bytes a `sha2::Sha256` can be fed: it counts their bits in 64 bits.
pub const SHA256_ROOM: u64 = 0x1FFF_FFFF_FFFF_FFFF;

/// `sha2::Sha256::new`. Claimed: it was fed nothing.
#[verifier::external_body]
pub(crate) fn sha256_start() -> (r: RunningSha256)
    ensures
        fed_to_sha256(r) == Seq::<u8>::empty(),
{
    RunningSha256 { inner: <sha2::Sha256 as sha2::Digest>::new() }
}

/// `sha2::Digest::update` of a `sha2::Sha256`. Claimed: the data is fed after what
/// was fed before.
#[verifier::external_body]
pub(crate) fn sha256_feed(h: &mut RunningSha256, data: &[u8])
    ensures
        fed_to_sha256(*final(h)) == fed_to_sha256(*old(h)) + data@,
{
    sha2::Digest::update(&mut h.inner, data)
}

/// `sha2::Digest::finalize` of a `sha2::Sha256`. Claimed: the digest of everything
/// that was fed, however it was cut into pieces.
#[verifier::external_body]
pub(crate) fn sha256_end(h: RunningSha256) -> (r: Vec<u8>)
    requires
        fed_to_sha256(h).len() <= SHA256_ROOM,
    ensures
        r@ == sha256_bytes(fed_to_sha256(h)),
        r@.len() == 32,
{
    sha2::Digest::finalize(h.inner).to_vec()
}

/// `sha2::Sha512::new`. Claimed: it was fed nothing.
#[verifier::external_body]
pub(crate) fn sha512_start() -> (r: RunningSha512)
    ensures
        fed_to_sha512(r) == Seq::<u8>::empty(),
{
    RunningSha512 { inner: <sha2::Sha512 as sha2::Digest>::new() }
}

/// `sha2::Digest::update` of a `sha2::Sha512`. Claimed: the data is fed after what
/// was fed before.
#[verifier::external_body]
pub(crate) fn sha512_feed(h: &mut RunningSha512, data: &[u8])
    ensures
        fed_to_sha512(*final(h)) == fed_to_sha512(*old(h)) + data@,
{
    sha2::Digest::update(&mut h.inner, data)
}

/// `sha2::Digest::finalize` of a `sha2::Sha512`. Claimed: the digest of everything
/// that was fed, however it was cut into pieces; 2^64 bytes are within its count.
#[verifier::external_body]
pub(crate) fn sha512_end(h: RunningSha512) -> (r: Vec<u8>)
    requires
        fed_to_sha512(h).len() <= u64::MAX,
    ensures
        r@ == sha512_bytes(fed_to_sha512(h)),
        r@.len() == 64,
{
    sha2::Digest::finalize(h.inner).to_vec()
}

/// `hmac::Hmac::<sha2::Sha256>`: key, update, finalize. Claimed: the tag
/// depends on the key and the data alone and is 32 bytes long.
#[verifier::external_body]
pub(crate) fn hmac_call(key: &[u8], data: &[u8]) -> (r: Vec<u8>)
    ensures
        r@ == hmac_of(key@, data@),
        r@.len() == 32,
{
    let mut mac = <hmac::Hmac<sha2::Sha256> as hmac::Mac>::new_from_slice(key).expect("any key length");
    hmac::Mac::update(&mut mac, data);
    hmac::Mac::finalize(mac).into_bytes().to_vec()
}

/// `hmac::Mac::verify_slice`. Claimed: it accepts exactly the tag that
/// finalizing over the same key and data gives.
#[verifier::external_body]
pub(crate) fn hmac_verify_call(key: &[u8], data: &[u8], tag: &[u8]) -> (r: bool)
    ensures
        r == (tag@ == hmac_of(key@, data@)),
{
    let mut mac = <hmac::Hmac<sha2::Sha256> as hmac::Mac>::new_from_slice(key).expect("any key length");
    hmac::Mac::update(&mut mac, data);
    hmac::Mac::verify_slice(mac, tag).is_ok()
}

/// The lowercase hexadecimal digit of a value below 16.
pub open spec fn hex_digit(n: int) -> char {
    if n < 10 {
        ('0' as int + n) as char
    } else {
        ('a' as int + n - 10) as char
    }
}

/// Two lowercase digits per byte, the high half first.
pub open spec fn hex_text(data: Seq<u8>) -> Text {
    Seq::new(
        data.len() * 2,
        |i: int| hex_digit(if i % 2 == 0 { data[i / 2] as int / 16 } else { data[i / 2] as int % 16 }),
    )
}

/// `hex::encode`. Claimed: each byte becomes its two lowercase hexadecimal
/// digits, the high half first.
#[verifier::external_body]
pub(crate) fn hex_call(data: &[u8]) -> (r: String)
    ensures
        r@ == hex_text(data@),
{
    hex::encode(data)
}

/// The reflected CRC32C polynomial.
pub const CRC32C_POLYNOMIAL: u32 = 0x82F6_3B78;

/// One bit of the CRC32C division.
pub open spec fn crc_bit(crc: u32) -> u32 {
    if crc & 1 == 1 {
        (crc >> 1) ^ CRC32C_POLYNOMIAL
    } else {
        crc >> 1
    }
}

/// `n` bits of the CRC32C division.
pub open spec fn crc_bits(crc: u32, n: nat) -> u32
    decreases n,
{
    if n == 0 {
        crc
    } else {
        crc_bit(crc_bits(crc, (n - 1) as nat))
    }
}

/// The division register after all of `data`, from where it stood before.
pub open spec fn crc_from(register: u32, data: Seq<u8>) -> u32
    decreases data.len(),
{
    if data.len() == 0 {
        register
    } else {
        crc_bits(crc_from(register, data.drop_last()) ^ (data.last() as u32), 8)
    }
}

/// The division register after all of `data`.
pub open spec fn crc_register(data: Seq<u8>) -> u32 {
    crc_from(0xFFFF_FFFF, data)
}

/// The division goes through two pieces as through the whole.
proof fn lemma_crc_pieces(register: u32, a: Seq<u8>, b: Seq<u8>)
    ensures
        crc_from(register, a + b) == crc_from(crc_from(register, a), b),
    decreases b.len(),
{
    if b.len() == 0 {
        assert(a + b =~= a);
    } else {
        lemma_crc_pieces(register, a, b.drop_last());
        assert((a + b).drop_last() =~= a + b.drop_last());
        assert((a + b).last() == b.last());
    }
}

/// Going on from the checksum of one piece with the next gives the checksum of
/// both.
pub proof fn checksum_goes_on(a: Seq<u8>, b: Seq<u8>)
    ensures
        crc_of(a + b) == !crc_from(!crc_of(a), b),
{
    lemma_crc_pieces(0xFFFF_FFFF, a, b);
    let x = crc_register(a);
    assert(!!x == x) by (bit_vector);
}

/// The checksum of nothing is 0.
pub proof fn lemma_crc_of_nothing()
    ensures
        crc_of(Seq::<u8>::empty()) == 0,
{
    assert(!0xFFFF_FFFFu32 == 0) by (bit_vector);
}

/// The CRC32C (Castagnoli) of `data`.
pub open spec fn crc_of(data: Seq<u8>) -> u32 {
    !crc_register(data)
}

/// Bits of the division that start apart stay apart.
proof fn lemma_crc_bits_apart(a: u32, b: u32, n: nat)
    requires
        a != b,
    ensures
        crc_bits(a, n) != crc_bits(b, n),
    decreases n,
{
    if n > 0 {
        lemma_crc_bits_apart(a, b, (n - 1) as nat);
        let x = crc_bits(a, (n - 1) as nat);
        let y = crc_bits(b, (n - 1) as nat);
        assert(x != y ==> (if x & 1 == 1 {
            (x >> 1) ^ 0x82F6_3B78u32
        } else {
            x >> 1
        }) != (if y & 1 == 1 {
            (y >> 1) ^ 0x82F6_3B78u32
        } else {
            y >> 1
        })) by (bit_vector);
    }
}

/// Data that differs in one byte leaves different registers.
proof fn lemma_registers_apart(data: Seq<u8>, i: int, b: u8)
    requires
        0 <= i < data.len(),
        b != data[i],
    ensures
        crc_register(data.update(i, b)) != crc_register(data),
    decreases data.len(),
{
    let other = data.update(i, b);
    let init = data.drop_last();
    let r = crc_register(init);
    let s = crc_register(other.drop_last());
    let x = data.last() as u32;
    let y = other.last() as u32;
    if i == init.len() {
        assert(other.drop_last() =~= init);
        assert(x != y ==> r ^ x != r ^ y) by (bit_vector);
        lemma_crc_bits_apart(s ^ y, r ^ x, 8);
    } else {
        lemma_registers_apart(init, i, b);
        assert(other.drop_last() =~= init.update(i, b));
        assert(r != s ==> s ^ x != r ^ x) by (bit_vector);
        lemma_crc_bits_apart(s ^ y, r ^ x, 8);
    }
}

/// Data with any one byte changed has another checksum.
pub proof fn changed_byte_changes_the_checksum(data: Seq<u8>, i: int, b: u8)
    requires
        0 <= i < data.len(),
        b != data[i],
    ensures
        crc_of(data.update(i, b)) != crc_of(data),
{
    lemma_registers_apart(data, i, b);
    let x = crc_register(data);
    let y = crc_register(data.update(i, b));
    assert(x != y ==> !x != !y) by (bit_vector);
}

/// CRC32C (Castagnoli) of `data`, bit by bit.
pub fn crc32c(data: &[u8]) -> (r: u32)
    ensures
        r == crc_of(data@),
{
    let mut crc: u32 = 0xFFFF_FFFF;
    let mut i: usize = 0;
    while i < data.len()
        invariant
            i <= data@.len(),
            crc == crc_register(data@.take(i as int)),
        decreases data@.len() - i,
    {
        let ghost start = crc ^ (data@[i as int] as u32);
        crc = crc ^ (data[i] as u32);
        let mut bit: u32 = 0;
        while bit < 8
            invariant
                bit <= 8,
                crc == crc_bits(start, bit as nat),
            decreases 8 - bit,
        {
            if crc & 1 == 1 {
                crc = (crc >> 1) ^ CRC32C_POLYNOMIAL;
            } else {
                crc = crc >> 1;
            }
            bit += 1;
        }
        proof {
            let next = data@.take(i + 1);
            assert(next.drop_last() =~= data@.take(i as int));
            assert(next.last() == data@[i as int]);
        }
        i += 1;
    }
    assert(data@.take(data@.len() as int) =~= data@);
    !crc
}

} // verus!
