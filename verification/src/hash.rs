//! Content hashes.

use crate::text;
use vstd::prelude::*;
use vstd::utf8;

verus! {

/// The bytes of a digest in hexadecimal.
pub const HEX_LEN: usize = 64;

/// A lower-case hexadecimal digit.
pub open spec fn is_hex(c: char) -> bool {
    ('0' <= c && c <= '9') || ('a' <= c && c <= 'f')
}

/// The hexadecimal digit of a number below sixteen, as an ASCII byte.
pub open spec fn hex_byte(n: int) -> u8 {
    if n < 10 {
        (48 + n) as u8
    } else {
        (87 + n) as u8
    }
}

/// Bytes in lower-case hexadecimal, the high half of each first, as ASCII bytes.
pub open spec fn hex_bytes(data: Seq<u8>) -> Seq<u8> {
    Seq::new(
        2 * data.len(),
        |i: int|
            if i % 2 == 0 {
                hex_byte(data[i / 2] as int / 16)
            } else {
                hex_byte(data[i / 2] as int % 16)
            },
    )
}

/// Bytes in lower-case hexadecimal.
pub open spec fn hex_text(data: Seq<u8>) -> Seq<char> {
    hex_bytes(data).map_values(|b: u8| b as char)
}

/// The BLAKE3 hash of some bytes.
pub uninterp spec fn blake3_digest(data: Seq<u8>) -> Seq<u8>;

/// The BLAKE3 hash of some bytes, in lower-case hexadecimal.
pub open spec fn blake3_hex(data: Seq<u8>) -> Seq<char> {
    hex_text(blake3_digest(data))
}

/// `blake3::hash`: the 32 bytes depend on the hashed bytes alone.
#[verifier::external_body]
pub(crate) fn digest_of(data: &[u8]) -> (r: [u8; 32])
    ensures
        r@ == blake3_digest(data@),
{
    *blake3::hash(data).as_bytes()
}

fn digit_of(n: u8) -> (r: u8)
    requires
        n < 16,
    ensures
        r == hex_byte(n as int),
{
    if n < 10 {
        48 + n
    } else {
        87 + n
    }
}

/// Fills `dst` with the hexadecimal digits of a digest.
pub fn write_hex(dst: &mut [u8], digest: &[u8; 32])
    requires
        old(dst)@.len() == HEX_LEN,
    ensures
        final(dst)@ == hex_bytes(digest@),
{
    let mut i: usize = 0;
    while i < 32
        invariant
            i <= 32,
            dst@.len() == HEX_LEN,
            forall|j: int| 0 <= j < 2 * i ==> dst@[j] == #[trigger] hex_bytes(digest@)[j],
        decreases 32 - i,
    {
        let b = digest[i];
        dst[2 * i] = digit_of(b / 16);
        dst[2 * i + 1] = digit_of(b % 16);
        i += 1;
    }
    assert(dst@ =~= hex_bytes(digest@));
}

/// A digest in lower-case hexadecimal.
pub fn hex_string(digest: &[u8; 32]) -> (r: String)
    ensures
        r@ == hex_text(digest@),
        r@.len() == HEX_LEN,
        forall|i: int| 0 <= i < r@.len() ==> is_hex(#[trigger] r@[i]),
{
    let mut slot = [0u8; 64];
    write_hex(&mut slot, digest);
    let mut r = String::new();
    let mut i: usize = 0;
    while i < 64
        invariant
            i <= 64,
            slot@ == hex_bytes(digest@),
            r@ == hex_text(digest@).take(i as int),
        decreases 64 - i,
    {
        r.push(slot[i] as char);
        i += 1;
        assert(r@ =~= hex_text(digest@).take(i as int));
    }
    assert(r@ =~= hex_text(digest@));
    r
}

/// The hash of some bytes, in lower-case hexadecimal.
pub fn blake3_bytes(data: &[u8]) -> (r: String)
    ensures
        r@ == blake3_hex(data@),
        r@.len() == HEX_LEN,
        forall|i: int| 0 <= i < r@.len() ==> is_hex(#[trigger] r@[i]),
{
    let d = digest_of(data);
    hex_string(&d)
}

/// The ASCII bytes of the digits are the encoding of their text.
pub proof fn hex_is_ascii(data: Seq<u8>)
    ensures
        utf8::encode_utf8(hex_text(data)) == hex_bytes(data),
{
    let t = hex_text(data);
    assert(utf8::is_ascii_chars(t));
    utf8::is_ascii_chars_encode_utf8(t);
    assert(utf8::encode_utf8(t) =~= hex_bytes(data));
}

/// The first 32 characters of the hash of a text.
pub open spec fn short_hash_of(s: Seq<char>) -> Seq<char> {
    blake3_hex(utf8::encode_utf8(s)).take(32)
}

/// The first 32 characters of the hash of a text.
pub fn short_hash(s: &str) -> (r: String)
    ensures
        r@ == short_hash_of(s@),
        r@.len() == 32,
{
    let full = text::chars_of(blake3_bytes(s.as_bytes()).as_str());
    let mut r = String::new();
    let mut i: usize = 0;
    while i < 32
        invariant
            i <= 32,
            full@ == blake3_hex(utf8::encode_utf8(s@)),
            full@.len() == HEX_LEN,
            r@ == full@.take(i as int),
        decreases 32 - i,
    {
        r.push(full[i]);
        i += 1;
        assert(r@ =~= full@.take(i as int));
    }
    r
}

/// The value of a hexadecimal digit.
pub open spec fn hex_value(c: char) -> int {
    if '0' <= c && c <= '9' {
        c as int - '0' as int
    } else {
        c as int - 'a' as int + 10
    }
}

/// Bytes in hexadecimal take two digits each, the first worth sixteen times the second, so
/// that they can be read back: different bytes have different texts.
pub proof fn hexadecimal_reads_back(data: Seq<u8>, i: int)
    requires
        0 <= i < data.len(),
    ensures
        hex_text(data).len() == 2 * data.len(),
        is_hex(hex_text(data)[2 * i]) && is_hex(hex_text(data)[2 * i + 1]),
        16 * hex_value(hex_text(data)[2 * i]) + hex_value(hex_text(data)[2 * i + 1]) == data[i],
{
    let t = hex_text(data);
    assert((2 * i) / 2 == i && (2 * i) % 2 == 0);
    assert((2 * i + 1) / 2 == i && (2 * i + 1) % 2 == 1);
    let hi = data[i] as int / 16;
    let lo = data[i] as int % 16;
    assert(t[2 * i] == hex_byte(hi) as char);
    assert(t[2 * i + 1] == hex_byte(lo) as char);
    assert(16 * hi + lo == data[i]);
}

} // verus!
