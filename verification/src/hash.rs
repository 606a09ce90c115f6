//! Object hashes: the BLAKE3 digest of a byte sequence, written as lowercase
//! hexadecimal.

use vstd::prelude::*;

verus! {

/// The BLAKE3 digest (32 bytes) of `data`.
pub uninterp spec fn blake3_digest_of(data: Seq<u8>) -> Seq<u8>;

/// Calls `blake3::hash` and hands out the bytes of the digest. The contract
/// claims that the result is the BLAKE3 digest of the input, which depends on
/// the input alone, and that it is `blake3::OUT_LEN` (32) bytes long. Feeding
/// the same bytes to a `blake3::Hasher` in several `update` calls and then
/// calling `finalize` gives the same digest, as the crate documents.
#[verifier::external_body]
fn blake3_digest(data: &[u8]) -> (res: Vec<u8>)
    ensures
        res@ == blake3_digest_of(data@),
        res@.len() == 32,
{
    blake3::hash(data).as_bytes().to_vec()
}

/// The lowercase hexadecimal digit for `n < 16`.
pub open spec fn hex_digit(n: int) -> char {
    if n < 10 {
        (n + 48) as char
    } else {
        (n + 87) as char
    }
}

/// Lowercase hexadecimal text of a byte sequence: two digits per byte, the
/// high half first (the encoding of `blake3::Hash::to_hex`).
pub open spec fn hex_lower(bytes: Seq<u8>) -> Seq<char> {
    Seq::new(
        2 * bytes.len(),
        |i: int|
            if i % 2 == 0 {
                hex_digit(bytes[i / 2] as int / 16)
            } else {
                hex_digit(bytes[i / 2] as int % 16)
            },
    )
}

/// The hash of an object whose hashed bytes are `data`.
pub open spec fn object_hash(data: Seq<u8>) -> Seq<char> {
    hex_lower(blake3_digest_of(data))
}

fn hex_char(n: u8) -> (c: char)
    requires
        n < 16,
    ensures
        c == hex_digit(n as int),
{
    if n < 10 {
        (n + 48) as char
    } else {
        (n + 87) as char
    }
}

/// Writes `bytes` as lowercase hexadecimal.
pub fn to_hex_lower(bytes: &[u8]) -> (res: String)
    ensures
        res@ == hex_lower(bytes@),
{
    let mut res = String::new();
    let n = bytes.len();
    for i in 0..n
        invariant
            n == bytes@.len(),
            res@.len() == 2 * i,
            forall|j: int| 0 <= j < 2 * i ==> #[trigger] res@[j] == hex_lower(bytes@)[j],
    {
        let b = bytes[i];
        res.push(hex_char(b / 16));
        res.push(hex_char(b % 16));
        assert((2 * i) / 2 == i && (2 * i) % 2 == 0);
        assert((2 * i + 1) / 2 == i && (2 * i + 1) % 2 == 1);
    }
    assert(res@ =~= hex_lower(bytes@));
    res
}

/// The hash of an object whose hashed bytes are `data`: 64 lowercase
/// hexadecimal digits.
pub fn hash_bytes(data: &[u8]) -> (res: String)
    ensures
        res@ == object_hash(data@),
        res@.len() == 64,
{
    let digest = blake3_digest(data);
    to_hex_lower(digest.as_slice())
}

} // verus!
