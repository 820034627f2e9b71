//! Content digests: BLAKE3 in lowercase hexadecimal.

use vstd::prelude::*;

verus! {

/// The lowercase hexadecimal BLAKE3 digest of `data`.
pub uninterp spec fn blake3_hex_of(data: Seq<u8>) -> Seq<char>;

/// A lowercase hexadecimal digit.
pub open spec fn lower_hex_digit(c: char) -> bool {
    ('0' <= c <= '9') || ('a' <= c <= 'f')
}

/// `blake3::hash(data).to_hex()`: the 32-byte BLAKE3 digest of `data`,
/// spelled as 64 lowercase hexadecimal digits. The digest itself is named,
/// not stated.
#[verifier::external_body]
pub fn blake3_hex(data: &[u8]) -> (r: String)
    ensures
        r@ == blake3_hex_of(data@),
        r@.len() == 64,
        forall|i: int| 0 <= i < 64 ==> lower_hex_digit(#[trigger] r@[i]),
{
    blake3::hash(data).to_hex().to_string()
}

/// Appends the UTF-8 bytes of `s`.
pub fn push_utf8(buf: &mut Vec<u8>, s: &str)
    ensures
        final(buf)@ == old(buf)@ + vstd::utf8::encode_utf8(s@),
{
    let b = s.as_bytes();
    for i in 0..b.len()
        invariant
            buf@ == old(buf)@ + b@.take(i as int),
    {
        buf.push(b[i]);
        assert(b@.take(i + 1) =~= b@.take(i as int).push(b@[i as int]));
    }
    assert(b@.take(b.len() as int) =~= b@);
}

} // verus!
