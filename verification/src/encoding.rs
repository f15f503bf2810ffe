//! Lowercase hexadecimal text through the `hex` crate.

use vstd::prelude::*;

verus! {

/// The sixteen lowercase hexadecimal digits, by value.
pub open spec fn hex_digits() -> Seq<char> {
    seq!['0', '1', '2', '3', '4', '5', '6', '7', '8', '9', 'a', 'b', 'c', 'd', 'e', 'f']
}

/// The hexadecimal text of a byte string: two lowercase digits for each
/// byte, the high half of the byte first.
pub open spec fn hex_text(bytes: Seq<u8>) -> Seq<char> {
    Seq::new(
        2 * bytes.len(),
        |i: int|
            if i % 2 == 0 {
                hex_digits()[bytes[i / 2] as int / 16]
            } else {
                hex_digits()[bytes[i / 2] as int % 16]
            },
    )
}

/// Whether a character is a hexadecimal digit of either case.
pub open spec fn is_hex_char(c: char) -> bool {
    ('0' <= c <= '9') || ('a' <= c <= 'f') || ('A' <= c <= 'F')
}

/// Hexadecimal text is twice as long as the bytes it stands for and holds
/// hexadecimal digits only.
pub proof fn lemma_hex_text_shape(bytes: Seq<u8>)
    ensures
        hex_text(bytes).len() == 2 * bytes.len(),
        forall|i: int| 0 <= i < hex_text(bytes).len() ==> is_hex_char(#[trigger] hex_text(bytes)[i]),
{
    assert forall|i: int| 0 <= i < hex_text(bytes).len() implies is_hex_char(
        #[trigger] hex_text(bytes)[i],
    ) by {
        let digits = hex_digits();
        assert forall|k: int| 0 <= k < 16 implies is_hex_char(#[trigger] digits[k]) by {}
    }
}

/// Different byte strings have different hexadecimal text.
pub proof fn lemma_hex_text_injective(a: Seq<u8>, b: Seq<u8>)
    requires
        hex_text(a) == hex_text(b),
    ensures
        a == b,
{
    assert(hex_text(a).len() == 2 * a.len());
    assert forall|k: int| 0 <= k < a.len() implies a[k] == b[k] by {
        let digits = hex_digits();
        assert forall|m: int, n: int| 0 <= m < 16 && 0 <= n < 16 && #[trigger] digits[m]
            == #[trigger] digits[n] implies m == n by {}
        let x = a[k] as int;
        let y = b[k] as int;
        assert(hex_text(a)[2 * k] == digits[x / 16]);
        assert(hex_text(b)[2 * k] == digits[y / 16]);
        assert(hex_text(a)[2 * k + 1] == digits[x % 16]);
        assert(hex_text(b)[2 * k + 1] == digits[y % 16]);
    }
}

/// `hex::encode`: each byte becomes two lowercase hexadecimal digits, the
/// high half first, in the order of the bytes. The bound keeps the text
/// within the size a `String` can have.
#[verifier::external_body]
pub(crate) fn hex_encode(bytes: &[u8]) -> (text: String)
    requires
        bytes@.len() <= 0x3fff_ffff,
    ensures
        text@ == hex_text(bytes@),
{
    hex::encode(bytes)
}

/// The text of a digest: 64 lowercase hexadecimal digits.
pub fn digest_text(digest: &[u8; 32]) -> (text: String)
    ensures
        text@ == hex_text(digest@),
        text@.len() == 64,
{
    hex_encode(digest.as_slice())
}

} // verus!
