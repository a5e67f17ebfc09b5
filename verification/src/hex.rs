//! Hexadecimal text.
use vstd::prelude::*;

verus! {

/// The character of a digit below sixteen.
pub open spec fn hex_digit(n: int) -> char {
    if n < 10 {
        (48 + n) as char
    } else {
        (87 + n) as char
    }
}

/// Two digits for each byte, the higher one first, letters in lower case.
pub open spec fn hex_text(b: Seq<u8>) -> Seq<char> {
    Seq::new(
        2 * b.len(),
        |i: int|
            if i % 2 == 0 {
                hex_digit(b[i / 2] as int / 16)
            } else {
                hex_digit(b[i / 2] as int % 16)
            },
    )
}

/// `hex::encode`: two lower-case digits for each byte.
#[verifier::external_body]
pub(crate) fn hex_encode(b: &[u8]) -> (s: String)
    ensures
        s@ == hex_text(b@),
{
    hex::encode(b)
}

/// Each byte is written as two digits, and bytes in a row as their digits in a row.
pub proof fn bytes_are_written_one_by_one(a: Seq<u8>, b: Seq<u8>, x: u8)
    ensures
        hex_text(a + b) == hex_text(a) + hex_text(b),
        hex_text(seq![x]) == seq![hex_digit(x as int / 16), hex_digit(x as int % 16)],
        x < 10 ==> hex_digit(x as int) as u32 == 0x30 + x,
        10 <= x < 16 ==> hex_digit(x as int) as u32 == 0x61 + x - 10,
{
    assert forall|i: int| 0 <= i < hex_text(a + b).len() implies #[trigger] hex_text(a + b)[i] == (
    hex_text(a) + hex_text(b))[i] by {
        if i < 2 * a.len() {
            assert((a + b)[i / 2] == a[i / 2]);
        } else {
            assert((a + b)[i / 2] == b[i / 2 - a.len()]);
            assert((i - 2 * a.len()) / 2 == i / 2 - a.len());
        }
    }
    assert(hex_text(a + b) =~= hex_text(a) + hex_text(b));
    assert(hex_text(seq![x]) =~= seq![hex_digit(x as int / 16), hex_digit(x as int % 16)]);
}

} // verus!
