//! Rendering numbers and byte strings as text.

use vstd::prelude::*;
use vstd::string::{StrSliceExecFns, StringExecFns};

verus! {

/// The character for a digit below sixteen: `0` to `9`, then `a` to `f`.
pub open spec fn digit_char(digit: nat) -> char {
    "0123456789abcdef"@[digit as int]
}

/// The lowercase hexadecimal rendering of `bytes`: two digits per byte, the
/// high four bits first.
pub open spec fn hex_chars(bytes: Seq<u8>) -> Seq<char> {
    Seq::new(
        2 * bytes.len(),
        |i: int|
            if i % 2 == 0 {
                digit_char((bytes[i / 2] / 16) as nat)
            } else {
                digit_char((bytes[i / 2] % 16) as nat)
            },
    )
}

/// The decimal rendering of `value`, without leading zeros.
pub open spec fn decimal_chars(value: nat) -> Seq<char>
    decreases value,
{
    if value < 10 {
        seq![digit_char(value)]
    } else {
        decimal_chars(value / 10).push(digit_char(value % 10))
    }
}

/// Calls `hex::encode` on `bytes`.
///
/// Trusted: the result is taken to be the lowercase hexadecimal rendering
/// of the input, two digits for each byte with the high half first, as
/// `hex` documents and its digit table shows.
#[verifier::external_body]
pub(crate) fn hex_encode(bytes: &Vec<u8>) -> (text: String)
    ensures
        text@ == hex_chars(bytes@),
{
    hex::encode(bytes)
}

/// The one-character text of a digit below sixteen.
fn digit_text(digit: u8) -> (text: &'static str)
    requires
        digit < 16,
    ensures
        text@ == seq![digit_char(digit as nat)],
{
    let table = "0123456789abcdef";
    proof {
        reveal_strlit("0123456789abcdef");
    }
    assert(table.is_ascii());
    let text = table.substring_ascii(digit as usize, digit as usize + 1);
    assert(text@ =~= seq![table@[digit as int]]);
    text
}

/// Appends the decimal rendering of `value` to `text`.
pub fn push_decimal(text: &mut String, value: u128)
    ensures
        final(text)@ == old(text)@ + decimal_chars(value as nat),
    decreases value,
{
    if value >= 10 {
        push_decimal(text, value / 10);
    }
    text.append(digit_text((value % 10) as u8));
    assert(text@ =~= old(text)@ + decimal_chars(value as nat));
}

} // verus!
