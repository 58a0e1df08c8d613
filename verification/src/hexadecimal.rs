//! Lower-case hexadecimal text.

use vstd::prelude::*;

verus! {

/// The lower-case hexadecimal digit for `n`, a number below sixteen.
pub open spec fn hex_digit(n: int) -> char {
    if n < 10 {
        ('0' as int + n) as char
    } else {
        ('a' as int + (n - 10)) as char
    }
}

/// Whether `c` is a lower-case hexadecimal digit.
pub open spec fn is_hex_digit(c: char) -> bool {
    '0' <= c <= '9' || 'a' <= c <= 'f'
}

/// The number below sixteen whose hexadecimal digit is `c`.
pub open spec fn digit_value(c: char) -> int {
    if c <= '9' {
        c as int - '0' as int
    } else {
        c as int - 'a' as int + 10
    }
}

/// Two digits for each of `bytes`, the upper half of the byte first.
pub open spec fn lower_hex(bytes: Seq<u8>) -> Seq<char> {
    Seq::new(
        2 * bytes.len(),
        |i: int|
            if i % 2 == 0 {
                hex_digit(bytes[i / 2] as int / 16)
            } else {
                hex_digit(bytes[i / 2] as int % 16)
            },
    )
}

/// The bytes that pairs of hexadecimal digits spell.
pub open spec fn hex_bytes(digits: Seq<char>) -> Seq<u8> {
    Seq::new(
        digits.len() / 2,
        |i: int| (16 * digit_value(digits[2 * i]) + digit_value(digits[2 * i + 1])) as u8,
    )
}

/// A hexadecimal digit stands for one number only.
pub proof fn lemma_hex_digit(n: int)
    requires
        0 <= n < 16,
    ensures
        is_hex_digit(hex_digit(n)),
        digit_value(hex_digit(n)) == n,
{
}

/// Hexadecimal text holds hexadecimal digits only, and reading them gives back
/// the bytes.
pub proof fn lemma_lower_hex(bytes: Seq<u8>)
    ensures
        forall|i: int|
            0 <= i < lower_hex(bytes).len() ==> is_hex_digit(#[trigger] lower_hex(bytes)[i]),
        hex_bytes(lower_hex(bytes)) == bytes,
{
    assert forall|i: int| 0 <= i < lower_hex(bytes).len() implies is_hex_digit(
        #[trigger] lower_hex(bytes)[i],
    ) by {
        lemma_hex_digit(bytes[i / 2] as int / 16);
        lemma_hex_digit(bytes[i / 2] as int % 16);
    }
    assert forall|i: int| 0 <= i < bytes.len() implies #[trigger] hex_bytes(lower_hex(bytes))[i]
        == bytes[i] by {
        lemma_hex_digit(bytes[i] as int / 16);
        lemma_hex_digit(bytes[i] as int % 16);
        assert((2 * i) / 2 == i && (2 * i + 1) / 2 == i);
    }
    assert(hex_bytes(lower_hex(bytes)) == bytes);
}

/// Calls `hex::encode`.
///
/// The claim is that it writes two lower-case hexadecimal digits for each
/// byte, in order.
#[verifier::external_body]
fn encode(bytes: &[u8]) -> (r: String)
    ensures
        r@ == lower_hex(bytes@),
{
    hex::encode(bytes)
}

/// The UTF-8 bytes of `text` in hexadecimal.
pub fn hex_of_text(text: &str) -> (r: String)
    ensures
        r@ == lower_hex(vstd::utf8::encode_utf8(text@)),
{
    encode(text.as_bytes())
}

/// Each byte is two of the sixteen lower-case digits, the upper half first.
pub proof fn law_two_digits_for_each_byte(bytes: Seq<u8>, i: int)
    requires
        0 <= i < bytes.len(),
    ensures
        lower_hex(bytes).len() == 2 * bytes.len(),
        lower_hex(bytes)[2 * i] == "0123456789abcdef"@[bytes[i] as int / 16],
        lower_hex(bytes)[2 * i + 1] == "0123456789abcdef"@[bytes[i] as int % 16],
{
    reveal_strlit("0123456789abcdef");
    assert((2 * i) / 2 == i && (2 * i + 1) / 2 == i);
    let n = bytes[i] as int;
    assert(0 <= n / 16 < 16 && 0 <= n % 16 < 16);
    lemma_hex_digit_is_that_of_the_alphabet(n / 16);
    lemma_hex_digit_is_that_of_the_alphabet(n % 16);
}

proof fn lemma_hex_digit_is_that_of_the_alphabet(n: int)
    requires
        0 <= n < 16,
    ensures
        hex_digit(n) == "0123456789abcdef"@[n],
{
    reveal_strlit("0123456789abcdef");
}

} // verus!
