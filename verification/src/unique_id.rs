//! Random identifiers: 128-bit UUIDs of version 4.

use vstd::arithmetic::div_mod::{lemma_div_denominator, lemma_fundamental_div_mod};
use vstd::arithmetic::power::{lemma_pow_adds, lemma_pow_positive, pow};
use vstd::prelude::*;

use crate::hexadecimal::{hex_digit, lemma_hex_digit};

verus! {

/// A UUID.
#[derive(Debug, Clone, Copy, PartialEq, Eq, Structural)]
pub struct UniqueId {
    pub value: u128,
}

/// The `k`-th hexadecimal digit of the 32 that spell `value`, as a number.
pub open spec fn nibble(value: u128, k: int) -> int {
    (value as int / pow(16, (31 - k) as nat)) % 16
}

/// Which of the 32 digits of an identifier stands at place `i` of its
/// hyphenated text.
pub open spec fn digit_at(i: int) -> int {
    if i < 8 {
        i
    } else if i < 13 {
        i - 1
    } else if i < 18 {
        i - 2
    } else if i < 23 {
        i - 3
    } else {
        i - 4
    }
}

/// `value` as 32 lower-case hexadecimal digits with a hyphen behind the
/// eighth, twelfth, sixteenth and twentieth.
pub open spec fn hyphenated(value: u128) -> Seq<char> {
    Seq::new(
        36,
        |i: int|
            if i == 8 || i == 13 || i == 18 || i == 23 {
                '-'
            } else {
                hex_digit(nibble(value, digit_at(i)))
            },
    )
}

/// Whether `value` carries the version and variant of a random UUID.
pub open spec fn is_version_4(value: u128) -> bool {
    nibble(value, 12) == 4 && 8 <= nibble(value, 16) <= 11
}

proof fn lemma_leading_digits(a: u128, b: u128, k: nat)
    requires
        k <= 32,
        forall|j: int| 0 <= j < 32 ==> #[trigger] nibble(a, j) == nibble(b, j),
    ensures
        a as int / pow(16, (32 - k) as nat) == b as int / pow(16, (32 - k) as nat),
    decreases k,
{
    if k == 0 {
        assert(pow(16, 32) == 0x1_0000_0000_0000_0000_0000_0000_0000_0000int) by {
            reveal_with_fuel(pow, 33);
        }
    } else {
        lemma_leading_digits(a, b, (k - 1) as nat);
        let p = pow(16, (32 - k) as nat);
        lemma_pow_positive(16, (32 - k) as nat);
        lemma_pow_adds(16, (32 - k) as nat, 1);
        assert(pow(16, 1) == 16) by {
            reveal_with_fuel(pow, 2);
        }
        assert(pow(16, (32 - (k - 1)) as nat) == p * 16);
        lemma_div_denominator(a as int, p, 16);
        lemma_div_denominator(b as int, p, 16);
        lemma_fundamental_div_mod(a as int / p, 16);
        lemma_fundamental_div_mod(b as int / p, 16);
        assert(nibble(a, (k - 1) as int) == nibble(b, (k - 1) as int));
    }
}

/// Different identifiers have different text.
pub proof fn lemma_hyphenated_is_injective(a: u128, b: u128)
    requires
        hyphenated(a) == hyphenated(b),
    ensures
        a == b,
{
    assert forall|k: int| 0 <= k < 32 implies #[trigger] nibble(a, k) == nibble(b, k) by {
        let i = if k < 8 {
            k
        } else if k < 12 {
            k + 1
        } else if k < 16 {
            k + 2
        } else if k < 20 {
            k + 3
        } else {
            k + 4
        };
        assert(digit_at(i) == k);
        assert(i != 8 && i != 13 && i != 18 && i != 23);
        assert(hyphenated(a)[i] == hex_digit(nibble(a, k)));
        assert(hyphenated(b)[i] == hex_digit(nibble(b, k)));
        assert(hyphenated(a)[i] == hyphenated(b)[i]);
        lemma_hex_digit(nibble(a, k));
        lemma_hex_digit(nibble(b, k));
    }
    lemma_leading_digits(a, b, 32);
    assert(pow(16, 0) == 1) by {
        reveal_with_fuel(pow, 1);
    }
}

/// Calls `uuid::Uuid::new_v4`.
///
/// The claim is that the result carries the version and variant of a random
/// UUID. Its other bits are random: nothing is said of them, nor that two calls
/// differ.
#[verifier::external_body]
fn random_uuid() -> (r: u128)
    ensures
        is_version_4(r),
{
    uuid::Uuid::new_v4().as_u128()
}

/// Calls `Display` of `uuid::Uuid`.
///
/// The claim is that it writes the UUID in lower-case hyphenated form.
#[verifier::external_body]
fn uuid_text(value: u128) -> (r: String)
    ensures
        r@ == hyphenated(value),
{
    uuid::Uuid::from_u128(value).to_string()
}

impl UniqueId {
    /// A fresh random identifier.
    pub fn random() -> (r: UniqueId)
        ensures
            is_version_4(r.value),
    {
        UniqueId { value: random_uuid() }
    }

    /// The identifier in hyphenated form.
    pub fn to_text(&self) -> (r: String)
        ensures
            r@ == hyphenated(self.value),
    {
        uuid_text(self.value)
    }
}

} // verus!
