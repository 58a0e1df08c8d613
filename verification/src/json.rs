//! JSON strings: how text is written between quotation marks, and how it is
//! read back.

use vstd::prelude::*;

use crate::hexadecimal::{digit_value, hex_digit, lemma_hex_digit};

verus! {

/// How the character `c` is written inside a JSON string.
pub open spec fn json_char(c: char) -> Seq<char> {
    if c == '"' {
        seq!['\\', '"']
    } else if c == '\\' {
        seq!['\\', '\\']
    } else if c == '\u{8}' {
        seq!['\\', 'b']
    } else if c == '\u{9}' {
        seq!['\\', 't']
    } else if c == '\u{a}' {
        seq!['\\', 'n']
    } else if c == '\u{c}' {
        seq!['\\', 'f']
    } else if c == '\u{d}' {
        seq!['\\', 'r']
    } else if '\u{20}' > c {
        seq!['\\', 'u', '0', '0', hex_digit(c as int / 16), hex_digit(c as int % 16)]
    } else {
        seq![c]
    }
}

/// How the characters `s` are written inside a JSON string.
pub open spec fn json_chars(s: Seq<char>) -> Seq<char>
    decreases s.len(),
{
    if s.len() == 0 {
        Seq::empty()
    } else {
        json_char(s[0]) + json_chars(s.drop_first())
    }
}

/// `s` as a JSON string.
pub open spec fn json_string(s: Seq<char>) -> Seq<char> {
    seq!['"'] + json_chars(s) + seq!['"']
}

/// The character that the letter `c` stands for behind a backslash.
pub open spec fn short_escape(c: char) -> Option<char> {
    if c == '"' || c == '\\' || c == '/' {
        Some(c)
    } else if c == 'b' {
        Some('\u{8}')
    } else if c == 't' {
        Some('\u{9}')
    } else if c == 'n' {
        Some('\u{a}')
    } else if c == 'f' {
        Some('\u{c}')
    } else if c == 'r' {
        Some('\u{d}')
    } else {
        None
    }
}

/// The character that four hexadecimal digits spell.
pub open spec fn long_escape(a: char, b: char, c: char, d: char) -> char {
    (4096 * digit_value(a) + 256 * digit_value(b) + 16 * digit_value(c) + digit_value(d)) as char
}

/// What `s` spells up to the first quotation mark that no backslash precedes,
/// and what follows that mark.
pub open spec fn read_string_body(s: Seq<char>) -> Option<(Seq<char>, Seq<char>)>
    decreases s.len(),
{
    if s.len() == 0 {
        None
    } else if s[0] == '"' {
        Some((Seq::empty(), s.skip(1)))
    } else {
        let next = if s[0] != '\\' {
            Some((s[0], 1int))
        } else if s.len() >= 2 && short_escape(s[1]) is Some {
            Some((short_escape(s[1])->0, 2int))
        } else if s.len() >= 6 && s[1] == 'u' {
            Some((long_escape(s[2], s[3], s[4], s[5]), 6int))
        } else {
            None
        };
        match next {
            None => None,
            Some((c, n)) => match read_string_body(s.skip(n)) {
                None => None,
                Some((content, rest)) => Some((seq![c] + content, rest)),
            },
        }
    }
}

/// The text of the JSON string at the start of `s`, and what follows it.
pub open spec fn read_string(s: Seq<char>) -> Option<(Seq<char>, Seq<char>)> {
    if s.len() > 0 && s[0] == '"' {
        read_string_body(s.skip(1))
    } else {
        None
    }
}

proof fn lemma_char_is_nonnegative(c: char)
    ensures
        c as int >= 0,
{
}

proof fn lemma_read_string_body(s: Seq<char>, rest: Seq<char>)
    ensures
        read_string_body(json_chars(s) + seq!['"'] + rest) == Some((s, rest)),
    decreases s.len(),
{
    let written = json_chars(s) + seq!['"'] + rest;
    if s.len() == 0 {
        assert(written[0] == '"');
        assert(written.skip(1) == rest);
        assert(s == Seq::<char>::empty());
    } else {
        let c = s[0];
        let tail = s.drop_first();
        let first = json_char(c);
        let after = json_chars(tail) + seq!['"'] + rest;
        lemma_read_string_body(tail, rest);
        lemma_char_is_nonnegative(c);
        lemma_hex_digit(c as int / 16 % 16);
        lemma_hex_digit(c as int % 16);
        lemma_hex_digit(0);
        assert(written == first + after);
        assert(written.skip(first.len() as int) == after);
        assert forall|i: int| 0 <= i < first.len() implies written[i] == first[i] by {}
        assert(written[0] == first[0]);
        assert(seq![c] + tail == s);
        if '\u{20}' > c && first.len() == 6 {
            assert(c as int / 16 % 16 == c as int / 16);
            assert(written[1] == 'u' && written[2] == '0' && written[3] == '0');
            assert(written[4] == hex_digit(c as int / 16));
            assert(written[5] == hex_digit(c as int % 16));
            assert(long_escape(written[2], written[3], written[4], written[5]) == c);
        } else if first.len() == 2 {
            assert(written[1] == first[1]);
        }
    }
}

/// A JSON string reads back as the text it was written from, whatever follows
/// it.
pub proof fn lemma_read_string(s: Seq<char>, rest: Seq<char>)
    ensures
        read_string(json_string(s) + rest) == Some((s, rest)),
{
    let written = json_string(s) + rest;
    assert(written[0] == '"');
    assert(written.skip(1) == json_chars(s) + seq!['"'] + rest);
    lemma_read_string_body(s, rest);
}

/// The error that `serde_json` reports.
#[verifier::external_type_specification]
#[verifier::external_body]
pub struct ExSerdeJsonError(serde_json::Error);

/// Calls `serde_json::to_string` on a string.
///
/// The claim is that it succeeds on every text and writes it as a JSON string:
/// the quotation mark, the backslash and the control characters below the space
/// escaped, everything else as it is.
#[verifier::external_body]
pub(crate) fn quote(text: &str) -> (r: Result<String, serde_json::Error>)
    ensures
        r is Ok,
        r->Ok_0@ == json_string(text@),
{
    serde_json::to_string(text)
}

} // verus!
