//! Text handling shared by the editor shim: white space, words and decimal
//! numbers, all over sequences of Unicode characters.

use vstd::prelude::*;

verus! {

/// Whether `c` has the Unicode property `White_Space`.
pub open spec fn white_space(c: char) -> bool {
    ||| '\u{9}' <= c <= '\u{d}'
    ||| c == '\u{20}'
    ||| c == '\u{85}'
    ||| c == '\u{a0}'
    ||| c == '\u{1680}'
    ||| '\u{2000}' <= c <= '\u{200a}'
    ||| '\u{2028}' <= c <= '\u{2029}'
    ||| c == '\u{202f}'
    ||| c == '\u{205f}'
    ||| c == '\u{3000}'
}

/// `s` without its leading white space.
pub open spec fn trim_start(s: Seq<char>) -> Seq<char>
    decreases s.len(),
{
    if s.len() > 0 && white_space(s[0]) {
        trim_start(s.drop_first())
    } else {
        s
    }
}

/// `s` without its trailing white space.
pub open spec fn trim_end(s: Seq<char>) -> Seq<char>
    decreases s.len(),
{
    if s.len() > 0 && white_space(s.last()) {
        trim_end(s.drop_last())
    } else {
        s
    }
}

/// `s` without the white space at either end.
pub open spec fn trimmed(s: Seq<char>) -> Seq<char> {
    trim_end(trim_start(s))
}

/// Whether `s` holds nothing but white space.
pub open spec fn blank(s: Seq<char>) -> bool {
    forall|i: int| 0 <= i < s.len() ==> white_space(#[trigger] s[i])
}

/// The number of characters before the first white space in `s`.
pub open spec fn word_len(s: Seq<char>) -> nat
    decreases s.len(),
{
    if s.len() > 0 && !white_space(s[0]) {
        1 + word_len(s.drop_first())
    } else {
        0
    }
}

/// The runs of characters in `s` that white space separates, in order.
pub open spec fn words(s: Seq<char>) -> Seq<Seq<char>>
    decreases s.len(),
    via words_decreases
{
    if s.len() == 0 {
        Seq::empty()
    } else if white_space(s[0]) {
        words(s.drop_first())
    } else {
        seq![s.take(word_len(s) as int)] + words(s.skip(word_len(s) as int))
    }
}

#[via_fn]
proof fn words_decreases(s: Seq<char>) {
    lemma_word_len(s);
}

/// Whether `c` is one of the ten ASCII digits.
pub open spec fn decimal_digit(c: char) -> bool {
    '0' <= c <= '9'
}

/// Whether `s` is a non-empty run of ASCII digits.
pub open spec fn decimal(s: Seq<char>) -> bool {
    s.len() > 0 && forall|i: int| 0 <= i < s.len() ==> decimal_digit(#[trigger] s[i])
}

/// The number that the ASCII digits `s` spell in base ten.
pub open spec fn decimal_value(s: Seq<char>) -> int
    decreases s.len(),
{
    if s.len() == 0 {
        0
    } else {
        10 * decimal_value(s.drop_last()) + (s.last() as int - '0' as int)
    }
}

/// The integer that `s` spells: ASCII digits behind at most one sign.
pub open spec fn signed_value(s: Seq<char>) -> Option<int> {
    if decimal(s) {
        Some(decimal_value(s))
    } else if s.len() > 0 && s[0] == '+' && decimal(s.drop_first()) {
        Some(decimal_value(s.drop_first()))
    } else if s.len() > 0 && s[0] == '-' && decimal(s.drop_first()) {
        Some(-decimal_value(s.drop_first()))
    } else {
        None
    }
}

/// The `i32` that `s` spells, if it spells an integer in range.
pub open spec fn i32_value(s: Seq<char>) -> Option<i32> {
    match signed_value(s) {
        Some(v) if i32::MIN <= v <= i32::MAX => Some(v as i32),
        _ => None,
    }
}

proof fn lemma_word_len(s: Seq<char>)
    ensures
        word_len(s) <= s.len(),
        s.len() > 0 && !white_space(s[0]) ==> word_len(s) > 0,
        forall|i: int| 0 <= i < word_len(s) ==> !white_space(#[trigger] s[i]),
        word_len(s) < s.len() ==> white_space(s[word_len(s) as int]),
    decreases s.len(),
{
    if s.len() > 0 && !white_space(s[0]) {
        let t = s.drop_first();
        lemma_word_len(t);
        assert forall|i: int| 0 <= i < word_len(s) implies !white_space(#[trigger] s[i]) by {
            if i > 0 {
                assert(t[i - 1] == s[i]);
            }
        }
        if word_len(s) < s.len() {
            assert(t[word_len(t) as int] == s[word_len(s) as int]);
        }
    }
}

/// Text that is not blank holds at least one word.
pub proof fn lemma_words_of_text_that_is_not_blank(s: Seq<char>)
    requires
        !blank(s),
    ensures
        words(s).len() > 0,
    decreases s.len(),
{
    if white_space(s[0]) {
        let t = s.drop_first();
        assert(!blank(t)) by {
            let i = choose|i: int| 0 <= i < s.len() && !white_space(#[trigger] s[i]);
            assert(t[i - 1] == s[i]);
        }
        lemma_words_of_text_that_is_not_blank(t);
    }
}

proof fn lemma_trim_start_skips(s: Seq<char>, n: int)
    requires
        0 <= n <= s.len(),
        forall|i: int| 0 <= i < n ==> white_space(#[trigger] s[i]),
        n < s.len() ==> !white_space(s[n]),
    ensures
        trim_start(s) == s.skip(n),
    decreases n,
{
    if n > 0 {
        let t = s.drop_first();
        assert forall|i: int| 0 <= i < n - 1 implies white_space(#[trigger] t[i]) by {
            assert(s[i + 1] == t[i]);
        }
        lemma_trim_start_skips(t, n - 1);
        assert(t.skip(n - 1) == s.skip(n));
    } else {
        assert(s.skip(0) == s);
    }
}

proof fn lemma_trim_end_takes(s: Seq<char>, n: int)
    requires
        0 <= n <= s.len(),
        forall|i: int| n <= i < s.len() ==> white_space(#[trigger] s[i]),
        n > 0 ==> !white_space(s[n - 1]),
    ensures
        trim_end(s) == s.take(n),
    decreases s.len(),
{
    if n < s.len() {
        let t = s.drop_last();
        assert forall|i: int| n <= i < t.len() implies white_space(#[trigger] t[i]) by {
            assert(s[i] == t[i]);
        }
        lemma_trim_end_takes(t, n);
        assert(t.take(n) == s.take(n));
    } else {
        assert(s.take(n) == s);
    }
}

proof fn lemma_decimal_value_grows(s: Seq<char>, n: int)
    requires
        decimal(s),
        0 <= n <= s.len(),
    ensures
        0 <= decimal_value(s.take(n)) <= decimal_value(s),
    decreases s.len() - n,
{
    if n < s.len() {
        lemma_decimal_value_grows(s, n + 1);
        assert(s.take(n + 1).drop_last() == s.take(n));
        assert(s.take(n + 1).last() == s[n]);
        assert(decimal_digit(s[n]));
        lemma_decimal_value_nonnegative(s, n);
    } else {
        assert(s.take(n) == s);
        lemma_decimal_value_nonnegative(s, n);
    }
}

proof fn lemma_decimal_value_nonnegative(s: Seq<char>, n: int)
    requires
        decimal(s),
        0 <= n <= s.len(),
    ensures
        0 <= decimal_value(s.take(n)),
    decreases n,
{
    if n > 0 {
        assert(s.take(n).drop_last() == s.take(n - 1));
        assert(s.take(n).last() == s[n - 1]);
        assert(decimal_digit(s[n - 1]));
        lemma_decimal_value_nonnegative(s, n - 1);
    }
}

/// Whether `c` is white space.
pub fn is_white_space(c: char) -> (r: bool)
    ensures
        r == white_space(c),
{
    ('\u{9}' <= c && c <= '\u{d}') || c == '\u{20}' || c == '\u{85}' || c == '\u{a0}' || c
        == '\u{1680}' || ('\u{2000}' <= c && c <= '\u{200a}') || ('\u{2028}' <= c && c
        <= '\u{2029}') || c == '\u{202f}' || c == '\u{205f}' || c == '\u{3000}'
}

/// The characters of `text`.
pub fn chars_of(text: &str) -> (chars: Vec<char>)
    ensures
        chars@ == text@,
{
    let mut chars: Vec<char> = Vec::new();
    for c in it: text.chars()
        invariant
            chars@ == it.seq().take(it.index() as int),
            it.seq() == text@,
    {
        chars.push(c);
        assert(it.seq().take(it.index() as int).push(c) == it.seq().take(it.index() as int + 1));
    }
    assert(text@.take(text@.len() as int) == text@);
    chars
}

/// `text` without the white space at either end.
pub fn trim(text: &str) -> (r: &str)
    ensures
        r@ == trimmed(text@),
{
    let chars = chars_of(text);
    let mut start: usize = 0;
    while start < chars.len() && is_white_space(chars[start])
        invariant
            start <= chars.len(),
            forall|i: int| 0 <= i < start ==> white_space(#[trigger] chars@[i]),
        decreases chars.len() - start,
    {
        start = start + 1;
    }
    let mut end: usize = chars.len();
    while end > start && is_white_space(chars[end - 1])
        invariant
            start <= end <= chars.len(),
            forall|i: int| end <= i < chars.len() ==> white_space(#[trigger] chars@[i]),
        decreases end,
    {
        end = end - 1;
    }
    proof {
        let rest = text@.skip(start as int);
        lemma_trim_start_skips(text@, start as int);
        assert forall|i: int| end - start <= i < rest.len() implies white_space(
            #[trigger] rest[i],
        ) by {
            assert(rest[i] == chars@[start + i]);
        }
        if end > start {
            assert(rest[end - start - 1] == chars@[end - 1]);
        }
        lemma_trim_end_takes(rest, end - start);
        assert(rest.take(end - start) == text@.subrange(start as int, end as int));
    }
    text.substring_char(start, end)
}

/// Whether `text` holds nothing but white space.
pub fn is_blank(text: &str) -> (r: bool)
    ensures
        r == blank(text@),
{
    let chars = chars_of(text);
    let mut i: usize = 0;
    while i < chars.len()
        invariant
            i <= chars.len(),
            chars@ == text@,
            forall|j: int| 0 <= j < i ==> white_space(#[trigger] text@[j]),
        decreases chars.len() - i,
    {
        if !is_white_space(chars[i]) {
            assert(!white_space(text@[i as int]));
            return false;
        }
        i = i + 1;
    }
    true
}

/// The texts in `v`, each as its characters.
pub open spec fn texts(v: Seq<String>) -> Seq<Seq<char>> {
    Seq::new(v.len(), |i: int| v[i]@)
}

/// The words of `text`, in order.
pub fn split_words(text: &str) -> (r: Vec<String>)
    ensures
        texts(r@) == words(text@),
{
    let chars = chars_of(text);
    let mut found: Vec<String> = Vec::new();
    let mut at: usize = 0;
    assert(text@.skip(0) == text@);
    while at < chars.len()
        invariant
            at <= chars.len(),
            chars@ == text@,
            words(text@) == texts(found@) + words(text@.skip(at as int)),
        decreases chars.len() - at,
    {
        let ghost rest = text@.skip(at as int);
        if is_white_space(chars[at]) {
            assert(rest.drop_first() == text@.skip(at + 1));
            at = at + 1;
        } else {
            let mut end: usize = at;
            while end < chars.len() && !is_white_space(chars[end])
                invariant
                    at <= end <= chars.len(),
                    forall|i: int| at <= i < end ==> !white_space(#[trigger] chars@[i]),
                decreases chars.len() - end,
            {
                end = end + 1;
            }
            proof {
                lemma_word_len(rest);
                let n = word_len(rest) as int;
                assert(n == end - at) by {
                    if n < end - at {
                        assert(rest[n] == chars@[at + n]);
                    }
                    if n > end - at {
                        assert(rest[end - at] == chars@[end as int]);
                    }
                }
                assert(rest.take(n) == text@.subrange(at as int, end as int));
                assert(rest.skip(n) == text@.skip(end as int));
            }
            let ghost before = found@;
            let word = text.substring_char(at, end).to_owned();
            found.push(word);
            assert(texts(found@) == texts(before) + seq![rest.take(word_len(rest) as int)]);
            assert(words(text@) == texts(found@) + words(text@.skip(end as int)));
            at = end;
        }
    }
    assert(words(text@.skip(at as int)) == Seq::<Seq<char>>::empty());
    assert(texts(found@) + Seq::<Seq<char>>::empty() == texts(found@));
    found
}

/// The value of the ASCII digits that `chars` holds from `from` on, unless it
/// holds anything else there, or nothing, or the value exceeds `limit`.
fn parse_digits(chars: &Vec<char>, from: usize, limit: i64) -> (r: Option<i64>)
    requires
        from <= chars.len(),
        0 <= limit <= 0x8000_0000,
    ensures
        r is Some <==> decimal(chars@.skip(from as int)) && decimal_value(chars@.skip(from as int))
            <= limit,
        r matches Some(v) ==> v == decimal_value(chars@.skip(from as int)),
{
    let ghost digits = chars@.skip(from as int);
    if from == chars.len() {
        return None;
    }
    let mut value: i64 = 0;
    let mut at: usize = from;
    while at < chars.len()
        invariant
            from <= at <= chars.len(),
            digits == chars@.skip(from as int),
            forall|i: int| 0 <= i < at - from ==> decimal_digit(#[trigger] digits[i]),
            0 <= value <= limit <= 0x8000_0000,
            value == decimal_value(digits.take(at - from)),
        decreases chars.len() - at,
    {
        let c = chars[at];
        assert(digits[at - from] == c);
        if !('0' <= c && c <= '9') {
            return None;
        }
        let next: i64 = value * 10 + (c as i64 - '0' as i64);
        proof {
            assert(digits.take(at - from + 1).drop_last() == digits.take(at - from));
            assert(next == decimal_value(digits.take(at - from + 1)));
            if decimal(digits) {
                lemma_decimal_value_grows(digits, at - from + 1);
            }
        }
        if next > limit {
            return None;
        }
        value = next;
        at = at + 1;
    }
    assert(digits.take(at - from) == digits);
    Some(value)
}

/// The `i32` that `text` spells in decimal, with an optional sign in front.
pub fn parse_i32(text: &str) -> (r: Option<i32>)
    ensures
        r == i32_value(text@),
{
    let chars = chars_of(text);
    if chars.len() == 0 {
        return None;
    }
    let first = chars[0];
    proof {
        assert(text@.skip(0) == text@);
        assert(text@.skip(1) == text@.drop_first());
        if decimal(text@) {
            assert(decimal_digit(text@[0]));
            lemma_decimal_value_grows(text@, 0);
        }
        if decimal(text@.drop_first()) {
            lemma_decimal_value_grows(text@.drop_first(), 0);
        }
    }
    if first == '-' {
        match parse_digits(&chars, 1, 0x8000_0000) {
            Some(v) => Some((0 - v) as i32),
            None => None,
        }
    } else if first == '+' {
        match parse_digits(&chars, 1, 0x7fff_ffff) {
            Some(v) => Some(v as i32),
            None => None,
        }
    } else {
        match parse_digits(&chars, 0, 0x7fff_ffff) {
            Some(v) => Some(v as i32),
            None => None,
        }
    }
}

/// Trimming takes the white space at both ends and nothing else.
pub proof fn law_trimming_leaves_the_middle(
    lead: Seq<char>,
    middle: Seq<char>,
    trail: Seq<char>,
)
    requires
        forall|i: int| 0 <= i < lead.len() ==> white_space(#[trigger] lead[i]),
        forall|i: int| 0 <= i < trail.len() ==> white_space(#[trigger] trail[i]),
        middle.len() > 0 ==> !white_space(middle[0]) && !white_space(middle.last()),
    ensures
        trimmed(lead + middle + trail) == middle,
{
    let s = lead + middle + trail;
    if middle.len() == 0 {
        assert forall|i: int| 0 <= i < s.len() implies white_space(#[trigger] s[i]) by {
            if i < lead.len() {
                assert(s[i] == lead[i]);
            } else {
                assert(s[i] == trail[i - lead.len()]);
            }
        }
        lemma_trim_start_skips(s, s.len() as int);
        assert(s.skip(s.len() as int) == middle);
    } else {
        let n = lead.len() as int;
        let rest = s.skip(n);
        assert forall|i: int| 0 <= i < n implies white_space(#[trigger] s[i]) by {
            assert(s[i] == lead[i]);
        }
        assert(s[n] == middle[0]);
        lemma_trim_start_skips(s, n);
        let m = middle.len() as int;
        assert forall|i: int| m <= i < rest.len() implies white_space(#[trigger] rest[i]) by {
            assert(rest[i] == trail[i - m]);
        }
        assert(rest[m - 1] == middle.last());
        lemma_trim_end_takes(rest, m);
        assert(rest.take(m) == middle);
    }
}

/// Text without white space is one word, and empty text holds none.
pub proof fn law_a_run_without_white_space_is_one_word(s: Seq<char>)
    requires
        forall|i: int| 0 <= i < s.len() ==> !white_space(#[trigger] s[i]),
    ensures
        s.len() == 0 ==> words(s).len() == 0,
        s.len() > 0 ==> words(s) == seq![s],
{
    if s.len() > 0 {
        lemma_word_len(s);
        let n = word_len(s) as int;
        if n < s.len() {
            assert(!white_space(s[n]));
        }
        assert(s.take(n) == s);
        assert(words(s.skip(n)) == Seq::<Seq<char>>::empty());
        assert(seq![s] + Seq::<Seq<char>>::empty() == seq![s]);
    }
}

/// White space parts words: what stands on either side of it is split on its
/// own.
pub proof fn law_words_are_parted_by_white_space(a: Seq<char>, c: char, b: Seq<char>)
    requires
        white_space(c),
    ensures
        words(a + seq![c] + b) == words(a) + words(b),
    decreases a.len(),
{
    let whole = a + seq![c] + b;
    if a.len() == 0 {
        assert(whole[0] == c);
        assert(whole.drop_first() == b);
        assert(words(a) + words(b) == words(b));
    } else if white_space(a[0]) {
        assert(whole[0] == a[0]);
        assert(whole.drop_first() == a.drop_first() + seq![c] + b);
        law_words_are_parted_by_white_space(a.drop_first(), c, b);
    } else {
        lemma_word_len(a);
        lemma_word_len(whole);
        let n = word_len(a) as int;
        let m = word_len(whole) as int;
        assert(whole[0] == a[0]);
        assert(m == n) by {
            if m < n {
                assert(whole[m] == a[m]);
            }
            if m > n {
                if n < a.len() {
                    assert(whole[n] == a[n]);
                } else {
                    assert(whole[n] == c);
                }
            }
        }
        let first = a.take(n);
        assert(whole.take(n) == first);
        assert(whole.skip(n) == a.skip(n) + seq![c] + b);
        law_words_are_parted_by_white_space(a.skip(n), c, b);
        assert(seq![first] + (words(a.skip(n)) + words(b)) == seq![first] + words(a.skip(n))
            + words(b));
    }
}

/// A list of texts says what each of them says, in order.
pub proof fn law_texts_are_those_of_the_strings(v: Seq<String>)
    ensures
        texts(v).len() == v.len(),
        forall|i: int| 0 <= i < v.len() ==> #[trigger] texts(v)[i] == v[i]@,
{
}

/// An ASCII digit reads as its number, and one more digit at the end multiplies
/// by ten and adds its own.
pub proof fn law_digits_are_read_in_base_ten(s: Seq<char>, c: char)
    requires
        '0' <= c <= '9',
        forall|i: int| 0 <= i < s.len() ==> '0' <= #[trigger] s[i] <= '9',
    ensures
        signed_value(seq![c]) == Some(c as int - 48),
        s.len() > 0 ==> signed_value(s) is Some && signed_value(s.push(c)) == Some(
            10 * signed_value(s)->0 + (c as int - 48),
        ),
{
    assert(decimal(seq![c]));
    assert(seq![c].drop_last() == Seq::<char>::empty());
    assert(decimal_value(Seq::<char>::empty()) == 0);
    assert(decimal_value(seq![c]) == c as int - 48);
    if s.len() > 0 {
        assert(decimal(s)) by {
            assert forall|i: int| 0 <= i < s.len() implies decimal_digit(#[trigger] s[i]) by {}
        }
        assert(decimal(s.push(c))) by {
            assert forall|i: int| 0 <= i < s.push(c).len() implies decimal_digit(
                #[trigger] s.push(c)[i],
            ) by {
                if i < s.len() {
                    assert(s.push(c)[i] == s[i]);
                }
            }
        }
        assert(s.push(c).drop_last() == s);
    }
}

/// A minus sign in front of digits negates their number, a plus sign changes
/// nothing.
pub proof fn law_signs_are_read(s: Seq<char>)
    requires
        s.len() > 0,
        forall|i: int| 0 <= i < s.len() ==> '0' <= #[trigger] s[i] <= '9',
    ensures
        signed_value(s) is Some,
        signed_value(seq!['-'] + s) == Some(-signed_value(s)->0),
        signed_value(seq!['+'] + s) == signed_value(s),
{
    assert(decimal(s)) by {
        assert forall|i: int| 0 <= i < s.len() implies decimal_digit(#[trigger] s[i]) by {}
    }
    let minus = seq!['-'] + s;
    let plus = seq!['+'] + s;
    assert(minus.drop_first() == s);
    assert(plus.drop_first() == s);
    assert(!decimal_digit(minus[0]));
    assert(!decimal_digit(plus[0]));
}

/// Text spells an integer exactly if it is ASCII digits, at least one, behind at
/// most one sign, and an `i32` exactly if that integer is one.
pub proof fn law_what_is_an_integer(s: Seq<char>, n: i32)
    ensures
        signed_value(s) is Some <==> {
            &&& s.len() > 0
            &&& '0' <= s[0] <= '9' || (s[0] == '-' || s[0] == '+') && s.len() > 1
            &&& forall|i: int| 1 <= i < s.len() ==> '0' <= #[trigger] s[i] <= '9'
        },
        i32_value(s) == Some(n) <==> signed_value(s) == Some(n as int),
        i32_value(s) is None <==> (signed_value(s) matches Some(v) ==> v < -0x8000_0000 || v
            > 0x7fff_ffff),
{
    let t = s.drop_first();
    if s.len() > 0 {
        assert forall|i: int| 0 <= i < t.len() implies #[trigger] t[i] == s[i + 1] by {}
        assert forall|i: int| 1 <= i < s.len() implies #[trigger] s[i] == t[i - 1] by {}
        if decimal(s) {
            assert(decimal_digit(s[0]));
            assert forall|i: int| 1 <= i < s.len() implies '0' <= #[trigger] s[i] <= '9' by {
                assert(decimal_digit(s[i]));
            }
        }
        if decimal(t) {
            assert forall|i: int| 1 <= i < s.len() implies '0' <= #[trigger] s[i] <= '9' by {
                assert(decimal_digit(t[i - 1]));
            }
        }
        if forall|i: int| 1 <= i < s.len() ==> '0' <= #[trigger] s[i] <= '9' {
            if '0' <= s[0] <= '9' {
                assert forall|i: int| 0 <= i < s.len() implies decimal_digit(#[trigger] s[i]) by {}
                assert(decimal(s));
            }
            if s.len() > 1 {
                assert forall|i: int| 0 <= i < t.len() implies decimal_digit(
                    #[trigger] t[i],
                ) by {
                    assert('0' <= s[i + 1] <= '9');
                }
                assert(decimal(t));
            }
        }
    }
}

} // verus!
