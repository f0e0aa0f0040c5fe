//! Character-level building blocks shared by the parsers and the formatters.
//!
//! Text is modelled as `Seq<char>`, the view of `str` and `String`. Scanning
//! works on a `Vec<char>` so that every position is reached in constant time.

use vstd::prelude::*;
use vstd::string::*;
use vstd::utf8::{decode_utf8, valid_utf8};

verus! {

/// `String::push` appends exactly one character to the end of the string.
pub assume_specification[ String::push ](s: &mut String, c: char)
    ensures
        final(s)@ == old(s)@.push(c),
;

/// The characters of `s`, in order.
pub fn chars_of(s: &str) -> (out: Vec<char>)
    ensures
        out@ == s@,
{
    let mut out: Vec<char> = Vec::new();
    for c in it: s.chars()
        invariant
            it.seq() == s@,
            out@ == s@.take(it.index()),
    {
        out.push(c);
        assert(s@.take(it.index() + 1) == s@.take(it.index()).push(s@[it.index()]));
    }
    assert(s@.take(s@.len() as int) == s@);
    out
}

/// Appends the characters `chars[from..to]` to `out`.
pub fn append_chars(out: &mut String, chars: &Vec<char>, from: usize, to: usize)
    requires
        from <= to <= chars@.len(),
    ensures
        final(out)@ == old(out)@ + chars@.subrange(from as int, to as int),
{
    let mut i: usize = from;
    assert(chars@.subrange(from as int, from as int) == Seq::<char>::empty());
    while i < to
        invariant
            from <= i <= to <= chars@.len(),
            out@ == old(out)@ + chars@.subrange(from as int, i as int),
        decreases to - i,
    {
        out.push(chars[i]);
        i += 1;
        assert(chars@.subrange(from as int, i as int) == chars@.subrange(
            from as int,
            i - 1,
        ).push(chars@[i - 1]));
    }
}

/// The string made of the characters `chars[from..to]`.
pub fn string_of(chars: &Vec<char>, from: usize, to: usize) -> (out: String)
    requires
        from <= to <= chars@.len(),
    ensures
        out@ == chars@.subrange(from as int, to as int),
{
    let mut out = String::new();
    append_chars(&mut out, chars, from, to);
    out
}

/// Whether two strings hold the same characters.
pub fn str_eq(a: &str, b: &str) -> (same: bool)
    ensures
        same == (a@ == b@),
{
    let x = chars_of(a);
    let y = chars_of(b);
    assert(x@.subrange(0, x@.len() as int) == x@);
    chars_eq(&x, 0, x.len(), &y)
}

/// Whether `chars[from..to]` is exactly `other`.
pub fn chars_eq(chars: &Vec<char>, from: usize, to: usize, other: &Vec<char>) -> (same: bool)
    requires
        from <= to <= chars@.len(),
    ensures
        same == (chars@.subrange(from as int, to as int) == other@),
{
    if to - from != other.len() {
        return false;
    }
    let mut i: usize = 0;
    while i < other.len()
        invariant
            from <= to <= chars@.len(),
            to - from == other@.len(),
            i <= other@.len(),
            forall|k: int| 0 <= k < i ==> chars@[from + k] == other@[k],
        decreases other@.len() - i,
    {
        if chars[from + i] != other[i] {
            assert(chars@.subrange(from as int, to as int)[i as int] != other@[i as int]);
            return false;
        }
        i += 1;
    }
    assert(chars@.subrange(from as int, to as int) =~= other@);
    true
}

/// Whether `pattern` occurs in `text` starting at position `at`.
pub open spec fn occurs_at(text: Seq<char>, at: int, pattern: Seq<char>) -> bool {
    &&& 0 <= at
    &&& at + pattern.len() <= text.len()
    &&& text.subrange(at, at + pattern.len()) == pattern
}

/// Whether `pattern` occurs in `chars` starting at position `at`.
pub fn matches_at(chars: &Vec<char>, at: usize, pattern: &Vec<char>) -> (found: bool)
    ensures
        found == occurs_at(chars@, at as int, pattern@),
{
    if at > chars.len() || pattern.len() > chars.len() - at {
        return false;
    }
    chars_eq(chars, at, at + pattern.len(), pattern)
}

/// Whether `text` begins with `prefix`.
pub open spec fn has_prefix(text: Seq<char>, prefix: Seq<char>) -> bool {
    occurs_at(text, 0, prefix)
}

/// The first position in `[from, to)` that holds `c`, or `to`.
pub open spec fn first_char(text: Seq<char>, from: int, to: int, c: char) -> int
    decreases to - from,
{
    if from >= to {
        to
    } else if text[from] == c {
        from
    } else {
        first_char(text, from + 1, to, c)
    }
}

/// `first_char` is the least position in the range that holds the
/// character.
pub proof fn lemma_first_char(text: Seq<char>, from: int, to: int, c: char)
    requires
        0 <= from <= to <= text.len(),
    ensures
        from <= first_char(text, from, to, c) <= to,
        forall|k: int| from <= k < first_char(text, from, to, c) ==> text[k] != c,
        first_char(text, from, to, c) < to ==> text[first_char(text, from, to, c)] == c,
    decreases to - from,
{
    if from < to && text[from] != c {
        lemma_first_char(text, from + 1, to, c);
    }
}

/// Finds the first `c` in `chars[from..to]`; returns `to` where there is none.
pub fn find_char(chars: &Vec<char>, from: usize, to: usize, c: char) -> (at: usize)
    requires
        from <= to <= chars@.len(),
    ensures
        at == first_char(chars@, from as int, to as int, c),
        from <= at <= to,
        forall|k: int| from <= k < at ==> chars@[k] != c,
        at < to ==> chars@[at as int] == c,
{
    proof {
        lemma_first_char(chars@, from as int, to as int, c);
    }
    let mut i: usize = from;
    while i < to
        invariant
            from <= i <= to <= chars@.len(),
            first_char(chars@, from as int, to as int, c) == first_char(
                chars@,
                i as int,
                to as int,
                c,
            ),
        decreases to - i,
    {
        if chars[i] == c {
            proof {
                lemma_first_char(chars@, from as int, to as int, c);
            }
            return i;
        }
        i += 1;
    }
    i
}


/// The decimal digit for `d`, for `0 <= d <= 9`.
pub open spec fn digit(d: int) -> char {
    (48 + d) as char
}

/// `n` in decimal, without sign or leading zeros.
pub open spec fn decimal(n: nat) -> Seq<char>
    decreases n,
{
    if n < 10 {
        seq![digit(n as int)]
    } else {
        decimal(n / 10).push(digit((n % 10) as int))
    }
}

/// Appends `n` in decimal to `out`.
pub fn append_decimal(out: &mut String, n: u64)
    ensures
        final(out)@ == old(out)@ + decimal(n as nat),
    decreases n,
{
    if n >= 10 {
        append_decimal(out, n / 10);
    }
    let d: u8 = (n % 10) as u8;
    let c: char = (48u8 + d) as char;
    out.push(c);
    assert(out@ =~= old(out)@ + decimal(n as nat));
}

/// `n` in decimal, as a string.
pub fn decimal_string(n: u64) -> (out: String)
    ensures
        out@ == decimal(n as nat),
{
    let mut out = String::new();
    append_decimal(&mut out, n);
    assert(Seq::<char>::empty() + decimal(n as nat) =~= decimal(n as nat));
    out
}

/// Whether `c` is one of the ten decimal digits.
pub open spec fn is_digit(c: char) -> bool {
    48 <= c as u32 <= 57
}

/// Whether every character of `s` is a decimal digit.
pub open spec fn all_digits(s: Seq<char>) -> bool {
    forall|i: int| 0 <= i < s.len() ==> is_digit(#[trigger] s[i])
}

/// The number that a run of decimal digits writes.
pub open spec fn digits_value(s: Seq<char>) -> nat
    decreases s.len(),
{
    if s.len() == 0 {
        0
    } else {
        (digits_value(s.drop_last()) * 10 + (s.last() as u32 - 48)) as nat
    }
}

/// What reading `s` as an unsigned 64-bit decimal number gives: an optional
/// plus sign, then at least one digit, and a value that fits.
pub open spec fn parse_decimal(s: Seq<char>) -> Option<u64> {
    let body = if s.len() > 0 && s[0] == '+' {
        s.drop_first()
    } else {
        s
    };
    if body.len() > 0 && all_digits(body) && digits_value(body) <= u64::MAX {
        Some(digits_value(body) as u64)
    } else {
        None
    }
}

/// A run of digits is worth at least as much as any of its prefixes.
pub proof fn lemma_digits_value_prefix(s: Seq<char>, k: int)
    requires
        0 <= k <= s.len(),
        all_digits(s),
    ensures
        digits_value(s.take(k)) <= digits_value(s),
    decreases s.len() - k,
{
    if k == s.len() {
        assert(s.take(k) == s);
    } else {
        lemma_digits_value_prefix(s.drop_last(), k);
        assert(s.drop_last().take(k) == s.take(k));
        assert(is_digit(s[s.len() - 1]));
    }
}

/// A number in decimal is a run of digits that writes the number.
pub proof fn lemma_decimal_digits(n: nat)
    ensures
        decimal(n).len() > 0,
        all_digits(decimal(n)),
        digits_value(decimal(n)) == n,
    decreases n,
{
    let text = decimal(n);
    assert(text.last() == digit((n % 10) as int));
    assert(text.last() as u32 == 48 + n % 10);
    if n < 10 {
        assert(text.drop_last().len() == 0);
        assert(digits_value(text.drop_last()) == 0);
        assert(digits_value(text) == n);
    } else {
        lemma_decimal_digits(n / 10);
        assert(text.drop_last() == decimal(n / 10));
        assert(digits_value(text) == digits_value(decimal(n / 10)) * 10 + n % 10);
        assert forall|i: int| 0 <= i < text.len() implies is_digit(#[trigger] text[i]) by {
            if i < text.len() - 1 {
                assert(text[i] == decimal(n / 10)[i]);
            }
        }
    }
}

/// Reading a number that was written in decimal gives the number back.
pub proof fn lemma_parse_decimal_of_decimal(n: u64)
    ensures
        parse_decimal(decimal(n as nat)) == Some(n),
{
    lemma_decimal_digits(n as nat);
    assert(is_digit(decimal(n as nat)[0]));
}

/// Where `c` stands at `at` and nowhere before it, `first_char` finds it
/// there.
pub proof fn lemma_first_char_at(text: Seq<char>, from: int, to: int, c: char, at: int)
    requires
        0 <= from <= at < to <= text.len(),
        text[at] == c,
        forall|k: int| from <= k < at ==> text[k] != c,
    ensures
        first_char(text, from, to, c) == at,
    decreases at - from,
{
    if from < at {
        lemma_first_char_at(text, from + 1, to, c, at);
    }
}

/// Reads `chars[from..to]` as an unsigned decimal number.
pub fn parse_u64(chars: &Vec<char>, from: usize, to: usize) -> (value: Option<u64>)
    requires
        from <= to <= chars@.len(),
    ensures
        value == parse_decimal(chars@.subrange(from as int, to as int)),
{
    let ghost s = chars@.subrange(from as int, to as int);
    let start: usize = if from < to && chars[from] == '+' {
        from + 1
    } else {
        from
    };
    let ghost body = chars@.subrange(start as int, to as int);
    assert(body == if s.len() > 0 && s[0] == '+' {
        s.drop_first()
    } else {
        s
    });
    if start == to {
        return None;
    }
    let mut acc: u64 = 0;
    let mut i: usize = start;
    assert(body.take(0) == Seq::<char>::empty());
    while i < to
        invariant
            start <= i <= to <= chars@.len(),
            start < to,
            s == chars@.subrange(from as int, to as int),
            body == chars@.subrange(start as int, to as int),
            body == if s.len() > 0 && s[0] == '+' {
                s.drop_first()
            } else {
                s
            },
            all_digits(body.take(i - start)),
            acc == digits_value(body.take(i - start)),
        decreases to - i,
    {
        let c = chars[i];
        let code: u32 = c as u32;
        if code < 48 || code > 57 {
            assert(!is_digit(body[i - start]));
            return None;
        }
        let d: u64 = (code - 48) as u64;
        proof {
            let next = body.take(i - start + 1);
            assert(next.drop_last() == body.take(i - start));
            assert(next.last() == c);
            assert forall|k: int| 0 <= k < next.len() implies is_digit(#[trigger] next[k]) by {
                if k < i - start {
                    assert(next[k] == body.take(i - start)[k]);
                }
            }
            assert(digits_value(next) == acc * 10 + d);
            if acc * 10 + d > u64::MAX {
                if all_digits(body) {
                    lemma_digits_value_prefix(body, i - start + 1);
                }
            }
        }
        let scaled = match acc.checked_mul(10) {
            Some(v) => v,
            None => {
                return None;
            },
        };
        acc = match scaled.checked_add(d) {
            Some(v) => v,
            None => {
                return None;
            },
        };
        i += 1;
    }
    assert(body.take(to - start) == body);
    Some(acc)
}

/// Whether `c` is white space: the characters with the Unicode property
/// `White_Space`.
pub open spec fn is_whitespace(c: char) -> bool {
    let u = c as u32;
    ||| 0x09 <= u <= 0x0D
    ||| u == 0x20
    ||| u == 0x85
    ||| u == 0xA0
    ||| u == 0x1680
    ||| 0x2000 <= u <= 0x200A
    ||| u == 0x2028
    ||| u == 0x2029
    ||| u == 0x202F
    ||| u == 0x205F
    ||| u == 0x3000
}

/// Whether `c` is white space.
pub fn is_whitespace_char(c: char) -> (white: bool)
    ensures
        white == is_whitespace(c),
{
    let u: u32 = c as u32;
    (0x09 <= u && u <= 0x0D) || u == 0x20 || u == 0x85 || u == 0xA0 || u == 0x1680 || (0x2000 <= u
        && u <= 0x200A) || u == 0x2028 || u == 0x2029 || u == 0x202F || u == 0x205F || u == 0x3000
}

/// The first position in `[from, to)` that holds no white space, or `to`.
pub open spec fn skip_whitespace(text: Seq<char>, from: int, to: int) -> int
    decreases to - from,
{
    if from >= to {
        to
    } else if !is_whitespace(text[from]) {
        from
    } else {
        skip_whitespace(text, from + 1, to)
    }
}

/// The end of `[from, to)` once the white space at its end is dropped.
pub open spec fn drop_trailing_whitespace(text: Seq<char>, from: int, to: int) -> int
    decreases to - from,
{
    if from >= to {
        from
    } else if !is_whitespace(text[to - 1]) {
        to
    } else {
        drop_trailing_whitespace(text, from, to - 1)
    }
}

/// `text` without the white space at its start and at its end.
pub open spec fn trimmed(text: Seq<char>) -> Seq<char> {
    let start = skip_whitespace(text, 0, text.len() as int);
    let end = drop_trailing_whitespace(text, start, text.len() as int);
    text.subrange(start, end)
}

/// `skip_whitespace` passes over white space and nothing else.
pub proof fn lemma_skip_whitespace(text: Seq<char>, from: int, to: int)
    requires
        0 <= from <= to <= text.len(),
    ensures
        from <= skip_whitespace(text, from, to) <= to,
        forall|k: int| from <= k < skip_whitespace(text, from, to) ==> is_whitespace(text[k]),
        skip_whitespace(text, from, to) < to ==> !is_whitespace(
            text[skip_whitespace(text, from, to)],
        ),
    decreases to - from,
{
    if from < to && is_whitespace(text[from]) {
        lemma_skip_whitespace(text, from + 1, to);
    }
}

/// `drop_trailing_whitespace` drops white space and nothing else.
pub proof fn lemma_drop_trailing_whitespace(text: Seq<char>, from: int, to: int)
    requires
        0 <= from <= to <= text.len(),
    ensures
        from <= drop_trailing_whitespace(text, from, to) <= to,
        forall|k: int|
            drop_trailing_whitespace(text, from, to) <= k < to ==> is_whitespace(text[k]),
        from < drop_trailing_whitespace(text, from, to) ==> !is_whitespace(
            text[drop_trailing_whitespace(text, from, to) - 1],
        ),
    decreases to - from,
{
    if from < to && is_whitespace(text[to - 1]) {
        lemma_drop_trailing_whitespace(text, from, to - 1);
    }
}

/// The bounds of `chars[from..to]` without the white space at both ends.
pub fn trim_range(chars: &Vec<char>, from: usize, to: usize) -> (bounds: (usize, usize))
    requires
        from <= to <= chars@.len(),
    ensures
        bounds.0 == skip_whitespace(chars@, from as int, to as int),
        bounds.1 == drop_trailing_whitespace(chars@, bounds.0 as int, to as int),
        from <= bounds.0 <= bounds.1 <= to,
        chars@.subrange(bounds.0 as int, bounds.1 as int) == trimmed(
            chars@.subrange(from as int, to as int),
        ),
        forall|k: int| from <= k < bounds.0 || bounds.1 <= k < to ==> is_whitespace(chars@[k]),
        bounds.0 < bounds.1 ==> !is_whitespace(chars@[bounds.0 as int]) && !is_whitespace(
            chars@[bounds.1 - 1],
        ),
{
    proof {
        lemma_skip_whitespace(chars@, from as int, to as int);
        lemma_drop_trailing_whitespace(
            chars@,
            skip_whitespace(chars@, from as int, to as int),
            to as int,
        );
    }
    let mut start: usize = from;
    while start < to && is_whitespace_char(chars[start])
        invariant
            from <= start <= to <= chars@.len(),
            skip_whitespace(chars@, from as int, to as int) == skip_whitespace(
                chars@,
                start as int,
                to as int,
            ),
        decreases to - start,
    {
        start += 1;
    }
    let mut end: usize = to;
    while start < end && is_whitespace_char(chars[end - 1])
        invariant
            start <= end <= to <= chars@.len(),
            drop_trailing_whitespace(chars@, start as int, to as int) == drop_trailing_whitespace(
                chars@,
                start as int,
                end as int,
            ),
        decreases end - start,
    {
        end -= 1;
    }
    proof {
        let sub = chars@.subrange(from as int, to as int);
        lemma_skip_shift(chars@, sub, from as int, from as int, to as int);
        lemma_drop_shift(chars@, sub, from as int, start as int, to as int);
        assert(chars@.subrange(start as int, end as int) =~= sub.subrange(
            start - from,
            end - from,
        ));
    }
    (start, end)
}

/// Skipping white space gives the same position, up to the offset, in a
/// sequence and in a part of it.
pub proof fn lemma_skip_shift(text: Seq<char>, sub: Seq<char>, offset: int, from: int, to: int)
    requires
        0 <= offset <= from <= to <= text.len(),
        sub == text.subrange(offset, to),
    ensures
        skip_whitespace(sub, from - offset, to - offset) == skip_whitespace(text, from, to)
            - offset,
    decreases to - from,
{
    if from < to && is_whitespace(text[from]) {
        lemma_skip_shift(text, sub, offset, from + 1, to);
    }
}

/// Dropping trailing white space gives the same position, up to the offset,
/// in a sequence and in a part of it.
pub proof fn lemma_drop_shift(text: Seq<char>, sub: Seq<char>, offset: int, from: int, to: int)
    requires
        0 <= offset <= from <= to <= text.len(),
        sub.len() >= to - offset,
        forall|k: int| offset <= k < to ==> sub[k - offset] == text[k],
    ensures
        drop_trailing_whitespace(sub, from - offset, to - offset) == drop_trailing_whitespace(
            text,
            from,
            to,
        ) - offset,
    decreases to - from,
{
    if from < to && is_whitespace(text[to - 1]) {
        lemma_drop_shift(text, sub, offset, from, to - 1);
    }
}


/// The first position in `[from, to)` that holds white space, or `to`.
pub open spec fn word_end(text: Seq<char>, from: int, to: int) -> int
    decreases to - from,
{
    if from >= to {
        to
    } else if is_whitespace(text[from]) {
        from
    } else {
        word_end(text, from + 1, to)
    }
}

/// `word_end` passes over a word: what is no white space.
pub proof fn lemma_word_end(text: Seq<char>, from: int, to: int)
    requires
        0 <= from <= to <= text.len(),
    ensures
        from <= word_end(text, from, to) <= to,
        forall|k: int| from <= k < word_end(text, from, to) ==> !is_whitespace(text[k]),
        word_end(text, from, to) < to ==> is_whitespace(text[word_end(text, from, to)]),
    decreases to - from,
{
    if from < to && !is_whitespace(text[from]) {
        lemma_word_end(text, from + 1, to);
    }
}

/// Skips the white space at the start of `chars[from..to]`.
pub fn skip_spaces(chars: &Vec<char>, from: usize, to: usize) -> (at: usize)
    requires
        from <= to <= chars@.len(),
    ensures
        at == skip_whitespace(chars@, from as int, to as int),
        from <= at <= to,
        forall|k: int| from <= k < at ==> is_whitespace(chars@[k]),
        at < to ==> !is_whitespace(chars@[at as int]),
{
    proof {
        lemma_skip_whitespace(chars@, from as int, to as int);
    }
    let mut i: usize = from;
    while i < to && is_whitespace_char(chars[i])
        invariant
            from <= i <= to <= chars@.len(),
            skip_whitespace(chars@, from as int, to as int) == skip_whitespace(
                chars@,
                i as int,
                to as int,
            ),
        decreases to - i,
    {
        i += 1;
    }
    i
}

/// Skips the word at the start of `chars[from..to]`.
pub fn skip_word(chars: &Vec<char>, from: usize, to: usize) -> (at: usize)
    requires
        from <= to <= chars@.len(),
    ensures
        at == word_end(chars@, from as int, to as int),
        from <= at <= to,
        forall|k: int| from <= k < at ==> !is_whitespace(chars@[k]),
        at < to ==> is_whitespace(chars@[at as int]),
{
    proof {
        lemma_word_end(chars@, from as int, to as int);
    }
    let mut i: usize = from;
    while i < to && !is_whitespace_char(chars[i])
        invariant
            from <= i <= to <= chars@.len(),
            word_end(chars@, from as int, to as int) == word_end(chars@, i as int, to as int),
        decreases to - i,
    {
        i += 1;
    }
    i
}

/// `first_char` finds the same place in a sequence and in a part of it.
pub proof fn lemma_first_char_part(
    text: Seq<char>,
    start: int,
    end: int,
    from: int,
    to: int,
    c: char,
)
    requires
        0 <= start <= from <= to <= end <= text.len(),
    ensures
        first_char(text.subrange(start, end), from - start, to - start, c) == first_char(
            text,
            from,
            to,
            c,
        ) - start,
    decreases to - from,
{
    if from < to && text[from] != c {
        lemma_first_char_part(text, start, end, from + 1, to, c);
    }
}

/// The lower-case form of a text, as `str::to_lowercase` gives it.
pub uninterp spec fn lowercase_text(text: Seq<char>) -> Seq<char>;

/// `str::to_lowercase`: the lower-case equivalent of `text` by the rules of
/// Unicode. The result is a function of the text alone; nothing else is
/// claimed of it.
#[verifier::external_body]
pub(crate) fn to_lowercase(text: &str) -> (lower: String)
    ensures
        lower@ == lowercase_text(text@),
{
    text.to_lowercase()
}

/// `core::str::from_utf8`: the text that `bytes` encode, where they are
/// valid UTF-8, and nothing where they are not.
#[verifier::external_body]
pub(crate) fn utf8_text(bytes: &[u8]) -> (text: Option<&str>)
    ensures
        text is Some <==> valid_utf8(bytes@),
        text matches Some(t) ==> t@ == decode_utf8(bytes@),
{
    core::str::from_utf8(bytes).ok()
}

} // verus!
