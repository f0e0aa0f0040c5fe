//! Byte ranges: what a `Range` header asks for and which bytes of a file
//! answer it.

use crate::error::AppError;
use crate::text::{
    chars_of, decimal, find_char, first_char, has_prefix, is_digit,
    lemma_decimal_digits, lemma_first_char_at, lemma_parse_decimal_of_decimal, matches_at,
    parse_decimal, parse_u64,
};
use vstd::prelude::*;

verus! {

/// An inclusive range of byte offsets into a file of `size` bytes.
#[derive(Debug, Clone, Copy, PartialEq, Eq)]
pub struct ByteRange {
    pub start: u64,
    pub end: u64,
    pub size: u64,
}

impl ByteRange {
    /// A range lies inside its file and holds at least one byte.
    pub open spec fn wf(&self) -> bool {
        self.start <= self.end < self.size
    }

    /// The number of bytes in the range.
    pub fn length(&self) -> (n: u64)
        requires
            self.wf(),
        ensures
            n == self.end - self.start + 1,
    {
        self.end - self.start + 1
    }
}

/// What a `Range` header asks for: `bytes=<start>-` or `bytes=<start>-<end>`,
/// both numbers in decimal. `None` for every other text.
pub open spec fn range_request(header: Seq<char>) -> Option<(u64, Option<u64>)> {
    let unit = "bytes="@;
    if !has_prefix(header, unit) {
        None
    } else {
        let rest = header.skip(unit.len() as int);
        let dash = first_char(rest, 0, rest.len() as int, '-');
        if dash >= rest.len() {
            None
        } else {
            match parse_decimal(rest.take(dash)) {
                None => None,
                Some(start) => if dash + 1 == rest.len() {
                    Some((start, None))
                } else {
                    match parse_decimal(rest.skip(dash + 1)) {
                        None => None,
                        Some(end) => Some((start, Some(end))),
                    }
                },
            }
        }
    }
}

/// The range that a request for `start` to `end` selects in a file of
/// `size` bytes; an open end stands for the last byte. `None` where the
/// request cannot be satisfied: it starts after its end, or ends at or
/// after the end of the file.
pub open spec fn select_range(size: u64, start: u64, end: Option<u64>) -> Option<ByteRange> {
    let last: int = match end {
        Some(e) => e as int,
        None => size - 1,
    };
    if start <= last < size {
        Some(ByteRange { start, end: last as u64, size })
    } else {
        None
    }
}

/// The answer to a `Range` header on a file of `size` bytes: the range, or
/// the error that the request earns.
pub open spec fn requested_range(header: Seq<char>, size: u64) -> Result<ByteRange, AppError> {
    match range_request(header) {
        None => Err(AppError::BadRequest),
        Some((start, end)) => match select_range(size, start, end) {
            None => Err(AppError::RangeNotSatisfiable),
            Some(range) => Ok(range),
        },
    }
}

/// `first_char` looks at the characters only: it finds the same place in a
/// sequence and in its tail.
pub proof fn lemma_first_char_skip(text: Seq<char>, offset: int, from: int, to: int, c: char)
    requires
        0 <= offset <= from <= to <= text.len(),
    ensures
        first_char(text.skip(offset), from - offset, to - offset, c) == first_char(
            text,
            from,
            to,
            c,
        ) - offset,
    decreases to - from,
{
    if from < to && text[from] != c {
        lemma_first_char_skip(text, offset, from + 1, to, c);
    }
}

/// Reads a `Range` header.
pub fn parse_range_header(header: &str) -> (request: Option<(u64, Option<u64>)>)
    ensures
        request == range_request(header@),
{
    let chars = chars_of(header);
    let unit = chars_of("bytes=");
    if !matches_at(&chars, 0, &unit) {
        return None;
    }
    let begin = unit.len();
    let ghost rest = chars@.skip(begin as int);
    let dash = find_char(&chars, begin, chars.len(), '-');
    proof {
        lemma_first_char_skip(chars@, begin as int, begin as int, chars@.len() as int, '-');
        assert(rest.take(dash - begin) == chars@.subrange(begin as int, dash as int));
    }
    if dash >= chars.len() {
        return None;
    }
    proof {
        assert(rest.skip(dash - begin + 1) == chars@.subrange(
            dash + 1,
            chars@.len() as int,
        ));
    }
    match parse_u64(&chars, begin, dash) {
        None => None,
        Some(start) => {
            if dash + 1 == chars.len() {
                Some((start, None))
            } else {
                match parse_u64(&chars, dash + 1, chars.len()) {
                    None => None,
                    Some(end) => Some((start, Some(end))),
                }
            }
        },
    }
}

/// Holds a requested range against the size of the file.
pub fn resolve_range(size: u64, start: u64, end: Option<u64>) -> (range: Option<ByteRange>)
    ensures
        range == select_range(size, start, end),
        range matches Some(r) ==> r.wf(),
{
    if size == 0 {
        return None;
    }
    let last = match end {
        Some(e) => e,
        None => size - 1,
    };
    if start <= last && last < size {
        Some(ByteRange { start, end: last, size })
    } else {
        None
    }
}

impl ByteRange {
    /// The byte range that `header` selects in a file of `size` bytes.
    ///
    /// A header of any other form than `bytes=<start>-[<end>]` is a bad
    /// request; a well-formed one that the file cannot satisfy is answered
    /// with `RangeNotSatisfiable`.
    pub fn from_header(header: &str, size: u64) -> (range: Result<ByteRange, AppError>)
        ensures
            range == requested_range(header@, size),
            range matches Ok(r) ==> r.wf() && r.size == size,
    {
        match parse_range_header(header) {
            None => Err(AppError::BadRequest),
            Some((start, end)) => match resolve_range(size, start, end) {
                None => Err(AppError::RangeNotSatisfiable),
                Some(range) => Ok(range),
            },
        }
    }
}


/// The text of a `Range` header that asks for the bytes from `start` to
/// `end`, or from `start` on.
pub open spec fn range_header(start: u64, end: Option<u64>) -> Seq<char> {
    "bytes="@ + decimal(start as nat) + "-"@ + match end {
        Some(e) => decimal(e as nat),
        None => Seq::empty(),
    }
}

/// A `Range` header that is written as it should be is read as it was
/// meant.
pub proof fn lemma_range_header_is_read(start: u64, end: Option<u64>)
    ensures
        range_request(range_header(start, end)) == Some((start, end)),
{
    reveal_strlit("bytes=");
    reveal_strlit("-");
    let unit = "bytes="@;
    let first = decimal(start as nat);
    let last = match end {
        Some(e) => decimal(e as nat),
        None => Seq::empty(),
    };
    let header = range_header(start, end);
    let rest = header.skip(unit.len() as int);
    lemma_decimal_digits(start as nat);
    lemma_parse_decimal_of_decimal(start);
    assert(header.subrange(0, unit.len() as int) =~= unit);
    assert(rest =~= first + "-"@ + last);
    let dash = first.len() as int;
    assert(rest[dash] == '-');
    assert forall|k: int| 0 <= k < dash implies rest[k] != '-' by {
        assert(rest[k] == first[k]);
        assert(is_digit(first[k]));
    }
    lemma_first_char_at(rest, 0, rest.len() as int, '-', dash);
    assert(rest.take(dash) =~= first);
    assert(rest.skip(dash + 1) =~= last);
    match end {
        Some(e) => {
            lemma_decimal_digits(e as nat);
            lemma_parse_decimal_of_decimal(e);
        },
        None => {},
    }
}

} // verus!
