//! The extension allow-list: shell-style patterns that say which files may
//! be served. The patterns are those of the `glob` crate, which compiles and
//! matches them.

use crate::error::AppError;
use crate::text::{
    chars_of, find_char, first_char, lemma_first_char, string_of, trim_range, trimmed,
};
use vstd::prelude::*;
use vstd::string::*;

verus! {

/// Whether `glob::Pattern::new` accepts `pattern`.
pub uninterp spec fn glob_compiles(pattern: Seq<char>) -> bool;

/// Whether `pattern`, compiled by `glob::Pattern::new`, matches `path` with
/// the default options of `glob::Pattern::matches`.
pub uninterp spec fn glob_match(pattern: Seq<char>, path: Seq<char>) -> bool;

/// `glob::Pattern::new`, for its verdict alone: nothing where the crate
/// accepts `pattern`, and the crate's own description of the fault where it
/// does not. Which patterns are accepted is the crate's affair and is only
/// given a name here.
#[verifier::external_body]
pub(crate) fn pattern_fault(pattern: &str) -> (error: Option<String>)
    ensures
        error is None <==> glob_compiles(pattern@),
{
    match glob::Pattern::new(pattern) {
        Ok(_) => None,
        Err(fault) => Some(fault.to_string()),
    }
}

/// `glob::Pattern::matches` on the pattern that `glob::Pattern::new` makes
/// of `pattern`: whether it matches the whole of `path`, and nothing where
/// the pattern does not compile. What matches what is the crate's affair and
/// is only given a name here.
#[verifier::external_body]
pub(crate) fn pattern_matches(pattern: &str, path: &str) -> (hit: Option<bool>)
    ensures
        hit is Some <==> glob_compiles(pattern@),
        hit matches Some(h) ==> h == glob_match(pattern@, path@),
{
    match glob::Pattern::new(pattern) {
        Ok(compiled) => Some(compiled.matches(path)),
        Err(_) => None,
    }
}

/// The texts of `patterns`.
pub open spec fn patterns_view(patterns: Seq<String>) -> Seq<Seq<char>> {
    Seq::new(patterns.len(), |i: int| patterns[i]@)
}

/// Whether `pattern` is a valid pattern that matches `path`.
pub open spec fn allows(pattern: Seq<char>, path: Seq<char>) -> bool {
    glob_compiles(pattern) && glob_match(pattern, path)
}

/// The first position at or after `from` whose pattern allows `path`, or the
/// length of the list.
pub open spec fn first_allowing(patterns: Seq<Seq<char>>, path: Seq<char>, from: int) -> int
    decreases patterns.len() - from,
{
    if from < 0 || from >= patterns.len() {
        patterns.len() as int
    } else if allows(patterns[from], path) {
        from
    } else {
        first_allowing(patterns, path, from + 1)
    }
}

/// `first_allowing` is the least position whose pattern allows the path.
pub proof fn lemma_first_allowing(patterns: Seq<Seq<char>>, path: Seq<char>, from: int)
    requires
        0 <= from <= patterns.len(),
    ensures
        from <= first_allowing(patterns, path, from) <= patterns.len(),
        forall|k: int|
            from <= k < first_allowing(patterns, path, from) ==> !allows(patterns[k], path),
        first_allowing(patterns, path, from) < patterns.len() ==> allows(
            patterns[first_allowing(patterns, path, from)],
            path,
        ),
    decreases patterns.len() - from,
{
    if from < patterns.len() && !allows(patterns[from], path) {
        lemma_first_allowing(patterns, path, from + 1);
    }
}

/// Finds the first pattern of the allow-list that matches `path`.
pub fn find_allowing(patterns: &Vec<String>, path: &str) -> (at: Option<usize>)
    ensures
        match at {
            Some(i) => i < patterns@.len() && i == first_allowing(
                patterns_view(patterns@),
                path@,
                0,
            ),
            None => first_allowing(patterns_view(patterns@), path@, 0) == patterns@.len(),
        },
{
    let mut i: usize = 0;
    while i < patterns.len()
        invariant
            i <= patterns@.len(),
            first_allowing(patterns_view(patterns@), path@, 0) == first_allowing(
                patterns_view(patterns@),
                path@,
                i as int,
            ),
        decreases patterns@.len() - i,
    {
        match pattern_matches(patterns[i].as_str(), path) {
            Some(true) => {
                return Some(i);
            },
            _ => {},
        }
        i += 1;
    }
    None
}

/// The patterns that a comma-separated list names from position `from` on,
/// each without the white space around it, added to `found`.
pub open spec fn listed_patterns(list: Seq<char>, from: int, found: Seq<Seq<char>>) -> Seq<
    Seq<char>,
>
    decreases list.len() - from,
{
    if from < 0 || from > list.len() {
        found
    } else {
        let comma = first_char(list, from, list.len() as int, ',');
        if comma < from {
            found
        } else {
            let item = trimmed(list.subrange(from, comma));
            if comma >= list.len() {
                found.push(item)
            } else {
                listed_patterns(list, comma + 1, found.push(item))
            }
        }
    }
}

/// Whether every pattern of the list is one that `glob` accepts.
pub open spec fn all_compile(patterns: Seq<Seq<char>>) -> bool {
    forall|i: int| 0 <= i < patterns.len() ==> glob_compiles(#[trigger] patterns[i])
}

/// Reads the allow-list from its comma-separated form, as in `*.zip,*.txt`.
///
/// The list is accepted when each of its patterns is a valid glob; the
/// first one that is not is reported as a `Glob` error.
pub fn parse_allowed_extensions(list: &str) -> (patterns: Result<Vec<String>, AppError>)
    ensures
        match patterns {
            Ok(p) => patterns_view(p@) == listed_patterns(list@, 0, Seq::empty()) && all_compile(
                patterns_view(p@),
            ),
            Err(e) => e is Glob && !all_compile(listed_patterns(list@, 0, Seq::empty())),
        },
{
    let chars = chars_of(list);
    let mut found: Vec<String> = Vec::new();
    let mut at: usize = 0;
    assert(patterns_view(found@) =~= Seq::empty());
    loop
        invariant
            at <= chars@.len(),
            chars@ == list@,
            all_compile(patterns_view(found@)),
            listed_patterns(list@, 0, Seq::empty()) == listed_patterns(
                list@,
                at as int,
                patterns_view(found@),
            ),
        decreases chars@.len() - at,
    {
        let comma = find_char(&chars, at, chars.len(), ',');
        let (a, b) = trim_range(&chars, at, comma);
        let item = string_of(&chars, a, b);
        let ghost before = patterns_view(found@);
        let ghost after = before.push(item@);
        match pattern_fault(item.as_str()) {
            Some(reason) => {
                proof {
                    lemma_listed_keeps(list@, at as int, before, before.len() as int);
                    if comma < chars@.len() {
                        lemma_listed_keeps(list@, comma + 1, after, before.len() as int);
                    }
                    let all = listed_patterns(list@, 0, Seq::empty());
                    assert(all[before.len() as int] == item@);
                }
                return Err(AppError::Glob(reason));
            },
            None => {},
        }
        found.push(item);
        proof {
            assert(patterns_view(found@) =~= after);
            assert forall|i: int| 0 <= i < after.len() implies glob_compiles(
                #[trigger] after[i],
            ) by {
                if i < before.len() {
                    assert(after[i] == before[i]);
                }
            }
        }
        if comma >= chars.len() {
            return Ok(found);
        }
        at = comma + 1;
    }
}

/// Reading on never changes what was found before: the result begins with
/// `found`.
pub proof fn lemma_listed_keeps(list: Seq<char>, from: int, found: Seq<Seq<char>>, k: int)
    requires
        0 <= from <= list.len(),
    ensures
        listed_patterns(list, from, found).len() > found.len(),
        0 <= k < found.len() ==> listed_patterns(list, from, found)[k] == found[k],
        listed_patterns(list, from, found)[found.len() as int] == trimmed(
            list.subrange(from, first_char(list, from, list.len() as int, ',')),
        ),
    decreases list.len() - from,
{
    lemma_first_char(list, from, list.len() as int, ',');
    let comma = first_char(list, from, list.len() as int, ',');
    let item = trimmed(list.subrange(from, comma));
    if comma < list.len() {
        lemma_listed_keeps(list, comma + 1, found.push(item), k);
        lemma_listed_keeps(list, comma + 1, found.push(item), found.len() as int);
    }
}

} // verus!
