//! Small helpers on request lines and paths.

use crate::router::{components_view, join, join_components};
use crate::templates::{replace_all, replaced};
use crate::text::{
    chars_of, find_char, first_char, has_prefix, matches_at, string_of,
};
use vstd::prelude::*;
use vstd::string::*;

verus! {

/// The stack after one more component of a path, where only the components
/// that name something are kept: an empty one, `.` and `..` are passed over.
pub open spec fn keep_named(stack: Seq<Seq<char>>, component: Seq<char>) -> Seq<Seq<char>> {
    if component.len() == 0 || component == seq!['.'] || component == seq!['.', '.'] {
        stack
    } else {
        stack.push(component)
    }
}

/// The components of `path` from position `from` on that name something,
/// added to `stack`. Slashes divide the components.
pub open spec fn named_components(path: Seq<char>, from: int, stack: Seq<Seq<char>>) -> Seq<
    Seq<char>,
>
    decreases path.len() - from,
{
    if from < 0 || from > path.len() {
        stack
    } else {
        let end = first_char(path, from, path.len() as int, '/');
        if end < from {
            stack
        } else {
            let next = keep_named(stack, path.subrange(from, end));
            if end >= path.len() {
                next
            } else {
                named_components(path, end + 1, next)
            }
        }
    }
}

/// A path as it stands in the address of a link: its named components,
/// joined by slashes, with `%20` for each space.
pub open spec fn encoded_path(path: Seq<char>) -> Seq<char> {
    replaced(join_components(named_components(path, 0, Seq::empty())), " "@, "%20"@)
}

/// Encodes a path for the address of a link.
pub fn percent_encode_path(path: &str) -> (encoded: String)
    ensures
        encoded@ == encoded_path(path@),
{
    let chars = chars_of(path);
    let mut stack: Vec<String> = Vec::new();
    let mut at: usize = 0;
    assert(components_view(stack@) =~= Seq::empty());
    loop
        invariant
            at <= chars@.len(),
            chars@ == path@,
            named_components(path@, 0, Seq::empty()) == named_components(
                path@,
                at as int,
                components_view(stack@),
            ),
        decreases chars@.len() - at,
    {
        let end = find_char(&chars, at, chars.len(), '/');
        let ghost before = components_view(stack@);
        let ghost component = chars@.subrange(at as int, end as int);
        let size = end - at;
        if size == 0 || (size == 1 && chars[at] == '.') {
            assert(size == 1 ==> component =~= seq!['.']);
        } else if size == 2 && chars[at] == '.' && chars[at + 1] == '.' {
            assert(component =~= seq!['.', '.']);
        } else {
            assert(component != seq!['.']) by {
                if component == seq!['.'] {
                    assert(component.len() == 1);
                    assert(component[0] == '.');
                }
            }
            assert(component != seq!['.', '.']) by {
                if component == seq!['.', '.'] {
                    assert(component.len() == 2);
                    assert(component[0] == '.');
                    assert(component[1] == '.');
                }
            }
            stack.push(string_of(&chars, at, end));
            assert(components_view(stack@) =~= before.push(component));
        }
        if end >= chars.len() {
            let joined = join(&stack);
            return replace_all(joined.as_str(), " ", "%20");
        }
        at = end + 1;
    }
}

/// The path that a request line asks for, without its first slash.
///
/// The line must begin with `GET` and a space; the path is what follows, up
/// to the next space or to the end of the line. A path that is only a slash
/// stays `/`. Every other line stands for `/`.
pub open spec fn request_path(line: Seq<char>) -> Seq<char> {
    if !has_prefix(line, "GET "@) {
        "/"@
    } else {
        let start = "GET "@.len() as int;
        let end = first_char(line, start, line.len() as int, ' ');
        let path = line.subrange(start, end);
        if path.len() > 0 && path[0] == '/' {
            if path.len() == 1 {
                "/"@
            } else {
                path.skip(1)
            }
        } else {
            path
        }
    }
}

/// Takes the requested path out of a request line.
pub fn get_request_path<'a>(request_line: &'a str) -> (path: &'a str)
    ensures
        path@ == request_path(request_line@),
{
    let chars = chars_of(request_line);
    let method = chars_of("GET ");
    if !matches_at(&chars, 0, &method) {
        return "/";
    }
    let start = method.len();
    let end = find_char(&chars, start, chars.len(), ' ');
    if end > start && chars[start] == '/' {
        if end - start == 1 {
            "/"
        } else {
            let path = request_line.substring_char(start + 1, end);
            assert(path@ == request_line@.subrange(start as int, end as int).skip(1));
            path
        }
    } else {
        request_line.substring_char(start, end)
    }
}

} // verus!
