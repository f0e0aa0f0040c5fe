//! Lists of name and value pairs: header fields, template variables.
//!
//! A list keeps the order in which its pairs were added, and a lookup finds
//! the first pair of a name.

use crate::text::str_eq;
use vstd::prelude::*;
use vstd::string::*;

verus! {

/// The names and values of `fields` as text.
pub open spec fn fields_view(fields: Seq<(String, String)>) -> Seq<(Seq<char>, Seq<char>)> {
    Seq::new(fields.len(), |i: int| (fields[i].0@, fields[i].1@))
}

/// The first position at or after `from` whose name is `name`, or the length
/// of the list.
pub open spec fn position_of(
    fields: Seq<(Seq<char>, Seq<char>)>,
    name: Seq<char>,
    from: int,
) -> int
    decreases fields.len() - from,
{
    if from < 0 || from >= fields.len() {
        fields.len() as int
    } else if fields[from].0 == name {
        from
    } else {
        position_of(fields, name, from + 1)
    }
}

/// The value of the first pair named `name`.
pub open spec fn value_of(fields: Seq<(Seq<char>, Seq<char>)>, name: Seq<char>) -> Option<
    Seq<char>,
> {
    let at = position_of(fields, name, 0);
    if at < fields.len() {
        Some(fields[at].1)
    } else {
        None
    }
}

/// Whether some pair is named `name`.
pub open spec fn has_name(fields: Seq<(Seq<char>, Seq<char>)>, name: Seq<char>) -> bool {
    exists|i: int| 0 <= i < fields.len() && (#[trigger] fields[i]).0 == name
}

/// `position_of` is the least position that holds the name.
pub proof fn lemma_position_of(fields: Seq<(Seq<char>, Seq<char>)>, name: Seq<char>, from: int)
    requires
        0 <= from <= fields.len(),
    ensures
        from <= position_of(fields, name, from) <= fields.len(),
        forall|k: int| from <= k < position_of(fields, name, from) ==> fields[k].0 != name,
        position_of(fields, name, from) < fields.len() ==> fields[position_of(
            fields,
            name,
            from,
        )].0 == name,
    decreases fields.len() - from,
{
    if from < fields.len() && fields[from].0 != name {
        lemma_position_of(fields, name, from + 1);
    }
}

/// The position of the first pair named `name`.
pub fn find_field(fields: &Vec<(String, String)>, name: &str) -> (at: Option<usize>)
    ensures
        match at {
            Some(i) => i < fields@.len() && i == position_of(fields_view(fields@), name@, 0),
            None => position_of(fields_view(fields@), name@, 0) == fields@.len(),
        },
{
    let mut i: usize = 0;
    while i < fields.len()
        invariant
            i <= fields@.len(),
            position_of(fields_view(fields@), name@, 0) == position_of(
                fields_view(fields@),
                name@,
                i as int,
            ),
        decreases fields@.len() - i,
    {
        if str_eq(fields[i].0.as_str(), name) {
            return Some(i);
        }
        i += 1;
    }
    None
}

/// The value of the first pair named `name`.
pub fn field_value<'a>(fields: &'a Vec<(String, String)>, name: &str) -> (value: Option<
    &'a String,
>)
    ensures
        match value {
            Some(v) => value_of(fields_view(fields@), name@) == Some(v@),
            None => value_of(fields_view(fields@), name@) is None,
        },
{
    match find_field(fields, name) {
        Some(i) => Some(&fields[i].1),
        None => None,
    }
}

/// Adding a pair at the end adds it to the view.
pub proof fn lemma_fields_view_push(fields: Seq<(String, String)>, pair: (String, String))
    ensures
        fields_view(fields.push(pair)) == fields_view(fields).push((pair.0@, pair.1@)),
{
    assert(fields_view(fields.push(pair)) =~= fields_view(fields).push((pair.0@, pair.1@)));
}

} // verus!
