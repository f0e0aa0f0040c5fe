//! Page templates and how they are filled in.

use crate::assets::{
    DIRECTORY_INDEX, DIRECTORY_SCRIPT, DIRECTORY_STYLES, ERROR_PAGE, ERROR_SCRIPT, ERROR_STYLES,
};
use crate::error::AppError;
use crate::fields::{
    fields_view, find_field, lemma_fields_view_push, lemma_position_of, position_of, value_of,
};
use crate::text::{
    append_decimal, chars_of, decimal, matches_at, occurs_at, str_eq,
};
use vstd::prelude::*;
use vstd::string::*;

verus! {

/// `text` with every occurrence of `pattern` replaced by `with`. The
/// occurrences are found from left to right and do not overlap. An empty
/// pattern occurs nowhere.
pub open spec fn replaced(text: Seq<char>, pattern: Seq<char>, with: Seq<char>) -> Seq<char>
    decreases text.len(),
{
    if pattern.len() == 0 || text.len() == 0 {
        text
    } else if occurs_at(text, 0, pattern) {
        with + replaced(text.skip(pattern.len() as int), pattern, with)
    } else {
        seq![text[0]] + replaced(text.skip(1), pattern, with)
    }
}

/// Replaces every occurrence of `pattern` in `text` by `with`.
pub fn replace_all(text: &str, pattern: &str, with: &str) -> (out: String)
    ensures
        out@ == replaced(text@, pattern@, with@),
{
    let chars = chars_of(text);
    let pat = chars_of(pattern);
    if pat.len() == 0 {
        return String::from_str(text);
    }
    let mut out = String::new();
    let mut i: usize = 0;
    assert(chars@.skip(0) == chars@);
    while i < chars.len()
        invariant
            i <= chars@.len(),
            chars@ == text@,
            pat@ == pattern@,
            pat@.len() > 0,
            out@ + replaced(chars@.skip(i as int), pat@, with@) == replaced(chars@, pat@, with@),
        decreases chars@.len() - i,
    {
        let ghost rest = chars@.skip(i as int);
        let ghost before = out@;
        let hit = matches_at(&chars, i, &pat);
        proof {
            if i + pat@.len() <= chars@.len() {
                assert(rest.subrange(0, pat@.len() as int) =~= chars@.subrange(
                    i as int,
                    i + pat@.len(),
                ));
            }
            assert(hit == occurs_at(rest, 0, pat@));
        }
        if hit {
            out.append(with);
            i += pat.len();
            proof {
                assert(rest.skip(pat@.len() as int) =~= chars@.skip(i as int));
                assert(out@ + replaced(chars@.skip(i as int), pat@, with@) =~= before + replaced(
                    rest,
                    pat@,
                    with@,
                ));
            }
        } else {
            out.push(chars[i]);
            i += 1;
            proof {
                assert(rest.skip(1) =~= chars@.skip(i as int));
                assert(out@ + replaced(chars@.skip(i as int), pat@, with@) =~= before + replaced(
                    rest,
                    pat@,
                    with@,
                ));
            }
        }
    }
    assert(chars@.skip(chars@.len() as int).len() == 0);
    assert(out@ + Seq::<char>::empty() =~= out@);
    out
}

/// The mark that stands for the variable `name` in a template.
pub open spec fn placeholder(name: Seq<char>) -> Seq<char> {
    "{{"@ + name + "}}"@
}

/// `text` with the variables filled in, one after the other in the order of
/// the list.
pub open spec fn substituted(text: Seq<char>, variables: Seq<(Seq<char>, Seq<char>)>) -> Seq<char>
    decreases variables.len(),
{
    if variables.len() == 0 {
        text
    } else {
        replaced(
            substituted(text, variables.drop_last()),
            placeholder(variables.last().0),
            variables.last().1,
        )
    }
}

/// The list after `value` was stored under `name`: in the place of an
/// earlier value of that name, or at the end.
pub open spec fn stored(
    fields: Seq<(Seq<char>, Seq<char>)>,
    name: Seq<char>,
    value: Seq<char>,
) -> Seq<(Seq<char>, Seq<char>)> {
    let at = position_of(fields, name, 0);
    if at < fields.len() {
        fields.update(at, (name, value))
    } else {
        fields.push((name, value))
    }
}

/// What is stored under a name is what a lookup of that name finds.
pub proof fn lemma_stored_is_found(
    fields: Seq<(Seq<char>, Seq<char>)>,
    name: Seq<char>,
    value: Seq<char>,
)
    ensures
        value_of(stored(fields, name, value), name) == Some(value),
{
    lemma_position_of(fields, name, 0);
    let after = stored(fields, name, value);
    lemma_position_of(after, name, 0);
    let at = position_of(fields, name, 0);
    let found = position_of(after, name, 0);
    assert(after[at].0 == name);
    if found < at {
        assert(after[found] == fields[found]);
    }
}

/// One line of a directory listing: the name as it is shown, the size and
/// the date, all as text.
pub open spec fn entry_view(entry: (String, String, String)) -> (Seq<char>, Seq<char>, Seq<char>) {
    (entry.0@, entry.1@, entry.2@)
}

/// The entries of a listing as text.
pub open spec fn entries_view(entries: Seq<(String, String, String)>) -> Seq<
    (Seq<char>, Seq<char>, Seq<char>),
> {
    Seq::new(entries.len(), |i: int| entry_view(entries[i]))
}

/// What stands for `c` in the address of a link.
pub open spec fn percent_encoded_char(c: char) -> Seq<char> {
    if c == ' ' {
        "%20"@
    } else if c == '"' {
        "%22"@
    } else if c == '#' {
        "%23"@
    } else if c == '%' {
        "%25"@
    } else if c == '<' {
        "%3C"@
    } else if c == '>' {
        "%3E"@
    } else if c == '?' {
        "%3F"@
    } else {
        seq![c]
    }
}

/// `text` as it stands in the address of a link.
pub open spec fn percent_encoded(text: Seq<char>) -> Seq<char>
    decreases text.len(),
{
    if text.len() == 0 {
        Seq::empty()
    } else {
        percent_encoded(text.drop_last()) + percent_encoded_char(text.last())
    }
}

/// What stands for `c` in the text of a page.
pub open spec fn html_escaped_char(c: char) -> Seq<char> {
    if c == '&' {
        "&amp;"@
    } else if c == '<' {
        "&lt;"@
    } else if c == '>' {
        "&gt;"@
    } else if c == '"' {
        "&quot;"@
    } else if c == '\'' {
        "&#x27;"@
    } else {
        seq![c]
    }
}

/// `text` as it stands in the text of a page.
pub open spec fn html_escaped(text: Seq<char>) -> Seq<char>
    decreases text.len(),
{
    if text.len() == 0 {
        Seq::empty()
    } else {
        html_escaped(text.drop_last()) + html_escaped_char(text.last())
    }
}

/// Appends `chars[from..to]` to `out` as they stand in the address of a
/// link.
pub fn append_percent_encoded(out: &mut String, chars: &Vec<char>, from: usize, to: usize)
    requires
        from <= to <= chars@.len(),
    ensures
        final(out)@ == old(out)@ + percent_encoded(chars@.subrange(from as int, to as int)),
{
    let ghost text = chars@.subrange(from as int, to as int);
    let mut i: usize = from;
    assert(text.take(0) == Seq::<char>::empty());
    while i < to
        invariant
            from <= i <= to <= chars@.len(),
            text == chars@.subrange(from as int, to as int),
            out@ == old(out)@ + percent_encoded(text.take(i - from)),
        decreases to - i,
    {
        let c = chars[i];
        let ghost before = out@;
        if c == ' ' {
            out.append("%20");
        } else if c == '"' {
            out.append("%22");
        } else if c == '#' {
            out.append("%23");
        } else if c == '%' {
            out.append("%25");
        } else if c == '<' {
            out.append("%3C");
        } else if c == '>' {
            out.append("%3E");
        } else if c == '?' {
            out.append("%3F");
        } else {
            out.push(c);
        }
        proof {
            let next = text.take(i - from + 1);
            assert(next.drop_last() == text.take(i - from));
            assert(next.last() == c);
            assert(out@ =~= before + percent_encoded_char(c));
            assert(out@ =~= old(out)@ + percent_encoded(next));
        }
        i += 1;
    }
    assert(text.take(to - from) == text);
}

/// Appends `chars[from..to]` to `out` as they stand in the text of a page.
pub fn append_html_escaped(out: &mut String, chars: &Vec<char>, from: usize, to: usize)
    requires
        from <= to <= chars@.len(),
    ensures
        final(out)@ == old(out)@ + html_escaped(chars@.subrange(from as int, to as int)),
{
    let ghost text = chars@.subrange(from as int, to as int);
    let mut i: usize = from;
    assert(text.take(0) == Seq::<char>::empty());
    while i < to
        invariant
            from <= i <= to <= chars@.len(),
            text == chars@.subrange(from as int, to as int),
            out@ == old(out)@ + html_escaped(text.take(i - from)),
        decreases to - i,
    {
        let c = chars[i];
        let ghost before = out@;
        if c == '&' {
            out.append("&amp;");
        } else if c == '<' {
            out.append("&lt;");
        } else if c == '>' {
            out.append("&gt;");
        } else if c == '"' {
            out.append("&quot;");
        } else if c == '\'' {
            out.append("&#x27;");
        } else {
            out.push(c);
        }
        proof {
            let next = text.take(i - from + 1);
            assert(next.drop_last() == text.take(i - from));
            assert(next.last() == c);
            assert(out@ =~= before + html_escaped_char(c));
            assert(out@ =~= old(out)@ + html_escaped(next));
        }
        i += 1;
    }
    assert(text.take(to - from) == text);
}

/// Encodes a name for the address of a link.
pub fn percent_encode(input: &str) -> (out: String)
    ensures
        out@ == percent_encoded(input@),
{
    let chars = chars_of(input);
    let mut out = String::new();
    assert(chars@.subrange(0, chars@.len() as int) == chars@);
    append_percent_encoded(&mut out, &chars, 0, chars.len());
    assert(Seq::<char>::empty() + percent_encoded(input@) =~= percent_encoded(input@));
    out
}

/// Escapes a text for a page.
pub fn html_escape(input: &str) -> (out: String)
    ensures
        out@ == html_escaped(input@),
{
    let chars = chars_of(input);
    let mut out = String::new();
    assert(chars@.subrange(0, chars@.len() as int) == chars@);
    append_html_escaped(&mut out, &chars, 0, chars.len());
    assert(Seq::<char>::empty() + html_escaped(input@) =~= html_escaped(input@));
    out
}

/// What an error page says about a status.
pub open spec fn error_description(status_code: u16) -> Seq<char> {
    if status_code == 400 {
        "The request could not be understood due to malformed syntax."@
    } else if status_code == 401 {
        "Authentication is required to access this resource."@
    } else if status_code == 403 {
        "Access to this resource is forbidden."@
    } else if status_code == 404 {
        "The requested file or directory could not be found."@
    } else if status_code == 405 {
        "The request method is not allowed for this resource."@
    } else if status_code == 500 {
        "An internal server error occurred while processing your request."@
    } else {
        "An unexpected error occurred while processing your request."@
    }
}

/// What an error page says about a status.
pub fn get_error_description(status_code: u16) -> (description: &'static str)
    ensures
        description@ == error_description(status_code),
{
    if status_code == 400 {
        "The request could not be understood due to malformed syntax."
    } else if status_code == 401 {
        "Authentication is required to access this resource."
    } else if status_code == 403 {
        "Access to this resource is forbidden."
    } else if status_code == 404 {
        "The requested file or directory could not be found."
    } else if status_code == 405 {
        "The request method is not allowed for this resource."
    } else if status_code == 500 {
        "An internal server error occurred while processing your request."
    } else {
        "An unexpected error occurred while processing your request."
    }
}

/// The row that leads to the parent directory.
pub const PARENT_ROW: &'static str =
    "<tr>\n                    <td>\n                        <a href=\"../\" class=\"file-link\">\n                            <span class=\"file-type directory\"></span>\n                            <span class=\"name\">..</span>\n                        </a>\n                    </td>\n                    <td class=\"size\">-</td>\n                    <td class=\"date\">-</td>\n                </tr>";

/// The row of an entry, up to the address of its link.
pub const ROW_OPEN: &'static str = "<tr>\n                    <td>\n                        <a href=\"";

/// The row of an entry, from the address to the kind.
pub const ROW_TYPE: &'static str =
    "\" class=\"file-link\">\n                            <span class=\"file-type ";

/// The row of an entry, from the kind to the name.
pub const ROW_NAME: &'static str = "\"></span>\n                            <span class=\"name\">";

/// The row of an entry, from the name to the size.
pub const ROW_SIZE: &'static str =
    "</span>\n                        </a>\n                    </td>\n                    <td class=\"size\">";

/// The row of an entry, from the size to the date.
pub const ROW_DATE: &'static str = "</td>\n                    <td class=\"date\">";

/// The row of an entry, after the date.
pub const ROW_CLOSE: &'static str = "</td>\n                </tr>";

/// The end of `text` once the slashes at its end are dropped.
pub open spec fn without_trailing_slashes(text: Seq<char>) -> Seq<char>
    decreases text.len(),
{
    if text.len() > 0 && text.last() == '/' {
        without_trailing_slashes(text.drop_last())
    } else {
        text
    }
}

/// The row of one entry. A name that ends in a slash is a directory, and is
/// shown without the slash. The address is percent-encoded and the shown
/// name is escaped; size and date stand as they are given.
pub open spec fn entry_row(entry: (Seq<char>, Seq<char>, Seq<char>)) -> Seq<char> {
    let is_directory = entry.0.len() > 0 && entry.0.last() == '/';
    ROW_OPEN@ + percent_encoded(entry.0) + ROW_TYPE@ + (if is_directory {
        "directory"@
    } else {
        "file"@
    }) + ROW_NAME@ + html_escaped(
        if is_directory {
            without_trailing_slashes(entry.0)
        } else {
            entry.0
        },
    ) + ROW_SIZE@ + entry.1 + ROW_DATE@ + entry.2 + ROW_CLOSE@
}

/// The rows of the entries, in their order.
pub open spec fn entry_rows(entries: Seq<(Seq<char>, Seq<char>, Seq<char>)>) -> Seq<char>
    decreases entries.len(),
{
    if entries.len() == 0 {
        Seq::empty()
    } else {
        entry_rows(entries.drop_last()) + entry_row(entries.last())
    }
}

/// The rows of a listing: a way up, unless the listing is that of the root,
/// and then the entries.
pub open spec fn listing_rows(path: Seq<char>, entries: Seq<(Seq<char>, Seq<char>, Seq<char>)>)
    -> Seq<char> {
    (if path != "/"@ && path.len() != 0 {
        PARENT_ROW@
    } else {
        Seq::empty()
    }) + entry_rows(entries)
}

/// The variables of a directory listing.
pub open spec fn listing_variables(
    path: Seq<char>,
    entries: Seq<(Seq<char>, Seq<char>, Seq<char>)>,
    entry_count: usize,
) -> Seq<(Seq<char>, Seq<char>)> {
    seq![
        ("PATH"@, path),
        ("ENTRY_COUNT"@, decimal(entry_count as nat)),
        ("ENTRIES"@, listing_rows(path, entries)),
    ]
}

/// The variables of an error page.
pub open spec fn error_variables(status_code: u16, status_text: Seq<char>, description: Seq<char>)
    -> Seq<(Seq<char>, Seq<char>)> {
    seq![
        ("STATUS_CODE"@, decimal(status_code as nat)),
        ("STATUS_TEXT"@, status_text),
        ("DESCRIPTION"@, description),
    ]
}

/// The templates that every engine starts with.
pub open spec fn builtin_templates() -> Seq<(Seq<char>, Seq<char>)> {
    seq![("directory_index"@, DIRECTORY_INDEX@), ("error_page"@, ERROR_PAGE@)]
}

/// The built-in asset of a name, with its content type.
pub open spec fn static_asset(path: Seq<char>) -> Option<(Seq<char>, Seq<char>)> {
    if path == "directory/styles.css"@ {
        Some((DIRECTORY_STYLES@, "text/css"@))
    } else if path == "directory/script.js"@ {
        Some((DIRECTORY_SCRIPT@, "application/javascript"@))
    } else if path == "error/styles.css"@ {
        Some((ERROR_STYLES@, "text/css"@))
    } else if path == "error/script.js"@ {
        Some((ERROR_SCRIPT@, "application/javascript"@))
    } else {
        None
    }
}

/// Holds page templates by name and fills them in.
#[derive(Debug, Clone, PartialEq, Eq)]
pub struct TemplateEngine {
    templates: Vec<(String, String)>,
}

impl TemplateEngine {
    /// The templates, by name.
    pub closed spec fn templates(&self) -> Seq<(Seq<char>, Seq<char>)> {
        fields_view(self.templates@)
    }

    /// An engine with the built-in templates.
    pub fn new() -> (engine: TemplateEngine)
        ensures
            engine.templates() == builtin_templates(),
    {
        let mut templates: Vec<(String, String)> = Vec::new();
        templates.push((String::from_str("directory_index"), String::from_str(DIRECTORY_INDEX)));
        templates.push((String::from_str("error_page"), String::from_str(ERROR_PAGE)));
        assert(fields_view(templates@) =~= builtin_templates());
        TemplateEngine { templates }
    }

    /// Stores `content` as the template `name`, in place of an earlier one
    /// of that name.
    pub fn load_template(&mut self, name: &str, content: &str)
        ensures
            final(self).templates() == stored(old(self).templates(), name@, content@),
            value_of(final(self).templates(), name@) == Some(content@),
    {
        proof {
            lemma_stored_is_found(fields_view(self.templates@), name@, content@);
        }
        let pair = (String::from_str(name), String::from_str(content));
        match find_field(&self.templates, name) {
            Some(at) => {
                self.templates.set(at, pair);
                assert(fields_view(self.templates@) =~= stored(
                    fields_view(old(self).templates@),
                    name@,
                    content@,
                ));
            },
            None => {
                proof {
                    lemma_fields_view_push(self.templates@, pair);
                }
                self.templates.push(pair);
            },
        }
    }

    /// Stores the two page templates, each where one is given.
    pub fn load_all_templates(&mut self, directory_index: Option<&str>, error_page: Option<&str>)
        ensures
            final(self).templates() == ({
                let first = match directory_index {
                    Some(content) => stored(old(self).templates(), "directory_index"@, content@),
                    None => old(self).templates(),
                };
                match error_page {
                    Some(content) => stored(first, "error_page"@, content@),
                    None => first,
                }
            }),
    {
        match directory_index {
            Some(content) => {
                self.load_template("directory_index", content);
            },
            None => {},
        }
        match error_page {
            Some(content) => {
                self.load_template("error_page", content);
            },
            None => {},
        }
    }

    /// Fills in the template `template_name`: each variable takes the place
    /// of its mark, `{{NAME}}`, wherever the mark stands. A template that
    /// is not there is an internal error.
    pub fn render(&self, template_name: &str, variables: &Vec<(String, String)>) -> (page: Result<
        String,
        AppError,
    >)
        ensures
            match page {
                Ok(text) => value_of(self.templates(), template_name@) matches Some(template)
                    && text@ == substituted(template, fields_view(variables@)),
                Err(e) => value_of(self.templates(), template_name@) is None && (
                e matches AppError::InternalServerError(reason) && reason@ == "Template '"@
                    + template_name@ + "' not found"@),
            },
    {
        let at = match find_field(&self.templates, template_name) {
            Some(at) => at,
            None => {
                let mut reason = String::from_str("Template '");
                reason.append(template_name);
                reason.append("' not found");
                return Err(AppError::InternalServerError(reason));
            },
        };
        let mut rendered = String::from_str(self.templates[at].1.as_str());
        let ghost template = rendered@;
        let ghost all = fields_view(variables@);
        let mut i: usize = 0;
        assert(all.take(0) =~= Seq::empty());
        while i < variables.len()
            invariant
                i <= variables@.len(),
                all == fields_view(variables@),
                rendered@ == substituted(template, all.take(i as int)),
            decreases variables@.len() - i,
        {
            let mut mark = String::from_str("{{");
            mark.append(variables[i].0.as_str());
            mark.append("}}");
            rendered = replace_all(rendered.as_str(), mark.as_str(), variables[i].1.as_str());
            proof {
                let next = all.take(i + 1);
                assert(next.drop_last() =~= all.take(i as int));
                assert(next.last() == all[i as int]);
            }
            i += 1;
        }
        assert(all.take(variables@.len() as int) =~= all);
        Ok(rendered)
    }

    /// The row of one entry of a listing.
    pub fn entry_row(entry: &(String, String, String)) -> (row: String)
        ensures
            row@ == entry_row(entry_view(*entry)),
    {
        let name = chars_of(entry.0.as_str());
        let is_directory = name.len() > 0 && name[name.len() - 1] == '/';
        let mut row = String::from_str(ROW_OPEN);
        assert(name@.subrange(0, name@.len() as int) == name@);
        append_percent_encoded(&mut row, &name, 0, name.len());
        row.append(ROW_TYPE);
        if is_directory {
            row.append("directory");
        } else {
            row.append("file");
        }
        row.append(ROW_NAME);
        let mut shown: usize = name.len();
        if is_directory {
            while shown > 0 && name[shown - 1] == '/'
                invariant
                    shown <= name@.len(),
                    without_trailing_slashes(name@) == without_trailing_slashes(
                        name@.take(shown as int),
                    ),
                decreases shown,
            {
                assert(name@.take(shown as int).drop_last() == name@.take(shown - 1));
                shown -= 1;
            }
            assert(name@.take(shown as int) == without_trailing_slashes(name@));
        }
        assert(name@.take(shown as int) == name@.subrange(0, shown as int));
        assert(name@.take(name@.len() as int) == name@);
        append_html_escaped(&mut row, &name, 0, shown);
        row.append(ROW_SIZE);
        row.append(entry.1.as_str());
        row.append(ROW_DATE);
        row.append(entry.2.as_str());
        row.append(ROW_CLOSE);
        row
    }

    /// The page that lists a directory. `entries` holds, for each entry,
    /// its name (with a slash at the end for a directory), its size and its
    /// date.
    pub fn render_directory_listing(
        &self,
        path: &str,
        entries: &Vec<(String, String, String)>,
        entry_count: usize,
    ) -> (page: Result<String, AppError>)
        ensures
            match page {
                Ok(text) => value_of(self.templates(), "directory_index"@) matches Some(template)
                    && text@ == substituted(
                    template,
                    listing_variables(path@, entries_view(entries@), entry_count),
                ),
                Err(e) => value_of(self.templates(), "directory_index"@) is None
                    && e is InternalServerError,
            },
    {
        let mut rows = String::new();
        if !str_eq(path, "/") && !str_eq(path, "") {
            rows.append(PARENT_ROW);
        }
        proof {
            reveal_strlit("");
            assert(""@.len() == 0);
            assert(path@ == ""@ <==> path@.len() == 0) by {
                if path@.len() == 0 {
                    assert(path@ =~= ""@);
                }
            }
        }
        let ghost head = rows@;
        let ghost all = entries_view(entries@);
        let mut i: usize = 0;
        assert(all.take(0) =~= Seq::empty());
        assert(rows@ =~= head + entry_rows(all.take(0)));
        while i < entries.len()
            invariant
                i <= entries@.len(),
                all == entries_view(entries@),
                rows@ == head + entry_rows(all.take(i as int)),
            decreases entries@.len() - i,
        {
            let ghost before = rows@;
            let row = Self::entry_row(&entries[i]);
            rows.append(row.as_str());
            proof {
                let next = all.take(i + 1);
                assert(next.drop_last() =~= all.take(i as int));
                assert(next.last() == all[i as int]);
                assert(rows@ =~= head + entry_rows(next));
            }
            i += 1;
        }
        assert(all.take(entries@.len() as int) =~= all);
        let mut variables: Vec<(String, String)> = Vec::new();
        variables.push((String::from_str("PATH"), String::from_str(path)));
        let mut count = String::new();
        append_decimal(&mut count, entry_count as u64);
        assert(count@ =~= decimal(entry_count as nat));
        variables.push((String::from_str("ENTRY_COUNT"), count));
        variables.push((String::from_str("ENTRIES"), rows));
        assert(fields_view(variables@) =~= listing_variables(
            path@,
            entries_view(entries@),
            entry_count,
        ));
        self.render("directory_index", &variables)
    }

    /// The page that reports an error.
    pub fn render_error_page(&self, status_code: u16, status_text: &str, description: &str) -> (page:
        Result<String, AppError>)
        ensures
            match page {
                Ok(text) => value_of(self.templates(), "error_page"@) matches Some(template)
                    && text@ == substituted(
                    template,
                    error_variables(status_code, status_text@, description@),
                ),
                Err(e) => value_of(self.templates(), "error_page"@) is None
                    && e is InternalServerError,
            },
    {
        let mut variables: Vec<(String, String)> = Vec::new();
        let mut code = String::new();
        append_decimal(&mut code, status_code as u64);
        assert(code@ =~= decimal(status_code as nat));
        variables.push((String::from_str("STATUS_CODE"), code));
        variables.push((String::from_str("STATUS_TEXT"), String::from_str(status_text)));
        variables.push((String::from_str("DESCRIPTION"), String::from_str(description)));
        assert(fields_view(variables@) =~= error_variables(status_code, status_text@, description@));
        self.render("error_page", &variables)
    }

    /// The built-in asset `path`, with its content type.
    pub fn get_static_asset(&self, path: &str) -> (asset: Option<(&'static str, &'static str)>)
        ensures
            match asset {
                Some((content, content_type)) => static_asset(path@) == Some(
                    (content@, content_type@),
                ),
                None => static_asset(path@) is None,
            },
    {
        if str_eq(path, "directory/styles.css") {
            Some((DIRECTORY_STYLES, "text/css"))
        } else if str_eq(path, "directory/script.js") {
            Some((DIRECTORY_SCRIPT, "application/javascript"))
        } else if str_eq(path, "error/styles.css") {
            Some((ERROR_STYLES, "text/css"))
        } else if str_eq(path, "error/script.js") {
            Some((ERROR_SCRIPT, "application/javascript"))
        } else {
            None
        }
    }
}

} // verus!
