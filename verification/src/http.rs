//! Requests and responses: their data, how a request is read from text and
//! how a response is written to the wire.

use crate::error::AppError;
use crate::fields::{
    fields_view, find_field, lemma_fields_view_push, lemma_position_of, position_of,
};
use crate::fs::{FileDetails, FileDetailsView};
use crate::text::{
    append_decimal, chars_of, decimal, find_char, first_char, has_prefix, lemma_first_char_part,
    lowercase_text, matches_at, skip_spaces, skip_whitespace, skip_word, string_of, to_lowercase,
    trim_range, trimmed, utf8_text, word_end,
};
use vstd::prelude::*;
use vstd::string::*;
use vstd::utf8::{decode_utf8, encode_utf8, valid_utf8};

verus! {

/// A request as read from a connection.
#[derive(Debug, Clone, PartialEq, Eq)]
pub struct Request {
    pub method: String,
    /// The requested path, percent-decoded.
    pub path: String,
    /// The header fields: names in lower case, each name once.
    pub headers: Vec<(String, String)>,
}

/// What a response carries after its head.
#[derive(Debug, Clone, PartialEq, Eq)]
pub enum ResponseBody {
    /// A body held in memory.
    Text(String),
    /// A file, or a range of it, to be sent piece by piece.
    Stream(FileDetails),
}

/// A response before it is written: status, header fields in the order in
/// which they were added, and the body.
#[derive(Debug, Clone, PartialEq, Eq)]
pub struct Response {
    pub status_code: u16,
    pub status_text: String,
    pub headers: Vec<(String, String)>,
    pub body: ResponseBody,
}

/// What `Request` holds, as text.
pub struct RequestView {
    pub method: Seq<char>,
    pub path: Seq<char>,
    pub headers: Seq<(Seq<char>, Seq<char>)>,
}

/// What `ResponseBody` holds, as text.
pub enum BodyView {
    Text(Seq<char>),
    Stream(FileDetailsView),
}

/// What `Response` holds, as text.
pub struct ResponseView {
    pub status_code: u16,
    pub status_text: Seq<char>,
    pub headers: Seq<(Seq<char>, Seq<char>)>,
    pub body: BodyView,
}

impl View for Request {
    type V = RequestView;

    open spec fn view(&self) -> RequestView {
        RequestView {
            method: self.method@,
            path: self.path@,
            headers: fields_view(self.headers@),
        }
    }
}

impl View for ResponseBody {
    type V = BodyView;

    open spec fn view(&self) -> BodyView {
        match self {
            ResponseBody::Text(text) => BodyView::Text(text@),
            ResponseBody::Stream(details) => BodyView::Stream(details@),
        }
    }
}

impl View for Response {
    type V = ResponseView;

    open spec fn view(&self) -> ResponseView {
        ResponseView {
            status_code: self.status_code,
            status_text: self.status_text@,
            headers: fields_view(self.headers@),
            body: self.body@,
        }
    }
}

/// The number of bytes that the body puts on the wire.
pub open spec fn body_length(body: BodyView) -> nat {
    match body {
        BodyView::Text(text) => encode_utf8(text).len(),
        BodyView::Stream(details) => details.content_length(),
    }
}

/// The header fields as lines, each closed by CR LF.
pub open spec fn header_lines(headers: Seq<(Seq<char>, Seq<char>)>) -> Seq<char>
    decreases headers.len(),
{
    if headers.len() == 0 {
        Seq::empty()
    } else {
        header_lines(headers.drop_last()) + headers.last().0 + ": "@ + headers.last().1 + "\r\n"@
    }
}

/// The head of a response: the status line, the two fields that every
/// response has, its own fields, the length of its body, and the empty line.
pub open spec fn head_text(response: ResponseView) -> Seq<char> {
    "HTTP/1.1 "@ + decimal(response.status_code as nat) + " "@ + response.status_text + "\r\n"@
        + "Server: hdl_sv/2.0.0\r\n"@ + "Connection: close\r\n"@ + header_lines(response.headers)
        + "Content-Length: "@ + decimal(body_length(response.body)) + "\r\n\r\n"@
}

/// The bytes that `send_response` writes: the head and, where the body is
/// held in memory, the body.
pub open spec fn wire_bytes(response: ResponseView) -> Seq<u8> {
    encode_utf8(head_text(response)) + match response.body {
        BodyView::Text(text) => encode_utf8(text),
        BodyView::Stream(_) => Seq::empty(),
    }
}

/// Appends `bytes` to `out`.
pub fn append_bytes(out: &mut Vec<u8>, bytes: &[u8])
    ensures
        final(out)@ == old(out)@ + bytes@,
{
    let mut i: usize = 0;
    while i < bytes.len()
        invariant
            i <= bytes@.len(),
            out@ == old(out)@ + bytes@.take(i as int),
        decreases bytes@.len() - i,
    {
        out.push(bytes[i]);
        i += 1;
        assert(bytes@.take(i as int) == bytes@.take(i - 1).push(bytes@[i - 1]));
    }
    assert(bytes@.take(bytes@.len() as int) == bytes@);
}

/// Appends the header fields as lines to `out`.
pub fn append_header_lines(out: &mut String, headers: &Vec<(String, String)>)
    ensures
        final(out)@ == old(out)@ + header_lines(fields_view(headers@)),
{
    let mut i: usize = 0;
    let ghost all = fields_view(headers@);
    assert(all.take(0) == Seq::<(Seq<char>, Seq<char>)>::empty());
    while i < headers.len()
        invariant
            i <= headers@.len(),
            all == fields_view(headers@),
            out@ == old(out)@ + header_lines(all.take(i as int)),
        decreases headers@.len() - i,
    {
        out.append(headers[i].0.as_str());
        out.append(": ");
        out.append(headers[i].1.as_str());
        out.append("\r\n");
        i += 1;
        proof {
            let next = all.take(i as int);
            assert(next.drop_last() == all.take(i - 1));
            assert(next.last() == all[i - 1]);
            assert(out@ =~= old(out)@ + header_lines(next));
        }
    }
    assert(all.take(headers@.len() as int) == all);
}

impl Response {
    /// The number of bytes that the body will put on the wire.
    pub fn content_length(&self) -> (n: u64)
        requires
            self.body matches ResponseBody::Stream(details) ==> details.wf(),
        ensures
            n == body_length(self@.body),
    {
        match &self.body {
            ResponseBody::Text(text) => text.as_str().as_bytes().len() as u64,
            ResponseBody::Stream(details) => details.content_length(),
        }
    }

    /// The head of the response as it goes on the wire.
    pub fn head(&self) -> (text: String)
        requires
            self.body matches ResponseBody::Stream(details) ==> details.wf(),
        ensures
            text@ == head_text(self@),
    {
        let mut out = String::from_str("HTTP/1.1 ");
        append_decimal(&mut out, self.status_code as u64);
        out.append(" ");
        out.append(self.status_text.as_str());
        out.append("\r\n");
        out.append("Server: hdl_sv/2.0.0\r\n");
        out.append("Connection: close\r\n");
        append_header_lines(&mut out, &self.headers);
        out.append("Content-Length: ");
        append_decimal(&mut out, self.content_length());
        out.append("\r\n\r\n");
        assert(out@ =~= head_text(self@));
        out
    }
}

/// Writes `response` to `stream`: the head, which always names the server,
/// closes the connection and gives the length of the body, and then the body
/// where it is held in memory. A streamed body is left to the caller, who
/// sends it piece by piece after the head.
pub fn send_response(stream: &mut Vec<u8>, response: &Response)
    requires
        response.body matches ResponseBody::Stream(details) ==> details.wf(),
    ensures
        final(stream)@ == old(stream)@ + wire_bytes(response@),
{
    let head = response.head();
    append_bytes(stream, head.as_str().as_bytes());
    match &response.body {
        ResponseBody::Text(text) => {
            append_bytes(stream, text.as_str().as_bytes());
        },
        ResponseBody::Stream(_) => {},
    }
    assert(stream@ =~= old(stream)@ + wire_bytes(response@));
}


/// The value of a hexadecimal digit.
pub open spec fn hex_value(c: char) -> Option<int> {
    let u = c as u32;
    if 48 <= u <= 57 {
        Some(u - 48)
    } else if 97 <= u <= 102 {
        Some(u - 87)
    } else if 65 <= u <= 70 {
        Some(u - 55)
    } else {
        None
    }
}

/// Whether `text` holds a percent sign and two hexadecimal digits at `at`.
pub open spec fn escape_at(text: Seq<char>, at: int) -> bool {
    &&& 0 <= at
    &&& at + 3 <= text.len()
    &&& text[at] == '%'
    &&& hex_value(text[at + 1]) is Some
    &&& hex_value(text[at + 2]) is Some
}

/// A path with its percent escapes resolved: `%xx` stands for the character
/// whose number is `xx` in hexadecimal. A percent sign that two hexadecimal
/// digits do not follow stands for itself.
pub open spec fn decode_url(path: Seq<char>) -> Seq<char>
    decreases path.len(),
{
    if path.len() == 0 {
        Seq::empty()
    } else if escape_at(path, 0) {
        seq![((hex_value(path[1])->0) * 16 + (hex_value(path[2])->0)) as char] + decode_url(
            path.skip(3),
        )
    } else {
        seq![path[0]] + decode_url(path.skip(1))
    }
}

/// The value of a hexadecimal digit.
pub fn hex_digit(c: char) -> (value: Option<u8>)
    ensures
        match value {
            Some(v) => hex_value(c) == Some(v as int),
            None => hex_value(c) is None,
        },
{
    let u: u32 = c as u32;
    if 48 <= u && u <= 57 {
        Some((u - 48) as u8)
    } else if 97 <= u && u <= 102 {
        Some((u - 87) as u8)
    } else if 65 <= u && u <= 70 {
        Some((u - 55) as u8)
    } else {
        None
    }
}

/// The three fields of a request line: method, path and version, with white
/// space between them and nothing else on the line. `None` where the line
/// holds fewer or more fields. The line is `text[..to]`.
pub open spec fn request_line(text: Seq<char>, to: int) -> Option<
    (Seq<char>, Seq<char>, Seq<char>),
> {
    let a1 = skip_whitespace(text, 0, to);
    let b1 = word_end(text, a1, to);
    let a2 = skip_whitespace(text, b1, to);
    let b2 = word_end(text, a2, to);
    let a3 = skip_whitespace(text, b2, to);
    let b3 = word_end(text, a3, to);
    if a1 < b1 && a2 < b2 && a3 < b3 && skip_whitespace(text, b3, to) == to {
        Some((text.subrange(a1, b1), text.subrange(a2, b2), text.subrange(a3, b3)))
    } else {
        None
    }
}

/// The fields after `value` was read for `name`: a name that is there
/// already gets the value added to its own after a comma; a new name is put
/// at the end.
pub open spec fn merge_field(
    fields: Seq<(Seq<char>, Seq<char>)>,
    name: Seq<char>,
    value: Seq<char>,
) -> Seq<(Seq<char>, Seq<char>)> {
    let at = position_of(fields, name, 0);
    if at < fields.len() {
        fields.update(at, (name, fields[at].1 + ", "@ + value))
    } else {
        fields.push((name, value))
    }
}

/// The fields after one more header line, already trimmed, was read. The
/// line is split at its first colon, both sides are trimmed, and the name is
/// put in lower case. A line without a colon is passed over.
pub open spec fn add_header_line(fields: Seq<(Seq<char>, Seq<char>)>, line: Seq<char>) -> Seq<
    (Seq<char>, Seq<char>),
> {
    let colon = first_char(line, 0, line.len() as int, ':');
    if colon >= line.len() {
        fields
    } else {
        merge_field(fields, lowercase_text(trimmed(line.take(colon))), trimmed(line.skip(colon + 1)))
    }
}

/// The header fields read from the lines of `text` that start at `from`,
/// added to `fields`. Reading ends at the first empty line or at the end of
/// the text.
pub open spec fn read_header_lines(
    text: Seq<char>,
    from: int,
    fields: Seq<(Seq<char>, Seq<char>)>,
) -> Seq<(Seq<char>, Seq<char>)>
    decreases text.len() - from,
{
    if from < 0 || from >= text.len() {
        fields
    } else {
        let eol = first_char(text, from, text.len() as int, '\n');
        if eol < from {
            fields
        } else {
            let line = trimmed(text.subrange(from, eol));
            if line.len() == 0 {
                fields
            } else if eol >= text.len() {
                add_header_line(fields, line)
            } else {
                read_header_lines(text, eol + 1, add_header_line(fields, line))
            }
        }
    }
}

/// Whether no two fields have the same name.
pub open spec fn distinct_names(fields: Seq<(Seq<char>, Seq<char>)>) -> bool {
    forall|i: int, j: int|
        0 <= i < j < fields.len() ==> (#[trigger] fields[i]).0 != (#[trigger] fields[j]).0
}

/// Merging a field into fields with distinct names leaves the names
/// distinct.
pub proof fn lemma_merge_keeps_distinct(
    fields: Seq<(Seq<char>, Seq<char>)>,
    name: Seq<char>,
    value: Seq<char>,
)
    requires
        distinct_names(fields),
    ensures
        distinct_names(merge_field(fields, name, value)),
{
    lemma_position_of(fields, name, 0);
    let merged = merge_field(fields, name, value);
    assert forall|i: int, j: int| 0 <= i < j < merged.len() implies (#[trigger] merged[i]).0 != (
    #[trigger] merged[j]).0 by {
        if j < fields.len() {
            assert(merged[i].0 == fields[i].0);
            assert(merged[j].0 == fields[j].0);
        } else {
            assert(merged[i] == fields[i]);
        }
    }
}

/// The header fields of a request have distinct names: a name that comes
/// again is merged into the field that is there.
pub proof fn lemma_header_names_distinct(
    text: Seq<char>,
    from: int,
    fields: Seq<(Seq<char>, Seq<char>)>,
)
    requires
        distinct_names(fields),
    ensures
        distinct_names(read_header_lines(text, from, fields)),
    decreases text.len() - from,
{
    if 0 <= from < text.len() {
        let eol = first_char(text, from, text.len() as int, '\n');
        if eol >= from {
            let line = trimmed(text.subrange(from, eol));
            let colon = first_char(line, 0, line.len() as int, ':');
            if line.len() > 0 {
                if colon < line.len() {
                    lemma_merge_keeps_distinct(
                        fields,
                        lowercase_text(trimmed(line.take(colon))),
                        trimmed(line.skip(colon + 1)),
                    );
                }
                if eol < text.len() {
                    lemma_header_names_distinct(text, eol + 1, add_header_line(fields, line));
                }
            }
        }
    }
}

/// The request that the head `head` of a message holds.
///
/// The first line must hold exactly three fields, and the version must begin
/// with `HTTP/1.`; anything else is a bad request. The path is
/// percent-decoded. The lines that follow are the header fields.
pub open spec fn parsed_request(head: Seq<char>) -> Result<RequestView, AppError> {
    let eol = first_char(head, 0, head.len() as int, '\n');
    match request_line(head, eol) {
        None => Err(AppError::BadRequest),
        Some((method, path, version)) => if has_prefix(version, "HTTP/1."@) {
            Ok(
                RequestView {
                    method,
                    path: decode_url(path),
                    headers: read_header_lines(head, eol + 1, Seq::empty()),
                },
            )
        } else {
            Err(AppError::BadRequest)
        },
    }
}

/// A request that was read from a message has each header name once.
pub proof fn lemma_parsed_names_distinct(head: Seq<char>)
    ensures
        parsed_request(head) matches Ok(request) ==> distinct_names(request.headers),
{
    let eol = first_char(head, 0, head.len() as int, '\n');
    lemma_header_names_distinct(head, eol + 1, Seq::empty());
}

impl Request {
    /// Resolves the percent escapes of a raw request path.
    pub fn decode_url(path: &str) -> (decoded: String)
        ensures
            decoded@ == decode_url(path@),
    {
        let chars = chars_of(path);
        assert(chars@.subrange(0, chars@.len() as int) == chars@);
        Self::decode_chars(&chars, 0, chars.len())
    }

    /// Resolves the percent escapes of `chars[from..to]`.
    pub fn decode_chars(chars: &Vec<char>, from: usize, to: usize) -> (decoded: String)
        requires
            from <= to <= chars@.len(),
        ensures
            decoded@ == decode_url(chars@.subrange(from as int, to as int)),
    {
        let ghost path = chars@.subrange(from as int, to as int);
        let mut out = String::new();
        let mut i: usize = from;
        assert(path.skip(0) == path);
        while i < to
            invariant
                from <= i <= to <= chars@.len(),
                path == chars@.subrange(from as int, to as int),
                out@ + decode_url(path.skip(i - from)) == decode_url(path),
            decreases to - i,
        {
            let ghost rest = path.skip(i - from);
            let c = chars[i];
            let mut step: usize = 1;
            let mut decoded: char = c;
            if c == '%' && to - i >= 3 {
                match (hex_digit(chars[i + 1]), hex_digit(chars[i + 2])) {
                    (Some(high), Some(low)) => {
                        decoded = (high * 16 + low) as char;
                        step = 3;
                    },
                    _ => {},
                }
            }
            proof {
                assert(rest[0] == c);
                if to - i >= 3 {
                    assert(rest[1] == chars@[i + 1]);
                    assert(rest[2] == chars@[i + 2]);
                }
                assert(rest.skip(step as int) == path.skip(i - from + step));
                assert(decode_url(rest) == seq![decoded] + decode_url(rest.skip(step as int)));
                assert(out@.push(decoded) + decode_url(rest.skip(step as int)) =~= out@
                    + decode_url(rest));
            }
            out.push(decoded);
            i += step;
        }
        assert(path.skip(to - from) == Seq::<char>::empty());
        assert(out@ + Seq::<char>::empty() == out@);
        out
    }

    /// Adds one header field to `fields`, merging it with an earlier field
    /// of the same name.
    pub fn add_field(fields: &mut Vec<(String, String)>, name: String, value: String)
        ensures
            fields_view(final(fields)@) == merge_field(fields_view(old(fields)@), name@, value@),
    {
        match find_field(fields, name.as_str()) {
            Some(at) => {
                let mut merged = String::from_str(fields[at].1.as_str());
                merged.append(", ");
                merged.append(value.as_str());
                fields.set(at, (name, merged));
                assert(fields_view(fields@) =~= merge_field(
                    fields_view(old(fields)@),
                    name@,
                    value@,
                ));
            },
            None => {
                proof {
                    lemma_fields_view_push(fields@, (name, value));
                }
                fields.push((name, value));
            },
        }
    }

    /// Reads the header lines of `chars` from `from` on.
    pub fn read_fields(chars: &Vec<char>, from: usize) -> (fields: Vec<(String, String)>)
        ensures
            fields_view(fields@) == read_header_lines(chars@, from as int, Seq::empty()),
    {
        let mut fields: Vec<(String, String)> = Vec::new();
        let mut at: usize = from;
        assert(fields_view(fields@) =~= Seq::empty());
        while at < chars.len()
            invariant
                read_header_lines(chars@, from as int, Seq::empty()) == read_header_lines(
                    chars@,
                    at as int,
                    fields_view(fields@),
                ),
            decreases chars@.len() - at,
        {
            let eol = find_char(chars, at, chars.len(), '\n');
            let (a, b) = trim_range(chars, at, eol);
            if a == b {
                assert(chars@.subrange(a as int, b as int).len() == 0);
                return fields;
            }
            assert(chars@.subrange(a as int, b as int).len() > 0);
            let colon = find_char(chars, a, b, ':');
            proof {
                let line = chars@.subrange(a as int, b as int);
                lemma_first_char_part(chars@, a as int, b as int, a as int, b as int, ':');
                assert(line.take(colon - a) == chars@.subrange(a as int, colon as int));
                if colon < b {
                    assert(line.skip(colon - a + 1) == chars@.subrange(colon + 1, b as int));
                }
            }
            if colon < b {
                let (na, nb) = trim_range(chars, a, colon);
                let (va, vb) = trim_range(chars, colon + 1, b);
                let raw_name = string_of(chars, na, nb);
                let name = to_lowercase(raw_name.as_str());
                let value = string_of(chars, va, vb);
                Self::add_field(&mut fields, name, value);
            }
            if eol == chars.len() {
                return fields;
            }
            at = eol + 1;
        }
        fields
    }

    /// Reads a request from the head of a message: the text before the
    /// empty line that ends the head.
    pub fn parse(head: &str) -> (request: Result<Request, AppError>)
        ensures
            match request {
                Ok(r) => parsed_request(head@) == Ok::<RequestView, AppError>(r@),
                Err(e) => parsed_request(head@) == Err::<RequestView, AppError>(e),
            },
    {
        let chars = chars_of(head);
        let eol = find_char(&chars, 0, chars.len(), '\n');
        let a1 = skip_spaces(&chars, 0, eol);
        let b1 = skip_word(&chars, a1, eol);
        let a2 = skip_spaces(&chars, b1, eol);
        let b2 = skip_word(&chars, a2, eol);
        let a3 = skip_spaces(&chars, b2, eol);
        let b3 = skip_word(&chars, a3, eol);
        let rest = skip_spaces(&chars, b3, eol);
        if !(a1 < b1 && a2 < b2 && a3 < b3 && rest == eol) {
            return Err(AppError::BadRequest);
        }
        let version = chars_of("HTTP/1.");
        if !(b3 - a3 >= version.len() && matches_at(&chars, a3, &version)) {
            proof {
                let v = chars@.subrange(a3 as int, b3 as int);
                if has_prefix(v, version@) {
                    assert(chars@.subrange(a3 as int, a3 + version@.len()) =~= v.subrange(
                        0,
                        version@.len() as int,
                    ));
                }
            }
            return Err(AppError::BadRequest);
        }
        proof {
            let v = chars@.subrange(a3 as int, b3 as int);
            assert(chars@.subrange(a3 as int, a3 + version@.len()) =~= v.subrange(
                0,
                version@.len() as int,
            ));
        }
        let method = string_of(&chars, a1, b1);
        let path = Self::decode_chars(&chars, a2, b2);
        let headers = if eol < chars.len() {
            Self::read_fields(&chars, eol + 1)
        } else {
            Vec::new()
        };
        assert(fields_view(headers@) =~= read_header_lines(chars@, eol + 1, Seq::empty()));
        Ok(Request { method, path, headers })
    }
}


/// The most bytes that the head of a request may take.
pub const MAX_HEADER_BYTES: usize = 8192;

/// The length of the empty line that ends a head, where one starts at `at`
/// and ends at or before `to`: 4 for CR LF CR LF, 2 for LF LF, and 0 where
/// neither stands there.
pub open spec fn terminator_at(bytes: Seq<u8>, at: int, to: int) -> int {
    if 0 <= at && at + 4 <= to && bytes[at] == 13 && bytes[at + 1] == 10 && bytes[at + 2] == 13
        && bytes[at + 3] == 10 {
        4
    } else if 0 <= at && at + 2 <= to && bytes[at] == 10 && bytes[at + 1] == 10 {
        2
    } else {
        0
    }
}

/// The first position at or after `from` where an empty line starts that
/// ends at or before `to`, or `to` where there is none.
pub open spec fn first_terminator(bytes: Seq<u8>, from: int, to: int) -> int
    decreases to - from,
{
    if from >= to {
        to
    } else if terminator_at(bytes, from, to) > 0 {
        from
    } else {
        first_terminator(bytes, from + 1, to)
    }
}

/// How many of the received bytes are looked at for the head: all of them,
/// and no more than `MAX_HEADER_BYTES`.
pub open spec fn head_limit(received: Seq<u8>) -> int {
    if received.len() < MAX_HEADER_BYTES {
        received.len() as int
    } else {
        MAX_HEADER_BYTES as int
    }
}

/// Where the head of a message ends: where the first empty line starts,
/// be it CR LF CR LF or LF LF. The empty line must lie within the first
/// `MAX_HEADER_BYTES` bytes; `None` where none does.
pub open spec fn head_end(received: Seq<u8>) -> Option<int> {
    let to = head_limit(received);
    let at = first_terminator(received, 0, to);
    if at < to {
        Some(at)
    } else {
        None
    }
}

/// The head of the message that `received` holds: the text that the bytes
/// before the empty line encode. `None` where there is no empty line, and
/// where the bytes before it are no valid UTF-8. What follows the empty
/// line is not looked at.
pub open spec fn head_of(received: Seq<u8>) -> Option<Seq<char>> {
    match head_end(received) {
        None => None,
        Some(end) => if valid_utf8(received.take(end)) {
            Some(decode_utf8(received.take(end)))
        } else {
            None
        },
    }
}

/// `first_terminator` is the least position in the range where an empty
/// line starts.
pub proof fn lemma_first_terminator(bytes: Seq<u8>, from: int, to: int)
    requires
        0 <= from <= to,
    ensures
        from <= first_terminator(bytes, from, to) <= to,
        forall|k: int|
            from <= k < first_terminator(bytes, from, to) ==> terminator_at(bytes, k, to) == 0,
        first_terminator(bytes, from, to) < to ==> terminator_at(
            bytes,
            first_terminator(bytes, from, to),
            to,
        ) > 0,
    decreases to - from,
{
    if from < to && terminator_at(bytes, from, to) == 0 {
        lemma_first_terminator(bytes, from + 1, to);
    }
}

/// Where an empty line starts at `at` and none starts before it,
/// `first_terminator` finds it there.
pub proof fn lemma_first_terminator_at(bytes: Seq<u8>, from: int, to: int, at: int)
    requires
        0 <= from <= at < to,
        terminator_at(bytes, at, to) > 0,
        forall|k: int| from <= k < at ==> terminator_at(bytes, k, to) == 0,
    ensures
        first_terminator(bytes, from, to) == at,
    decreases at - from,
{
    if from < at {
        lemma_first_terminator_at(bytes, from + 1, to, at);
    }
}

/// What the bytes received so far amount to.
#[derive(Debug, Clone, PartialEq, Eq)]
pub enum HeaderRead {
    /// The head is complete: here it is, without the empty line.
    Complete(String),
    /// There is no head and there will be none: a bad request.
    Malformed,
    /// There is no head yet: read on.
    Incomplete,
}

/// Decides, after each read from the connection, whether the head of the
/// request has arrived. `received` holds every byte read so far and `at_end`
/// says that the peer will send no more.
///
/// The empty line that ends the head is looked for in the bytes, within the
/// first `MAX_HEADER_BYTES`. Once it is there, the bytes before it are the
/// head, and a bad request where they are no text; what follows it plays no
/// part. Without it, reading goes on until the peer is done or
/// `MAX_HEADER_BYTES` bytes have arrived; either makes the request
/// malformed.
pub fn read_headers(received: &[u8], at_end: bool) -> (step: HeaderRead)
    ensures
        match step {
            HeaderRead::Complete(head) => head_of(received@) == Some(head@),
            HeaderRead::Malformed => head_of(received@) is None && (head_end(received@) is Some
                || at_end || received@.len() >= MAX_HEADER_BYTES),
            HeaderRead::Incomplete => head_end(received@) is None && !at_end && received@.len()
                < MAX_HEADER_BYTES,
        },
{
    let limit: usize = if received.len() < MAX_HEADER_BYTES {
        received.len()
    } else {
        MAX_HEADER_BYTES
    };
    let mut at: usize = 0;
    while at < limit
        invariant
            at <= limit <= received@.len(),
            limit == head_limit(received@),
            first_terminator(received@, 0, limit as int) == first_terminator(
                received@,
                at as int,
                limit as int,
            ),
        decreases limit - at,
    {
        let left = limit - at;
        let crlf = left >= 4 && received[at] == 13 && received[at + 1] == 10 && received[at + 2]
            == 13 && received[at + 3] == 10;
        let lf = left >= 2 && received[at] == 10 && received[at + 1] == 10;
        if crlf || lf {
            assert(terminator_at(received@, at as int, limit as int) > 0);
            let before = vstd::slice::slice_subrange(received, 0, at);
            assert(before@ == received@.take(at as int));
            return match utf8_text(before) {
                Some(text) => HeaderRead::Complete(String::from_str(text)),
                None => HeaderRead::Malformed,
            };
        }
        at += 1;
    }
    if at_end || received.len() >= MAX_HEADER_BYTES {
        HeaderRead::Malformed
    } else {
        HeaderRead::Incomplete
    }
}

/// The request that the bytes of a finished read hold.
pub open spec fn request_of(received: Seq<u8>) -> Result<RequestView, AppError> {
    match head_of(received) {
        Some(head) => parsed_request(head),
        None => Err(AppError::BadRequest),
    }
}

/// What follows the empty line never changes what is read. Once the
/// received bytes hold the empty line that ends the head, within the first
/// `MAX_HEADER_BYTES`, any bytes may come after them: the head ends where
/// it ended, it is the same head, and it holds the same request.
pub proof fn lemma_head_ignores_tail(received: Seq<u8>, tail: Seq<u8>)
    requires
        head_end(received) is Some,
    ensures
        head_end(received + tail) == head_end(received),
        head_of(received + tail) == head_of(received),
        request_of(received + tail) == request_of(received),
{
    let all = received + tail;
    let to = head_limit(received);
    let further = head_limit(all);
    let end = first_terminator(received, 0, to);
    lemma_first_terminator(received, 0, to);
    assert(forall|k: int| 0 <= k < received.len() ==> all[k] == received[k]);
    assert(terminator_at(all, end, further) > 0);
    assert forall|k: int| 0 <= k < end implies terminator_at(all, k, further) == 0 by {
        assert(terminator_at(received, k, to) == 0);
    }
    lemma_first_terminator_at(all, 0, further, end);
    assert(all.take(end) =~= received.take(end));
}

/// A head takes no more than `MAX_HEADER_BYTES` bytes, its empty line
/// included; bytes that hold no empty line within them are a bad request.
pub proof fn lemma_head_is_bounded(received: Seq<u8>)
    ensures
        head_end(received) matches Some(end) ==> 0 <= end && end + 2 <= MAX_HEADER_BYTES && end
            + 2 <= received.len(),
        head_end(received) is None ==> request_of(received) == Err::<RequestView, AppError>(
            AppError::BadRequest,
        ),
{
    lemma_first_terminator(received, 0, head_limit(received));
}

impl Request {
    /// Reads a request from the bytes that a connection delivered. Bytes
    /// that hold no complete head within the first `MAX_HEADER_BYTES`, or a
    /// head that is no request, are a bad request. Bytes that follow the
    /// head are not looked at.
    pub fn from_stream(received: &[u8]) -> (request: Result<Request, AppError>)
        ensures
            match request {
                Ok(r) => request_of(received@) == Ok::<RequestView, AppError>(r@),
                Err(e) => request_of(received@) == Err::<RequestView, AppError>(e),
            },
    {
        match read_headers(received, true) {
            HeaderRead::Complete(head) => Self::parse(head.as_str()),
            _ => Err(AppError::BadRequest),
        }
    }
}

} // verus!
