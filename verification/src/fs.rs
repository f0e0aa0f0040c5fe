//! Files and directories as the responders see them: what to stream for a
//! file, and what to list for a directory.

use crate::assets::DIRECTORY_INDEX;
use crate::error::AppError;
use crate::fields::{field_value, fields_view, position_of, value_of};
use crate::http::{append_bytes, body_length, BodyView, Response, ResponseBody, ResponseView};
use crate::range::{lemma_range_header_is_read, range_header, requested_range, ByteRange};
use crate::templates::{
    builtin_templates, entries_view, entry_view, listing_variables, substituted, TemplateEngine,
};
use crate::text::{
    append_chars, append_decimal, chars_of, decimal, lowercase_text, str_eq, string_of,
    to_lowercase,
};
use crate::utils::{encoded_path, percent_encode_path};
use vstd::prelude::*;
use vstd::string::*;

verus! {

/// What is needed to stream a file: where it is, how long it is, how much to
/// read at a time, and the part of it that was asked for.
#[derive(Debug, Clone, PartialEq, Eq)]
pub struct FileDetails {
    pub path: String,
    pub size: u64,
    pub chunk_size: usize,
    /// The range to send; `None` for the whole file.
    pub range: Option<ByteRange>,
}

/// What `FileDetails` holds, as text and numbers.
pub struct FileDetailsView {
    pub path: Seq<char>,
    pub size: u64,
    pub chunk_size: usize,
    pub range: Option<ByteRange>,
}

impl FileDetailsView {
    /// The offset of the first byte to send.
    pub open spec fn offset(self) -> nat {
        match self.range {
            Some(range) => range.start as nat,
            None => 0,
        }
    }

    /// The number of bytes to send.
    pub open spec fn content_length(self) -> nat {
        match self.range {
            Some(range) => (range.end - range.start + 1) as nat,
            None => self.size as nat,
        }
    }
}

impl View for FileDetails {
    type V = FileDetailsView;

    open spec fn view(&self) -> FileDetailsView {
        FileDetailsView {
            path: self.path@,
            size: self.size,
            chunk_size: self.chunk_size,
            range: self.range,
        }
    }
}

impl FileDetails {
    /// A range, where there is one, is a range of this file.
    pub open spec fn wf(&self) -> bool {
        self.range matches Some(range) ==> range.wf() && range.size == self.size
    }

    /// The details for sending the whole of a file of `size` bytes.
    pub fn new(path: String, size: u64, chunk_size: usize) -> (details: FileDetails)
        ensures
            details@ == (FileDetailsView { path: path@, size, chunk_size, range: None }),
            details.wf(),
    {
        FileDetails { path, size, chunk_size, range: None }
    }

    /// The offset of the first byte to send.
    pub fn offset(&self) -> (at: u64)
        ensures
            at == self@.offset(),
    {
        match self.range {
            Some(range) => range.start,
            None => 0,
        }
    }

    /// The number of bytes to send.
    pub fn content_length(&self) -> (n: u64)
        requires
            self.wf(),
        ensures
            n == self@.content_length(),
    {
        match self.range {
            Some(range) => range.length(),
            None => self.size,
        }
    }
}

/// The end of the last `c` in `text[..to]`: one past its position, or 0
/// where there is none.
pub open spec fn after_last(text: Seq<char>, to: int, c: char) -> int
    decreases to,
{
    if to <= 0 {
        0
    } else if text[to - 1] == c {
        to
    } else {
        after_last(text, to - 1, c)
    }
}

/// The last component of a path: what follows its last slash.
pub open spec fn file_name(path: Seq<char>) -> Seq<char> {
    path.skip(after_last(path, path.len() as int, '/'))
}

/// `after_last` is the end of the last occurrence of the character.
pub proof fn lemma_after_last(text: Seq<char>, to: int, c: char)
    requires
        0 <= to <= text.len(),
    ensures
        0 <= after_last(text, to, c) <= to,
        forall|k: int| after_last(text, to, c) <= k < to ==> text[k] != c,
        after_last(text, to, c) > 0 ==> text[after_last(text, to, c) - 1] == c,
    decreases to,
{
    if to > 0 && text[to - 1] != c {
        lemma_after_last(text, to - 1, c);
    }
}

/// Where the last component of the path starts.
pub fn file_name_start(chars: &Vec<char>) -> (at: usize)
    ensures
        at == after_last(chars@, chars@.len() as int, '/'),
        at <= chars@.len(),
        forall|k: int| at <= k < chars@.len() ==> chars@[k] != '/',
        at > 0 ==> chars@[at - 1] == '/',
{
    proof {
        lemma_after_last(chars@, chars@.len() as int, '/');
    }
    let mut end: usize = chars.len();
    while end > 0 && chars[end - 1] != '/'
        invariant
            end <= chars@.len(),
            after_last(chars@, chars@.len() as int, '/') == after_last(chars@, end as int, '/'),
        decreases end,
    {
        end -= 1;
    }
    end
}

/// The fields that describe a file response: the range where one is sent,
/// then the name to save the file under, its type, that ranges are
/// understood, and how long the answer may be kept.
pub open spec fn file_headers(name: Seq<char>, range: Option<ByteRange>) -> Seq<
    (Seq<char>, Seq<char>),
> {
    let common = seq![
        ("Content-Disposition"@, "attachment; filename=\""@ + name + "\""@),
        ("Content-Type"@, "application/octet-stream"@),
        ("Accept-Ranges"@, "bytes"@),
        ("Cache-Control"@, "public, max-age=3600"@),
    ];
    match range {
        Some(r) => seq![
            (
                "Content-Range"@,
                "bytes "@ + decimal(r.start as nat) + "-"@ + decimal(r.end as nat) + "/"@ + decimal(
                    r.size as nat,
                ),
            ),
        ] + common,
        None => common,
    }
}

/// The response to a request for the file at `path`, `size` bytes long.
///
/// Without a `Range` header the whole file is sent with status 200. With one,
/// the selected range is sent with status 206 and a `Content-Range`; a
/// header that cannot be read is a bad request, and a range that the file
/// does not hold cannot be satisfied.
pub open spec fn file_response(
    path: Seq<char>,
    size: u64,
    range_header: Option<Seq<char>>,
    chunk_size: usize,
) -> Result<ResponseView, AppError> {
    match range_header {
        None => Ok(
            ResponseView {
                status_code: 200,
                status_text: "OK"@,
                headers: file_headers(file_name(path), None),
                body: BodyView::Stream(FileDetailsView { path, size, chunk_size, range: None }),
            },
        ),
        Some(header) => match requested_range(header, size) {
            Err(e) => Err(e),
            Ok(range) => Ok(
                ResponseView {
                    status_code: 206,
                    status_text: "Partial Content"@,
                    headers: file_headers(file_name(path), Some(range)),
                    body: BodyView::Stream(
                        FileDetailsView { path, size, chunk_size, range: Some(range) },
                    ),
                },
            ),
        },
    }
}

/// Answers a request for a file: decides between the whole file and a range
/// of it, and describes the response. `size` is the length of the file and
/// `headers` are the fields of the request, their names in lower case.
pub fn serve_file(path: &str, size: u64, headers: &Vec<(String, String)>, chunk_size: usize) -> (response:
    Result<Response, AppError>)
    ensures
        match response {
            Ok(r) => file_response(
                path@,
                size,
                value_of(fields_view(headers@), "range"@),
                chunk_size,
            ) == Ok::<ResponseView, AppError>(r@) && (r.body matches ResponseBody::Stream(d)
                && d.wf()),
            Err(e) => file_response(
                path@,
                size,
                value_of(fields_view(headers@), "range"@),
                chunk_size,
            ) == Err::<ResponseView, AppError>(e),
        },
{
    let range = match field_value(headers, "range") {
        None => None,
        Some(header) => match ByteRange::from_header(header.as_str(), size) {
            Err(e) => {
                return Err(e);
            },
            Ok(range) => Some(range),
        },
    };
    let chars = chars_of(path);
    let start = file_name_start(&chars);
    let mut disposition = String::from_str("attachment; filename=\"");
    append_chars(&mut disposition, &chars, start, chars.len());
    disposition.append("\"");
    assert(chars@.subrange(start as int, chars@.len() as int) == file_name(path@));
    let mut fields: Vec<(String, String)> = Vec::new();
    let (status_code, status_text) = match range {
        Some(r) => {
            let mut content_range = String::from_str("bytes ");
            append_decimal(&mut content_range, r.start);
            content_range.append("-");
            append_decimal(&mut content_range, r.end);
            content_range.append("/");
            append_decimal(&mut content_range, r.size);
            fields.push((String::from_str("Content-Range"), content_range));
            (206u16, "Partial Content")
        },
        None => (200u16, "OK"),
    };
    fields.push((String::from_str("Content-Disposition"), disposition));
    fields.push((String::from_str("Content-Type"), String::from_str("application/octet-stream")));
    fields.push((String::from_str("Accept-Ranges"), String::from_str("bytes")));
    fields.push((String::from_str("Cache-Control"), String::from_str("public, max-age=3600")));
    assert(fields_view(fields@) =~= file_headers(file_name(path@), range));
    let details = FileDetails { path: String::from_str(path), size, chunk_size, range };
    Ok(
        Response {
            status_code,
            status_text: String::from_str(status_text),
            headers: fields,
            body: ResponseBody::Stream(details),
        },
    )
}


/// How far the body of a file response has been sent.
#[derive(Debug, Clone, Copy, PartialEq, Eq)]
pub struct StreamState {
    /// The offset in the file of the next byte to send.
    pub position: u64,
    /// The number of bytes still to send.
    pub remaining: u64,
}

/// Why a stream ended before its last byte was written.
#[derive(Debug, Clone, Copy, PartialEq, Eq)]
pub enum WriteFailure {
    BrokenPipe,
    ConnectionReset,
    WouldBlock,
    Other,
}

/// What to do about a failed write once the head has been sent.
#[derive(Debug, Clone, Copy, PartialEq, Eq)]
pub enum StreamEnd {
    /// The peer went away: stop without a word; the request counts as served.
    Quiet,
    /// Anything else: report it and tear the connection down.
    Teardown,
}

/// A failed write during streaming cannot change the status any more. It is
/// either the peer leaving, which is expected, or a fault.
pub fn on_write_failure(failure: WriteFailure) -> (end: StreamEnd)
    ensures
        end == (match failure {
            WriteFailure::Other => StreamEnd::Teardown,
            _ => StreamEnd::Quiet,
        }),
{
    match failure {
        WriteFailure::Other => StreamEnd::Teardown,
        _ => StreamEnd::Quiet,
    }
}

/// The smaller of two numbers.
pub open spec fn min(a: int, b: int) -> int {
    if a <= b {
        a
    } else {
        b
    }
}

impl FileDetails {
    /// The state of the stream before the first byte is sent.
    pub fn start(&self) -> (state: StreamState)
        requires
            self.wf(),
        ensures
            state.position == self@.offset(),
            state.remaining == self@.content_length(),
    {
        StreamState { position: self.offset(), remaining: self.content_length() }
    }
}

impl StreamState {
    /// The number of bytes to ask the file for next: never more than a chunk,
    /// never more than what is left to send, and 0 once all has been sent.
    pub fn next_read(&self, chunk_size: usize) -> (n: usize)
        ensures
            n == min(self.remaining as int, chunk_size as int),
    {
        if self.remaining < chunk_size as u64 {
            self.remaining as usize
        } else {
            chunk_size
        }
    }

    /// The state after `bytes_read` more bytes were sent.
    pub fn advance(&self, bytes_read: usize) -> (next: StreamState)
        requires
            bytes_read <= self.remaining,
            self.position + bytes_read <= u64::MAX,
        ensures
            next.position == self.position + bytes_read,
            next.remaining == self.remaining - bytes_read,
    {
        StreamState {
            position: self.position + bytes_read as u64,
            remaining: self.remaining - bytes_read as u64,
        }
    }
}

/// The body that streaming sends for `details` from a file that holds
/// `source`: the bytes from the offset on, as many as were asked for or as
/// the file has. With a chunk size of 0 nothing can be read and nothing is
/// sent.
pub open spec fn streamed(source: Seq<u8>, details: FileDetailsView) -> Seq<u8> {
    if details.chunk_size == 0 {
        Seq::empty()
    } else {
        source.subrange(
            min(details.offset() as int, source.len() as int),
            min((details.offset() + details.content_length()) as int, source.len() as int),
        )
    }
}

/// Streams the body for `details` from `source`, the content of the file,
/// to `stream`: seeks to the offset, then reads and writes chunk after chunk
/// until the length is reached or the file ends.
pub fn stream_file(stream: &mut Vec<u8>, source: &[u8], details: &FileDetails)
    requires
        details.wf(),
    ensures
        final(stream)@ == old(stream)@ + streamed(source@, details@),
{
    let mut state = details.start();
    let length: u64 = source.len() as u64;
    let ghost first = min(details@.offset() as int, source@.len() as int);
    let ghost end = details@.offset() + details@.content_length();
    assert(source@.subrange(first, first) == Seq::<u8>::empty());
    loop
        invariant
            details.wf(),
            length == source@.len(),
            source@.len() <= usize::MAX,
            first == min(details@.offset() as int, source@.len() as int),
            end == details@.offset() + details@.content_length(),
            end <= u64::MAX,
            state.position + state.remaining == end,
            state.position >= details@.offset(),
            state.position > details@.offset() ==> state.position <= length,
            stream@ == old(stream)@ + source@.subrange(
                first,
                min(state.position as int, source@.len() as int),
            ),
            details.chunk_size == 0 ==> state.position == details@.offset(),
        ensures
            stream@ == old(stream)@ + streamed(source@, details@),
        decreases state.remaining,
    {
        let wanted = state.next_read(details.chunk_size);
        if wanted == 0 || state.position >= length {
            break;
        }
        let available: u64 = length - state.position;
        let got: usize = if (wanted as u64) < available {
            wanted
        } else {
            available as usize
        };
        let from: usize = state.position as usize;
        let piece = vstd::slice::slice_subrange(source, from, from + got);
        append_bytes(stream, piece);
        proof {
            assert(source@.subrange(first, from as int) + source@.subrange(
                from as int,
                from + got,
            ) =~= source@.subrange(first, from + got));
        }
        state = state.advance(got);
    }
}

/// Range correctness. A request for the bytes from `start` to `end` of a
/// file that holds them is answered with status 206, says which bytes it
/// sends and of how many, and sends exactly those.
pub proof fn lemma_range_response(
    path: Seq<char>,
    size: u64,
    start: u64,
    end: u64,
    chunk_size: usize,
    source: Seq<u8>,
)
    requires
        start <= end < size,
        source.len() == size,
        chunk_size > 0,
    ensures
        file_response(path, size, Some(range_header(start, Some(end))), chunk_size) matches Ok(r)
            && {
            &&& r.status_code == 206
            &&& r.headers[0] == ("Content-Range"@, "bytes "@ + decimal(start as nat) + "-"@
                + decimal(end as nat) + "/"@ + decimal(size as nat))
            &&& body_length(r.body) == end - start + 1
            &&& r.body matches BodyView::Stream(d) && streamed(source, d) == source.subrange(
                start as int,
                end + 1,
            )
        },
{
    lemma_range_header_is_read(start, Some(end));
}

/// Range boundary. A range that starts at or after the end of the file is
/// not satisfiable, whatever its end.
pub proof fn lemma_range_boundary(
    path: Seq<char>,
    size: u64,
    start: u64,
    end: Option<u64>,
    chunk_size: usize,
)
    requires
        start >= size,
    ensures
        file_response(path, size, Some(range_header(start, end)), chunk_size) == Err::<
            ResponseView,
            AppError,
        >(AppError::RangeNotSatisfiable),
{
    lemma_range_header_is_read(start, end);
}

/// The round trip without a range. A request without a `Range` header is
/// answered with status 200 and the length of the file, and the body is the
/// file.
pub proof fn lemma_whole_file_response(
    path: Seq<char>,
    size: u64,
    chunk_size: usize,
    source: Seq<u8>,
)
    requires
        source.len() == size,
        chunk_size > 0,
    ensures
        file_response(path, size, None, chunk_size) matches Ok(r) && {
            &&& r.status_code == 200
            &&& body_length(r.body) == size
            &&& r.body matches BodyView::Stream(d) && streamed(source, d) == source
        },
{
    assert(source.subrange(0, source.len() as int) == source);
}


/// The five units of a file size, from bytes to terabytes.
pub open spec fn unit_name(unit: int) -> Seq<char> {
    if unit == 0 {
        "B"@
    } else if unit == 1 {
        "KB"@
    } else if unit == 2 {
        "MB"@
    } else if unit == 3 {
        "GB"@
    } else {
        "TB"@
    }
}

/// The number of bytes in one of a unit: a power of 1024.
pub open spec fn unit_bytes(unit: int) -> int {
    if unit == 0 {
        1
    } else if unit == 1 {
        1024
    } else if unit == 2 {
        1048576
    } else if unit == 3 {
        1073741824
    } else {
        1099511627776
    }
}

/// The unit in which a size is shown: the largest of which it holds at
/// least one, and bytes for a size below 1024.
pub open spec fn size_unit(size: u64) -> int {
    if size < unit_bytes(1) {
        0
    } else if size < unit_bytes(2) {
        1
    } else if size < unit_bytes(3) {
        2
    } else if size < unit_bytes(4) {
        3
    } else {
        4
    }
}

/// `n / d` rounded to the nearest whole number, and to the even one where
/// two are equally near.
pub open spec fn rounded(n: int, d: int) -> int {
    let q = n / d;
    let r = n % d;
    if 2 * r < d {
        q
    } else if 2 * r > d {
        q + 1
    } else if q % 2 == 0 {
        q
    } else {
        q + 1
    }
}

/// The distance between the numbers that 53 binary digits can hold, near
/// `size`: 1 below two to the power of 53, and twice as much each time the
/// size doubles.
pub open spec fn precision_step(size: int) -> int
    decreases size,
{
    if size < 9007199254740992 {
        1
    } else {
        2 * precision_step(size / 2)
    }
}

/// A size as it is held with 53 binary digits: the nearest number that they
/// can hold.
pub open spec fn held_size(size: u64) -> int {
    rounded(size as int, precision_step(size as int)) * precision_step(size as int)
}

/// A size for people: whole bytes below 1024, and from there on the number
/// of units with one decimal place, rounded. A size is held with 53 binary
/// digits before it is divided.
pub open spec fn file_size_text(size: u64) -> Seq<char> {
    let unit = size_unit(size);
    if unit == 0 {
        decimal(size as nat) + " B"@
    } else {
        let tenths = rounded(held_size(size) * 10, unit_bytes(unit));
        decimal((tenths / 10) as nat) + "."@ + decimal((tenths % 10) as nat) + " "@ + unit_name(
            unit,
        )
    }
}

/// The distance between the numbers that 53 binary digits can hold, near
/// `size`.
pub fn precision_step_of(size: u64) -> (step: u64)
    ensures
        step == precision_step(size as int),
        step == 1 || step * 4503599627370496 <= size,
        step >= 1,
    decreases size,
{
    if size < 9007199254740992 {
        1
    } else {
        2 * precision_step_of(size / 2)
    }
}

/// `n / d` rounded to the nearest whole number, and to the even one where
/// two are equally near.
pub fn round_half_even(n: u128, d: u128) -> (q: u128)
    requires
        0 < d <= u64::MAX,
        n <= 0xFFFF_FFFF_FFFF_FFFF_FFFF,
    ensures
        q == rounded(n as int, d as int),
        q * d <= n + d,
{
    let q: u128 = n / d;
    let r: u128 = n % d;
    proof {
        vstd::arithmetic::div_mod::lemma_fundamental_div_mod(n as int, d as int);
        vstd::arithmetic::div_mod::lemma_mod_bound(n as int, d as int);
        assert(q <= n) by (nonlinear_arith)
            requires
                n == d * q + r,
                d > 0,
                r >= 0,
                q >= 0,
        ;
        assert((q + 1) * d == d * q + d) by (nonlinear_arith);
        assert(q * d == d * q) by (nonlinear_arith);
    }
    if 2 * r < d {
        q
    } else if 2 * r > d {
        q + 1
    } else if q % 2 == 0 {
        q
    } else {
        q + 1
    }
}

/// Writes a file size for people.
pub fn format_file_size(size: u64) -> (text: String)
    ensures
        text@ == file_size_text(size),
{
    let mut out = String::new();
    if size < 1024 {
        append_decimal(&mut out, size);
        out.append(" B");
        assert(out@ =~= file_size_text(size));
        return out;
    }
    let (bytes, name): (u128, &'static str) = if size < 1024 * 1024 {
        (1024, "KB")
    } else if size < 1024 * 1024 * 1024 {
        (1024 * 1024, "MB")
    } else if size < 1024 * 1024 * 1024 * 1024 {
        (1024 * 1024 * 1024, "GB")
    } else {
        (1024 * 1024 * 1024 * 1024, "TB")
    };
    let step = precision_step_of(size) as u128;
    let held: u128 = round_half_even(size as u128, step) * step;
    let tenths: u128 = round_half_even(held * 10, bytes);
    assert(tenths * 1024 <= tenths * bytes) by (nonlinear_arith)
        requires
            bytes >= 1024,
            tenths >= 0,
    ;
    append_decimal(&mut out, (tenths / 10) as u64);
    out.append(".");
    append_decimal(&mut out, (tenths % 10) as u64);
    out.append(" ");
    out.append(name);
    assert(out@ =~= file_size_text(size));
    out
}

/// A number in decimal with at least two digits.
pub open spec fn two_digits(n: nat) -> Seq<char> {
    if n < 10 {
        "0"@ + decimal(n)
    } else {
        decimal(n)
    }
}

/// A rough date for a time in seconds since 1970: years of 365 days and
/// months of 30, as `year-month-day`.
pub open spec fn rough_date(timestamp: u64) -> Seq<char> {
    let days = timestamp / 86400;
    let day_of_year = days % 365;
    let month = day_of_year / 30 + 1;
    decimal((1970 + days / 365) as nat) + "-"@ + two_digits(
        if month > 12 {
            12
        } else {
            month as nat
        },
    ) + "-"@ + two_digits((day_of_year % 30 + 1) as nat)
}

/// When something was changed, for people: how long before `now` it was, or
/// a rough date where that is 30 days or more. Both times are in seconds
/// since 1970.
pub open spec fn timestamp_text(timestamp: u64, now: u64) -> Seq<char> {
    let age: int = if now >= timestamp {
        now - timestamp
    } else {
        0
    };
    if age < 60 {
        "Just now"@
    } else if age < 3600 {
        decimal((age / 60) as nat) + " min ago"@
    } else if age < 86400 {
        decimal((age / 3600) as nat) + " hr ago"@
    } else if age < 86400 * 30 {
        decimal((age / 86400) as nat) + " days ago"@
    } else {
        rough_date(timestamp)
    }
}

/// Appends a number with at least two digits.
fn append_two_digits(out: &mut String, n: u64)
    ensures
        final(out)@ == old(out)@ + two_digits(n as nat),
{
    if n < 10 {
        out.append("0");
    }
    append_decimal(out, n);
    assert(out@ =~= old(out)@ + two_digits(n as nat));
}

/// Writes for people when something was changed.
pub fn format_timestamp(timestamp: u64, now: u64) -> (text: String)
    ensures
        text@ == timestamp_text(timestamp, now),
{
    let age = now.saturating_sub(timestamp);
    let mut out = String::new();
    if age < 60 {
        return String::from_str("Just now");
    } else if age < 3600 {
        append_decimal(&mut out, age / 60);
        out.append(" min ago");
    } else if age < 86400 {
        append_decimal(&mut out, age / 3600);
        out.append(" hr ago");
    } else if age < 86400 * 30 {
        append_decimal(&mut out, age / 86400);
        out.append(" days ago");
    } else {
        let days = timestamp / 86400;
        let day_of_year = days % 365;
        let month = day_of_year / 30 + 1;
        append_decimal(&mut out, 1970 + days / 365);
        out.append("-");
        append_two_digits(&mut out, if month > 12 {
            12
        } else {
            month
        });
        out.append("-");
        append_two_digits(&mut out, day_of_year % 30 + 1);
    }
    assert(out@ =~= timestamp_text(timestamp, now));
    out
}

/// A size in the binary units of the `humansize` crate, as its `file_size`
/// writes it with the options `BINARY`.
pub uninterp spec fn binary_size_text(size: u64) -> Seq<char>;

/// `FileSize::file_size` of the `humansize` crate with its options
/// `BINARY`, on an unsigned number: the crate always answers such a number
/// with a text, and the text is a function of the number alone.
#[verifier::external_body]
pub(crate) fn human_size(size: u64) -> (text: Result<String, String>)
    ensures
        text is Ok,
        text matches Ok(t) ==> t@ == binary_size_text(size),
{
    humansize::FileSize::file_size(&size, humansize::file_size_opts::BINARY)
}

/// The row of a plain listing for an entry: a link to it under its name,
/// its size, and when it was changed.
pub open spec fn directory_row(name: Seq<char>, size: Seq<char>, last_modified: Seq<char>) -> Seq<
    char,
> {
    "<tr><td><a href=\""@ + encoded_path(name) + "\">"@ + name + "</a></td><td>"@ + size
        + "</td><td>"@ + last_modified + "</td></tr>"@
}

/// Makes the row of a plain listing for the entry at `path`, which is
/// `size` bytes long and was last changed at the time that `last_modified`
/// words. A path without a last component is no entry.
pub fn generate_directory_row_html(path: &str, size: u64, last_modified: &str) -> (row: Result<
    String,
    AppError,
>)
    ensures
        match row {
            Ok(r) => file_name(path@).len() > 0 && r@ == directory_row(
                file_name(path@),
                binary_size_text(size),
                last_modified@,
            ),
            Err(e) => file_name(path@).len() == 0 && e == AppError::InvalidPath,
        },
{
    let chars = chars_of(path);
    let start = file_name_start(&chars);
    if start == chars.len() {
        return Err(AppError::InvalidPath);
    }
    let name = string_of(&chars, start, chars.len());
    assert(name@ == file_name(path@));
    let size_text = match human_size(size) {
        Ok(text) => text,
        Err(_) => {
            return Err(AppError::InvalidPath);
        },
    };
    let mut row = String::from_str("<tr><td><a href=\"");
    row.append(percent_encode_path(name.as_str()).as_str());
    row.append("\">");
    row.append(name.as_str());
    row.append("</a></td><td>");
    row.append(size_text.as_str());
    row.append("</td><td>");
    row.append(last_modified);
    row.append("</td></tr>");
    Ok(row)
}

/// An entry of a directory, as the file system describes it.
#[derive(Debug, Clone, PartialEq, Eq)]
pub struct DirectoryEntry {
    pub name: String,
    pub is_dir: bool,
    /// The length in bytes.
    pub size: u64,
    /// When it was last changed, in seconds since 1970, where that is known.
    pub modified: Option<u64>,
}

/// What `DirectoryEntry` holds, as text and numbers.
pub struct DirectoryEntryView {
    pub name: Seq<char>,
    pub is_dir: bool,
    pub size: u64,
    pub modified: Option<u64>,
}

impl View for DirectoryEntry {
    type V = DirectoryEntryView;

    open spec fn view(&self) -> DirectoryEntryView {
        DirectoryEntryView {
            name: self.name@,
            is_dir: self.is_dir,
            size: self.size,
            modified: self.modified,
        }
    }
}

/// The views of `entries`.
pub open spec fn directory_view(entries: Seq<DirectoryEntry>) -> Seq<DirectoryEntryView> {
    Seq::new(entries.len(), |i: int| entries[i]@)
}

/// Whether `a` comes before `b` in the order of the dictionary: at the
/// first place where they differ `a` has the smaller character, or `a` ends
/// there and `b` goes on.
pub open spec fn text_before(a: Seq<char>, b: Seq<char>) -> bool
    decreases a.len(),
{
    if b.len() == 0 {
        false
    } else if a.len() == 0 {
        true
    } else if a[0] != b[0] {
        (a[0] as u32) < (b[0] as u32)
    } else {
        text_before(a.skip(1), b.skip(1))
    }
}

/// Whether `a` has its place before `b` in a listing: directories stand
/// before files, and within each kind the names are in the order of the
/// dictionary, without regard to case.
pub open spec fn listed_before(a: DirectoryEntryView, b: DirectoryEntryView) -> bool {
    if a.is_dir != b.is_dir {
        a.is_dir
    } else {
        text_before(lowercase_text(a.name), lowercase_text(b.name))
    }
}

/// Where `entry` goes into a listing that is in order: behind every entry
/// that it does not have its place before.
pub open spec fn place_of(listing: Seq<DirectoryEntryView>, entry: DirectoryEntryView) -> int
    decreases listing.len(),
{
    if listing.len() == 0 {
        0
    } else if listed_before(entry, listing.last()) {
        place_of(listing.drop_last(), entry)
    } else {
        listing.len() as int
    }
}

/// The entries in the order of a listing. Entries that have no place before
/// one another stay in the order in which they were given.
pub open spec fn in_listing_order(entries: Seq<DirectoryEntryView>) -> Seq<DirectoryEntryView>
    decreases entries.len(),
{
    if entries.len() == 0 {
        Seq::empty()
    } else {
        let listing = in_listing_order(entries.drop_last());
        listing.insert(place_of(listing, entries.last()), entries.last())
    }
}

/// No two texts come before one another.
pub proof fn lemma_text_before_one_way(a: Seq<char>, b: Seq<char>)
    ensures
        text_before(a, b) ==> !text_before(b, a),
    decreases a.len(),
{
    if a.len() > 0 && b.len() > 0 && a[0] == b[0] {
        lemma_text_before_one_way(a.skip(1), b.skip(1));
    }
}

/// Where `a` does not come before `b`, nor `b` before `c`, `a` does not
/// come before `c`.
pub proof fn lemma_text_not_before_chain(a: Seq<char>, b: Seq<char>, c: Seq<char>)
    requires
        !text_before(a, b),
        !text_before(b, c),
    ensures
        !text_before(a, c),
    decreases a.len(),
{
    if c.len() > 0 {
        assert(b.len() > 0);
        assert(a.len() > 0);
        vstd::utf8::char_u32_cast(a[0], a[0] as u32);
        vstd::utf8::char_u32_cast(b[0], b[0] as u32);
        vstd::utf8::char_u32_cast(c[0], c[0] as u32);
        assert(a[0] as u32 >= b[0] as u32);
        assert(b[0] as u32 >= c[0] as u32);
        if a[0] == c[0] {
            assert(a[0] == b[0]);
            lemma_text_not_before_chain(a.skip(1), b.skip(1), c.skip(1));
        }
    }
}

/// Whether a listing is in order: no entry has its place before an entry
/// that stands before it.
pub open spec fn in_order(listing: Seq<DirectoryEntryView>) -> bool {
    forall|i: int, j: int|
        0 <= i < j < listing.len() ==> !listed_before(#[trigger] listing[j], #[trigger] listing[i])
}

/// The place of an entry in a listing lies behind every entry that the new
/// one does not come before, and before all the others.
pub proof fn lemma_place_of(listing: Seq<DirectoryEntryView>, entry: DirectoryEntryView)
    ensures
        0 <= place_of(listing, entry) <= listing.len(),
        forall|k: int|
            place_of(listing, entry) <= k < listing.len() ==> listed_before(
                entry,
                #[trigger] listing[k],
            ),
        place_of(listing, entry) > 0 ==> !listed_before(
            entry,
            listing[place_of(listing, entry) - 1],
        ),
    decreases listing.len(),
{
    if listing.len() > 0 && listed_before(entry, listing.last()) {
        lemma_place_of(listing.drop_last(), entry);
        let at = place_of(listing.drop_last(), entry);
        assert forall|k: int| at <= k < listing.len() implies listed_before(
            entry,
            #[trigger] listing[k],
        ) by {
            if k < listing.len() - 1 {
                assert(listing[k] == listing.drop_last()[k]);
            }
        }
        if at > 0 {
            assert(listing[at - 1] == listing.drop_last()[at - 1]);
        }
    }
}

/// A listing is in order: directories stand before files, and within each
/// kind the names are in the order of the dictionary, without regard to
/// case.
pub proof fn lemma_listing_in_order(entries: Seq<DirectoryEntryView>)
    ensures
        in_order(in_listing_order(entries)),
    decreases entries.len(),
{
    if entries.len() > 0 {
        let listing = in_listing_order(entries.drop_last());
        let entry = entries.last();
        let at = place_of(listing, entry);
        let next = listing.insert(at, entry);
        lemma_listing_in_order(entries.drop_last());
        lemma_place_of(listing, entry);
        assert forall|i: int, j: int| 0 <= i < j < next.len() implies !listed_before(
            #[trigger] next[j],
            #[trigger] next[i],
        ) by {
            let lower = lowercase_text(entry.name);
            if i == at {
                let other = listing[j - 1];
                assert(next[j] == other);
                assert(listed_before(entry, other));
                lemma_text_before_one_way(lower, lowercase_text(other.name));
            } else if j == at {
                let other = listing[i];
                let near = listing[at - 1];
                assert(next[i] == other);
                assert(!listed_before(entry, near));
                if i < at - 1 {
                    assert(!listed_before(near, other));
                    if entry.is_dir == near.is_dir && near.is_dir == other.is_dir {
                        lemma_text_not_before_chain(
                            lower,
                            lowercase_text(near.name),
                            lowercase_text(other.name),
                        );
                    }
                }
            } else {
                let a = if i < at {
                    i
                } else {
                    i - 1
                };
                let b = if j < at {
                    j
                } else {
                    j - 1
                };
                assert(next[i] == listing[a]);
                assert(next[j] == listing[b]);
            }
        }
    }
}

/// A listing holds the entries that were given: each as often as it was
/// given, and nothing else.
pub proof fn lemma_listing_same_entries(entries: Seq<DirectoryEntryView>)
    ensures
        in_listing_order(entries).to_multiset() == entries.to_multiset(),
    decreases entries.len(),
{
    broadcast use vstd::seq_lib::group_to_multiset_ensures;

    if entries.len() > 0 {
        let listing = in_listing_order(entries.drop_last());
        let entry = entries.last();
        let at = place_of(listing, entry);
        let next = listing.insert(at, entry);
        lemma_listing_same_entries(entries.drop_last());
        lemma_place_of(listing, entry);
        assert(next.remove(at) =~= listing);
        assert(next[at] == entry);
        assert(next.remove(at).to_multiset() =~= next.to_multiset().remove(entry));
        assert(next.to_multiset().count(entry) > 0) by {
            assert(next.contains(entry));
        }
        assert(entries =~= entries.drop_last().push(entry));
        assert(entries.to_multiset() =~= entries.drop_last().to_multiset().insert(entry));
        assert(next.to_multiset() =~= listing.to_multiset().insert(entry));
    } else {
        assert(in_listing_order(entries) =~= entries);
    }
}

/// Whether `a` comes before `b` in the order of the dictionary.
pub fn chars_before(a: &Vec<char>, b: &Vec<char>) -> (before: bool)
    ensures
        before == text_before(a@, b@),
{
    let mut i: usize = 0;
    assert(a@.skip(0) == a@ && b@.skip(0) == b@);
    loop
        invariant
            i <= a@.len(),
            i <= b@.len(),
            text_before(a@, b@) == text_before(a@.skip(i as int), b@.skip(i as int)),
        decreases a@.len() - i,
    {
        if i >= b.len() {
            return false;
        }
        if i >= a.len() {
            return true;
        }
        if a[i] != b[i] {
            return (a[i] as u32) < (b[i] as u32);
        }
        assert(a@.skip(i as int).skip(1) == a@.skip(i + 1));
        assert(b@.skip(i as int).skip(1) == b@.skip(i + 1));
        i += 1;
    }
}

/// The entries that `order` picks from `entries`, one for each position.
pub open spec fn picked(entries: Seq<DirectoryEntry>, order: Seq<usize>) -> Seq<
    DirectoryEntryView,
> {
    Seq::new(order.len(), |i: int| entries[order[i] as int]@)
}

/// Puts the entries in the order of a listing: the result holds, for each
/// place of the listing, the position of its entry in `entries`.
pub fn listing_order(entries: &Vec<DirectoryEntry>) -> (order: Vec<usize>)
    ensures
        order@.len() == entries@.len(),
        forall|i: int| 0 <= i < order@.len() ==> (#[trigger] order@[i]) < entries@.len(),
        picked(entries@, order@) == in_listing_order(directory_view(entries@)),
{
    let mut keys: Vec<Vec<char>> = Vec::new();
    let mut k: usize = 0;
    while k < entries.len()
        invariant
            k <= entries@.len(),
            keys@.len() == k,
            forall|j: int| 0 <= j < k ==> (#[trigger] keys@[j])@ == lowercase_text(entries@[j].name@),
        decreases entries@.len() - k,
    {
        let lower = to_lowercase(entries[k].name.as_str());
        keys.push(chars_of(lower.as_str()));
        k += 1;
    }
    let ghost all = directory_view(entries@);
    let mut order: Vec<usize> = Vec::new();
    let mut i: usize = 0;
    assert(all.take(0) =~= Seq::empty());
    assert(picked(entries@, order@) =~= in_listing_order(all.take(0)));
    while i < entries.len()
        invariant
            i <= entries@.len(),
            keys@.len() == entries@.len(),
            forall|j: int|
                0 <= j < entries@.len() ==> (#[trigger] keys@[j])@ == lowercase_text(
                    entries@[j].name@,
                ),
            all == directory_view(entries@),
            order@.len() == i,
            forall|j: int| 0 <= j < order@.len() ==> (#[trigger] order@[j]) < entries@.len(),
            picked(entries@, order@) == in_listing_order(all.take(i as int)),
        decreases entries@.len() - i,
    {
        let ghost listing = picked(entries@, order@);
        let ghost entry = entries@[i as int]@;
        let mut at: usize = order.len();
        assert(listing.take(at as int) == listing);
        while at > 0 && entry_before(entries, &keys, i, order[at - 1])
            invariant
                at <= order@.len(),
                i < entries@.len(),
                keys@.len() == entries@.len(),
                forall|j: int|
                    0 <= j < entries@.len() ==> (#[trigger] keys@[j])@ == lowercase_text(
                        entries@[j].name@,
                    ),
                forall|j: int| 0 <= j < order@.len() ==> (#[trigger] order@[j]) < entries@.len(),
                listing == picked(entries@, order@),
                entry == entries@[i as int]@,
                place_of(listing, entry) == place_of(listing.take(at as int), entry),
            decreases at,
        {
            assert(listing.take(at as int).drop_last() == listing.take(at - 1));
            at -= 1;
        }
        proof {
            assert(listing.take(listing.len() as int) == listing);
            if at > 0 {
                assert(listing.take(at as int).last() == listing[at - 1]);
            }
            assert(place_of(listing, entry) == at);
            let next = all.take(i + 1);
            assert(next.drop_last() =~= all.take(i as int));
            assert(next.last() == entry);
        }
        order.insert(at, i);
        assert(picked(entries@, order@) =~= listing.insert(at as int, entry));
        i += 1;
    }
    assert(all.take(entries@.len() as int) =~= all);
    order
}

/// Whether the entry at `a` has its place before the entry at `b`.
fn entry_before(entries: &Vec<DirectoryEntry>, keys: &Vec<Vec<char>>, a: usize, b: usize) -> (before:
    bool)
    requires
        a < entries@.len(),
        b < entries@.len(),
        keys@.len() == entries@.len(),
        keys@[a as int]@ == lowercase_text(entries@[a as int].name@),
        keys@[b as int]@ == lowercase_text(entries@[b as int].name@),
    ensures
        before == listed_before(entries@[a as int]@, entries@[b as int]@),
{
    if entries[a].is_dir != entries[b].is_dir {
        entries[a].is_dir
    } else {
        chars_before(&keys[a], &keys[b])
    }
}

/// What a listing shows of an entry: its name, with a slash behind that of
/// a directory; its size, or a dash for a directory; and when it was
/// changed, or a dash where that is not known.
pub open spec fn listing_line(entry: DirectoryEntryView, now: u64) -> (
    Seq<char>,
    Seq<char>,
    Seq<char>,
) {
    (
        if entry.is_dir {
            entry.name.push('/')
        } else {
            entry.name
        },
        if entry.is_dir {
            "-"@
        } else {
            file_size_text(entry.size)
        },
        match entry.modified {
            Some(timestamp) => timestamp_text(timestamp, now),
            None => "-"@,
        },
    )
}

/// The lines of a listing for entries that are in order already.
pub open spec fn listing_lines(entries: Seq<DirectoryEntryView>, now: u64) -> Seq<
    (Seq<char>, Seq<char>, Seq<char>),
> {
    Seq::new(entries.len(), |i: int| listing_line(entries[i], now))
}

/// The path that a listing shows: the requested one, and `/` for none.
pub open spec fn display_path(request_path: Seq<char>) -> Seq<char> {
    if request_path.len() == 0 {
        "/"@
    } else {
        request_path
    }
}

/// The page that lists a directory: the built-in template, filled in with
/// the path, the number of entries, and a row for each entry, in the order
/// of a listing.
pub open spec fn directory_listing(
    entries: Seq<DirectoryEntryView>,
    request_path: Seq<char>,
    now: u64,
) -> Seq<char> {
    substituted(
        DIRECTORY_INDEX@,
        listing_variables(
            display_path(request_path),
            listing_lines(in_listing_order(entries), now),
            entries.len() as usize,
        ),
    )
}

/// Makes the page that lists a directory with the entries `entries`, asked
/// for as `request_path`, at the time `now` in seconds since 1970.
pub fn generate_directory_listing(entries: &Vec<DirectoryEntry>, request_path: &str, now: u64) -> (page:
    Result<String, AppError>)
    ensures
        page matches Ok(text) && text@ == directory_listing(
            directory_view(entries@),
            request_path@,
            now,
        ),
{
    let order = listing_order(entries);
    let ghost sorted = in_listing_order(directory_view(entries@));
    let mut lines: Vec<(String, String, String)> = Vec::new();
    let mut i: usize = 0;
    while i < order.len()
        invariant
            i <= order@.len(),
            order@.len() == entries@.len(),
            forall|j: int| 0 <= j < order@.len() ==> (#[trigger] order@[j]) < entries@.len(),
            sorted == picked(entries@, order@),
            lines@.len() == i,
            forall|j: int|
                0 <= j < i ==> entry_view(#[trigger] lines@[j]) == listing_line(
                    sorted[j],
                    now,
                ),
        decreases order@.len() - i,
    {
        let entry = &entries[order[i]];
        let mut name = String::from_str(entry.name.as_str());
        if entry.is_dir {
            name.push('/');
        }
        let size = if entry.is_dir {
            String::from_str("-")
        } else {
            format_file_size(entry.size)
        };
        let modified = match entry.modified {
            Some(timestamp) => format_timestamp(timestamp, now),
            None => String::from_str("-"),
        };
        lines.push((name, size, modified));
        i += 1;
    }
    assert(entries_view(lines@) =~= listing_lines(sorted, now));
    let path = if str_eq(request_path, "") {
        "/"
    } else {
        request_path
    };
    proof {
        reveal_strlit("");
        assert(request_path@ == ""@ <==> request_path@.len() == 0) by {
            if request_path@.len() == 0 {
                assert(request_path@ =~= ""@);
            }
        }
    }
    let engine = TemplateEngine::new();
    proof {
        let t = builtin_templates();
        assert(t[0].0 == "directory_index"@);
        assert(position_of(t, "directory_index"@, 0) == 0);
    }
    engine.render_directory_listing(path, &lines, lines.len())
}

} // verus!
