//! Responses that are held in memory: error pages and the like, and the
//! table of content types.

use crate::assets::ERROR_PAGE;
use crate::error::{status_code_of, status_text_of, AppError};
use crate::fields::{fields_view, has_name, lemma_fields_view_push, position_of, value_of};
use crate::fs::{after_last, file_name_start};
use crate::http::{append_bytes, append_header_lines, header_lines};
use crate::templates::{
    builtin_templates, error_description, error_variables, get_error_description, substituted,
    TemplateEngine,
};
use crate::text::{append_decimal, chars_eq, chars_of, decimal};
use vstd::prelude::*;
use vstd::string::*;
use vstd::utf8::encode_utf8;

verus! {

/// The end of the last `c` in `text[from..to]`: one past its position, or
/// `from` where there is none.
pub open spec fn after_last_from(text: Seq<char>, from: int, to: int, c: char) -> int
    decreases to - from,
{
    if to <= from {
        from
    } else if text[to - 1] == c {
        to
    } else {
        after_last_from(text, from, to - 1, c)
    }
}

/// The extension of a path: what follows the last dot of its file name.
/// A name without a dot has none, and neither has one whose only dot is its
/// first character.
pub open spec fn extension(path: Seq<char>) -> Option<Seq<char>> {
    let start = after_last(path, path.len() as int, '/');
    let dot = after_last_from(path, start, path.len() as int, '.');
    if dot - start <= 1 {
        None
    } else {
        Some(path.skip(dot))
    }
}

/// The content type that goes with an extension.
pub open spec fn mime_type_of(ext: Option<Seq<char>>) -> Seq<char> {
    match ext {
        None => "application/octet-stream"@,
        Some(e) => if e == "html"@ || e == "htm"@ {
            "text/html"@
        } else if e == "css"@ {
            "text/css"@
        } else if e == "js"@ {
            "application/javascript"@
        } else if e == "json"@ {
            "application/json"@
        } else if e == "xml"@ {
            "application/xml"@
        } else if e == "txt"@ {
            "text/plain"@
        } else if e == "md"@ {
            "text/markdown"@
        } else if e == "png"@ {
            "image/png"@
        } else if e == "jpg"@ || e == "jpeg"@ {
            "image/jpeg"@
        } else if e == "gif"@ {
            "image/gif"@
        } else if e == "svg"@ {
            "image/svg+xml"@
        } else if e == "ico"@ {
            "image/x-icon"@
        } else if e == "pdf"@ {
            "application/pdf"@
        } else if e == "zip"@ {
            "application/zip"@
        } else if e == "tar"@ {
            "application/x-tar"@
        } else if e == "gz"@ {
            "application/gzip"@
        } else if e == "mp4"@ {
            "video/mp4"@
        } else if e == "mp3"@ {
            "audio/mpeg"@
        } else if e == "wav"@ {
            "audio/wav"@
        } else {
            "application/octet-stream"@
        },
    }
}

/// Whether `chars[from..]` is the text `word`.
fn tail_is(chars: &Vec<char>, from: usize, word: &str) -> (same: bool)
    requires
        from <= chars@.len(),
    ensures
        same == (chars@.skip(from as int) == word@),
{
    let other = chars_of(word);
    assert(chars@.skip(from as int) == chars@.subrange(from as int, chars@.len() as int));
    chars_eq(chars, from, chars.len(), &other)
}

/// The content type of a file, by the extension of its name.
pub fn get_mime_type(path: &str) -> (mime: &'static str)
    ensures
        mime@ == mime_type_of(extension(path@)),
{
    let chars = chars_of(path);
    let start = file_name_start(&chars);
    let mut dot: usize = chars.len();
    while dot > start && chars[dot - 1] != '.'
        invariant
            start <= dot <= chars@.len(),
            after_last_from(chars@, start as int, chars@.len() as int, '.') == after_last_from(
                chars@,
                start as int,
                dot as int,
                '.',
            ),
        decreases dot,
    {
        dot -= 1;
    }
    if dot - start <= 1 {
        return "application/octet-stream";
    }
    if tail_is(&chars, dot, "html") || tail_is(&chars, dot, "htm") {
        "text/html"
    } else if tail_is(&chars, dot, "css") {
        "text/css"
    } else if tail_is(&chars, dot, "js") {
        "application/javascript"
    } else if tail_is(&chars, dot, "json") {
        "application/json"
    } else if tail_is(&chars, dot, "xml") {
        "application/xml"
    } else if tail_is(&chars, dot, "txt") {
        "text/plain"
    } else if tail_is(&chars, dot, "md") {
        "text/markdown"
    } else if tail_is(&chars, dot, "png") {
        "image/png"
    } else if tail_is(&chars, dot, "jpg") || tail_is(&chars, dot, "jpeg") {
        "image/jpeg"
    } else if tail_is(&chars, dot, "gif") {
        "image/gif"
    } else if tail_is(&chars, dot, "svg") {
        "image/svg+xml"
    } else if tail_is(&chars, dot, "ico") {
        "image/x-icon"
    } else if tail_is(&chars, dot, "pdf") {
        "application/pdf"
    } else if tail_is(&chars, dot, "zip") {
        "application/zip"
    } else if tail_is(&chars, dot, "tar") {
        "application/x-tar"
    } else if tail_is(&chars, dot, "gz") {
        "application/gzip"
    } else if tail_is(&chars, dot, "mp4") {
        "video/mp4"
    } else if tail_is(&chars, dot, "mp3") {
        "audio/mpeg"
    } else if tail_is(&chars, dot, "wav") {
        "audio/wav"
    } else {
        "application/octet-stream"
    }
}

/// A response whose body is held in memory.
#[derive(Debug, Clone, PartialEq, Eq)]
pub struct HttpResponse {
    pub status_code: u16,
    pub status_text: String,
    pub headers: Vec<(String, String)>,
    pub body: Vec<u8>,
}

/// What `HttpResponse` holds, as text and bytes.
pub struct HttpResponseView {
    pub status_code: u16,
    pub status_text: Seq<char>,
    pub headers: Seq<(Seq<char>, Seq<char>)>,
    pub body: Seq<u8>,
}

impl View for HttpResponse {
    type V = HttpResponseView;

    open spec fn view(&self) -> HttpResponseView {
        HttpResponseView {
            status_code: self.status_code,
            status_text: self.status_text@,
            headers: fields_view(self.headers@),
            body: self.body@,
        }
    }
}

/// The fields that every such response starts with.
pub open spec fn standard_headers() -> Seq<(Seq<char>, Seq<char>)> {
    seq![
        ("Server"@, "hdl_sv/2.0.0"@),
        ("Connection"@, "close"@),
        ("Cache-Control"@, "no-cache"@),
    ]
}

/// The bytes that the response puts on the wire: the status line, the
/// length of the body, the fields, an empty line, and the body.
pub open spec fn response_bytes(response: HttpResponseView) -> Seq<u8> {
    encode_utf8(
        "HTTP/1.1 "@ + decimal(response.status_code as nat) + " "@ + response.status_text
            + "\r\n"@ + "Content-Length: "@ + decimal(response.body.len()) + "\r\n"@
            + header_lines(response.headers) + "\r\n"@,
    ) + response.body
}

impl HttpResponse {
    /// A response with the standard fields and no body.
    pub fn new(status_code: u16, status_text: &str) -> (response: HttpResponse)
        ensures
            response@ == (HttpResponseView {
                status_code,
                status_text: status_text@,
                headers: standard_headers(),
                body: Seq::empty(),
            }),
    {
        let mut headers: Vec<(String, String)> = Vec::new();
        headers.push((String::from_str("Server"), String::from_str("hdl_sv/2.0.0")));
        headers.push((String::from_str("Connection"), String::from_str("close")));
        headers.push((String::from_str("Cache-Control"), String::from_str("no-cache")));
        assert(fields_view(headers@) =~= standard_headers());
        HttpResponse {
            status_code,
            status_text: String::from_str(status_text),
            headers,
            body: Vec::new(),
        }
    }

    /// The response with one more field at the end.
    pub fn add_header(self, name: String, value: String) -> (response: HttpResponse)
        ensures
            response@ == (HttpResponseView {
                headers: self@.headers.push((name@, value@)),
                ..self@
            }),
    {
        let mut response = self;
        proof {
            lemma_fields_view_push(response.headers@, (name, value));
        }
        response.headers.push((name, value));
        response
    }

    /// The response with `body` as its body, declared as an HTML page.
    pub fn with_html_body(self, body: String) -> (response: HttpResponse)
        ensures
            response@ == (HttpResponseView {
                headers: self@.headers.push(("Content-Type"@, "text/html; charset=utf-8"@)),
                body: encode_utf8(body@),
                ..self@
            }),
    {
        let response = self.add_header(
            String::from_str("Content-Type"),
            String::from_str("text/html; charset=utf-8"),
        );
        let mut bytes: Vec<u8> = Vec::new();
        append_bytes(&mut bytes, body.as_str().as_bytes());
        assert(bytes@ =~= encode_utf8(body@));
        HttpResponse {
            status_code: response.status_code,
            status_text: response.status_text,
            headers: response.headers,
            body: bytes,
        }
    }

    /// The response with `body` as its body, declared as `mime_type`.
    pub fn with_file_body(self, body: Vec<u8>, mime_type: &str) -> (response: HttpResponse)
        ensures
            response@ == (HttpResponseView {
                headers: self@.headers.push(("Content-Type"@, mime_type@)),
                body: body@,
                ..self@
            }),
    {
        let response = self.add_header(
            String::from_str("Content-Type"),
            String::from_str(mime_type),
        );
        HttpResponse {
            status_code: response.status_code,
            status_text: response.status_text,
            headers: response.headers,
            body,
        }
    }

    /// The response with a challenge to authenticate.
    pub fn with_auth_challenge(self) -> (response: HttpResponse)
        ensures
            response@ == (HttpResponseView {
                headers: self@.headers.push(("WWW-Authenticate"@, "Basic realm=\"Restricted\""@)),
                ..self@
            }),
    {
        self.add_header(
            String::from_str("WWW-Authenticate"),
            String::from_str("Basic realm=\"Restricted\""),
        )
    }

    /// Writes the response to `stream`.
    pub fn send(&self, stream: &mut Vec<u8>)
        ensures
            final(stream)@ == old(stream)@ + response_bytes(self@),
    {
        let mut head = String::from_str("HTTP/1.1 ");
        append_decimal(&mut head, self.status_code as u64);
        head.append(" ");
        head.append(self.status_text.as_str());
        head.append("\r\n");
        head.append("Content-Length: ");
        append_decimal(&mut head, self.body.len() as u64);
        head.append("\r\n");
        append_header_lines(&mut head, &self.headers);
        head.append("\r\n");
        append_bytes(stream, head.as_str().as_bytes());
        append_bytes(stream, self.body.as_slice());
        assert(stream@ =~= old(stream)@ + response_bytes(self@));
    }
}

/// The page that reports a status: the built-in error page, filled in.
pub open spec fn error_page(status_code: u16, status_text: Seq<char>) -> Seq<char> {
    substituted(
        ERROR_PAGE@,
        error_variables(status_code, status_text, error_description(status_code)),
    )
}

/// The built-in templates hold the error page under its name.
pub proof fn lemma_builtin_error_page()
    ensures
        value_of(builtin_templates(), "error_page"@) == Some(ERROR_PAGE@),
{
    reveal_strlit("error_page");
    reveal_strlit("directory_index");
    let t = builtin_templates();
    assert("directory_index"@.len() != "error_page"@.len());
    assert(t[0].0 != "error_page"@);
    assert(position_of(t, "error_page"@, 1) == 1);
    assert(position_of(t, "error_page"@, 0) == 1);
}

/// Makes the page that reports a status.
pub fn generate_error_page(status_code: u16, status_text: &str) -> (page: String)
    ensures
        page@ == error_page(status_code, status_text@),
{
    let engine = TemplateEngine::new();
    let description = get_error_description(status_code);
    proof {
        lemma_builtin_error_page();
    }
    match engine.render_error_page(status_code, status_text, description) {
        Ok(page) => page,
        Err(_) => String::new(),
    }
}

/// The response that reports a status with an error page. A 401 also
/// challenges the client to authenticate.
pub open spec fn error_response_for(status_code: u16, status_text: Seq<char>) -> HttpResponseView {
    let fields = standard_headers().push(("Content-Type"@, "text/html; charset=utf-8"@));
    HttpResponseView {
        status_code,
        status_text,
        headers: if status_code == 401 {
            fields.push(("WWW-Authenticate"@, "Basic realm=\"Restricted\""@))
        } else {
            fields
        },
        body: encode_utf8(error_page(status_code, status_text)),
    }
}

/// Makes the response that reports a status with an error page.
pub fn create_error_response(status_code: u16, status_text: &str) -> (response: HttpResponse)
    ensures
        response@ == error_response_for(status_code, status_text@),
{
    let page = generate_error_page(status_code, status_text);
    let response = HttpResponse::new(status_code, status_text).with_html_body(page);
    if status_code == 401 {
        response.with_auth_challenge()
    } else {
        response
    }
}

/// The response to a request that failed with `error`: the status that the
/// error is mapped to, with an error page. A range that cannot be satisfied
/// is answered without a body.
pub open spec fn response_to_error(error: AppError) -> HttpResponseView {
    if error is RangeNotSatisfiable {
        HttpResponseView {
            status_code: 416,
            status_text: status_text_of(error),
            headers: standard_headers(),
            body: Seq::empty(),
        }
    } else {
        error_response_for(status_code_of(error), status_text_of(error))
    }
}

/// Turns an error into the response that reports it. This is the one place
/// where that is done.
pub fn error_response(error: &AppError) -> (response: HttpResponse)
    ensures
        response@ == response_to_error(*error),
{
    let (status_code, status_text) = error.status();
    match error {
        AppError::RangeNotSatisfiable => HttpResponse::new(status_code, status_text),
        _ => create_error_response(status_code, status_text),
    }
}

/// Writes the response that reports `error` to `stream`.
pub fn send_error_response(stream: &mut Vec<u8>, error: &AppError)
    ensures
        final(stream)@ == old(stream)@ + response_bytes(response_to_error(*error)),
{
    error_response(error).send(stream);
}

/// Writes a response with a status and a page to `stream`. A status from
/// 400 on is reported with its error page, whatever `body` holds.
pub fn send_response(stream: &mut Vec<u8>, status_code: u16, status_text: &str, body: &str)
    ensures
        final(stream)@ == old(stream)@ + response_bytes(
            if status_code >= 400 {
                error_response_for(status_code, status_text@)
            } else {
                HttpResponseView {
                    status_code,
                    status_text: status_text@,
                    headers: standard_headers().push(("Content-Type"@, "text/html; charset=utf-8"@)),
                    body: encode_utf8(body@),
                }
            },
        ),
{
    let response = if status_code >= 400 {
        create_error_response(status_code, status_text)
    } else {
        HttpResponse::new(status_code, status_text).with_html_body(String::from_str(body))
    };
    response.send(stream);
}


/// The answer to a range that cannot be satisfied has status 416, no body,
/// and says nothing of a range.
pub proof fn lemma_unsatisfiable_range_response()
    ensures
        response_to_error(AppError::RangeNotSatisfiable).status_code == 416,
        response_to_error(AppError::RangeNotSatisfiable).body.len() == 0,
        !has_name(response_to_error(AppError::RangeNotSatisfiable).headers, "Content-Range"@),
{
    reveal_strlit("Server");
    reveal_strlit("Connection");
    reveal_strlit("Cache-Control");
    reveal_strlit("Content-Range");
    let headers = standard_headers();
    assert("Cache-Control"@[1] != "Content-Range"@[1]);
    assert forall|i: int| 0 <= i < headers.len() implies (#[trigger] headers[i]).0
        != "Content-Range"@ by {
        if i == 0 {
            assert(headers[0].0.len() != "Content-Range"@.len());
        } else if i == 1 {
            assert(headers[1].0.len() != "Content-Range"@.len());
        } else {
            assert(headers[2].0 == "Cache-Control"@);
        }
    }
}

/// The answer to a request without the right credentials has status 401 and
/// challenges the client to authenticate.
pub proof fn lemma_unauthorized_response()
    ensures
        response_to_error(AppError::Unauthorized).status_code == 401,
        has_name(response_to_error(AppError::Unauthorized).headers, "WWW-Authenticate"@),
{
    let headers = response_to_error(AppError::Unauthorized).headers;
    assert(headers[4].0 == "WWW-Authenticate"@);
}

} // verus!
