//! What the server answers: a status, headers and a body, described as plain
//! values that the executable turns into an HTTP response.

use vstd::prelude::*;
use vstd::utf8::encode_utf8;

verus! {

/// The media types that the server sends.
#[derive(PartialEq, Eq, Structural, Debug, Clone, Copy)]
pub enum MimeType {
    TextHtml,
    TextCss,
    TextJavascript,
    ImageJpeg,
    TextMarkdown,
    ImagePng,
    ImageSvg,
    ApplicationWasm,
    TextPlain,
}

/// The text of a media type, as it is written in a `Content-Type` header.
pub open spec fn mime_text(m: MimeType) -> Seq<char> {
    match m {
        MimeType::TextHtml => "text/html"@,
        MimeType::TextCss => "text/css"@,
        MimeType::TextJavascript => "text/javascript"@,
        MimeType::ImageJpeg => "image/jpeg"@,
        MimeType::TextMarkdown => "text/markdown; charset=utf-8"@,
        MimeType::ImagePng => "image/png"@,
        MimeType::ImageSvg => "image/svg+xml"@,
        MimeType::ApplicationWasm => "application/wasm"@,
        MimeType::TextPlain => "text/plain"@,
    }
}

impl MimeType {
    /// The media type's text.
    pub fn text(&self) -> (text: &'static str)
        ensures
            text@ == mime_text(*self),
    {
        match self {
            MimeType::TextHtml => "text/html",
            MimeType::TextCss => "text/css",
            MimeType::TextJavascript => "text/javascript",
            MimeType::ImageJpeg => "image/jpeg",
            MimeType::TextMarkdown => "text/markdown; charset=utf-8",
            MimeType::ImagePng => "image/png",
            MimeType::ImageSvg => "image/svg+xml",
            MimeType::ApplicationWasm => "application/wasm",
            MimeType::TextPlain => "text/plain",
        }
    }
}

/// One header of a response.
#[derive(Debug)]
pub enum ResponseHeader {
    ContentLength(u64),
    ContentType(MimeType),
    Location(String),
    Named(String, String),
}

/// The abstract value of a response header.
pub enum HeaderSpec {
    ContentLength(u64),
    ContentType(MimeType),
    Location(Seq<char>),
    Named(Seq<char>, Seq<char>),
}

impl View for ResponseHeader {
    type V = HeaderSpec;

    open spec fn view(&self) -> HeaderSpec {
        match self {
            ResponseHeader::ContentLength(n) => HeaderSpec::ContentLength(*n),
            ResponseHeader::ContentType(m) => HeaderSpec::ContentType(*m),
            ResponseHeader::Location(l) => HeaderSpec::Location(l@),
            ResponseHeader::Named(k, v) => HeaderSpec::Named(k@, v@),
        }
    }
}

/// A response to send: status code, headers in order, body bytes.
#[derive(Debug)]
pub struct ResponsePlan {
    pub status: u16,
    pub headers: Vec<ResponseHeader>,
    pub body: Vec<u8>,
}

/// The abstract value of a response.
pub struct ResponseSpec {
    pub status: u16,
    pub headers: Seq<HeaderSpec>,
    pub body: Seq<u8>,
}

impl View for ResponsePlan {
    type V = ResponseSpec;

    open spec fn view(&self) -> ResponseSpec {
        ResponseSpec {
            status: self.status,
            headers: self.headers@.map_values(|h: ResponseHeader| h@),
            body: self.body@,
        }
    }
}

/// The `cow: 0.0.1` header that marks the server's own answers.
pub open spec fn server_tag() -> HeaderSpec {
    HeaderSpec::Named("cow"@, "0.0.1"@)
}

/// The answer when nothing can be served: status 200, the server tag and
/// the text `not found`.
pub open spec fn not_found_spec() -> ResponseSpec {
    ResponseSpec { status: 200, headers: seq![server_tag()], body: encode_utf8("not found"@) }
}

fn server_tag_header() -> (h: ResponseHeader)
    ensures
        h@ == server_tag(),
{
    ResponseHeader::Named(String::from_str("cow"), String::from_str("0.0.1"))
}

/// The answer sent when no location serves a request, or when a static file
/// cannot be served.
pub fn not_found_response() -> (r: ResponsePlan)
    ensures
        r@ == not_found_spec(),
{
    let mut headers: Vec<ResponseHeader> = Vec::new();
    headers.push(server_tag_header());
    let r = ResponsePlan { status: 200, headers, body: "not found".as_bytes_vec() };
    assert(r@.headers =~= seq![server_tag()]);
    r
}

/// An HTML page answered with the given status, its length and type set.
pub open spec fn html_response_spec(body: Seq<char>, status: u16) -> ResponseSpec {
    ResponseSpec {
        status,
        headers: seq![
            HeaderSpec::ContentLength(encode_utf8(body).len() as u64),
            HeaderSpec::ContentType(MimeType::TextHtml),
        ],
        body: encode_utf8(body),
    }
}

/// Makes an HTTP response from an HTML string.
pub fn html_str_to_response(body: String, status: u16) -> (r: ResponsePlan)
    ensures
        r@ == html_response_spec(body@, status),
{
    let bytes = body.as_str().as_bytes_vec();
    let mut headers: Vec<ResponseHeader> = Vec::new();
    headers.push(ResponseHeader::ContentLength(bytes.len() as u64));
    headers.push(ResponseHeader::ContentType(MimeType::TextHtml));
    let r = ResponsePlan { status, headers, body: bytes };
    assert(r@.headers =~= html_response_spec(body@, status).headers);
    r
}

/// The answer to a request that could not be forwarded: status 500 and the
/// error's text as the body.
pub open spec fn proxy_failure_spec(message: Seq<char>) -> ResponseSpec {
    ResponseSpec { status: 500, headers: seq![], body: encode_utf8(message) }
}

/// The response sent when the upstream server could not be reached.
pub fn proxy_failure_response(message: String) -> (r: ResponsePlan)
    ensures
        r@ == proxy_failure_spec(message@),
{
    let r = ResponsePlan {
        status: 500,
        headers: Vec::new(),
        body: message.as_str().as_bytes_vec(),
    };
    assert(r@.headers =~= seq![]);
    r
}

} // verus!
