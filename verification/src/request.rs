//! Requests and responses: the known header names and methods, how a request
//! is written for the wire, how a response is read from it, and how a
//! redirect turns a request into the next one.

use crate::error::FetchError;
use crate::gzip::{gzip_inflated, inflate};
use crate::headers::{field_value, wire_form, with_field, Fields, Headers};
use crate::text::{
    chars_of, eq_ignore_case, last_position, rfind_char, same_ignoring_case, same_text,
    starts_with, string_of, text_of, utf8_text,
};
use crate::uri::{identifier, Scheme, UriView, URI};
use crate::wire::{
    chunked_body, decode_chunked, first_line, header_block, parse_header_block,
    parse_status_line, status_of, take_line, StatusLine, StatusView,
};
use vstd::prelude::*;
use vstd::slice::slice_subrange;
use vstd::string::*;

verus! {

/// The header names that the fetcher itself reads or writes.
#[derive(Debug, PartialEq, Eq, Clone, Copy, Structural)]
pub enum Header {
    AcceptEncoding,
    Connection,
    ContentEncoding,
    Host,
    Location,
    TransferEncoding,
    UserAgent,
}

impl Header {
    /// The name as it is written.
    pub open spec fn name(self) -> Seq<char> {
        match self {
            Header::AcceptEncoding => "Accept-Encoding"@,
            Header::Connection => "Connection"@,
            Header::ContentEncoding => "Content-Encoding"@,
            Header::Host => "Host"@,
            Header::Location => "Location"@,
            Header::TransferEncoding => "Transfer-Encoding"@,
            Header::UserAgent => "User-Agent"@,
        }
    }

    /// The known header that `name` names, without regard to case.
    pub open spec fn named(name: Seq<char>) -> Option<Header> {
        if eq_ignore_case(name, "Accept-Encoding"@) {
            Some(Header::AcceptEncoding)
        } else if eq_ignore_case(name, "Connection"@) {
            Some(Header::Connection)
        } else if eq_ignore_case(name, "Content-Encoding"@) {
            Some(Header::ContentEncoding)
        } else if eq_ignore_case(name, "Host"@) {
            Some(Header::Host)
        } else if eq_ignore_case(name, "Location"@) {
            Some(Header::Location)
        } else if eq_ignore_case(name, "Transfer-Encoding"@) {
            Some(Header::TransferEncoding)
        } else if eq_ignore_case(name, "User-Agent"@) {
            Some(Header::UserAgent)
        } else {
            None
        }
    }

    /// Writes the name.
    pub fn as_str(&self) -> (name: &'static str)
        ensures
            name@ == self.name(),
    {
        match self {
            Header::AcceptEncoding => "Accept-Encoding",
            Header::Connection => "Connection",
            Header::ContentEncoding => "Content-Encoding",
            Header::Host => "Host",
            Header::Location => "Location",
            Header::TransferEncoding => "Transfer-Encoding",
            Header::UserAgent => "User-Agent",
        }
    }

    /// Reads a name, without regard to case.
    pub fn from_str(name: &str) -> (header: Option<Header>)
        ensures
            header == Header::named(name@),
    {
        if same_ignoring_case(name, "Accept-Encoding") {
            Some(Header::AcceptEncoding)
        } else if same_ignoring_case(name, "Connection") {
            Some(Header::Connection)
        } else if same_ignoring_case(name, "Content-Encoding") {
            Some(Header::ContentEncoding)
        } else if same_ignoring_case(name, "Host") {
            Some(Header::Host)
        } else if same_ignoring_case(name, "Location") {
            Some(Header::Location)
        } else if same_ignoring_case(name, "Transfer-Encoding") {
            Some(Header::TransferEncoding)
        } else if same_ignoring_case(name, "User-Agent") {
            Some(Header::UserAgent)
        } else {
            None
        }
    }
}

/// Reading the name that a known header writes gives the header back.
pub proof fn lemma_header_round_trip(header: Header)
    ensures
        Header::named(header.name()) == Some(header),
{
    reveal_strlit("Accept-Encoding");
    reveal_strlit("Connection");
    reveal_strlit("Content-Encoding");
    reveal_strlit("Host");
    reveal_strlit("Location");
    reveal_strlit("Transfer-Encoding");
    reveal_strlit("User-Agent");
    assert("Connection"@[0] == 'C' && "Content-Encoding"@[0] == 'C');
    assert("User-Agent"@[0] == 'U' && "Accept-Encoding"@[0] == 'A');
    assert("Location"@[0] == 'L' && "Host"@[0] == 'H' && "Transfer-Encoding"@[0] == 'T');
    assert(!eq_ignore_case("Connection"@, "User-Agent"@)) by {
        assert(crate::text::lower_code("Connection"@[0]) != crate::text::lower_code(
            "User-Agent"@[0],
        ));
    }
}

/// The methods of a request.
#[derive(Debug, PartialEq, Eq, Clone, Copy, Structural)]
pub enum HTTPMethod {
    CONNECT,
    DELETE,
    GET,
    HEAD,
    OPTIONS,
    POST,
    PUT,
    TRACE,
}

impl HTTPMethod {
    /// The method as it is written.
    pub open spec fn name(self) -> Seq<char> {
        match self {
            HTTPMethod::CONNECT => "CONNECT"@,
            HTTPMethod::DELETE => "DELETE"@,
            HTTPMethod::GET => "GET"@,
            HTTPMethod::HEAD => "HEAD"@,
            HTTPMethod::OPTIONS => "OPTIONS"@,
            HTTPMethod::POST => "POST"@,
            HTTPMethod::PUT => "PUT"@,
            HTTPMethod::TRACE => "TRACE"@,
        }
    }

    /// The method that `token` writes.
    pub open spec fn named(token: Seq<char>) -> Option<HTTPMethod> {
        if token == "CONNECT"@ {
            Some(HTTPMethod::CONNECT)
        } else if token == "DELETE"@ {
            Some(HTTPMethod::DELETE)
        } else if token == "GET"@ {
            Some(HTTPMethod::GET)
        } else if token == "HEAD"@ {
            Some(HTTPMethod::HEAD)
        } else if token == "OPTIONS"@ {
            Some(HTTPMethod::OPTIONS)
        } else if token == "POST"@ {
            Some(HTTPMethod::POST)
        } else if token == "PUT"@ {
            Some(HTTPMethod::PUT)
        } else if token == "TRACE"@ {
            Some(HTTPMethod::TRACE)
        } else {
            None
        }
    }

    /// Writes the method.
    pub fn as_str(&self) -> (token: &'static str)
        ensures
            token@ == self.name(),
    {
        match self {
            HTTPMethod::CONNECT => "CONNECT",
            HTTPMethod::DELETE => "DELETE",
            HTTPMethod::GET => "GET",
            HTTPMethod::HEAD => "HEAD",
            HTTPMethod::OPTIONS => "OPTIONS",
            HTTPMethod::POST => "POST",
            HTTPMethod::PUT => "PUT",
            HTTPMethod::TRACE => "TRACE",
        }
    }

    /// Reads a method.
    pub fn from_str(token: &str) -> (method: Option<HTTPMethod>)
        ensures
            method == HTTPMethod::named(token@),
    {
        if same_text(token, "CONNECT") {
            Some(HTTPMethod::CONNECT)
        } else if same_text(token, "DELETE") {
            Some(HTTPMethod::DELETE)
        } else if same_text(token, "GET") {
            Some(HTTPMethod::GET)
        } else if same_text(token, "HEAD") {
            Some(HTTPMethod::HEAD)
        } else if same_text(token, "OPTIONS") {
            Some(HTTPMethod::OPTIONS)
        } else if same_text(token, "POST") {
            Some(HTTPMethod::POST)
        } else if same_text(token, "PUT") {
            Some(HTTPMethod::PUT)
        } else if same_text(token, "TRACE") {
            Some(HTTPMethod::TRACE)
        } else {
            None
        }
    }
}

/// Reading the token that a method writes gives the method back.
pub proof fn lemma_method_round_trip(method: HTTPMethod)
    ensures
        HTTPMethod::named(method.name()) == Some(method),
{
    reveal_strlit("CONNECT");
    reveal_strlit("DELETE");
    reveal_strlit("GET");
    reveal_strlit("HEAD");
    reveal_strlit("OPTIONS");
    reveal_strlit("POST");
    reveal_strlit("PUT");
    reveal_strlit("TRACE");
    assert("CONNECT"@[0] == 'C' && "DELETE"@[0] == 'D' && "GET"@[0] == 'G' && "HEAD"@[0] == 'H');
    assert("OPTIONS"@[0] == 'O' && "POST"@[0] == 'P' && "PUT"@[0] == 'P' && "TRACE"@[0] == 'T');
    assert("POST"@.len() != "PUT"@.len());
}

/// A request.
#[derive(Debug)]
pub struct HTTPRequest {
    pub url: URI,
    pub http_version: String,
    pub method: HTTPMethod,
    pub headers: Headers,
    pub data: String,
}

/// What an `HTTPRequest` holds, as mathematical values.
pub struct RequestView {
    pub url: UriView,
    pub http_version: Seq<char>,
    pub method: HTTPMethod,
    pub headers: Fields,
    pub data: Seq<char>,
}

impl View for HTTPRequest {
    type V = RequestView;

    open spec fn view(&self) -> RequestView {
        RequestView {
            url: self.url@,
            http_version: self.http_version@,
            method: self.method,
            headers: self.headers@,
            data: self.data@,
        }
    }
}

/// The header fields that every request carries unless it sets them itself:
/// the host of its identifier, where that names one, and three fixed fields.
pub open spec fn default_fields(url: UriView) -> Fields {
    let fixed = seq![
        ("Connection"@, "close"@),
        ("User-Agent"@, "Bored Browser"@),
        ("Accept-Encoding"@, "gzip"@),
    ];
    match url.authority {
        Some(authority) => seq![("Host"@, authority.host)] + fixed,
        None => fixed,
    }
}

/// The fields `base` after each field of `over` was set in them, in order.
pub open spec fn overlay(base: Fields, over: Fields) -> Fields
    decreases over.len(),
{
    if over.len() == 0 {
        base
    } else {
        with_field(overlay(base, over.drop_last()), over.last().0, over.last().1)
    }
}

/// The header fields that a request is sent with: the default fields, and
/// over them the fields of the request itself.
pub open spec fn sent_fields(request: RequestView) -> Fields {
    overlay(default_fields(request.url), request.headers)
}

/// The request as it is sent: the request line, the header fields, and two
/// empty lines.
pub open spec fn request_text(request: RequestView) -> Seq<char> {
    request.method.name() + seq![' '] + request.url.path + " HTTP/"@ + request.http_version
        + seq!['\r', '\n'] + wire_form(sent_fields(request)) + seq!['\r', '\n', '\r', '\n']
}

/// A field that is set over the default fields has the value that it was
/// set to last.
pub proof fn lemma_overlay_last_wins(base: Fields, over: Fields)
    requires
        over.len() > 0,
    ensures
        field_value(overlay(base, over), over.last().0) == Some(over.last().1),
{
    crate::headers::lemma_with_field_value(
        overlay(base, over.drop_last()),
        over.last().0,
        over.last().1,
        over.last().0,
    );
}

impl HTTPRequest {
    /// A `GET` request of version 1.1 for `url`, with no header field of its
    /// own and an empty body.
    pub fn get(url: &URI) -> (request: HTTPRequest)
        ensures
            request@ == (RequestView {
                url: url@,
                http_version: "1.1"@,
                method: HTTPMethod::GET,
                headers: Fields::empty(),
                data: Seq::<char>::empty(),
            }),
    {
        HTTPRequest {
            url: url.duplicate(),
            http_version: "1.1".to_owned(),
            method: HTTPMethod::GET,
            headers: Headers::new(),
            data: String::new(),
        }
    }

    /// A copy of this request.
    pub fn duplicate(&self) -> (copy: HTTPRequest)
        ensures
            copy@ == self@,
    {
        HTTPRequest {
            url: self.url.duplicate(),
            http_version: self.http_version.clone(),
            method: self.method,
            headers: self.headers.duplicate(),
            data: self.data.clone(),
        }
    }

    /// The header fields that the request is sent with.
    pub fn sent_headers(&self) -> (headers: Headers)
        ensures
            headers@ == sent_fields(self@),
    {
        let mut headers = Request::build_default_headers(&self.url);
        let mut i: usize = 0;
        while i < self.headers.len()
            invariant
                i <= self.headers@.len(),
                headers@ == overlay(default_fields(self.url@), self.headers@.take(i as int)),
            decreases self.headers@.len() - i,
        {
            let f = self.headers.field(i);
            proof {
                assert(self.headers@.take(i + 1).drop_last() =~= self.headers@.take(i as int));
                assert(self.headers@.take(i + 1).last() == f@);
            }
            headers.insert(f.name.clone(), f.value.clone());
            i += 1;
        }
        proof {
            assert(self.headers@.take(self.headers@.len() as int) =~= self.headers@);
        }
        headers
    }

    /// The header fields as they are sent.
    pub fn build_headers(&self) -> (out: String)
        ensures
            out@ == wire_form(sent_fields(self@)),
    {
        self.sent_headers().serialize()
    }

    /// The request as it is sent.
    pub fn build(&self) -> (out: String)
        ensures
            out@ == request_text(self@),
    {
        proof {
            reveal_strlit(" ");
            reveal_strlit("\r\n");
            reveal_strlit("\r\n\r\n");
        }
        let mut out = String::new();
        out.append(self.method.as_str());
        out.append(" ");
        out.append(self.url.path.as_str());
        out.append(" HTTP/");
        out.append(self.http_version.as_str());
        out.append("\r\n");
        let headers = self.build_headers();
        out.append(headers.as_str());
        out.append("\r\n\r\n");
        proof {
            assert(out@ =~= request_text(self@));
        }
        out
    }
}

/// The functions of the codec and of redirect resolution.
pub struct Request {}

impl Request {
    /// The header fields that a request for `url` carries unless it sets
    /// them itself.
    pub fn build_default_headers(url: &URI) -> (headers: Headers)
        ensures
            headers@ == default_fields(url@),
    {
        proof {
            reveal_strlit("Host");
            reveal_strlit("Connection");
            reveal_strlit("User-Agent");
            reveal_strlit("Accept-Encoding");
        }
        let mut headers = Headers::new();
        match &url.authority {
            Some(authority) => {
                headers.insert(Header::Host.as_str().to_owned(), authority.host.clone());
            },
            None => {},
        }
        let ghost first = headers@;
        proof {
            crate::headers::lemma_name_index_is(Fields::empty(), "Host"@, 0);
            assert(first =~= match url@.authority {
                Some(a) => seq![("Host"@, a.host)],
                None => Fields::empty(),
            });
        }
        headers.insert(Header::Connection.as_str().to_owned(), "close".to_owned());
        let ghost second = headers@;
        proof {
            assert(!eq_ignore_case("Host"@, "Connection"@));
            crate::headers::lemma_name_index_is(first, "Connection"@, first.len() as int);
            assert(second =~= first.push(("Connection"@, "close"@)));
        }
        headers.insert(Header::UserAgent.as_str().to_owned(), "Bored Browser".to_owned());
        let ghost third = headers@;
        proof {
            assert(!eq_ignore_case("Host"@, "User-Agent"@));
            assert(!eq_ignore_case("Connection"@, "User-Agent"@)) by {
                assert(crate::text::lower_code("Connection"@[0]) != crate::text::lower_code(
                    "User-Agent"@[0],
                ));
            }
            crate::headers::lemma_name_index_is(second, "User-Agent"@, second.len() as int);
            assert(third =~= second.push(("User-Agent"@, "Bored Browser"@)));
        }
        headers.insert(Header::AcceptEncoding.as_str().to_owned(), "gzip".to_owned());
        proof {
            assert(!eq_ignore_case("Host"@, "Accept-Encoding"@));
            assert(!eq_ignore_case("Connection"@, "Accept-Encoding"@));
            assert(!eq_ignore_case("User-Agent"@, "Accept-Encoding"@));
            crate::headers::lemma_name_index_is(third, "Accept-Encoding"@, third.len() as int);
            assert(headers@ =~= default_fields(url@));
        }
        headers
    }
}

/// A response.
#[derive(Debug)]
pub struct HTTPResponse {
    pub http_version: String,
    pub status_code: u16,
    pub status_message: String,
    pub headers: Headers,
    pub data: String,
}

/// What an `HTTPResponse` holds, as mathematical values.
pub struct ResponseView {
    pub http_version: Seq<char>,
    pub status_code: u16,
    pub status_message: Seq<char>,
    pub headers: Fields,
    pub data: Seq<char>,
}

impl ResponseView {
    /// What holds of every response that was read from the wire: its status
    /// code lies between 100 and 599.
    pub open spec fn wf(self) -> bool {
        100 <= self.status_code <= 599
    }

    /// Whether the response sends the client elsewhere.
    pub open spec fn is_redirect(self) -> bool {
        300 <= self.status_code <= 399
    }
}

impl View for HTTPResponse {
    type V = ResponseView;

    open spec fn view(&self) -> ResponseView {
        ResponseView {
            http_version: self.http_version@,
            status_code: self.status_code,
            status_message: self.status_message@,
            headers: self.headers@,
            data: self.data@,
        }
    }
}

/// The response as it is shown: the status line, the header fields, an
/// empty line, the body, and a line end.
pub open spec fn response_text(response: ResponseView) -> Seq<char> {
    "HTTP/"@ + response.http_version + seq![' '] + crate::text::decimal_digits(
        response.status_code as nat,
    ) + seq![' '] + response.status_message + seq!['\r', '\n'] + wire_form(response.headers)
        + seq!['\r', '\n'] + response.data + seq!['\r', '\n']
}

impl HTTPResponse {
    /// Whether the response sends the client elsewhere.
    pub fn is_redirect(&self) -> (yes: bool)
        ensures
            yes == self@.is_redirect(),
    {
        300 <= self.status_code && self.status_code <= 399
    }

    /// The header fields as they are written.
    pub fn build_headers(&self) -> (out: String)
        ensures
            out@ == wire_form(self@.headers),
    {
        self.headers.serialize()
    }

    /// The response as it is shown.
    pub fn to_text(&self) -> (out: String)
        ensures
            out@ == response_text(self@),
    {
        proof {
            reveal_strlit(" ");
            reveal_strlit("\r\n");
        }
        let mut out = String::new();
        out.append("HTTP/");
        out.append(self.http_version.as_str());
        out.append(" ");
        crate::text::push_decimal(&mut out, self.status_code as u64);
        out.append(" ");
        out.append(self.status_message.as_str());
        out.append("\r\n");
        let headers = self.build_headers();
        out.append(headers.as_str());
        out.append("\r\n");
        out.append(self.data.as_str());
        out.append("\r\n");
        proof {
            assert(out@ =~= response_text(self@));
        }
        out
    }
}

/// What stands before the body of a response: the status line and the
/// header fields.
#[derive(Debug)]
pub struct ResponseHead {
    pub status: StatusLine,
    pub headers: Headers,
}

/// The head at the start of `data`: status line and header fields, and the
/// bytes that follow the header block. `None` where a line has no end or is
/// not UTF-8, the status line is none, or no empty line ends the header
/// block.
pub open spec fn head_of(data: Seq<u8>) -> Option<(StatusView, Fields, Seq<u8>)> {
    match first_line(data) {
        None => None,
        Some((line, rest)) => match utf8_text(line) {
            None => None,
            Some(text) => match status_of(text) {
                None => None,
                Some(status) => match header_block(rest, Fields::empty()) {
                    None => None,
                    Some((fields, body)) => Some((status, fields, body)),
                },
            },
        },
    }
}

/// The body that `rest` frames, as the header fields say: in chunks where
/// `Transfer-Encoding` is `chunked`, all of `rest` where there is no such
/// field. `None` where the field has another value, or the chunks are
/// broken.
pub open spec fn framed_body(fields: Fields, rest: Seq<u8>) -> Option<Seq<u8>> {
    match field_value(fields, "Transfer-Encoding"@) {
        None => Some(rest),
        Some(coding) => if coding == "chunked"@ {
            chunked_body(rest)
        } else {
            None
        },
    }
}

/// Whether the header fields say that the body is compressed with gzip.
pub open spec fn says_gzip(fields: Fields) -> bool {
    field_value(fields, "Content-Encoding"@) == Some("gzip"@)
}

/// The text of a body. `framed` is the body as it was framed, `inflated`
/// what decompression made of it. Where the header fields say gzip, the
/// text is that of the decompressed bytes; where they name no content
/// encoding, that of the framed bytes. Another content encoding is a
/// protocol violation; broken gzip data and bytes that are not UTF-8 are
/// encoding errors.
pub open spec fn body_text(fields: Fields, framed: Seq<u8>, inflated: Option<Seq<u8>>) -> Result<
    Seq<char>,
    FetchError,
> {
    let plain = match field_value(fields, "Content-Encoding"@) {
        None => Ok(framed),
        Some(coding) => if coding == "gzip"@ {
            match inflated {
                Some(bytes) => Ok(bytes),
                None => Err(FetchError::EncodingError),
            }
        } else {
            Err(FetchError::ProtocolViolation)
        },
    };
    match plain {
        Ok(bytes) => match utf8_text(bytes) {
            Some(text) => Ok(text),
            None => Err(FetchError::EncodingError),
        },
        Err(e) => Err(e),
    }
}

/// The response made of a head and the text of a body.
pub open spec fn assembled(status: StatusView, fields: Fields, text: Seq<char>) -> ResponseView {
    ResponseView {
        http_version: status.version,
        status_code: status.code,
        status_message: status.message,
        headers: fields,
        data: text,
    }
}

/// The response made of a head and a body. `framed` is the body as it was
/// framed, `inflated` what decompression made of it.
pub open spec fn finished(
    status: StatusView,
    fields: Fields,
    framed: Seq<u8>,
    inflated: Option<Seq<u8>>,
) -> Result<ResponseView, FetchError> {
    match body_text(fields, framed, inflated) {
        Ok(text) => Ok(assembled(status, fields, text)),
        Err(e) => Err(e),
    }
}

/// The response that the bytes `data` hold.
pub open spec fn response_of(data: Seq<u8>) -> Result<ResponseView, FetchError> {
    match head_of(data) {
        None => Err(FetchError::ProtocolViolation),
        Some((status, fields, rest)) => match framed_body(fields, rest) {
            None => Err(FetchError::ProtocolViolation),
            Some(framed) => finished(status, fields, framed, gzip_inflated(framed)),
        },
    }
}

/// The bytes of a body that may be missing.
pub open spec fn bytes_of(body: Option<Vec<u8>>) -> Option<Seq<u8>> {
    match body {
        Some(bytes) => Some(bytes@),
        None => None,
    }
}

/// Every response that the bytes hold has a status code between 100 and
/// 599.
pub proof fn lemma_response_wf(data: Seq<u8>)
    ensures
        response_of(data) matches Ok(r) ==> r.wf(),
{
}

impl Request {
    /// Reads the head of a response. Returns the head and the bytes that
    /// follow it.
    pub fn parse_head(data: &[u8]) -> (out: Option<(ResponseHead, &[u8])>)
        ensures
            match out {
                Some((head, rest)) => head_of(data@) == Some(
                    (head.status@, head.headers@, rest@),
                ),
                None => head_of(data@).is_none(),
            },
    {
        let (line, after) = match take_line(data) {
            Some(cut) => cut,
            None => {
                return None;
            },
        };
        let text = match text_of(line) {
            Some(t) => t,
            None => {
                return None;
            },
        };
        let chars = chars_of(text.as_str());
        let status = match parse_status_line(chars.as_slice()) {
            Some(s) => s,
            None => {
                return None;
            },
        };
        match parse_header_block(after) {
            Some((headers, rest)) => Some((ResponseHead { status, headers }, rest)),
            None => None,
        }
    }

    /// Takes the body out of its framing.
    pub fn frame_body(headers: &Headers, rest: &[u8]) -> (out: Option<Vec<u8>>)
        ensures
            match out {
                Some(body) => framed_body(headers@, rest@) == Some(body@),
                None => framed_body(headers@, rest@).is_none(),
            },
    {
        match headers.get(Header::TransferEncoding.as_str()) {
            None => Some(vstd::slice::slice_to_vec(rest)),
            Some(coding) => if same_text(coding.as_str(), "chunked") {
                decode_chunked(rest)
            } else {
                None
            },
        }
    }

    /// Whether the header fields say that the body is compressed with gzip.
    pub fn wants_gzip(headers: &Headers) -> (yes: bool)
        ensures
            yes == says_gzip(headers@),
    {
        match headers.get(Header::ContentEncoding.as_str()) {
            None => false,
            Some(coding) => same_text(coding.as_str(), "gzip"),
        }
    }

    /// Makes the response of a head and a body. `framed` is the body as it
    /// was framed, `inflated` what decompression made of it; it is looked at
    /// only where the header fields say gzip.
    pub fn finish_response(head: ResponseHead, framed: Vec<u8>, inflated: Option<Vec<u8>>) -> (out:
        Result<HTTPResponse, FetchError>)
        ensures
            match out {
                Ok(response) => finished(
                    head.status@,
                    head.headers@,
                    framed@,
                    bytes_of(inflated),
                ) == Ok::<ResponseView, FetchError>(response@),
                Err(e) => finished(head.status@, head.headers@, framed@, bytes_of(inflated))
                    == Err::<ResponseView, FetchError>(e),
            },
    {
        let plain = match head.headers.get(Header::ContentEncoding.as_str()) {
            None => framed,
            Some(coding) => if same_text(coding.as_str(), "gzip") {
                match inflated {
                    Some(bytes) => bytes,
                    None => {
                        return Err(FetchError::EncodingError);
                    },
                }
            } else {
                return Err(FetchError::ProtocolViolation);
            },
        };
        match text_of(plain.as_slice()) {
            Some(text) => Ok(
                HTTPResponse {
                    http_version: head.status.http_version,
                    status_code: head.status.status_code,
                    status_message: head.status.status_message,
                    headers: head.headers,
                    data: text,
                },
            ),
            None => Err(FetchError::EncodingError),
        }
    }

    /// Reads a response from the bytes that a server sent.
    pub fn parse_http_response(data_buffer: &Vec<u8>) -> (out: Result<HTTPResponse, FetchError>)
        ensures
            match out {
                Ok(response) => response_of(data_buffer@) == Ok::<ResponseView, FetchError>(
                    response@,
                ) && response@.wf(),
                Err(e) => response_of(data_buffer@) == Err::<ResponseView, FetchError>(e),
            },
    {
        let (head, rest) = match Request::parse_head(data_buffer.as_slice()) {
            Some(parsed) => parsed,
            None => {
                return Err(FetchError::ProtocolViolation);
            },
        };
        let framed = match Request::frame_body(&head.headers, rest) {
            Some(body) => body,
            None => {
                return Err(FetchError::ProtocolViolation);
            },
        };
        let inflated = if Request::wants_gzip(&head.headers) {
            inflate(framed.as_slice())
        } else {
            None
        };
        Request::finish_response(head, framed, inflated)
    }
}

/// The directory of `path`: what stands before its last slash; nothing
/// where it has no slash.
pub open spec fn directory_of(path: Seq<char>) -> Seq<char> {
    match last_position(path, '/') {
        Some(i) => path.take(i),
        None => Seq::<char>::empty(),
    }
}

/// The request that follows `request` after a redirect with the header
/// fields `fields`. A `Location` that begins with `http` is parsed as a new
/// identifier, which takes the place of the old one. Any other is a path:
/// it follows the directory of the old path, or stands alone where the old
/// path is empty. The rest of the request stays.
pub open spec fn redirected(request: RequestView, fields: Fields) -> Result<
    RequestView,
    FetchError,
> {
    match field_value(fields, "Location"@) {
        None => Err(FetchError::MissingLocation),
        Some(location) => if "http"@.is_prefix_of(location) {
            match identifier(location) {
                Ok(url) => Ok(RequestView { url, ..request }),
                Err(e) => Err(e),
            }
        } else {
            let path = if request.url.path.len() == 0 {
                location
            } else {
                directory_of(request.url.path) + location
            };
            Ok(RequestView { url: UriView { path, ..request.url }, ..request })
        },
    }
}

/// A redirect to an absolute location takes scheme, authority and path from
/// the location alone, whatever the request was for.
pub proof fn lemma_absolute_redirect(first: RequestView, second: RequestView, fields: Fields)
    requires
        field_value(fields, "Location"@) matches Some(location) && "http"@.is_prefix_of(location),
    ensures
        match (redirected(first, fields), redirected(second, fields)) {
            (Ok(a), Ok(b)) => a.url == b.url && identifier(
                field_value(fields, "Location"@).unwrap(),
            ) == Ok::<UriView, FetchError>(a.url),
            (Err(a), Err(b)) => a == b,
            _ => false,
        },
{
}

/// A redirect to a relative location against an empty path gives the
/// location as the path.
pub proof fn lemma_relative_redirect_from_empty(request: RequestView, fields: Fields)
    requires
        field_value(fields, "Location"@) matches Some(location) && !"http"@.is_prefix_of(
            location,
        ),
        request.url.path.len() == 0,
    ensures
        redirected(request, fields) matches Ok(next) && next.url.path == field_value(
            fields,
            "Location"@,
        ).unwrap(),
{
}

/// A redirect to a relative location keeps scheme, authority and markers,
/// and sets the location behind the directory of the old path: with the old
/// path `directory + "/" + name`, where `name` has no slash, the new path
/// is `directory + location`.
pub proof fn lemma_relative_redirect(
    request: RequestView,
    fields: Fields,
    directory: Seq<char>,
    name: Seq<char>,
)
    requires
        field_value(fields, "Location"@) matches Some(location) && !"http"@.is_prefix_of(
            location,
        ),
        request.url.path == directory + seq!['/'] + name,
        !name.contains('/'),
    ensures
        redirected(request, fields) matches Ok(next) && next.url.path == directory + field_value(
            fields,
            "Location"@,
        ).unwrap() && next.url.scheme == request.url.scheme && next.url.authority
            == request.url.authority && next.url.flags == request.url.flags,
{
    let path = request.url.path;
    let at = directory.len() as int;
    assert(path[at] == '/');
    assert forall|j: int| at < j < path.len() implies path[j] != '/' by {
        assert(path[j] == name[j - at - 1]);
    }
    crate::text::lemma_last_position_is(path, '/', Some(at));
    assert(path.take(at) =~= directory);
}

impl Request {
    /// Makes the request that follows `request` after the redirect
    /// `response`.
    pub fn build_request_from_redirect_response(request: HTTPRequest, response: &HTTPResponse) -> (out:
        Result<HTTPRequest, FetchError>)
        ensures
            match out {
                Ok(next) => redirected(request@, response@.headers) == Ok::<
                    RequestView,
                    FetchError,
                >(next@),
                Err(e) => redirected(request@, response@.headers) == Err::<
                    RequestView,
                    FetchError,
                >(e),
            },
    {
        let location = match response.headers.get(Header::Location.as_str()) {
            Some(l) => l,
            None => {
                return Err(FetchError::MissingLocation);
            },
        };
        let chars = chars_of(location.as_str());
        let mut new_request = request;
        if starts_with(chars.as_slice(), Scheme::HTTP.as_str()) {
            match URI::parse(location) {
                Ok(url) => {
                    new_request.url = url;
                    Ok(new_request)
                },
                Err(e) => Err(e),
            }
        } else {
            let old = chars_of(new_request.url.path.as_str());
            if old.len() == 0 {
                new_request.url.path = location.clone();
            } else {
                let end = match rfind_char(old.as_slice(), '/') {
                    Some(i) => i,
                    None => 0,
                };
                let mut path = string_of(slice_subrange(old.as_slice(), 0, end));
                path.append(location.as_str());
                proof {
                    assert(path@ =~= directory_of(request@.url.path) + location@);
                }
                new_request.url.path = path;
            }
            Ok(new_request)
        }
    }
}

} // verus!
