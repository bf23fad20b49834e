//! HTTP/1 requests: parsing, reading headers piece by piece, header lookup.
use crate::text::{
    bounded_value, concat, lossy_text, parse_unsigned, same, to_lowercase, unicode_lower,
    utf8_text_lossy,
};
use vstd::prelude::*;

verus! {

/// A parsed HTTP request.
#[derive(Debug, Clone)]
pub struct ParsedHttpRequest {
    pub method: String,
    pub path: String,
    pub headers: Vec<(String, String)>,
}

/// A parsed request and the offset at which its body starts.
pub type HttpParseResult = (ParsedHttpRequest, usize);

pub const MAX_HEADER_SIZE: usize = 8192;

pub const READ_CHUNK_SIZE: usize = 1024;

/// The number of headers that a request may have.
pub const MAX_HEADERS: usize = 64;

/// Outcome of reading HTTP headers with an optional deadline.
#[derive(Debug, Clone, Copy, PartialEq, Eq, Structural)]
pub enum HeaderReadStatus {
    Complete,
    TimedOut,
}

// ---------------------------------------------------------------------------
// Parsing
// ---------------------------------------------------------------------------

/// A header as it stands in a request.
#[derive(Debug)]
pub struct RawHeader {
    pub name: String,
    pub value: Vec<u8>,
}

/// The parts of a request as they stand in the buffer. The length of the head
/// is missing where the buffer ends inside it.
#[derive(Debug)]
pub struct RawRequest {
    pub head_len: Option<usize>,
    pub method: Option<String>,
    pub path: Option<String>,
    pub version: Option<u8>,
    pub headers: Vec<RawHeader>,
}

/// What a `RawRequest` holds.
pub struct RawRequestView {
    pub head_len: Option<usize>,
    pub method: Option<Seq<char>>,
    pub path: Option<Seq<char>>,
    pub version: Option<u8>,
    pub headers: Seq<(Seq<char>, Seq<u8>)>,
}

/// What each raw header holds.
pub open spec fn raw_views(headers: Seq<RawHeader>) -> Seq<(Seq<char>, Seq<u8>)> {
    Seq::new(headers.len(), |i: int| (headers[i].name@, headers[i].value@))
}

impl View for RawRequest {
    type V = RawRequestView;

    open spec fn view(&self) -> RawRequestView {
        RawRequestView {
            head_len: self.head_len,
            method: crate::text::opt_text(self.method),
            path: crate::text::opt_text(self.path),
            version: self.version,
            headers: raw_views(self.headers@),
        }
    }
}

/// What `httparse` finds in a buffer, with room for so many headers; the text
/// of its error where it refuses the buffer.
pub uninterp spec fn raw_request(buffer: Seq<u8>, max_headers: usize) -> Result<
    RawRequestView,
    Seq<char>,
>;

/// What follows the first `n` bytes of a buffer does not change what is found
/// in it.
pub open spec fn body_is_ignored(buffer: Seq<u8>, n: int, max_headers: usize) -> bool {
    forall|rest: Seq<u8>| #[trigger]
        raw_request(buffer.take(n) + rest, max_headers) == raw_request(buffer, max_headers)
}

/// `httparse::Request::parse`. It finds no more headers than there is room
/// for. The head that it finds lies within the buffer, and it is read from
/// left to right up to its end: what follows the head does not matter.
#[verifier::external_body]
pub(crate) fn parse_raw_request(buffer: &[u8], max_headers: usize) -> (r: Result<RawRequest, String>)
    requires
        max_headers <= MAX_HEADERS,
    ensures
        match r {
            Ok(q) => raw_request(buffer@, max_headers) == Ok::<RawRequestView, Seq<char>>(q@),
            Err(e) => raw_request(buffer@, max_headers) == Err::<RawRequestView, Seq<char>>(e@),
        },
        r matches Ok(q) ==> q.headers@.len() <= max_headers,
        r matches Ok(q) && q.head_len matches Some(n) ==> n <= buffer@.len() && body_is_ignored(
            buffer@,
            n as int,
            max_headers,
        ),
{
    let mut headers = vec![httparse::EMPTY_HEADER; max_headers];
    let mut req = httparse::Request::new(&mut headers);
    let status = req.parse(buffer).map_err(|e| e.to_string())?;
    Ok(RawRequest {
        head_len: match status {
            httparse::Status::Complete(n) => Some(n),
            httparse::Status::Partial => None,
        },
        method: req.method.map(str::to_string),
        path: req.path.map(str::to_string),
        version: req.version,
        headers: req.headers.iter().map(|h| RawHeader { name: h.name.to_string(), value: h.value.to_vec() }).collect(),
    })
}

/// Why a buffer is no complete request.
#[derive(Debug)]
pub enum HttpParseError {
    Parse(String),
    Incomplete,
    MissingMethod,
    MissingPath,
}

/// What an `HttpParseError` holds.
pub enum HttpParseErrorView {
    Parse(Seq<char>),
    Incomplete,
    MissingMethod,
    MissingPath,
}

impl View for HttpParseError {
    type V = HttpParseErrorView;

    open spec fn view(&self) -> HttpParseErrorView {
        match self {
            HttpParseError::Parse(t) => HttpParseErrorView::Parse(t@),
            HttpParseError::Incomplete => HttpParseErrorView::Incomplete,
            HttpParseError::MissingMethod => HttpParseErrorView::MissingMethod,
            HttpParseError::MissingPath => HttpParseErrorView::MissingPath,
        }
    }
}

impl HttpParseError {
    /// The text of the error.
    pub open spec fn text(&self) -> Seq<char> {
        match self {
            HttpParseError::Parse(t) => "HTTP parse error: "@ + t@,
            HttpParseError::Incomplete => "Incomplete HTTP request"@,
            HttpParseError::MissingMethod => "Missing HTTP method"@,
            HttpParseError::MissingPath => "Missing HTTP path"@,
        }
    }

    pub fn message(&self) -> (r: String)
        ensures
            r@ == self.text(),
    {
        match self {
            HttpParseError::Parse(t) => concat("HTTP parse error: ", t.as_str()),
            HttpParseError::Incomplete => "Incomplete HTTP request".to_owned(),
            HttpParseError::MissingMethod => "Missing HTTP method".to_owned(),
            HttpParseError::MissingPath => "Missing HTTP path".to_owned(),
        }
    }
}

/// A list of headers by their characters.
pub open spec fn header_views(headers: Seq<(String, String)>) -> Seq<(Seq<char>, Seq<char>)> {
    Seq::new(headers.len(), |i: int| (headers[i].0@, headers[i].1@))
}

/// The headers of a request as text.
pub open spec fn lossy_headers(headers: Seq<(Seq<char>, Seq<u8>)>) -> Seq<(Seq<char>, Seq<char>)> {
    Seq::new(headers.len(), |i: int| (headers[i].0, lossy_text(headers[i].1)))
}

/// `r` is what the parts of a request come to.
pub open spec fn request_from(
    parts: RawRequestView,
    r: Result<HttpParseResult, HttpParseErrorView>,
) -> bool {
    match parts.head_len {
        None => r == Err::<HttpParseResult, HttpParseErrorView>(HttpParseErrorView::Incomplete),
        Some(body_start) => match (parts.method, parts.path) {
            (None, _) => r == Err::<HttpParseResult, HttpParseErrorView>(
                HttpParseErrorView::MissingMethod,
            ),
            (Some(_), None) => r == Err::<HttpParseResult, HttpParseErrorView>(
                HttpParseErrorView::MissingPath,
            ),
            (Some(method), Some(path)) => r matches Ok((req, at)) && at == body_start
                && req.method@ == method && req.path@ == path && header_views(req.headers@)
                == lossy_headers(parts.headers),
        },
    }
}

/// A parse result with the error by what it holds.
pub open spec fn parse_outcome(r: Result<HttpParseResult, HttpParseError>) -> Result<
    HttpParseResult,
    HttpParseErrorView,
> {
    match r {
        Ok(p) => Ok(p),
        Err(e) => Err(e@),
    }
}

/// Raw headers as text. Bytes that are no UTF-8 are replaced.
pub fn header_map_to_vec(headers: &Vec<RawHeader>) -> (r: Vec<(String, String)>)
    ensures
        header_views(r@) == lossy_headers(raw_views(headers@)),
{
    let mut out: Vec<(String, String)> = Vec::new();
    let mut i: usize = 0;
    while i < headers.len()
        invariant
            i <= headers@.len(),
            out@.len() == i,
            forall|k: int|
                #![trigger out@[k]]
                0 <= k < i ==> out@[k].0@ == headers@[k].name@ && out@[k].1@ == lossy_text(
                    headers@[k].value@,
                ),
        decreases headers@.len() - i,
    {
        let name: String = headers[i].name.clone();
        out.push((name, utf8_text_lossy(headers[i].value.as_slice())));
        i = i + 1;
    }
    proof {
        assert(header_views(out@) =~= lossy_headers(raw_views(headers@)));
    }
    out
}

/// Builds a request from its parts.
pub fn request_from_parts(parts: RawRequest) -> (r: Result<HttpParseResult, HttpParseError>)
    ensures
        request_from(parts@, parse_outcome(r)),
{
    let body_start: usize = match parts.head_len {
        Some(n) => n,
        None => return Err(HttpParseError::Incomplete),
    };
    let method: String = match parts.method {
        Some(m) => m,
        None => return Err(HttpParseError::MissingMethod),
    };
    let path: String = match parts.path {
        Some(p) => p,
        None => return Err(HttpParseError::MissingPath),
    };
    let headers: Vec<(String, String)> = header_map_to_vec(&parts.headers);
    Ok((ParsedHttpRequest { method, path, headers }, body_start))
}

/// `r` is what the bytes of a buffer come to.
pub open spec fn is_request_in(
    buffer: Seq<u8>,
    r: Result<HttpParseResult, HttpParseErrorView>,
) -> bool {
    match raw_request(buffer, MAX_HEADERS) {
        Ok(parts) => request_from(parts, r),
        Err(text) => r == Err::<HttpParseResult, HttpParseErrorView>(
            HttpParseErrorView::Parse(text),
        ),
    }
}

/// Parses an HTTP request from a buffer. The request has at most as many
/// headers as it may have, and what follows its head does not change it.
pub fn parse_http_request_from_buffer(buffer: &[u8]) -> (r: Result<HttpParseResult, HttpParseError>)
    ensures
        is_request_in(buffer@, parse_outcome(r)),
        r matches Ok((request, body_start)) ==> {
            &&& body_start <= buffer@.len()
            &&& request.headers@.len() <= MAX_HEADERS
            &&& body_is_ignored(buffer@, body_start as int, MAX_HEADERS)
        },
{
    match parse_raw_request(buffer, MAX_HEADERS) {
        Ok(parts) => {
            let ghost count = parts.headers@.len();
            let r: Result<HttpParseResult, HttpParseError> = request_from_parts(parts);
            proof {
                if r is Ok {
                    assert(header_views(r->Ok_0.0.headers@).len() == count);
                }
            }
            r
        },
        Err(e) => Err(HttpParseError::Parse(e)),
    }
}

/// The body of a request does not influence how it is read: with other bytes
/// behind the head, the method, the path, the headers and the length of the
/// head are the same.
pub proof fn law_body_does_not_matter(
    buffer: Seq<u8>,
    rest: Seq<u8>,
    a: Result<HttpParseResult, HttpParseErrorView>,
    b: Result<HttpParseResult, HttpParseErrorView>,
)
    requires
        is_request_in(buffer, a),
        a matches Ok((_, n)) && body_is_ignored(buffer, n as int, MAX_HEADERS)
            && is_request_in(buffer.take(n as int) + rest, b),
    ensures
        a matches Ok((x, n)) && b matches Ok((y, m)) && n == m && x.method@ == y.method@ && x.path@
            == y.path@ && header_views(x.headers@) == header_views(y.headers@),
{
}

// ---------------------------------------------------------------------------
// Reading headers
// ---------------------------------------------------------------------------

/// The bytes that end a block of headers stand at `i`.
pub open spec fn marker_at(bytes: Seq<u8>, i: int) -> bool {
    &&& 0 <= i
    &&& i + 4 <= bytes.len()
    &&& bytes[i] == 13
    &&& bytes[i + 1] == 10
    &&& bytes[i + 2] == 13
    &&& bytes[i + 3] == 10
}

/// The bytes hold the end of a block of headers.
pub open spec fn has_marker(bytes: Seq<u8>) -> bool {
    exists|i: int| #[trigger] marker_at(bytes, i)
}

/// Looks for the end of the headers at or after `from`.
fn marker_from(bytes: &[u8], from: usize) -> (r: bool)
    ensures
        r == exists|i: int| from <= i && #[trigger] marker_at(bytes@, i),
{
    let n: usize = bytes.len();
    if n < 4 {
        return false;
    }
    let mut i: usize = from;
    while i <= n - 4
        invariant
            n == bytes@.len(),
            n >= 4,
            from <= i,
            forall|k: int| from <= k < i ==> !marker_at(bytes@, k),
        decreases n - i,
    {
        if bytes[i] == 13 && bytes[i + 1] == 10 && bytes[i + 2] == 13 && bytes[i + 3] == 10 {
            proof {
                assert(marker_at(bytes@, i as int));
            }
            return true;
        }
        i = i + 1;
    }
    false
}

/// Whether the buffer holds a complete block of headers.
pub fn headers_complete(buffer: &[u8]) -> (r: bool)
    ensures
        r == has_marker(buffer@),
{
    let r = marker_from(buffer, 0);
    proof {
        if has_marker(buffer@) {
            let i = choose|i: int| #[trigger] marker_at(buffer@, i);
            assert(0 <= i && marker_at(buffer@, i));
        }
    }
    r
}

/// Why headers cannot be read.
#[derive(Debug, Clone, Copy, PartialEq, Eq, Structural)]
pub enum HeaderReadError {
    UnexpectedEof,
    TooLarge,
}

impl HeaderReadError {
    /// The text of the error.
    pub open spec fn text(&self) -> Seq<char> {
        match self {
            HeaderReadError::UnexpectedEof =>
            "Connection closed before complete HTTP headers received"@,
            HeaderReadError::TooLarge => "HTTP headers exceed maximum size of 8192 bytes"@,
        }
    }

    pub fn message(&self) -> (r: &'static str)
        ensures
            r@ == self.text(),
    {
        match self {
            HeaderReadError::UnexpectedEof =>
            "Connection closed before complete HTTP headers received",
            HeaderReadError::TooLarge => "HTTP headers exceed maximum size of 8192 bytes",
        }
    }
}

/// What to do next while reading headers.
#[derive(Debug, Clone, Copy, PartialEq, Eq, Structural)]
pub enum HeaderStep {
    /// Read at most so many bytes.
    Read(usize),
    /// Stop, with this outcome.
    Done(HeaderReadStatus),
    /// Stop, with this error.
    Failed(HeaderReadError),
}

/// What came of a read.
#[derive(Debug)]
pub enum ReadEvent {
    Data(Vec<u8>),
    TimedOut,
}

/// The step after which a buffer holds the given bytes.
pub open spec fn header_step(buffer: Seq<u8>) -> HeaderStep {
    if has_marker(buffer) {
        HeaderStep::Done(HeaderReadStatus::Complete)
    } else if buffer.len() >= MAX_HEADER_SIZE {
        HeaderStep::Failed(HeaderReadError::TooLarge)
    } else if MAX_HEADER_SIZE - buffer.len() < READ_CHUNK_SIZE {
        HeaderStep::Read((MAX_HEADER_SIZE - buffer.len()) as usize)
    } else {
        HeaderStep::Read(READ_CHUNK_SIZE)
    }
}

fn read_step(len: usize) -> (r: HeaderStep)
    ensures
        r == if len >= MAX_HEADER_SIZE {
            HeaderStep::Failed(HeaderReadError::TooLarge)
        } else if MAX_HEADER_SIZE - len < READ_CHUNK_SIZE {
            HeaderStep::Read((MAX_HEADER_SIZE - len) as usize)
        } else {
            HeaderStep::Read(READ_CHUNK_SIZE)
        },
{
    if len >= MAX_HEADER_SIZE {
        HeaderStep::Failed(HeaderReadError::TooLarge)
    } else if MAX_HEADER_SIZE - len < READ_CHUNK_SIZE {
        HeaderStep::Read(MAX_HEADER_SIZE - len)
    } else {
        HeaderStep::Read(READ_CHUNK_SIZE)
    }
}

/// Starts to read headers into a buffer that may hold some bytes already.
pub fn start_header_read(buffer: &[u8]) -> (r: HeaderStep)
    ensures
        r == header_step(buffer@),
{
    if headers_complete(buffer) {
        HeaderStep::Done(HeaderReadStatus::Complete)
    } else {
        read_step(buffer.len())
    }
}

/// Where a buffer without the end of the headers grows, that end shows in its
/// last three bytes and the new ones, if at all.
pub proof fn law_marker_shows_at_the_seam(before: Seq<u8>, chunk: Seq<u8>, i: int)
    requires
        !has_marker(before),
        marker_at(before + chunk, i),
    ensures
        i + 3 >= before.len(),
{
    if i + 3 < before.len() {
        let all = before + chunk;
        assert(all[i] == before[i]);
        assert(all[i + 1] == before[i + 1]);
        assert(all[i + 2] == before[i + 2]);
        assert(all[i + 3] == before[i + 3]);
        assert(marker_at(before, i));
    }
}

/// Goes on after a read. No bytes mean that the connection was closed. Only
/// the new bytes and the three before them are searched.
pub fn continue_header_read(buffer: &mut Vec<u8>, event: ReadEvent) -> (r: HeaderStep)
    requires
        !has_marker(old(buffer)@),
    ensures
        match event {
            ReadEvent::TimedOut => r == HeaderStep::Done(HeaderReadStatus::TimedOut) && final(buffer)@ == old(buffer)@,
            ReadEvent::Data(chunk) => if chunk@.len() == 0 {
                r == HeaderStep::Failed(HeaderReadError::UnexpectedEof) && final(buffer)@ == old(buffer)@
            } else {
                final(buffer)@ == old(buffer)@ + chunk@ && r == header_step(final(buffer)@)
            },
        },
{
    match event {
        ReadEvent::TimedOut => HeaderStep::Done(HeaderReadStatus::TimedOut),
        ReadEvent::Data(chunk) => {
            if chunk.len() == 0 {
                return HeaderStep::Failed(HeaderReadError::UnexpectedEof);
            }
            let ghost before = buffer@;
            let prev_len: usize = buffer.len();
            let mut chunk = chunk;
            let ghost added = chunk@;
            buffer.append(&mut chunk);
            let search_start: usize = if prev_len >= 3 {
                prev_len - 3
            } else {
                0
            };
            let found: bool = marker_from(buffer.as_slice(), search_start);
            proof {
                assert(buffer@ =~= before + added);
                if has_marker(buffer@) {
                    let i = choose|i: int| #[trigger] marker_at(buffer@, i);
                    law_marker_shows_at_the_seam(before, added, i);
                    assert(search_start <= i && marker_at(buffer@, i));
                }
            }
            if found {
                HeaderStep::Done(HeaderReadStatus::Complete)
            } else {
                read_step(buffer.len())
            }
        },
    }
}

// ---------------------------------------------------------------------------
// Header lookup
// ---------------------------------------------------------------------------

/// The value of the first header whose name in lower case is `target`.
pub open spec fn header_value(headers: Seq<(Seq<char>, Seq<char>)>, target: Seq<char>) -> Option<
    Seq<char>,
>
    decreases headers.len(),
{
    if headers.len() == 0 {
        None
    } else if unicode_lower(headers[0].0) == target {
        Some(headers[0].1)
    } else {
        header_value(headers.drop_first(), target)
    }
}

/// An optional text by its characters.
pub open spec fn opt_ref_text(t: Option<&String>) -> Option<Seq<char>> {
    match t {
        Some(s) => Some(s@),
        None => None,
    }
}

fn find_header<'a>(headers: &'a [(String, String)], target: &str) -> (r: Option<&'a String>)
    ensures
        opt_ref_text(r) == header_value(header_views(headers@), target@),
{
    let ghost all = header_views(headers@);
    let mut i: usize = 0;
    proof {
        assert(all.skip(0) =~= all);
    }
    while i < headers.len()
        invariant
            i <= headers@.len(),
            all == header_views(headers@),
            header_value(all, target@) == header_value(all.skip(i as int), target@),
        decreases headers@.len() - i,
    {
        proof {
            assert(all.skip(i as int)[0] == all[i as int]);
            assert(all.skip(i as int).drop_first() =~= all.skip(i as int + 1));
        }
        let name: String = to_lowercase(headers[i].0.as_str());
        if same(name.as_str(), target) {
            return Some(&headers[i].1);
        }
        i = i + 1;
    }
    None
}

/// The length of the body that the headers announce.
pub fn get_content_length(headers: &[(String, String)]) -> (r: Option<usize>)
    ensures
        match header_value(header_views(headers@), "content-length"@) {
            Some(v) => match bounded_value(v, usize::MAX as nat) {
                Some(n) => r == Some(n as usize),
                None => r is None,
            },
            None => r is None,
        },
{
    match find_header(headers, "content-length") {
        Some(value) => match parse_unsigned(value.as_str(), usize::MAX as u64) {
            Some(n) => Some(n as usize),
            None => None,
        },
        None => None,
    }
}

/// The host that the headers name.
pub fn get_host_header(headers: &[(String, String)]) -> (r: Option<&String>)
    ensures
        opt_ref_text(r) == header_value(header_views(headers@), "host"@),
{
    find_header(headers, "host")
}

/// The value of a header, whatever the case of its name.
pub fn get_header_value<'a>(headers: &'a [(String, String)], header_name: &str) -> (r: Option<
    &'a String,
>)
    ensures
        opt_ref_text(r) == header_value(header_views(headers@), unicode_lower(header_name@)),
{
    let target: String = to_lowercase(header_name);
    find_header(headers, target.as_str())
}

proof fn lemma_header_value(headers: Seq<(Seq<char>, Seq<char>)>, target: Seq<char>)
    ensures
        match header_value(headers, target) {
            Some(v) => exists|i: int|
                0 <= i < headers.len() && unicode_lower((#[trigger] headers[i]).0) == target
                    && headers[i].1 == v && forall|j: int|
                    0 <= j < i ==> unicode_lower((#[trigger] headers[j]).0) != target,
            None => forall|j: int|
                0 <= j < headers.len() ==> unicode_lower((#[trigger] headers[j]).0) != target,
        },
    decreases headers.len(),
{
    if headers.len() > 0 {
        if unicode_lower(headers[0].0) == target {
            assert(headers[0].1 == header_value(headers, target)->0);
        } else {
            let rest = headers.drop_first();
            lemma_header_value(rest, target);
            match header_value(rest, target) {
                Some(v) => {
                    let i = choose|i: int|
                        0 <= i < rest.len() && unicode_lower((#[trigger] rest[i]).0) == target
                            && rest[i].1 == v && forall|j: int|
                            0 <= j < i ==> unicode_lower((#[trigger] rest[j]).0) != target;
                    assert(headers[i + 1] == rest[i]);
                    assert forall|j: int| 0 <= j < i + 1 implies unicode_lower(
                        (#[trigger] headers[j]).0,
                    ) != target by {
                        if j > 0 {
                            assert(rest[j - 1] == headers[j]);
                        }
                    }
                },
                None => {
                    assert forall|j: int| 0 <= j < headers.len() implies unicode_lower(
                        (#[trigger] headers[j]).0,
                    ) != target by {
                        if j > 0 {
                            assert(rest[j - 1] == headers[j]);
                        }
                    }
                },
            }
        }
    }
}

/// `v` is the value of the first header of the list whose name in lower case
/// is `target`; nothing where there is no such header.
pub open spec fn is_first_header(
    headers: Seq<(String, String)>,
    target: Seq<char>,
    v: Option<Seq<char>>,
) -> bool {
    match v {
        Some(t) => exists|i: int|
            0 <= i < headers.len() && unicode_lower((#[trigger] headers[i]).0@) == target
                && headers[i].1@ == t && forall|j: int|
                0 <= j < i ==> unicode_lower((#[trigger] headers[j]).0@) != target,
        None => forall|j: int|
            0 <= j < headers.len() ==> unicode_lower((#[trigger] headers[j]).0@) != target,
    }
}

proof fn lemma_first_header(headers: Seq<(String, String)>, target: Seq<char>)
    ensures
        is_first_header(headers, target, header_value(header_views(headers), target)),
{
    let all = header_views(headers);
    lemma_header_value(all, target);
    assert forall|i: int| 0 <= i < headers.len() implies #[trigger] all[i] == (
        headers[i].0@,
        headers[i].1@,
    ) by {}
    match header_value(all, target) {
        Some(v) => {
            let i = choose|i: int|
                0 <= i < all.len() && unicode_lower((#[trigger] all[i]).0) == target && all[i].1
                    == v && forall|j: int|
                    0 <= j < i ==> unicode_lower((#[trigger] all[j]).0) != target;
            assert forall|j: int| 0 <= j < i implies unicode_lower((#[trigger] headers[j]).0@)
                != target by {
                assert(unicode_lower(all[j].0) != target);
            }
            assert(unicode_lower(headers[i].0@) == target);
        },
        None => {
            assert forall|j: int| 0 <= j < headers.len() implies unicode_lower(
                (#[trigger] headers[j]).0@,
            ) != target by {
                assert(unicode_lower(all[j].0) != target);
            }
        },
    }
}

/// A header is looked up by its name in whatever case, and the first one of
/// that name counts.
pub proof fn law_header_is_looked_up(headers: &[(String, String)], name: &str, r: Option<&String>)
    requires
        call_ensures(get_header_value, (headers, name), r),
    ensures
        is_first_header(
            headers@,
            unicode_lower(name@),
            match r {
                Some(v) => Some(v@),
                None => None,
            },
        ),
{
    lemma_first_header(headers@, unicode_lower(name@));
}

/// The host of a request is the value of its first `host` header.
pub proof fn law_host_is_looked_up(headers: &[(String, String)], r: Option<&String>)
    requires
        call_ensures(get_host_header, (headers,), r),
    ensures
        is_first_header(
            headers@,
            "host"@,
            match r {
                Some(v) => Some(v@),
                None => None,
            },
        ),
{
    lemma_first_header(headers@, "host"@);
}

/// The first header of a name has one value.
pub proof fn lemma_same_first_header(
    headers: Seq<(String, String)>,
    target: Seq<char>,
    value: Option<Seq<char>>,
)
    requires
        is_first_header(headers, target, value),
    ensures
        header_value(header_views(headers), target) == value,
{
    lemma_first_header(headers, target);
    let found = header_value(header_views(headers), target);
    match (found, value) {
        (Some(a), Some(b)) => {
            let i = choose|i: int|
                0 <= i < headers.len() && unicode_lower((#[trigger] headers[i]).0@) == target
                    && headers[i].1@ == a && forall|j: int|
                    0 <= j < i ==> unicode_lower((#[trigger] headers[j]).0@) != target;
            let k = choose|k: int|
                0 <= k < headers.len() && unicode_lower((#[trigger] headers[k]).0@) == target
                    && headers[k].1@ == b && forall|j: int|
                    0 <= j < k ==> unicode_lower((#[trigger] headers[j]).0@) != target;
            if i < k {
                assert(unicode_lower(headers[i].0@) != target);
            }
            if k < i {
                assert(unicode_lower(headers[k].0@) != target);
            }
        },
        (Some(a), None) => {
            let i = choose|i: int|
                0 <= i < headers.len() && unicode_lower((#[trigger] headers[i]).0@) == target
                    && headers[i].1@ == a && forall|j: int|
                    0 <= j < i ==> unicode_lower((#[trigger] headers[j]).0@) != target;
            assert(unicode_lower(headers[i].0@) != target);
        },
        (None, Some(b)) => {
            let k = choose|k: int|
                0 <= k < headers.len() && unicode_lower((#[trigger] headers[k]).0@) == target
                    && headers[k].1@ == b && forall|j: int|
                    0 <= j < k ==> unicode_lower((#[trigger] headers[j]).0@) != target;
            assert(unicode_lower(headers[k].0@) != target);
        },
        (None, None) => {},
    }
}

/// The length of a body is the number that the first `content-length` header
/// writes; nothing where it is none, or where there is no such header.
pub proof fn law_length_is_looked_up(
    headers: &[(String, String)],
    r: Option<usize>,
    value: Option<Seq<char>>,
)
    requires
        call_ensures(get_content_length, (headers,), r),
        is_first_header(headers@, "content-length"@, value),
    ensures
        r == (match value {
            Some(t) => match bounded_value(t, usize::MAX as nat) {
                Some(n) => Some(n as usize),
                None => None,
            },
            None => None,
        }),
{
    lemma_same_first_header(headers@, "content-length"@, value);
}

/// An empty line ends the headers behind the byte at `i`: a carriage return and
/// a newline, twice.
pub open spec fn headers_end_at(bytes: Seq<u8>, i: int) -> bool {
    0 <= i && i + 4 <= bytes.len() && bytes.subrange(i, i + 4) == seq![13u8, 10u8, 13u8, 10u8]
}

proof fn lemma_headers_end(bytes: Seq<u8>)
    ensures
        has_marker(bytes) == exists|i: int| #[trigger] headers_end_at(bytes, i),
{
    let end = seq![13u8, 10u8, 13u8, 10u8];
    if has_marker(bytes) {
        let i = choose|i: int| #[trigger] marker_at(bytes, i);
        assert(bytes.subrange(i, i + 4) =~= end);
        assert(headers_end_at(bytes, i));
    }
    if exists|i: int| #[trigger] headers_end_at(bytes, i) {
        let i = choose|i: int| #[trigger] headers_end_at(bytes, i);
        let part = bytes.subrange(i, i + 4);
        assert(part[0] == 13 && part[1] == 10 && part[2] == 13 && part[3] == 10);
        assert(marker_at(bytes, i));
    }
}

/// The step is the right one for what was read: done just where the headers
/// end in it, failed just where they do not in 8192 bytes, and else to read on,
/// a kilobyte at most and never beyond that limit.
pub open spec fn is_step_of_headers(bytes: Seq<u8>, step: HeaderStep) -> bool {
    let ended = exists|i: int| #[trigger] headers_end_at(bytes, i);
    &&& (step == HeaderStep::Done(HeaderReadStatus::Complete)) == ended
    &&& (step == HeaderStep::Failed(HeaderReadError::TooLarge)) == (!ended && bytes.len() >= 8192)
    &&& (step is Read) == (!ended && bytes.len() < 8192)
    &&& step matches HeaderStep::Read(n) ==> 0 < n <= 1024 && bytes.len() + n <= 8192 && (n == 1024
        || bytes.len() + n == 8192)
}

/// Reading headers starts with what was read already.
pub proof fn law_headers_start_to_be_read(buffer: &[u8], r: HeaderStep)
    requires
        call_ensures(start_header_read, (buffer,), r),
    ensures
        is_step_of_headers(buffer@, r),
{
    lemma_headers_end(buffer@);
}

/// Every read adds its bytes to those that were read before, and none is lost.
/// A connection that closes inside the headers is a failure, and time that has
/// run out ends the reading.
pub proof fn law_headers_are_read_on(buffer: &mut Vec<u8>, event: ReadEvent, r: HeaderStep)
    requires
        !(exists|i: int| #[trigger] headers_end_at(old(buffer)@, i)),
        call_ensures(continue_header_read, (buffer, event), r),
    ensures
        match event {
            ReadEvent::TimedOut => final(buffer)@ == old(buffer)@ && r == HeaderStep::Done(
                HeaderReadStatus::TimedOut,
            ),
            ReadEvent::Data(chunk) => if chunk@.len() == 0 {
                final(buffer)@ == old(buffer)@ && r == HeaderStep::Failed(
                    HeaderReadError::UnexpectedEof,
                )
            } else {
                final(buffer)@ == old(buffer)@ + chunk@ && is_step_of_headers(final(buffer)@, r)
            },
        },
{
    lemma_headers_end(final(buffer)@);
}

/// The parts of a request come to a request just where its head is complete
/// and has a method and a path. The request then has these, the length of the
/// head, and every header in its order, its value as text.
pub proof fn law_request_is_its_parts(
    parts: RawRequest,
    r: Result<HttpParseResult, HttpParseError>,
)
    requires
        call_ensures(request_from_parts, (parts,), r),
    ensures
        match r {
            Ok((request, head_len)) => {
                &&& parts.head_len == Some(head_len)
                &&& parts.method matches Some(m) && m@ == request.method@
                &&& parts.path matches Some(p) && p@ == request.path@
                &&& request.headers@.len() == parts.headers@.len()
                &&& forall|i: int|
                    #![trigger request.headers@[i]]
                    0 <= i < parts.headers@.len() ==> request.headers@[i].0@
                        == parts.headers@[i].name@ && request.headers@[i].1@ == lossy_text(
                        parts.headers@[i].value@,
                    )
            },
            Err(HttpParseError::Incomplete) => parts.head_len is None,
            Err(HttpParseError::MissingMethod) => parts.head_len is Some && parts.method is None,
            Err(HttpParseError::MissingPath) => parts.head_len is Some && parts.method is Some
                && parts.path is None,
            Err(HttpParseError::Parse(_)) => false,
        },
{
    if let Ok((request, head_len)) = r {
        let texts = header_views(request.headers@);
        let raw = raw_views(parts.headers@);
        assert(texts.len() == request.headers@.len() && raw.len() == parts.headers@.len());
        assert forall|i: int|
            #![trigger request.headers@[i]]
            0 <= i < parts.headers@.len() implies request.headers@[i].0@ == parts.headers@[i].name@
            && request.headers@[i].1@ == lossy_text(parts.headers@[i].value@) by {
            assert(texts[i] == lossy_headers(raw)[i]);
        }
    }
}

/// The headers of a request have all come just where an empty line has: two line
/// ends, one behind the other.
pub proof fn law_empty_line_ends_headers(buffer: &[u8], r: bool, head: Seq<u8>, rest: Seq<u8>)
    requires
        call_ensures(headers_complete, (buffer,), r),
    ensures
        buffer@ == head + seq![13u8, 10, 13, 10] + rest ==> r,
        r ==> exists|i: int|
            0 <= i && i + 4 <= buffer@.len() && #[trigger] buffer@.take(i) + seq![
                13u8,
                10,
                13,
                10,
            ] + buffer@.skip(i + 4) == buffer@,
{
    if buffer@ == head + seq![13u8, 10, 13, 10] + rest {
        assert(marker_at(buffer@, head.len() as int));
    }
    if r {
        let i = choose|i: int| #[trigger] marker_at(buffer@, i);
        assert(buffer@.take(i) + seq![13u8, 10, 13, 10] + buffer@.skip(i + 4) =~= buffer@);
    }
}

} // verus!
