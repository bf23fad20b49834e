//! Telling HTTP/1, HTTP/2 and other protocols apart by the first bytes of a
//! connection.
use crate::http_parser::ReadEvent;
use crate::text::{split_words, utf8_text, views, words};
use vstd::prelude::*;
use vstd::utf8::{decode_utf8, valid_utf8};

verus! {

/// The most bytes that are read while the protocol is being told.
pub const MAX_DETECTION_BYTES: usize = 8192;

pub const READ_CHUNK_SIZE: usize = 1024;

/// The protocol of a connection.
#[derive(Debug, Clone)]
pub enum ProtocolType {
    Http { method: String, path: String },
    Http2,
    Tcp,
}

/// What a `ProtocolType` holds.
pub enum ProtocolView {
    Http { method: Seq<char>, path: Seq<char> },
    Http2,
    Tcp,
}

impl View for ProtocolType {
    type V = ProtocolView;

    open spec fn view(&self) -> ProtocolView {
        match self {
            ProtocolType::Http { method, path } => ProtocolView::Http {
                method: method@,
                path: path@,
            },
            ProtocolType::Http2 => ProtocolView::Http2,
            ProtocolType::Tcp => ProtocolView::Tcp,
        }
    }
}

/// The outcome of telling the protocol.
pub struct ProtocolDetectionResult {
    pub protocol: ProtocolType,
    pub buffer: Vec<u8>,
    pub timed_out: bool,
}

// ---------------------------------------------------------------------------
// The request line
// ---------------------------------------------------------------------------

/// The number of bytes before the first line end; all of them where there is
/// none.
pub open spec fn line_len(bytes: Seq<u8>) -> nat
    decreases bytes.len(),
{
    if bytes.len() == 0 || bytes[0] == 13 || bytes[0] == 10 {
        0
    } else {
        1 + line_len(bytes.drop_first())
    }
}

/// The first line of the bytes, where it is complete and UTF-8.
pub open spec fn request_line(bytes: Seq<u8>) -> Option<Seq<char>> {
    let n = line_len(bytes) as int;
    if n < bytes.len() && valid_utf8(bytes.take(n)) {
        Some(decode_utf8(bytes.take(n)))
    } else {
        None
    }
}

/// The first line of a buffer.
pub fn get_request_line(buffer: &[u8]) -> (r: Option<String>)
    ensures
        match r {
            Some(t) => request_line(buffer@) == Some(t@),
            None => request_line(buffer@) is None,
        },
{
    let mut line: Vec<u8> = Vec::new();
    let mut i: usize = 0;
    proof {
        assert(buffer@.skip(0) =~= buffer@);
    }
    while i < buffer.len() && buffer[i] != 13 && buffer[i] != 10
        invariant
            i <= buffer@.len(),
            line@ == buffer@.take(i as int),
            line_len(buffer@) == i + line_len(buffer@.skip(i as int)),
        decreases buffer@.len() - i,
    {
        proof {
            assert(buffer@.skip(i as int).drop_first() =~= buffer@.skip(i as int + 1));
            assert(buffer@.take(i as int + 1) =~= buffer@.take(i as int).push(buffer@[i as int]));
        }
        line.push(buffer[i]);
        i = i + 1;
    }
    if i < buffer.len() {
        match utf8_text(line) {
            Ok(text) => Some(text),
            Err(_) => None,
        }
    } else {
        None
    }
}

/// The method and the path of a request line.
pub open spec fn line_parts(line: Seq<char>) -> Option<(Seq<char>, Seq<char>)> {
    let w = words(line);
    if w.len() >= 2 {
        Some((w[0], w[1]))
    } else {
        None
    }
}

/// The method and the path of a request line.
pub fn parse_request_line(line: &str) -> (r: Option<(String, String)>)
    ensures
        match r {
            Some(p) => line_parts(line@) == Some((p.0@, p.1@)),
            None => line_parts(line@) is None,
        },
{
    let parts: Vec<String> = split_words(line);
    proof {
        assert(views(parts@).len() == parts@.len());
    }
    if parts.len() >= 2 {
        proof {
            assert(views(parts@)[0] == parts@[0]@);
            assert(views(parts@)[1] == parts@[1]@);
        }
        Some((parts[0].clone(), parts[1].clone()))
    } else {
        None
    }
}

/// Every character is an ASCII capital letter.
pub open spec fn all_upper(s: Seq<char>) -> bool {
    forall|i: int| 0 <= i < s.len() ==> 'A' <= #[trigger] s[i] <= 'Z'
}

fn is_all_upper(s: &str) -> (r: bool)
    ensures
        r == all_upper(s@),
{
    let chars: Vec<char> = crate::text::chars_of(s);
    let mut i: usize = 0;
    while i < chars.len()
        invariant
            chars@ == s@,
            i <= chars@.len(),
            forall|k: int| 0 <= k < i ==> 'A' <= #[trigger] chars@[k] <= 'Z',
        decreases chars@.len() - i,
    {
        if chars[i] < 'A' || chars[i] > 'Z' {
            return false;
        }
        i = i + 1;
    }
    true
}

/// The HTTP/1 request that the bytes begin with.
pub open spec fn http_start(bytes: Seq<u8>) -> Option<ProtocolView> {
    match request_line(bytes) {
        Some(line) => match line_parts(line) {
            Some((method, path)) => if all_upper(method) {
                Some(ProtocolView::Http { method, path })
            } else {
                None
            },
            None => None,
        },
        None => None,
    }
}

/// Whether a buffer begins with an HTTP/1 request, and with which.
pub fn detect_http_in_buffer(buffer: &[u8]) -> (r: Option<ProtocolType>)
    ensures
        match r {
            Some(p) => http_start(buffer@) == Some(p@),
            None => http_start(buffer@) is None,
        },
{
    if let Some(line) = get_request_line(buffer) {
        if let Some((method, path)) = parse_request_line(line.as_str()) {
            if is_all_upper(method.as_str()) {
                return Some(ProtocolType::Http { method, path });
            }
        }
    }
    None
}

// ---------------------------------------------------------------------------
// Reading and classifying
// ---------------------------------------------------------------------------

/// The bytes that an HTTP/2 client sends first: `PRI * HTTP/2.0`, two line
/// ends, `SM` and two line ends.
pub open spec fn http2_preface() -> Seq<u8> {
    seq![
        80u8, 82, 73, 32, 42, 32, 72, 84, 84, 80, 47, 50, 46, 48, 13, 10, 13, 10, 83, 77, 13, 10,
        13, 10,
    ]
}

fn preface() -> (r: Vec<u8>)
    ensures
        r@ == http2_preface(),
{
    let r: Vec<u8> = vec![
        80, 82, 73, 32, 42, 32, 72, 84, 84, 80, 47, 50, 46, 48, 13, 10, 13, 10, 83, 77, 13, 10, 13,
        10,
    ];
    proof {
        assert(r@ =~= http2_preface());
    }
    r
}

/// The bytes begin with the HTTP/2 preface or are a beginning of it.
pub open spec fn http2_start(bytes: Seq<u8>) -> bool {
    http2_preface().is_prefix_of(bytes) || (bytes.len() < http2_preface().len()
        && bytes.is_prefix_of(http2_preface()))
}

fn is_http2_start(buffer: &[u8]) -> (r: bool)
    ensures
        r == http2_start(buffer@),
{
    let marker: Vec<u8> = preface();
    let n: usize = if buffer.len() < marker.len() {
        buffer.len()
    } else {
        marker.len()
    };
    let mut i: usize = 0;
    while i < n
        invariant
            marker@ == http2_preface(),
            n <= buffer@.len(),
            n <= marker@.len(),
            n == buffer@.len() || n == marker@.len(),
            i <= n,
            forall|k: int| 0 <= k < i ==> buffer@[k] == marker@[k],
        decreases n - i,
    {
        if buffer[i] != marker[i] {
            proof {
                if http2_preface().is_prefix_of(buffer@) {
                    assert(buffer@.subrange(0, marker@.len() as int)[i as int]
                        == marker@[i as int]);
                }
                if buffer@.is_prefix_of(http2_preface()) {
                    assert(marker@.subrange(0, buffer@.len() as int)[i as int]
                        == buffer@[i as int]);
                }
            }
            return false;
        }
        i = i + 1;
    }
    proof {
        if n == marker@.len() {
            assert(http2_preface() =~= buffer@.subrange(0, n as int));
        } else {
            assert(buffer@ =~= http2_preface().subrange(0, n as int));
        }
    }
    true
}

/// What to do next while the protocol is being told.
#[derive(Debug, Clone, Copy, PartialEq, Eq, Structural)]
pub enum DetectStep {
    /// Read at most so many bytes.
    Read(usize),
    /// The bytes at hand decide.
    Decide,
}

/// The bytes hold a line feed.
pub open spec fn has_line_feed(bytes: Seq<u8>) -> bool {
    exists|i: int| 0 <= i < bytes.len() && #[trigger] bytes[i] == 10
}

/// The step after which a buffer holds the given bytes.
pub open spec fn detect_step(buffer: Seq<u8>) -> DetectStep {
    if has_line_feed(buffer) || buffer.len() >= MAX_DETECTION_BYTES {
        DetectStep::Decide
    } else if MAX_DETECTION_BYTES - buffer.len() < READ_CHUNK_SIZE {
        DetectStep::Read((MAX_DETECTION_BYTES - buffer.len()) as usize)
    } else {
        DetectStep::Read(READ_CHUNK_SIZE)
    }
}

fn contains_line_feed(bytes: &[u8]) -> (r: bool)
    ensures
        r == has_line_feed(bytes@),
{
    let mut i: usize = 0;
    while i < bytes.len()
        invariant
            i <= bytes@.len(),
            forall|k: int| 0 <= k < i ==> #[trigger] bytes@[k] != 10,
        decreases bytes@.len() - i,
    {
        if bytes[i] == 10 {
            return true;
        }
        i = i + 1;
    }
    false
}

/// Starts to tell the protocol of a connection of which nothing was read.
pub fn start_detection() -> (r: DetectStep)
    ensures
        r == detect_step(Seq::<u8>::empty()),
{
    DetectStep::Read(READ_CHUNK_SIZE)
}

/// Goes on after a read. No bytes mean that the connection was closed.
pub fn continue_detection(buffer: &mut Vec<u8>, event: ReadEvent) -> (r: (DetectStep, bool))
    ensures
        match event {
            ReadEvent::TimedOut => r == (DetectStep::Decide, true) && final(buffer)@ == old(
                buffer)@,
            ReadEvent::Data(chunk) => final(buffer)@ == old(buffer)@ + chunk@ && !r.1 && r.0 == (
            if chunk@.len() == 0 {
                DetectStep::Decide
            } else {
                detect_step(final(buffer)@)
            }),
        },
{
    match event {
        ReadEvent::TimedOut => (DetectStep::Decide, true),
        ReadEvent::Data(chunk) => {
            let mut chunk = chunk;
            let closed: bool = chunk.is_empty();
            let ghost before = buffer@;
            let ghost added = chunk@;
            buffer.append(&mut chunk);
            proof {
                assert(buffer@ =~= before + added);
            }
            let len: usize = buffer.len();
            let step = if closed || contains_line_feed(buffer.as_slice()) || len
                >= MAX_DETECTION_BYTES {
                DetectStep::Decide
            } else if MAX_DETECTION_BYTES - len < READ_CHUNK_SIZE {
                DetectStep::Read(MAX_DETECTION_BYTES - len)
            } else {
                DetectStep::Read(READ_CHUNK_SIZE)
            };
            (step, false)
        },
    }
}

/// The protocol that the first bytes of a connection show.
pub open spec fn protocol_of(bytes: Seq<u8>) -> ProtocolView {
    if bytes.len() == 0 {
        ProtocolView::Tcp
    } else if http2_start(bytes) {
        ProtocolView::Http2
    } else {
        match http_start(bytes) {
            Some(p) => p,
            None => ProtocolView::Tcp,
        }
    }
}

/// Tells the protocol by the first bytes of a connection.
pub fn classify(buffer: &[u8]) -> (r: ProtocolType)
    ensures
        r@ == protocol_of(buffer@),
{
    if buffer.len() == 0 {
        return ProtocolType::Tcp;
    }
    if is_http2_start(buffer) {
        return ProtocolType::Http2;
    }
    match detect_http_in_buffer(buffer) {
        Some(p) => p,
        None => ProtocolType::Tcp,
    }
}

/// What came of reading the rest of an HTTP/1 head.
#[derive(Debug, Clone, Copy, PartialEq, Eq, Structural)]
pub enum HeadOutcome {
    /// It was not read, for the protocol is another one.
    NotRead,
    Complete,
    TimedOut,
    /// The head is too large.
    InvalidData,
    /// The connection was closed inside the head.
    UnexpectedEof,
    /// The connection failed.
    Failed,
}

/// Concludes the detection after the head was read, where there is one.
/// A head that is cut short or too large is no error here; a failed
/// connection is.
pub fn finish_detection(
    protocol: ProtocolType,
    buffer: Vec<u8>,
    timed_out: bool,
    head: HeadOutcome,
) -> (r: Option<ProtocolDetectionResult>)
    ensures
        (r is None) == (head == HeadOutcome::Failed),
        r matches Some(d) ==> d.protocol == protocol && d.buffer == buffer && d.timed_out == (
        timed_out || head == HeadOutcome::TimedOut),
{
    match head {
        HeadOutcome::Failed => None,
        HeadOutcome::TimedOut => Some(
            ProtocolDetectionResult { protocol, buffer, timed_out: true },
        ),
        _ => Some(ProtocolDetectionResult { protocol, buffer, timed_out }),
    }
}

/// What begins with a complete HTTP/2 preface is taken for HTTP/2, whatever
/// follows.
pub proof fn law_preface_is_http2(rest: Seq<u8>)
    ensures
        protocol_of(http2_preface() + rest) is Http2,
{
    assert(http2_preface() =~= (http2_preface() + rest).subrange(
        0,
        http2_preface().len() as int,
    ));
}

proof fn lemma_line_len(bytes: Seq<u8>)
    ensures
        line_len(bytes) <= bytes.len(),
        forall|i: int|
            0 <= i < line_len(bytes) ==> #[trigger] bytes[i] != 13 && bytes[i] != 10,
        line_len(bytes) < bytes.len() ==> bytes[line_len(bytes) as int] == 13
            || bytes[line_len(bytes) as int] == 10,
    decreases bytes.len(),
{
    if bytes.len() > 0 && bytes[0] != 13 && bytes[0] != 10 {
        let rest = bytes.drop_first();
        lemma_line_len(rest);
        assert forall|i: int| 0 <= i < line_len(bytes) implies #[trigger] bytes[i] != 13
            && bytes[i] != 10 by {
            if i > 0 {
                assert(rest[i - 1] == bytes[i]);
            }
        }
    }
}

/// The first line of the bytes ends before the byte at `n`.
pub open spec fn first_line_ends_at(bytes: Seq<u8>, n: int) -> bool {
    &&& 0 <= n < bytes.len()
    &&& bytes[n] == 13 || bytes[n] == 10
    &&& forall|i: int| 0 <= i < n ==> #[trigger] bytes[i] != 13 && bytes[i] != 10
}

/// The bytes have as much of the line `PRI * HTTP/2.0`, the empty line, `SM`
/// and the empty line behind it as fits.
pub open spec fn begins_http2(bytes: Seq<u8>) -> bool {
    let marker = seq![
        80u8, 82, 73, 32, 42, 32, 72, 84, 84, 80, 47, 50, 46, 48, 13, 10, 13, 10, 83, 77, 13, 10,
        13, 10,
    ];
    forall|i: int| 0 <= i < bytes.len() && i < 24 ==> #[trigger] bytes[i] == marker[i]
}

/// The bytes begin with a complete line of text of at least two words, the
/// first of which is all capital letters.
pub open spec fn begins_http1(bytes: Seq<u8>, method: Seq<char>, path: Seq<char>) -> bool {
    exists|n: int| #[trigger]
        first_line_ends_at(bytes, n) && valid_utf8(bytes.take(n)) && words(
            decode_utf8(bytes.take(n)),
        ).len() >= 2 && method == words(decode_utf8(bytes.take(n)))[0] && path == words(
            decode_utf8(bytes.take(n)),
        )[1] && forall|i: int| 0 <= i < method.len() ==> 'A' <= #[trigger] method[i] <= 'Z'
}

proof fn lemma_begins_http2(bytes: Seq<u8>)
    ensures
        begins_http2(bytes) == http2_start(bytes),
{
    let marker = http2_preface();
    assert(marker.len() == 24);
    if begins_http2(bytes) {
        if bytes.len() < 24 {
            assert(bytes =~= marker.subrange(0, bytes.len() as int));
        } else {
            assert(marker =~= bytes.subrange(0, 24));
        }
    }
    if http2_start(bytes) {
        assert forall|i: int| 0 <= i < bytes.len() && i < 24 implies #[trigger] bytes[i]
            == marker[i] by {
            if marker.is_prefix_of(bytes) {
                assert(bytes.subrange(0, 24)[i] == marker[i]);
            } else {
                assert(marker.subrange(0, bytes.len() as int)[i] == bytes[i]);
            }
        }
    }
}

proof fn lemma_begins_http1(bytes: Seq<u8>, method: Seq<char>, path: Seq<char>)
    ensures
        begins_http1(bytes, method, path) <==> http_start(bytes) == Some(
            ProtocolView::Http { method, path },
        ),
{
    lemma_line_len(bytes);
    let n = line_len(bytes) as int;
    if http_start(bytes) == Some(ProtocolView::Http { method, path }) {
        assert(first_line_ends_at(bytes, n));
    }
    if begins_http1(bytes, method, path) {
        let m = choose|m: int| #[trigger]
            first_line_ends_at(bytes, m) && valid_utf8(bytes.take(m)) && words(
                decode_utf8(bytes.take(m)),
            ).len() >= 2 && method == words(decode_utf8(bytes.take(m)))[0] && path == words(
                decode_utf8(bytes.take(m)),
            )[1] && forall|i: int| 0 <= i < method.len() ==> 'A' <= #[trigger] method[i] <= 'Z';
        assert(m == n) by {
            if m < n {
                assert(bytes[m] != 13 && bytes[m] != 10);
            }
            if n < m {
                assert(bytes[n] != 13 && bytes[n] != 10);
            }
        }
    }
}

/// A connection is taken for HTTP/2 just where it has sent something, and only
/// what an HTTP/2 client sends first; else for HTTP/1 just where it begins
/// with a request line, with that method and that path; and else for neither.
pub proof fn law_protocol_is_told(buffer: &[u8], r: ProtocolType)
    requires
        call_ensures(classify, (buffer,), r),
    ensures
        (r is Http2) == (buffer@.len() > 0 && begins_http2(buffer@)),
        r matches ProtocolType::Http { method, path } ==> !begins_http2(buffer@) && begins_http1(
            buffer@,
            method@,
            path@,
        ),
        r is Tcp ==> buffer@.len() == 0 || !begins_http2(buffer@) && forall|
            method: Seq<char>,
            path: Seq<char>,
        | !#[trigger] begins_http1(buffer@, method, path),
{
    assert(r@ == protocol_of(buffer@));
    lemma_begins_http2(buffer@);
    match r {
        ProtocolType::Http { method, path } => {
            lemma_begins_http1(buffer@, method@, path@);
        },
        ProtocolType::Tcp => {
            assert forall|method: Seq<char>, path: Seq<char>|
                buffer@.len() > 0 implies !#[trigger] begins_http1(buffer@, method, path) by {
                lemma_begins_http1(buffer@, method, path);
            }
        },
        ProtocolType::Http2 => {},
    }
}

/// Every read adds its bytes to those that were read before, and none is lost.
/// The bytes decide once they hold a line, fill 8192 bytes, or the connection
/// is closed or its time has run out; else more is read, a kilobyte at most and
/// never beyond that limit.
pub proof fn law_detection_reads_on(buffer: &mut Vec<u8>, event: ReadEvent, r: (DetectStep, bool))
    requires
        call_ensures(continue_detection, (buffer, event), r),
    ensures
        r.1 == (event is TimedOut),
        match event {
            ReadEvent::TimedOut => final(buffer)@ == old(buffer)@ && r.0 == DetectStep::Decide,
            ReadEvent::Data(chunk) => {
                let all = final(buffer)@;
                let enough = chunk@.len() == 0 || all.len() >= 8192 || exists|i: int|
                    0 <= i < all.len() && #[trigger] all[i] == 10;
                &&& all == old(buffer)@ + chunk@
                &&& (r.0 == DetectStep::Decide) == enough
                &&& r.0 matches DetectStep::Read(n) ==> 0 < n <= 1024 && all.len() + n <= 8192 && (n
                    == 1024 || all.len() + n == 8192)
            },
        },
{
}

/// Detection fails just where the connection did. Else it hands on all that was
/// read with the protocol that was told, and says whether time ran out.
pub proof fn law_detection_hands_on(
    protocol: ProtocolType,
    buffer: Vec<u8>,
    timed_out: bool,
    head: HeadOutcome,
    r: Option<ProtocolDetectionResult>,
)
    requires
        call_ensures(finish_detection, (protocol, buffer, timed_out, head), r),
    ensures
        r is None <==> head is Failed,
        r matches Some(d) ==> d.buffer@ == buffer@ && d.protocol@ == protocol@ && (d.timed_out
            <==> timed_out || head is TimedOut),
{
}

/// Detection starts by reading.
pub proof fn law_detection_starts_by_reading(r: DetectStep)
    requires
        call_ensures(start_detection, (), r),
    ensures
        r matches DetectStep::Read(n) && 0 < n <= 8192,
{
}

} // verus!
