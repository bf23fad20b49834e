//! HTTP/1 requests as the sidecar proxy reads them for routing.
use crate::http_parser::{
    body_is_ignored, header_views, parse_raw_request, raw_request, raw_views, HttpParseError, HttpParseErrorView,
    RawHeader, RawRequest, RawRequestView, MAX_HEADERS,
};
use crate::text::{bounded_value, eq_ignore_case, lower, parse_unsigned, utf8_text};
use vstd::prelude::*;
use vstd::utf8::{decode_utf8, valid_utf8};

verus! {

/// A parsed HTTP request with what routing needs of it.
#[derive(Debug)]
pub struct ParsedHttpRequest {
    pub method: String,
    pub path: String,
    pub version: u8,
    pub headers: Vec<(String, String)>,
}

/// The headers whose values are UTF-8, as text.
pub open spec fn utf8_headers(headers: Seq<(Seq<char>, Seq<u8>)>) -> Seq<(Seq<char>, Seq<char>)>
    decreases headers.len(),
{
    if headers.len() == 0 {
        seq![]
    } else if valid_utf8(headers.last().1) {
        utf8_headers(headers.drop_last()).push((headers.last().0, decode_utf8(headers.last().1)))
    } else {
        utf8_headers(headers.drop_last())
    }
}

/// The text of a part that may be missing.
pub open spec fn or_unknown(part: Option<Seq<char>>) -> Seq<char> {
    match part {
        Some(t) => t,
        None => "UNKNOWN"@,
    }
}

/// `r` is what the parts of a request come to.
pub open spec fn routed_request_from(
    parts: RawRequestView,
    r: Result<(ParsedHttpRequest, usize), HttpParseError>,
) -> bool {
    match parts.head_len {
        None => r matches Err(e) && e@ == HttpParseErrorView::Incomplete,
        Some(body_start) => r matches Ok((req, at)) && at == body_start && req.method@
            == or_unknown(parts.method) && req.path@ == or_unknown(parts.path) && req.version == (
        match parts.version {
            Some(v) => v,
            None => 1u8,
        }) && header_views(req.headers@) == utf8_headers(parts.headers),
    }
}

fn text_or_unknown(part: Option<String>) -> (r: String)
    ensures
        r@ == or_unknown(crate::text::opt_text(part)),
{
    match part {
        Some(t) => t,
        None => "UNKNOWN".to_owned(),
    }
}

/// Builds a request from its parts.
pub fn request_from_parts(parts: RawRequest) -> (r: Result<
    (ParsedHttpRequest, usize),
    HttpParseError,
>)
    ensures
        routed_request_from(parts@, r),
{
    let body_start: usize = match parts.head_len {
        Some(n) => n,
        None => return Err(HttpParseError::Incomplete),
    };
    let ghost all = raw_views(parts.headers@);
    let mut headers: Vec<(String, String)> = Vec::new();
    let mut i: usize = 0;
    proof {
        assert(all.take(0) =~= Seq::<(Seq<char>, Seq<u8>)>::empty());
        assert(header_views(headers@) =~= utf8_headers(all.take(0)));
    }
    while i < parts.headers.len()
        invariant
            i <= parts.headers@.len(),
            all == raw_views(parts.headers@),
            header_views(headers@) == utf8_headers(all.take(i as int)),
        decreases parts.headers@.len() - i,
    {
        let ghost before = headers@;
        proof {
            assert(all.take(i as int + 1).drop_last() =~= all.take(i as int));
            assert(all.take(i as int + 1).last() == all[i as int]);
        }
        let value: Vec<u8> = parts.headers[i].value.clone();
        proof {
            assert(value@ =~= parts.headers@[i as int].value@);
        }
        if let Ok(text) = utf8_text(value) {
            let name: String = parts.headers[i].name.clone();
            headers.push((name, text));
            proof {
                assert(header_views(headers@) =~= header_views(before).push((name@, text@)));
            }
        }
        i = i + 1;
    }
    proof {
        assert(all.take(all.len() as int) =~= all);
    }
    Ok(
        (
            ParsedHttpRequest {
                method: text_or_unknown(parts.method),
                path: text_or_unknown(parts.path),
                version: match parts.version {
                    Some(v) => v,
                    None => 1,
                },
                headers,
            },
            body_start,
        ),
    )
}

proof fn lemma_utf8_headers_len(headers: Seq<(Seq<char>, Seq<u8>)>)
    ensures
        utf8_headers(headers).len() <= headers.len(),
    decreases headers.len(),
{
    if headers.len() > 0 {
        lemma_utf8_headers_len(headers.drop_last());
    }
}

/// `r` is what the bytes of a buffer come to.
pub open spec fn is_routed_request_in(
    buffer: Seq<u8>,
    r: Result<(ParsedHttpRequest, usize), HttpParseError>,
) -> bool {
    match raw_request(buffer, MAX_HEADERS) {
        Ok(parts) => routed_request_from(parts, r),
        Err(text) => r matches Err(e) && e@ == HttpParseErrorView::Parse(text),
    }
}

/// Parses an HTTP request from a buffer. The request has at most as many
/// headers as it may have, and what follows its head does not change it.
pub fn parse_http_request_from_buffer(buffer: &[u8]) -> (r: Result<
    (ParsedHttpRequest, usize),
    HttpParseError,
>)
    ensures
        is_routed_request_in(buffer@, r),
        r matches Ok((request, body_start)) ==> {
            &&& body_start <= buffer@.len()
            &&& request.headers@.len() <= MAX_HEADERS
            &&& body_is_ignored(buffer@, body_start as int, MAX_HEADERS)
        },
{
    match parse_raw_request(buffer, MAX_HEADERS) {
        Ok(parts) => {
            let ghost all = raw_views(parts.headers@);
            let r: Result<(ParsedHttpRequest, usize), HttpParseError> = request_from_parts(parts);
            proof {
                lemma_utf8_headers_len(all);
                if r is Ok {
                    let headers = r->Ok_0.0.headers@;
                    assert(header_views(headers).len() == headers.len());
                }
            }
            r
        },
        Err(e) => Err(HttpParseError::Parse(e)),
    }
}

/// The body of a request does not influence how it is read for routing.
pub proof fn law_routed_body_does_not_matter(
    buffer: Seq<u8>,
    rest: Seq<u8>,
    a: Result<(ParsedHttpRequest, usize), HttpParseError>,
    b: Result<(ParsedHttpRequest, usize), HttpParseError>,
)
    requires
        is_routed_request_in(buffer, a),
        a matches Ok((_, n)) && body_is_ignored(buffer, n as int, MAX_HEADERS)
            && is_routed_request_in(buffer.take(n as int) + rest, b),
    ensures
        a matches Ok((x, n)) && b matches Ok((y, m)) && n == m && x.method@ == y.method@ && x.path@
            == y.path@ && x.version == y.version && header_views(x.headers@) == header_views(
            y.headers@,
        ),
{
}

/// The value of the first header of that name, whatever its case.
pub open spec fn raw_header_value(headers: Seq<(Seq<char>, Seq<u8>)>, name: Seq<char>) -> Option<
    Seq<u8>,
>
    decreases headers.len(),
{
    if headers.len() == 0 {
        None
    } else if lower(headers[0].0) == lower(name) {
        Some(headers[0].1)
    } else {
        raw_header_value(headers.drop_first(), name)
    }
}

/// The length of the body that raw headers announce.
pub open spec fn raw_content_length(headers: Seq<(Seq<char>, Seq<u8>)>) -> Option<nat> {
    match raw_header_value(headers, "content-length"@) {
        Some(value) => if valid_utf8(value) {
            bounded_value(decode_utf8(value), usize::MAX as nat)
        } else {
            None
        },
        None => None,
    }
}

/// The length of the body that raw headers announce.
pub fn get_content_length(headers: &[RawHeader]) -> (r: Option<usize>)
    ensures
        match raw_content_length(raw_views(headers@)) {
            Some(n) => r == Some(n as usize),
            None => r is None,
        },
{
    let ghost all = raw_views(headers@);
    let mut i: usize = 0;
    proof {
        assert(all.skip(0) =~= all);
    }
    while i < headers.len()
        invariant
            i <= headers@.len(),
            all == raw_views(headers@),
            raw_header_value(all, "content-length"@) == raw_header_value(
                all.skip(i as int),
                "content-length"@,
            ),
        decreases headers@.len() - i,
    {
        proof {
            assert(all.skip(i as int)[0] == all[i as int]);
            assert(all.skip(i as int).drop_first() =~= all.skip(i as int + 1));
        }
        if eq_ignore_case(headers[i].name.as_str(), "content-length") {
            let value: Vec<u8> = headers[i].value.clone();
            proof {
                assert(value@ =~= headers@[i as int].value@);
            }
            return match utf8_text(value) {
                Ok(text) => match parse_unsigned(text.as_str(), usize::MAX as u64) {
                    Some(n) => Some(n as usize),
                    None => None,
                },
                Err(_) => None,
            };
        }
        i = i + 1;
    }
    None
}

proof fn lemma_utf8_headers(headers: Seq<(Seq<char>, Seq<u8>)>)
    ensures
        utf8_headers(headers) == headers.filter(
            |h: (Seq<char>, Seq<u8>)| valid_utf8(h.1),
        ).map_values(|h: (Seq<char>, Seq<u8>)| (h.0, decode_utf8(h.1))),
    decreases headers.len(),
{
    let valid = |h: (Seq<char>, Seq<u8>)| valid_utf8(h.1);
    let read = |h: (Seq<char>, Seq<u8>)| (h.0, decode_utf8(h.1));
    reveal(Seq::filter);
    if headers.len() == 0 {
        assert(headers.filter(valid).map_values(read) =~= Seq::<(Seq<char>, Seq<char>)>::empty());
    } else {
        let shorter = headers.drop_last();
        lemma_utf8_headers(shorter);
        let earlier = shorter.filter(valid);
        assert(earlier.push(headers.last()).map_values(read) =~= earlier.map_values(read).push(
            read(headers.last()),
        ));
    }
}

/// The parts of a request come to a request just where its head is complete.
/// A method or a path that is missing is called unknown, and the headers are
/// those whose values are text, in their order.
pub proof fn law_routed_request_is_its_parts(
    parts: RawRequest,
    r: Result<(ParsedHttpRequest, usize), HttpParseError>,
)
    requires
        call_ensures(request_from_parts, (parts,), r),
    ensures
        match r {
            Ok((request, head_len)) => {
                &&& parts.head_len == Some(head_len)
                &&& request.method@ == (match parts.method {
                    Some(m) => m@,
                    None => "UNKNOWN"@,
                })
                &&& request.path@ == (match parts.path {
                    Some(p) => p@,
                    None => "UNKNOWN"@,
                })
                &&& request.version == (match parts.version {
                    Some(v) => v,
                    None => 1u8,
                })
                &&& header_views(request.headers@) == raw_views(parts.headers@).filter(
                    |h: (Seq<char>, Seq<u8>)| valid_utf8(h.1),
                ).map_values(|h: (Seq<char>, Seq<u8>)| (h.0, decode_utf8(h.1)))
            },
            Err(_) => parts.head_len is None,
        },
{
    lemma_utf8_headers(raw_views(parts.headers@));
}

proof fn lemma_raw_header_value(headers: Seq<(Seq<char>, Seq<u8>)>, name: Seq<char>, i: int)
    requires
        0 <= i <= headers.len(),
        forall|j: int| 0 <= j < i ==> lower((#[trigger] headers[j]).0) != lower(name),
        i < headers.len() ==> lower(headers[i].0) == lower(name),
    ensures
        raw_header_value(headers, name) == (if i < headers.len() {
            Some(headers[i].1)
        } else {
            None
        }),
    decreases headers.len(),
{
    if headers.len() > 0 && i > 0 {
        let rest = headers.drop_first();
        assert(lower(headers[0].0) != lower(name));
        assert forall|j: int| 0 <= j < i - 1 implies lower((#[trigger] rest[j]).0) != lower(
            name,
        ) by {
            assert(rest[j] == headers[j + 1]);
        }
        lemma_raw_header_value(rest, name, i - 1);
    }
}

/// The length of a body is the number that the first `content-length` header
/// writes, whatever the case of its name; nothing where it is none, or where
/// there is no such header.
pub proof fn law_raw_length_is_looked_up(headers: &[RawHeader], r: Option<usize>, i: int)
    requires
        call_ensures(get_content_length, (headers,), r),
        0 <= i <= headers@.len(),
        forall|j: int| 0 <= j < i ==> lower((#[trigger] headers@[j]).name@) != "content-length"@,
        i < headers@.len() ==> lower(headers@[i].name@) == "content-length"@,
    ensures
        r == (if i < headers@.len() && valid_utf8(headers@[i].value@) {
            match bounded_value(decode_utf8(headers@[i].value@), usize::MAX as nat) {
                Some(n) => Some(n as usize),
                None => None,
            }
        } else {
            None
        }),
{
    reveal_strlit("content-length");
    assert(lower("content-length"@) =~= "content-length"@);
    let all = raw_views(headers@);
    assert forall|j: int| 0 <= j < i implies lower((#[trigger] all[j]).0) != lower(
        "content-length"@,
    ) by {
        assert(lower(headers@[j].name@) != "content-length"@);
    }
    lemma_raw_header_value(all, "content-length"@, i);
}

} // verus!
