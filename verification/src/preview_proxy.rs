//! How requests to preview links are answered and passed on.
use crate::http_parser::{
    get_host_header, header_value, header_views, is_first_header, lemma_same_first_header,
    parse_http_request_from_buffer, parse_outcome, raw_request, request_from, HeaderReadError, HttpParseError, ParsedHttpRequest, MAX_HEADERS,
};
use crate::ids::{id_from_str, id_text, id_to_string, parsed_id};
use crate::json::{json_of, text_of, value_content, Json, JsonView};
use crate::preview_url::{
    PreviewUrlAccessLevel, PreviewUrlError, PreviewUrlInfo, PreviewUrlResolver,
};
use crate::text::{
    chars_of, concat, concat3, contains, decimal, eq_ignore_case, first_index, format_u64,
    lemma_first_index, lower,
    occurs_at, opt_text, slice_string, split, split_string, starts_with, trim, trim_string, views,
    utf8_fault, utf8_text,
};
use crate::tracestate::{
    environment_entry, environment_text, is_id_char, lemma_environment_entry, lemma_id_text,
    lemma_split_append, lemma_split_free, lemma_trim_free,
};
use crate::tunnel_error::{IoCause, IoError, IoKind, TunnelError};
use std::fmt::Write;
use vstd::prelude::*;
use vstd::utf8::{decode_utf8, encode_utf8, valid_utf8};

verus! {

// ---------------------------------------------------------------------------
// Errors
// ---------------------------------------------------------------------------

/// Why a request is not passed on.
#[derive(Debug)]
pub enum ProxyError {
    InvalidUrl(String),
    NotFound(String),
    Forbidden(String),
    TunnelNotAvailable(String),
    Timeout(String),
    NetworkError(String),
    Internal(String),
}

/// The kinds of a `ProxyError`.
#[derive(Debug, Clone, Copy, PartialEq, Eq, Structural)]
pub enum ProxyErrorKind {
    InvalidUrl,
    NotFound,
    Forbidden,
    TunnelNotAvailable,
    Timeout,
    NetworkError,
    Internal,
}

impl ProxyError {
    pub open spec fn spec_kind(&self) -> ProxyErrorKind {
        match self {
            ProxyError::InvalidUrl(_) => ProxyErrorKind::InvalidUrl,
            ProxyError::NotFound(_) => ProxyErrorKind::NotFound,
            ProxyError::Forbidden(_) => ProxyErrorKind::Forbidden,
            ProxyError::TunnelNotAvailable(_) => ProxyErrorKind::TunnelNotAvailable,
            ProxyError::Timeout(_) => ProxyErrorKind::Timeout,
            ProxyError::NetworkError(_) => ProxyErrorKind::NetworkError,
            ProxyError::Internal(_) => ProxyErrorKind::Internal,
        }
    }

    /// What the error says of its cause.
    pub open spec fn detail(&self) -> Seq<char> {
        match self {
            ProxyError::InvalidUrl(m) => m@,
            ProxyError::NotFound(m) => m@,
            ProxyError::Forbidden(m) => m@,
            ProxyError::TunnelNotAvailable(m) => m@,
            ProxyError::Timeout(m) => m@,
            ProxyError::NetworkError(m) => m@,
            ProxyError::Internal(m) => m@,
        }
    }

    /// The error is of a kind and says so.
    pub open spec fn is(&self, kind: ProxyErrorKind, detail: Seq<char>) -> bool {
        self.spec_kind() == kind && self.detail() == detail
    }

    /// What the error shows.
    pub open spec fn text(&self) -> Seq<char> {
        match self {
            ProxyError::InvalidUrl(m) => "Invalid URL: "@ + m@,
            ProxyError::NotFound(m) => "Not found: "@ + m@,
            ProxyError::Forbidden(m) => "Forbidden: "@ + m@,
            ProxyError::TunnelNotAvailable(m) => "Tunnel not available: "@ + m@,
            ProxyError::Timeout(m) => "Timeout: "@ + m@,
            ProxyError::NetworkError(m) => "Network error: "@ + m@,
            ProxyError::Internal(m) => "Internal error: "@ + m@,
        }
    }

    pub fn message(&self) -> (r: String)
        ensures
            r@ == self.text(),
    {
        match self {
            ProxyError::InvalidUrl(m) => concat("Invalid URL: ", m.as_str()),
            ProxyError::NotFound(m) => concat("Not found: ", m.as_str()),
            ProxyError::Forbidden(m) => concat("Forbidden: ", m.as_str()),
            ProxyError::TunnelNotAvailable(m) => concat("Tunnel not available: ", m.as_str()),
            ProxyError::Timeout(m) => concat("Timeout: ", m.as_str()),
            ProxyError::NetworkError(m) => concat("Network error: ", m.as_str()),
            ProxyError::Internal(m) => concat("Internal error: ", m.as_str()),
        }
    }

    /// The HTTP status of the answer to a request with this error.
    pub open spec fn status_of(kind: ProxyErrorKind) -> u16 {
        match kind {
            ProxyErrorKind::InvalidUrl => 400u16,
            ProxyErrorKind::NotFound => 404u16,
            ProxyErrorKind::Forbidden => 403u16,
            ProxyErrorKind::TunnelNotAvailable => 503u16,
            ProxyErrorKind::Timeout => 504u16,
            ProxyErrorKind::NetworkError => 502u16,
            ProxyErrorKind::Internal => 500u16,
        }
    }

    /// The status and the text with which a handler answers.
    pub fn into_response(self) -> (r: (u16, String))
        ensures
            r.0 == Self::status_of(self.spec_kind()),
            r.1@ == self.detail(),
    {
        match self {
            ProxyError::InvalidUrl(m) => (400, m),
            ProxyError::NotFound(m) => (404, m),
            ProxyError::Forbidden(m) => (403, m),
            ProxyError::TunnelNotAvailable(m) => (503, m),
            ProxyError::Timeout(m) => (504, m),
            ProxyError::NetworkError(m) => (502, m),
            ProxyError::Internal(m) => (500, m),
        }
    }
}

/// The reason on an error page: what the error says, or a sentence of its own
/// where it says nothing. What went wrong inside is not shown.
pub open spec fn page_reason(e: ProxyError) -> Seq<char> {
    match e {
        ProxyError::Forbidden(m) => m@,
        ProxyError::NotFound(m) => m@,
        ProxyError::TunnelNotAvailable(m) => if m@.len() == 0 {
            "Lapdev couldn’t reach the preview environment right now. Please retry in a few seconds."@
        } else {
            m@
        },
        ProxyError::Timeout(m) => if m@.len() == 0 {
            "The preview environment took too long to answer. Refresh the page or restart the environment."@
        } else {
            m@
        },
        ProxyError::InvalidUrl(m) => if m@.len() == 0 {
            "This preview link was malformed. Double-check the URL and try again."@
        } else {
            m@
        },
        ProxyError::NetworkError(m) => if m@.len() == 0 {
            "Lapdev couldn’t proxy the request to the environment. Try again shortly."@
        } else {
            m@
        },
        ProxyError::Internal(_) =>
        "Lapdev hit an unexpected error while loading this preview. Please retry or recreate the Preview URL."@,
    }
}

fn or_else(message: &str, fallback: &str) -> (r: String)
    ensures
        r@ == (if message@.len() == 0 {
            fallback@
        } else {
            message@
        }),
{
    if message.is_empty() {
        fallback.to_owned()
    } else {
        message.to_owned()
    }
}

/// The status and the reason of the error page for an error.
pub fn respond_with_proxy_error(error: &ProxyError) -> (r: (u16, String))
    ensures
        r.0 == ProxyError::status_of(error.spec_kind()),
        r.1@ == page_reason(*error),
{
    match error {
        ProxyError::Forbidden(m) => (403, m.clone()),
        ProxyError::NotFound(m) => (404, m.clone()),
        ProxyError::TunnelNotAvailable(m) => (
            503,
            or_else(
                m.as_str(),
                "Lapdev couldn’t reach the preview environment right now. Please retry in a few seconds.",
            ),
        ),
        ProxyError::Timeout(m) => (
            504,
            or_else(
                m.as_str(),
                "The preview environment took too long to answer. Refresh the page or restart the environment.",
            ),
        ),
        ProxyError::InvalidUrl(m) => (
            400,
            or_else(
                m.as_str(),
                "This preview link was malformed. Double-check the URL and try again.",
            ),
        ),
        ProxyError::NetworkError(m) => (
            502,
            or_else(
                m.as_str(),
                "Lapdev couldn’t proxy the request to the environment. Try again shortly.",
            ),
        ),
        ProxyError::Internal(_) => (
            500,
            "Lapdev hit an unexpected error while loading this preview. Please retry or recreate the Preview URL.".to_owned(),
        ),
    }
}

/// What went wrong inside is never shown to a visitor.
pub proof fn law_internal_details_hidden(a: ProxyError, b: ProxyError)
    requires
        a.spec_kind() == ProxyErrorKind::Internal,
        b.spec_kind() == ProxyErrorKind::Internal,
    ensures
        page_reason(a) == page_reason(b),
{
}

/// The words that stand for a status code, as `http::StatusCode` has them.
pub uninterp spec fn reason_phrase(status: u16) -> Option<Seq<char>>;

/// `http::StatusCode::canonical_reason` of the code, where it is one.
#[verifier::external_body]
fn canonical_reason(status: u16) -> (r: Option<String>)
    ensures
        opt_text(r) == reason_phrase(status),
{
    let code = http::StatusCode::from_u16(status).ok()?;
    code.canonical_reason().map(|words| words.to_string())
}

/// The head of an error page.
pub open spec fn error_page_head(status: u16, reason: Seq<char>, body: Seq<char>) -> Seq<char> {
    "HTTP/1.1 "@ + decimal(status as nat) + " "@ + reason
        + "\r\nContent-Type: text/html; charset=utf-8\r\nContent-Length: "@ + decimal(
        encode_utf8(body).len(),
    ) + "\r\nConnection: close\r\n\r\n"@
}

fn error_page_with(status: u16, reason: &str, body: &str) -> (r: String)
    ensures
        r@ == error_page_head(status, reason@, body@) + body@,
{
    let code: String = format_u64(status as u64);
    let size: usize = body.as_bytes().len();
    let length: String = format_u64(size as u64);
    let mut out: String = "HTTP/1.1 ".to_owned();
    out.append(code.as_str());
    out.append(" ");
    out.append(reason);
    out.append("\r\nContent-Type: text/html; charset=utf-8\r\nContent-Length: ");
    out.append(length.as_str());
    out.append("\r\nConnection: close\r\n\r\n");
    out.append(body);
    out
}

/// An error page as it is sent.
pub fn error_page(status: u16, body: &str) -> (r: String)
    ensures
        r@ == error_page_head(
            status,
            match reason_phrase(status) {
                Some(words) => words,
                None => "Unknown"@,
            },
            body@,
        ) + body@,
{
    match canonical_reason(status) {
        Some(words) => error_page_with(status, words.as_str(), body),
        None => error_page_with(status, "Unknown", body),
    }
}

// ---------------------------------------------------------------------------
// The first request
// ---------------------------------------------------------------------------

/// What to do with a new connection.
#[derive(Debug)]
pub enum PreviewStep {
    /// Answer with an error page.
    Refuse { status: u16, reason: String },
    /// Drop the connection.
    Drop(ProxyError),
    /// Find out what the link leads to.
    Resolve { subdomain: String, request: ParsedHttpRequest, headers_len: usize },
}

/// The first label of a host.
pub open spec fn first_label(host: Seq<char>) -> Seq<char> {
    split(host, '.')[0]
}

/// `r` is what is done with a request that was parsed.
pub open spec fn is_parsed_step(
    parsed: Result<(ParsedHttpRequest, usize), HttpParseError>,
    r: PreviewStep,
) -> bool {
    match parsed {
        Err(_) => r matches PreviewStep::Refuse { status, reason } && status == 400 && reason@
            == "Lapdev couldn’t understand the HTTP request for this preview. Refresh and try again."@,
        Ok((request, headers_len)) => match header_value(header_views(request.headers@), "host"@) {
            None => r matches PreviewStep::Drop(e) && e.is(
                ProxyErrorKind::InvalidUrl,
                "Lapdev didn’t receive a Host header for this preview request."@,
            ),
            Some(host) => r matches PreviewStep::Resolve { subdomain, request: q, headers_len: n }
                && subdomain@ == first_label(host) && q == request && n == headers_len,
        },
    }
}

/// Decides what to do with a request, once it was parsed.
pub fn after_parse(parsed: Result<(ParsedHttpRequest, usize), HttpParseError>) -> (r: PreviewStep)
    ensures
        is_parsed_step(parsed, r),
{
    match parsed {
        Err(_) => PreviewStep::Refuse {
            status: 400,
            reason: "Lapdev couldn’t understand the HTTP request for this preview. Refresh and try again.".to_owned(),
        },
        Ok((request, headers_len)) => {
            let subdomain: Option<String> = match get_host_header(request.headers.as_slice()) {
                None => None,
                Some(host) => {
                    let mut labels: Vec<String> = split_string(host.as_str(), '.');
                    let ghost all = labels@;
                    let first: String = labels.remove(0);
                    proof {
                        assert(views(all)[0] == first@);
                    }
                    Some(first)
                },
            };
            match subdomain {
                None => PreviewStep::Drop(
                    ProxyError::InvalidUrl(
                        "Lapdev didn’t receive a Host header for this preview request.".to_owned(),
                    ),
                ),
                Some(subdomain) => PreviewStep::Resolve { subdomain, request, headers_len },
            }
        },
    }
}

/// Decides what to do with a connection whose headers were read.
pub fn begin_preview(buffer: &[u8]) -> (r: PreviewStep)
    ensures
        exists|parsed: Result<(ParsedHttpRequest, usize), HttpParseError>|
            {
                &&& #[trigger] is_parsed_step(parsed, r)
                &&& match raw_request(buffer@, MAX_HEADERS) {
                    Ok(parts) => request_from(parts, parse_outcome(parsed)),
                    Err(text) => parsed is Err,
                }
            },
        r matches PreviewStep::Resolve { subdomain, request, headers_len } ==> headers_len
            <= buffer@.len(),
{
    after_parse(parse_http_request_from_buffer(buffer))
}

/// Decides what to do with a connection whose headers could not be read.
pub fn after_read_error(error: &HeaderReadError) -> (r: PreviewStep)
    ensures
        match *error {
            HeaderReadError::TooLarge => r matches PreviewStep::Refuse { status, reason } && status
                == 413 && reason@
                == "The preview request headers exceeded Lapdev’s size limit. Reduce header size and try again."@,
            _ => r matches PreviewStep::Refuse { status, reason } && status == 400 && reason@
                == "Lapdev couldn’t finish reading the HTTP request for this preview."@,
        },
{
    match error {
        HeaderReadError::TooLarge => PreviewStep::Refuse {
            status: 413,
            reason: "The preview request headers exceeded Lapdev’s size limit. Reduce header size and try again.".to_owned(),
        },
        _ => PreviewStep::Refuse {
            status: 400,
            reason: "Lapdev couldn’t finish reading the HTTP request for this preview.".to_owned(),
        },
    }
}

// ---------------------------------------------------------------------------
// Resolving
// ---------------------------------------------------------------------------

/// What is said of a link that cannot be read.
pub open spec fn parse_complaint(e: PreviewUrlError) -> Seq<char> {
    match e {
        PreviewUrlError::InvalidFormat =>
        "Preview links must follow the pattern <port>-<service>-<hash>."@,
        PreviewUrlError::InvalidPort => "The preview link starts with an invalid port number."@,
        _ => "Lapdev couldn’t parse this preview link: "@ + e.text(),
    }
}

/// The error of a request whose link cannot be read.
pub fn link_error(e: &PreviewUrlError) -> (r: ProxyError)
    ensures
        r.is(ProxyErrorKind::InvalidUrl, parse_complaint(*e)),
{
    let message: String = match e {
        PreviewUrlError::InvalidFormat =>
        "Preview links must follow the pattern <port>-<service>-<hash>.".to_owned(),
        PreviewUrlError::InvalidPort =>
        "The preview link starts with an invalid port number.".to_owned(),
        other => {
            let text: String = other.message();
            concat("Lapdev couldn’t parse this preview link: ", text.as_str())
        },
    };
    ProxyError::InvalidUrl(message)
}

/// Reads the link of a request.
pub fn parse_link(subdomain: &str) -> (r: Result<PreviewUrlInfo, ProxyError>)
    ensures
        ({
            let parts = split(subdomain@, '-');
            match r {
                Ok(info) => {
                    &&& parts.len() >= 3
                    &&& crate::text::bounded_value(parts[0], 65535) == Some(info.port as nat)
                    &&& info.service_name@ == crate::preview_url::service_part(parts)
                    &&& info.environment_hash@ == parts.last()
                },
                Err(e) => if parts.len() < 3 {
                    e.is(
                        ProxyErrorKind::InvalidUrl,
                        "Preview links must follow the pattern <port>-<service>-<hash>."@,
                    )
                } else {
                    &&& crate::text::bounded_value(parts[0], 65535) is None
                    &&& e.is(
                        ProxyErrorKind::InvalidUrl,
                        "The preview link starts with an invalid port number."@,
                    )
                },
            }
        }),
{
    match PreviewUrlResolver::parse_preview_url(subdomain) {
        Ok(info) => Ok(info),
        Err(e) => Err(link_error(&e)),
    }
}

/// How a link is named in messages.
pub open spec fn preview_summary(service: Seq<char>, port: u16, subdomain: Seq<char>) -> Seq<char> {
    "service `"@ + service + "` on port "@ + decimal(port as nat) + " (preview link `"@ + subdomain
        + "`)"@
}

/// The kind and the text of the error of a link that leads nowhere.
pub open spec fn resolve_complaint(
    e: PreviewUrlError,
    service: Seq<char>,
    port: u16,
    subdomain: Seq<char>,
) -> (ProxyErrorKind, Seq<char>) {
    match e {
        PreviewUrlError::EnvironmentNotFound => (
            ProxyErrorKind::NotFound,
            "Lapdev couldn’t find any environment that matches "@ + preview_summary(
                service,
                port,
                subdomain,
            ) + "."@,
        ),
        PreviewUrlError::ServiceNotFound => (
            ProxyErrorKind::NotFound,
            "The environment behind this preview doesn’t expose service `"@ + service
                + "` on port "@ + decimal(port as nat) + "."@,
        ),
        PreviewUrlError::PreviewUrlNotConfigured => (
            ProxyErrorKind::NotFound,
            "This preview link hasn’t been configured yet for service `"@ + service + "` on port "@
                + decimal(port as nat) + ". Recreate it from the Lapdev dashboard."@,
        ),
        PreviewUrlError::AccessDenied => (
            ProxyErrorKind::Forbidden,
            "You don’t have permission to view "@ + preview_summary(service, port, subdomain)
                + ". Ask the environment owner to grant you access."@,
        ),
        _ => (ProxyErrorKind::Internal, e.text()),
    }
}

fn summary(service: &str, port: u16, subdomain: &str) -> (r: String)
    ensures
        r@ == preview_summary(service@, port, subdomain@),
{
    let number: String = format_u64(port as u64);
    let mut out: String = "service `".to_owned();
    out.append(service);
    out.append("` on port ");
    out.append(number.as_str());
    out.append(" (preview link `");
    out.append(subdomain);
    out.append("`)");
    out
}

/// The error of a request whose link leads nowhere.
pub fn resolve_error(e: &PreviewUrlError, service: &str, port: u16, subdomain: &str) -> (r:
    ProxyError)
    ensures
        r.is(
            resolve_complaint(*e, service@, port, subdomain@).0,
            resolve_complaint(*e, service@, port, subdomain@).1,
        ),
{
    let number: String = format_u64(port as u64);
    match e {
        PreviewUrlError::EnvironmentNotFound => {
            let s: String = summary(service, port, subdomain);
            ProxyError::NotFound(
                concat3("Lapdev couldn’t find any environment that matches ", s.as_str(), "."),
            )
        },
        PreviewUrlError::ServiceNotFound => {
            let mut out: String =
                "The environment behind this preview doesn’t expose service `".to_owned();
            out.append(service);
            out.append("` on port ");
            out.append(number.as_str());
            out.append(".");
            ProxyError::NotFound(out)
        },
        PreviewUrlError::PreviewUrlNotConfigured => {
            let mut out: String =
                "This preview link hasn’t been configured yet for service `".to_owned();
            out.append(service);
            out.append("` on port ");
            out.append(number.as_str());
            out.append(". Recreate it from the Lapdev dashboard.");
            ProxyError::NotFound(out)
        },
        PreviewUrlError::AccessDenied => {
            let s: String = summary(service, port, subdomain);
            ProxyError::Forbidden(
                concat3(
                    "You don’t have permission to view ",
                    s.as_str(),
                    ". Ask the environment owner to grant you access.",
                ),
            )
        },
        other => ProxyError::Internal(other.message()),
    }
}

// ---------------------------------------------------------------------------
// Access
// ---------------------------------------------------------------------------

/// The value of a cookie in a list of cookies.
pub open spec fn cookie_in(cookies: Seq<Seq<char>>, prefix: Seq<char>) -> Option<Seq<char>>
    decreases cookies.len(),
{
    if cookies.len() == 0 {
        None
    } else {
        let t = trim(cookies[0]);
        if prefix.is_prefix_of(t) {
            Some(t.skip(prefix.len() as int))
        } else {
            cookie_in(cookies.drop_first(), prefix)
        }
    }
}

/// The first value of a cookie in the headers of a request.
pub open spec fn cookie_value(headers: Seq<(Seq<char>, Seq<char>)>, prefix: Seq<char>) -> Option<
    Seq<char>,
>
    decreases headers.len(),
{
    if headers.len() == 0 {
        None
    } else {
        let here = if lower(headers[0].0) == lower("cookie"@) {
            cookie_in(split(headers[0].1, ';'), prefix)
        } else {
            None
        };
        match here {
            Some(v) => Some(v),
            None => cookie_value(headers.drop_first(), prefix),
        }
    }
}

fn find_cookie(cookies: &Vec<String>, prefix: &str) -> (r: Option<String>)
    ensures
        opt_text(r) == cookie_in(views(cookies@), prefix@),
{
    let ghost all = views(cookies@);
    let mut i: usize = 0;
    proof {
        assert(all.skip(0) =~= all);
    }
    while i < cookies.len()
        invariant
            i <= cookies@.len(),
            all == views(cookies@),
            cookie_in(all, prefix@) == cookie_in(all.skip(i as int), prefix@),
        decreases cookies@.len() - i,
    {
        proof {
            assert(all.skip(i as int)[0] == cookies@[i as int]@);
            assert(all.skip(i as int).drop_first() =~= all.skip(i as int + 1));
        }
        let trimmed: String = trim_string(cookies[i].as_str());
        if starts_with(trimmed.as_str(), prefix) {
            let chars: Vec<char> = chars_of(trimmed.as_str());
            let head: Vec<char> = chars_of(prefix);
            let value: String = slice_string(&chars, head.len(), chars.len());
            proof {
                assert(value@ =~= trimmed@.skip(prefix@.len() as int));
            }
            return Some(value);
        }
        i = i + 1;
    }
    None
}

/// Reads a cookie of a request.
pub fn extract_cookie_value(headers: &[(String, String)], cookie_name: &str) -> (r: Option<String>)
    ensures
        opt_text(r) == cookie_value(header_views(headers@), cookie_name@ + "="@),
{
    let prefix: String = concat(cookie_name, "=");
    let ghost all = header_views(headers@);
    let mut i: usize = 0;
    proof {
        assert(all.skip(0) =~= all);
    }
    while i < headers.len()
        invariant
            i <= headers@.len(),
            all == header_views(headers@),
            prefix@ == cookie_name@ + "="@,
            cookie_value(all, prefix@) == cookie_value(all.skip(i as int), prefix@),
        decreases headers@.len() - i,
    {
        proof {
            assert(all.skip(i as int)[0] == (headers@[i as int].0@, headers@[i as int].1@));
            assert(all.skip(i as int).drop_first() =~= all.skip(i as int + 1));
        }
        if eq_ignore_case(headers[i].0.as_str(), "cookie") {
            let cookies: Vec<String> = split_string(headers[i].1.as_str(), ';');
            let found: Option<String> = find_cookie(&cookies, prefix.as_str());
            if found.is_some() {
                return found;
            }
        }
        i = i + 1;
    }
    None
}

/// What a request to a preview needs before it is passed on.
#[derive(Debug)]
pub enum AccessStep {
    Allowed,
    /// The token has to be that of a member of the organization.
    CheckToken { token: String },
    Denied(ProxyError),
}

/// Decides what a request needs. A public preview needs nothing; that of an
/// organization needs the cookie of a session.
pub fn authorize_request(
    headers: &[(String, String)],
    access_level: PreviewUrlAccessLevel,
    cookie_name: &str,
) -> (r: AccessStep)
    ensures
        match access_level {
            PreviewUrlAccessLevel::Public => r is Allowed,
            PreviewUrlAccessLevel::Organization => match cookie_value(
                header_views(headers@),
                cookie_name@ + "="@,
            ) {
                Some(value) => r matches AccessStep::CheckToken { token } && token@ == value,
                None => r matches AccessStep::Denied(e) && e.is(
                    ProxyErrorKind::Forbidden,
                    "Sign in to Lapdev to view this Preview URL."@,
                ),
            },
        },
{
    match access_level {
        PreviewUrlAccessLevel::Public => AccessStep::Allowed,
        PreviewUrlAccessLevel::Organization => match extract_cookie_value(headers, cookie_name) {
            Some(token) => AccessStep::CheckToken { token },
            None => AccessStep::Denied(
                ProxyError::Forbidden("Sign in to Lapdev to view this Preview URL.".to_owned()),
            ),
        },
    }
}

/// What is said of a token that does not identify a user.
pub open spec fn token_complaint() -> Seq<char> {
    "Your preview session expired. Please sign in again to refresh your access."@
}

/// The user that the claim of a token names.
pub fn user_id_from_claim(claim: Option<&Json>) -> (r: Result<u128, ProxyError>)
    ensures
        ({
            let id = match claim {
                Some(j) => match text_of(Some(j@)) {
                    Some(t) => parsed_id(t),
                    None => None,
                },
                None => None,
            };
            match r {
                Ok(user) => id == Some(user),
                Err(e) => id is None && e.is(ProxyErrorKind::Forbidden, token_complaint()),
            }
        }),
{
    let id: Option<u128> = match claim {
        Some(Json::Text(t)) => id_from_str(t.as_str()),
        _ => None,
    };
    match id {
        Some(user) => Ok(user),
        None => Err(
            ProxyError::Forbidden(
                "Your preview session expired. Please sign in again to refresh your access.".to_owned(),
            ),
        ),
    }
}

/// The claim that names the user of a token.
pub const USER_CLAIM: &'static str = "user_id";

/// The claim of the given name that the payload of a token holds, read with a
/// key.
pub uninterp spec fn token_claim(key: Seq<u8>, token: Seq<char>, name: Seq<char>) -> JsonView;

/// The claim of the given name of a token that `pasetors::local::decrypt`
/// accepts under the key: one that was encrypted with it and is good at this
/// time. A key has 32 bytes. Which tokens are accepted depends on the time, and is
/// left open; what an accepted token claims does not.
#[verifier::external_body]
fn accepted_claim(key: &[u8], token: &str, name: &str) -> (r: Option<serde_json::Value>)
    ensures
        r matches Some(v) ==> key@.len() == 32 && value_content(v) == token_claim(
            key@,
            token@,
            name@,
        ),
{
    let key = pasetors::keys::SymmetricKey::<pasetors::version4::V4>::from(key).ok()?;
    let untrusted = pasetors::token::UntrustedToken::try_from(token).ok()?;
    let rules = pasetors::claims::ClaimsValidationRules::new();
    let trusted = pasetors::local::decrypt(&key, &untrusted, &rules, None, None).ok()?;
    trusted.payload_claims()?.get_claim(name).cloned()
}

/// The user that a token names. A token that is not accepted, or whose claim
/// names nobody, is answered alike.
pub fn user_id_from_token(key: &[u8], token: &str) -> (r: Result<u128, ProxyError>)
    ensures
        match r {
            Ok(user) => {
                &&& key@.len() == 32
                &&& text_of(Some(token_claim(key@, token@, USER_CLAIM@))) matches Some(t)
                &&& parsed_id(t) == Some(user)
            },
            Err(e) => e.is(ProxyErrorKind::Forbidden, token_complaint()),
        },
{
    match accepted_claim(key, token, USER_CLAIM) {
        Some(value) => {
            let claim: Json = json_of(value);
            user_id_from_claim(Some(&claim))
        },
        None => user_id_from_claim(None),
    }
}

/// What comes of a lookup of a member of an organization, by the text of its
/// error.
pub fn membership(error: Option<&str>) -> (r: Result<(), ProxyError>)
    ensures
        match error {
            None => r is Ok,
            Some(text) => if exists|i: int| #[trigger]
                occurs_at(text@, "no organization member found"@, i) {
                r matches Err(e) && e.is(
                    ProxyErrorKind::Forbidden,
                    "You need to be a member of the organization that owns this preview."@,
                )
            } else {
                r matches Err(e) && e.is(
                    ProxyErrorKind::Internal,
                    "Failed to verify organization membership"@,
                )
            },
        },
{
    match error {
        None => Ok(()),
        Some(text) => if contains(text, "no organization member found") {
            Err(
                ProxyError::Forbidden(
                    "You need to be a member of the organization that owns this preview.".to_owned(),
                ),
            )
        } else {
            Err(ProxyError::Internal("Failed to verify organization membership".to_owned()))
        },
    }
}

// ---------------------------------------------------------------------------
// Passing on
// ---------------------------------------------------------------------------

/// What is known of the client of a cluster.
#[derive(Debug, Clone, Copy, PartialEq, Eq, Structural)]
pub enum TunnelAvailability {
    Missing,
    Closed,
    Open,
}

/// The host of a service inside its cluster, if the cluster can be reached.
pub fn tunnel_target(available: TunnelAvailability, service: &str, namespace: &str) -> (r: Result<
    String,
    ProxyError,
>)
    ensures
        match available {
            TunnelAvailability::Missing => r matches Err(e) && e.is(
                ProxyErrorKind::TunnelNotAvailable,
                "Lapdev can’t reach the Kubernetes cluster that hosts this preview. Make sure the cluster agent is running."@,
            ),
            TunnelAvailability::Closed => r matches Err(e) && e.is(
                ProxyErrorKind::TunnelNotAvailable,
                "Lapdev’s connection to the preview cluster closed unexpectedly. Refresh the page or restart the environment."@,
            ),
            TunnelAvailability::Open => r matches Ok(host) && host@ == service@ + "."@ + namespace@
                + ".svc"@,
        },
{
    match available {
        TunnelAvailability::Missing => Err(
            ProxyError::TunnelNotAvailable(
                "Lapdev can’t reach the Kubernetes cluster that hosts this preview. Make sure the cluster agent is running.".to_owned(),
            ),
        ),
        TunnelAvailability::Closed => Err(
            ProxyError::TunnelNotAvailable(
                "Lapdev’s connection to the preview cluster closed unexpectedly. Refresh the page or restart the environment.".to_owned(),
            ),
        ),
        TunnelAvailability::Open => {
            let mut host: String = concat3(service, ".", namespace);
            host.append(".svc");
            Ok(host)
        },
    }
}

/// The failure says that the target cannot be reached.
pub open spec fn is_unreachable(kind: IoKind) -> bool {
    kind == IoKind::ConnectionRefused || kind == IoKind::ConnectionAborted || kind
        == IoKind::ConnectionReset || kind == IoKind::TimedOut || kind == IoKind::NotConnected
}

/// What comes of the first read of an answer.
#[derive(Debug)]
pub enum FirstRead {
    /// So many bytes are passed on.
    Forward(usize),
    Failed(ProxyError),
}

/// A part of an error page, in the order in which they are sent.
#[derive(Debug, Clone, Copy, PartialEq, Eq, Structural)]
pub enum PagePart {
    StatusLine,
    Headers,
    Body,
    Flush,
}

/// What is said of a part that could not be sent.
pub open spec fn page_part_text(part: PagePart) -> Seq<char> {
    match part {
        PagePart::StatusLine => "Failed to write status line: "@,
        PagePart::Headers => "Failed to write headers: "@,
        PagePart::Body => "Failed to write body: "@,
        PagePart::Flush => "Failed to flush response: "@,
    }
}

/// Passes requests to previews on.
#[derive(Debug)]
pub struct PreviewUrlProxy;

impl PreviewUrlProxy {
    /// The error of a request whose tunnel could not be opened.
    pub fn map_tunnel_connect_error(err: TunnelError) -> (r: ProxyError)
        ensures
            match err {
                TunnelError::Remote(reason) => r.is(
                    ProxyErrorKind::Timeout,
                    "Target reported connection error: "@ + reason@,
                ),
                TunnelError::Transport(e) => r.is(
                    if is_unreachable(e.kind) {
                        ProxyErrorKind::Timeout
                    } else {
                        ProxyErrorKind::NetworkError
                    },
                    "Transport error while opening tunnel: "@ + e.text@,
                ),
                TunnelError::ConnectionClosed => r.is(
                    ProxyErrorKind::NetworkError,
                    "Tunnel connection closed before target connection was established"@,
                ),
            },
    {
        match err {
            TunnelError::Remote(reason) => ProxyError::Timeout(
                concat("Target reported connection error: ", reason.as_str()),
            ),
            TunnelError::Transport(e) => {
                let message: String = concat(
                    "Transport error while opening tunnel: ",
                    e.text.as_str(),
                );
                match e.kind {
                    IoKind::ConnectionRefused
                    | IoKind::ConnectionAborted
                    | IoKind::ConnectionReset
                    | IoKind::TimedOut
                    | IoKind::NotConnected => ProxyError::Timeout(message),
                    _ => ProxyError::NetworkError(message),
                }
            },
            TunnelError::ConnectionClosed => ProxyError::NetworkError(
                "Tunnel connection closed before target connection was established".to_owned(),
            ),
        }
    }

    /// The error of a request whose tunnel failed while it was in use.
    pub fn map_tunnel_runtime_error(err: IoError) -> (r: ProxyError)
        ensures
            match err.cause {
                IoCause::Remote(reason) => r.is(
                    ProxyErrorKind::Timeout,
                    "Tunnel closed remotely: "@ + reason@,
                ),
                IoCause::ConnectionClosed => r.is(
                    ProxyErrorKind::TunnelNotAvailable,
                    "Lapdev’s tunnel to the preview environment closed unexpectedly."@,
                ),
                IoCause::Transport(inner) => r.is(
                    ProxyErrorKind::NetworkError,
                    "Tunnel transport error: "@ + inner@,
                ),
                IoCause::Plain => r.is(
                    ProxyErrorKind::NetworkError,
                    "Tunnel proxying failed: "@ + err.text@,
                ),
            },
    {
        match err.cause {
            IoCause::Remote(reason) => ProxyError::Timeout(
                concat("Tunnel closed remotely: ", reason.as_str()),
            ),
            IoCause::ConnectionClosed => ProxyError::TunnelNotAvailable(
                "Lapdev’s tunnel to the preview environment closed unexpectedly.".to_owned(),
            ),
            IoCause::Transport(inner) => ProxyError::NetworkError(
                concat("Tunnel transport error: ", inner.as_str()),
            ),
            IoCause::Plain => ProxyError::NetworkError(
                concat("Tunnel proxying failed: ", err.text.as_str()),
            ),
        }
    }

    /// Goes on after the first read of an answer. A tunnel that closed
    /// without an answer is explained by the intercept that took the request,
    /// where there is one.
    pub fn after_first_read(read: Result<usize, IoError>, hint: Option<String>) -> (r: FirstRead)
        ensures
            match read {
                Ok(n) => if n > 0 {
                    r == FirstRead::Forward(n)
                } else {
                    r matches FirstRead::Failed(e) && e.is(
                        ProxyErrorKind::Timeout,
                        match hint {
                            Some(h) => h@,
                            None => "Target service did not produce a response"@,
                        },
                    )
                },
                Err(io) => r matches FirstRead::Failed(e) && e.is(
                    match io.cause {
                        IoCause::Remote(_) => ProxyErrorKind::Timeout,
                        IoCause::ConnectionClosed => ProxyErrorKind::TunnelNotAvailable,
                        _ => ProxyErrorKind::NetworkError,
                    },
                    match io.cause {
                        IoCause::Remote(reason) => "Tunnel closed remotely: "@ + reason@,
                        IoCause::ConnectionClosed =>
                        "Lapdev’s tunnel to the preview environment closed unexpectedly."@,
                        IoCause::Transport(inner) => "Tunnel transport error: "@ + inner@,
                        IoCause::Plain => "Tunnel proxying failed: "@ + io.text@,
                    },
                ),
            },
    {
        match read {
            Ok(n) => if n > 0 {
                FirstRead::Forward(n)
            } else {
                match hint {
                    Some(h) => FirstRead::Failed(ProxyError::Timeout(h)),
                    None => FirstRead::Failed(
                        ProxyError::Timeout(
                            "Target service did not produce a response".to_owned(),
                        ),
                    ),
                }
            },
            Err(e) => FirstRead::Failed(Self::map_tunnel_runtime_error(e)),
        }
    }

    /// The error of a request that could not be sent on.
    pub fn request_write_error(text: &str) -> (r: ProxyError)
        ensures
            r.is(
                ProxyErrorKind::NetworkError,
                "Failed to send initial request through tunnel: "@ + text@,
            ),
    {
        ProxyError::NetworkError(concat("Failed to send initial request through tunnel: ", text))
    }

    /// The error of a proxy whose address could not be bound.
    pub fn bind_error(bind_addr: &str, text: &str) -> (r: ProxyError)
        ensures
            r.is(ProxyErrorKind::Internal, "Failed to bind to "@ + bind_addr@ + ": "@ + text@),
    {
        let head: String = concat3("Failed to bind to ", bind_addr, ": ");
        ProxyError::Internal(concat(head.as_str(), text))
    }

    /// The error of an error page that could not be sent, by the part that
    /// failed.
    pub fn page_write_error(part: PagePart, text: &str) -> (r: ProxyError)
        ensures
            r.is(ProxyErrorKind::Internal, page_part_text(part) + text@),
    {
        let head: &str = match part {
            PagePart::StatusLine => "Failed to write status line: ",
            PagePart::Headers => "Failed to write headers: ",
            PagePart::Body => "Failed to write body: ",
            PagePart::Flush => "Failed to flush response: ",
        };
        ProxyError::Internal(concat(head, text))
    }

    /// The error of an answer that could not be sent back.
    pub fn response_write_error(text: &str) -> (r: ProxyError)
        ensures
            r.is(
                ProxyErrorKind::NetworkError,
                "Failed to send initial response chunk to client: "@ + text@,
            ),
    {
        ProxyError::NetworkError(concat("Failed to send initial response chunk to client: ", text))
    }
}

// ---------------------------------------------------------------------------
// Intercepts
// ---------------------------------------------------------------------------

/// A port of a workload and the port of a devbox that stands for it.
#[derive(Debug, Clone, Copy, PartialEq, Eq, Structural)]
pub struct DevboxPortMapping {
    pub workload_port: u16,
    pub local_port: u16,
}

/// The first mapping of a port.
pub open spec fn mapped_local_port(mappings: Seq<DevboxPortMapping>, port: u16) -> Option<u16>
    decreases mappings.len(),
{
    if mappings.len() == 0 {
        None
    } else if mappings[0].workload_port == port {
        Some(mappings[0].local_port)
    } else {
        mapped_local_port(mappings.drop_first(), port)
    }
}

/// The first intercept that holds a port, and the local port that stands for
/// it. Intercepts whose mappings cannot be read are passed over.
pub open spec fn intercept_of(
    intercepts: Seq<Option<Vec<DevboxPortMapping>>>,
    port: u16,
    at: nat,
) -> Option<(nat, u16)>
    decreases intercepts.len() - at,
{
    if at >= intercepts.len() {
        None
    } else {
        let here = match intercepts[at as int] {
            Some(mappings) => mapped_local_port(mappings@, port),
            None => None,
        };
        match here {
            Some(local) => Some((at, local)),
            None => intercept_of(intercepts, port, at + 1),
        }
    }
}

fn local_port_of(mappings: &Vec<DevboxPortMapping>, port: u16) -> (r: Option<u16>)
    ensures
        r == mapped_local_port(mappings@, port),
{
    let mut i: usize = 0;
    proof {
        assert(mappings@.skip(0) =~= mappings@);
    }
    while i < mappings.len()
        invariant
            i <= mappings@.len(),
            mapped_local_port(mappings@, port) == mapped_local_port(mappings@.skip(i as int), port),
        decreases mappings@.len() - i,
    {
        proof {
            assert(mappings@.skip(i as int).drop_first() =~= mappings@.skip(i as int + 1));
        }
        if mappings[i].workload_port == port {
            return Some(mappings[i].local_port);
        }
        i = i + 1;
    }
    None
}

/// Finds the intercept that holds a port.
pub fn find_intercept(intercepts: &Vec<Option<Vec<DevboxPortMapping>>>, port: u16) -> (r: Option<
    (usize, u16),
>)
    ensures
        match intercept_of(intercepts@, port, 0) {
            Some((i, local)) => r == Some((i as usize, local)) && i < intercepts@.len(),
            None => r is None,
        },
{
    let mut i: usize = 0;
    while i < intercepts.len()
        invariant
            i <= intercepts@.len(),
            intercept_of(intercepts@, port, 0) == intercept_of(intercepts@, port, i as nat),
        decreases intercepts@.len() - i,
    {
        let here: Option<u16> = match &intercepts[i] {
            Some(mappings) => local_port_of(mappings, port),
            None => None,
        };
        if let Some(local) = here {
            return Some((i, local));
        }
        i = i + 1;
    }
    None
}

/// What the name and the address of a user are shown as.
pub open spec fn user_label_of(
    name: Option<Seq<char>>,
    email: Option<Seq<char>>,
    user_id: u128,
) -> Seq<char> {
    if name matches Some(n) && n.len() > 0 {
        name->0
    } else {
        match email {
            Some(e) => e,
            None => "user "@ + id_text(user_id),
        }
    }
}

/// How a user is named: by their name, by their address, or by their id.
pub fn user_label(name: Option<&str>, email: Option<&str>, user_id: u128) -> (r: String)
    ensures
        r@ == user_label_of(
            match name {
                Some(n) => Some(n@),
                None => None,
            },
            match email {
                Some(e) => Some(e@),
                None => None,
            },
            user_id,
        ),
{
    if let Some(n) = name {
        if !n.is_empty() {
            return n.to_owned();
        }
    }
    match email {
        Some(e) => e.to_owned(),
        None => {
            let id: String = id_to_string(user_id);
            concat("user ", id.as_str())
        },
    }
}

/// How the time is shown since which an intercept is active.
pub const SINCE_FORMAT: &'static str = "%Y-%m-%d %H:%M:%S UTC";

/// A time in seconds since the epoch as `chrono` writes it in UTC in the given
/// format; nothing where it lies beyond the years that `chrono` knows, or the
/// format is none.
pub uninterp spec fn utc_text(seconds: i64, format: Seq<char>) -> Option<Seq<char>>;

/// `chrono::DateTime::from_timestamp` of the seconds, written out by
/// `chrono::DateTime::format`.
#[verifier::external_body]
fn format_utc(seconds: i64, format: &str) -> (r: Option<String>)
    ensures
        opt_text(r) == utc_text(seconds, format@),
{
    let time = chrono::DateTime::from_timestamp(seconds, 0)?;
    let mut out = String::new();
    write!(out, "{}", time.format(format)).ok()?;
    Some(out)
}

/// What a time since which an intercept is active is shown as.
pub fn active_since(seconds: i64) -> (r: Option<String>)
    ensures
        opt_text(r) == utc_text(seconds, SINCE_FORMAT@),
{
    format_utc(seconds, SINCE_FORMAT)
}

/// The hint that an intercept took a request and gave no answer.
pub open spec fn hint_text(
    service: Seq<char>,
    port: u16,
    user: Seq<char>,
    workload: Seq<char>,
    since: Seq<char>,
    local_port: u16,
) -> Seq<char> {
    "Service `"@ + service + "` port "@ + decimal(port as nat) + " is intercepted by "@ + user
        + " on workload `"@ + workload + "` (active since "@ + since
        + "). Lapdev routed this preview through their local port "@ + decimal(local_port as nat)
        + " but it didn’t respond."@
}

/// Writes the hint that an intercept took a request and gave no answer.
pub fn intercept_hint(
    service: &str,
    port: u16,
    user: &str,
    workload: Option<&str>,
    since: &str,
    local_port: u16,
) -> (r: String)
    ensures
        r@ == hint_text(
            service@,
            port,
            user@,
            match workload {
                Some(w) => w@,
                None => "this workload"@,
            },
            since@,
            local_port,
        ),
{
    let number: String = format_u64(port as u64);
    let local: String = format_u64(local_port as u64);
    let mut out: String = "Service `".to_owned();
    out.append(service);
    out.append("` port ");
    out.append(number.as_str());
    out.append(" is intercepted by ");
    out.append(user);
    out.append(" on workload `");
    match workload {
        Some(w) => out.append(w),
        None => out.append("this workload"),
    }
    out.append("` (active since ");
    out.append(since);
    out.append("). Lapdev routed this preview through their local port ");
    out.append(local.as_str());
    out.append(" but it didn’t respond.");
    out
}

// ---------------------------------------------------------------------------
// Naming the environment in a request
// ---------------------------------------------------------------------------

/// A line without the carriage return at its end.
pub open spec fn without_return(line: Seq<char>) -> Seq<char> {
    if line.len() > 0 && line.last() == '\r' {
        line.drop_last()
    } else {
        line
    }
}

/// The lines of a text. A line ends with a newline, or a carriage return and
/// a newline; what stands behind the last newline is a line unless it is
/// empty.
pub open spec fn lines_of(parts: Seq<Seq<char>>) -> Seq<Seq<char>> {
    let ended = parts.drop_last().map_values(|p: Seq<char>| without_return(p));
    if parts.last().len() == 0 {
        ended
    } else {
        ended.push(parts.last())
    }
}

/// The line is a `tracestate` header, in any case.
pub open spec fn is_tracestate_line(line: Seq<char>) -> bool {
    line.len() >= 11 && lower(line.take(11)) == lower("tracestate:"@)
}

/// The head of a request with the environment added: to each `tracestate`
/// header, or as one at the end of the head. Also tells whether it was added.
pub open spec fn rewritten_head(lines: Seq<Seq<char>>, entry: Seq<char>) -> (Seq<char>, bool)
    decreases lines.len(),
{
    if lines.len() == 0 {
        (seq![], false)
    } else {
        let (text, added) = rewritten_head(lines.drop_last(), entry);
        let line = lines.last();
        if is_tracestate_line(line) {
            let value = trim(line.skip(11));
            if value.len() == 0 {
                (text + "tracestate: "@ + entry + "\r\n"@, true)
            } else {
                (text + "tracestate: "@ + value + ","@ + entry + "\r\n"@, true)
            }
        } else if line.len() == 0 && !added {
            (text + "tracestate: "@ + entry + "\r\n"@ + "\r\n"@, true)
        } else {
            (text + line + "\r\n"@, added)
        }
    }
}

/// The head of a request with the environment added.
pub open spec fn head_with_environment(head: Seq<char>, environment_id: u128) -> Seq<char> {
    let entry = environment_entry(environment_id);
    let (text, added) = rewritten_head(lines_of(split(head, '\n')), entry);
    if added {
        text
    } else {
        text + "tracestate: "@ + entry + "\r\n"@
    }
}

fn text_lines(text: &str) -> (r: Vec<String>)
    ensures
        views(r@) == lines_of(split(text@, '\n')),
{
    let parts: Vec<String> = split_string(text, '\n');
    let ghost all = views(parts@);
    let mut out: Vec<String> = Vec::new();
    let count: usize = parts.len();
    let mut i: usize = 0;
    while i < count - 1
        invariant
            i <= count - 1,
            count == parts@.len(),
            all == views(parts@),
            out@.len() == i,
            forall|k: int|
                #![trigger out@[k]]
                0 <= k < i ==> out@[k]@ == without_return(all[k]),
        decreases count - i,
    {
        let chars: Vec<char> = chars_of(parts[i].as_str());
        let n: usize = chars.len();
        if n > 0 && chars[n - 1] == '\r' {
            let line: String = slice_string(&chars, 0, n - 1);
            proof {
                assert(line@ =~= all[i as int].drop_last());
            }
            out.push(line);
        } else {
            out.push(parts[i].clone());
        }
        i = i + 1;
    }
    proof {
        assert(views(out@) =~= all.drop_last().map_values(|p: Seq<char>| without_return(p)));
    }
    if !parts[count - 1].as_str().is_empty() {
        let last: String = parts[count - 1].clone();
        proof {
            crate::text::lemma_views_push(out@, last);
        }
        out.push(last);
    }
    out
}

fn tracestate_value(line: &str) -> (r: Option<String>)
    ensures
        match r {
            Some(v) => is_tracestate_line(line@) && v@ == trim(line@.skip(11)),
            None => !is_tracestate_line(line@),
        },
{
    let chars: Vec<char> = chars_of(line);
    if chars.len() < 11 {
        return None;
    }
    let name: String = slice_string(&chars, 0, 11);
    proof {
        assert(name@ =~= line@.take(11));
    }
    if eq_ignore_case(name.as_str(), "tracestate:") {
        let value: String = slice_string(&chars, 11, chars.len());
        proof {
            assert(value@ =~= line@.skip(11));
        }
        Some(trim_string(value.as_str()))
    } else {
        None
    }
}

/// Adds the environment to the head of a request.
pub fn add_environment_to_head(head: &str, environment_id: u128) -> (r: String)
    ensures
        r@ == head_with_environment(head@, environment_id),
{
    let id: String = id_to_string(environment_id);
    let entry: String = concat("lapdev-env-id=", id.as_str());
    let lines: Vec<String> = text_lines(head);
    let ghost all = views(lines@);
    let mut out: String = String::new();
    let mut added: bool = false;
    let mut i: usize = 0;
    proof {
        assert(all.take(0) =~= Seq::<Seq<char>>::empty());
        assert(out@ =~= Seq::<char>::empty());
    }
    while i < lines.len()
        invariant
            i <= lines@.len(),
            all == views(lines@),
            entry@ == environment_entry(environment_id),
            (out@, added) == rewritten_head(all.take(i as int), entry@),
        decreases lines@.len() - i,
    {
        proof {
            assert(all.take(i as int + 1).drop_last() =~= all.take(i as int));
            assert(all.take(i as int + 1).last() == lines@[i as int]@);
        }
        let line: &str = lines[i].as_str();
        match tracestate_value(line) {
            Some(value) => {
                out.append("tracestate: ");
                if !value.as_str().is_empty() {
                    out.append(value.as_str());
                    out.append(",");
                }
                out.append(entry.as_str());
                out.append("\r\n");
                added = true;
            },
            None => {
                if line.is_empty() && !added {
                    out.append("tracestate: ");
                    out.append(entry.as_str());
                    out.append("\r\n");
                    out.append("\r\n");
                    added = true;
                } else {
                    out.append(line);
                    out.append("\r\n");
                }
            },
        }
        i = i + 1;
    }
    proof {
        assert(all.take(all.len() as int) =~= all);
    }
    if !added {
        out.append("tracestate: ");
        out.append(entry.as_str());
        out.append("\r\n");
    }
    out
}

/// Adds the environment to a request, whose head has the given length. The
/// body stays as it is.
pub fn add_environment_id_to_headers(
    request_data: &[u8],
    headers_len: usize,
    environment_id: u128,
) -> (r: Result<Vec<u8>, ProxyError>)
    requires
        headers_len <= request_data@.len(),
    ensures
        ({
            let head = request_data@.take(headers_len as int);
            match r {
                Ok(bytes) => valid_utf8(head) && bytes@ == encode_utf8(
                    head_with_environment(decode_utf8(head), environment_id),
                ) + request_data@.skip(headers_len as int),
                Err(e) => !valid_utf8(head) && e.is(
                    ProxyErrorKind::Internal,
                    "Invalid UTF-8 in headers: "@ + utf8_fault(head),
                ),
            }
        }),
{
    let mut head: Vec<u8> = Vec::new();
    let mut i: usize = 0;
    while i < headers_len
        invariant
            i <= headers_len <= request_data@.len(),
            head@ == request_data@.take(i as int),
        decreases headers_len - i,
    {
        head.push(request_data[i]);
        proof {
            assert(head@ =~= request_data@.take(i as int + 1));
        }
        i = i + 1;
    }
    match utf8_text(head) {
        Err(fault) => Err(
            ProxyError::Internal(concat("Invalid UTF-8 in headers: ", fault.as_str())),
        ),
        Ok(text) => {
            let changed: String = add_environment_to_head(text.as_str(), environment_id);
            let mut out: Vec<u8> = changed.as_str().as_bytes_vec();
            let ghost start = out@;
            let mut j: usize = headers_len;
            proof {
                assert(out@ =~= start + request_data@.subrange(headers_len as int, j as int));
            }
            while j < request_data.len()
                invariant
                    headers_len <= j <= request_data@.len(),
                    out@ == start + request_data@.subrange(headers_len as int, j as int),
                decreases request_data@.len() - j,
            {
                out.push(request_data[j]);
                proof {
                    assert(out@ =~= start + request_data@.subrange(
                        headers_len as int,
                        j as int + 1,
                    ));
                }
                j = j + 1;
            }
            proof {
                assert(request_data@.subrange(headers_len as int, j as int) =~= request_data@.skip(
                    headers_len as int,
                ));
            }
            Ok(out)
        },
    }
}

proof fn lemma_environment_behind(parts: Seq<Seq<char>>, id: u128)
    requires
        environment_text(parts) is None,
    ensures
        environment_text(parts.push(environment_entry(id))) == Some(id_text(id)),
    decreases parts.len(),
{
    lemma_environment_entry(id);
    let all = parts.push(environment_entry(id));
    if parts.len() > 0 {
        assert(all[0] == parts[0]);
        assert(all.drop_first() =~= parts.drop_first().push(environment_entry(id)));
        lemma_environment_behind(parts.drop_first(), id);
    } else {
        assert(all[0] == environment_entry(id));
    }
}

/// The environment that is added to a `tracestate` value without one is the
/// one that a proxy reads from it.
pub proof fn law_added_environment_reads_back(value: Seq<char>, id: u128)
    requires
        environment_text(split(value, ',')) is None,
    ensures
        environment_text(split(value + ","@ + environment_entry(id), ',')) == Some(id_text(id)),
{
    reveal_strlit(",");
    assert(","@ =~= seq![',']);
    lemma_environment_entry(id);
    lemma_split_append(value, ',', environment_entry(id));
    lemma_environment_behind(split(value, ','), id);
}

/// Lines one after another, each behind it with `end`.
pub open spec fn ended_lines(lines: Seq<Seq<char>>, end: Seq<char>) -> Seq<char>
    decreases lines.len(),
{
    if lines.len() == 0 {
        seq![]
    } else {
        ended_lines(lines.drop_last(), end) + lines.last() + end
    }
}

/// No line holds a newline.
pub open spec fn are_lines(lines: Seq<Seq<char>>) -> bool {
    forall|i: int, j: int|
        0 <= i < lines.len() && 0 <= j < lines[i].len() ==> #[trigger] lines[i][j] != '\n'
}

proof fn lemma_split_ended(lines: Seq<Seq<char>>, before: Seq<char>, rest: Seq<char>)
    requires
        are_lines(lines),
        forall|j: int| 0 <= j < before.len() ==> before[j] != '\n',
        forall|j: int| 0 <= j < rest.len() ==> rest[j] != '\n',
    ensures
        split(ended_lines(lines, before.push('\n')) + rest, '\n') == lines.map_values(
            |l: Seq<char>| l + before,
        ).push(rest),
    decreases lines.len(),
{
    let end = before.push('\n');
    let add = |l: Seq<char>| l + before;
    let whole = ended_lines(lines, end) + rest;
    if lines.len() == 0 {
        assert(whole =~= rest);
        lemma_first_index(rest, '\n');
        assert(split(rest, '\n') == seq![rest]);
        assert(lines.map_values(add).push(rest) =~= seq![rest]);
    } else {
        let shorter = lines.drop_last();
        assert forall|i: int, j: int|
            0 <= i < shorter.len() && 0 <= j < shorter[i].len() implies #[trigger] shorter[i][j]
            != '\n' by {
            assert(lines[i][j] != '\n');
        }
        let line = lines.last() + before;
        assert forall|j: int| 0 <= j < line.len() implies line[j] != '\n' by {
            if j < lines.last().len() {
                assert(lines[lines.len() - 1][j] != '\n');
            }
        }
        lemma_split_ended(shorter, before, line);
        let head = ended_lines(shorter, end) + line;
        assert(whole =~= head + seq!['\n'] + rest);
        lemma_split_append(head, '\n', rest);
        assert(shorter.map_values(add).push(line) =~= lines.map_values(add));
    }
}

/// Lines that end with a newline, or with a carriage return and a newline,
/// are read back as they are; what stands behind the last newline is a line of
/// its own unless it is empty. Lines that end with a newline alone hold no
/// carriage return at their end.
pub proof fn law_lines_read_back(lines: Seq<Seq<char>>, end: Seq<char>, rest: Seq<char>)
    requires
        are_lines(lines),
        are_lines(seq![rest]),
        end == "\r\n"@ || (end == "\n"@ && forall|i: int|
            0 <= i < lines.len() ==> ((#[trigger] lines[i]).len() == 0 || lines[i].last()
                != '\r')),
    ensures
        lines_of(split(ended_lines(lines, end) + rest, '\n')) == (if rest.len() == 0 {
            lines
        } else {
            lines.push(rest)
        }),
{
    reveal_strlit("\r\n");
    reveal_strlit("\n");
    let before = end.drop_last();
    assert(end =~= before.push('\n'));
    assert forall|j: int| 0 <= j < rest.len() implies rest[j] != '\n' by {
        assert(seq![rest][0][j] != '\n');
    }
    lemma_split_ended(lines, before, rest);
    let add = |l: Seq<char>| l + before;
    let parts = lines.map_values(add).push(rest);
    let strip = |p: Seq<char>| without_return(p);
    assert(parts.drop_last() =~= lines.map_values(add));
    assert forall|i: int| 0 <= i < lines.len() implies #[trigger] parts.drop_last().map_values(
        strip,
    )[i] == lines[i] by {
        let part = lines[i] + before;
        assert(parts[i] == part);
        if end == "\r\n"@ {
            assert(before =~= seq!['\r']);
            assert(part.last() == '\r');
            assert(part.drop_last() =~= lines[i]);
        } else {
            assert(before =~= Seq::<char>::empty());
            assert(part =~= lines[i]);
        }
    }
    assert(parts.drop_last().map_values(strip) =~= lines);
}

/// The line begins with `tracestate:`, in whatever case.
pub open spec fn names_tracestate(line: Seq<char>) -> bool {
    line.len() >= 11 && lower(line.take(11)) == "tracestate:"@
}

/// A `tracestate` line with an entry added behind what it says; any other line
/// as it is.
pub open spec fn with_entry(line: Seq<char>, entry: Seq<char>) -> Seq<char> {
    if names_tracestate(line) {
        if trim(line.skip(11)).len() == 0 {
            "tracestate: "@ + entry
        } else {
            "tracestate: "@ + trim(line.skip(11)) + ","@ + entry
        }
    } else {
        line
    }
}

proof fn lemma_names_tracestate(line: Seq<char>)
    ensures
        names_tracestate(line) == is_tracestate_line(line),
{
    reveal_strlit("tracestate:");
    assert(lower("tracestate:"@) =~= "tracestate:"@);
}

proof fn lemma_entry_line(text: Seq<char>)
    ensures
        names_tracestate("tracestate: "@ + text),
{
    reveal_strlit("tracestate:");
    reveal_strlit("tracestate: ");
    let line = "tracestate: "@ + text;
    assert(line.take(11) =~= "tracestate:"@);
    assert(lower("tracestate:"@) =~= "tracestate:"@);
}

spec fn new_lines(lines: Seq<Seq<char>>, entry: Seq<char>) -> Seq<Seq<char>>
    decreases lines.len(),
{
    if lines.len() == 0 {
        seq![]
    } else {
        let earlier = new_lines(lines.drop_last(), entry);
        let line = lines.last();
        if line.len() == 0 && !rewritten_head(lines.drop_last(), entry).1 {
            earlier.push("tracestate: "@ + entry).push(line)
        } else {
            earlier.push(with_entry(line, entry))
        }
    }
}

proof fn lemma_new_lines_text(lines: Seq<Seq<char>>, entry: Seq<char>)
    ensures
        rewritten_head(lines, entry).0 == ended_lines(new_lines(lines, entry), "\r\n"@),
    decreases lines.len(),
{
    if lines.len() > 0 {
        let shorter = lines.drop_last();
        let line = lines.last();
        let end = "\r\n"@;
        lemma_new_lines_text(shorter, entry);
        lemma_names_tracestate(line);
        let text = rewritten_head(shorter, entry).0;
        let earlier = new_lines(shorter, entry);
        let ts = "tracestate: "@ + entry;
        if line.len() == 0 && !rewritten_head(shorter, entry).1 {
            let grown = earlier.push(ts);
            assert(grown.drop_last() =~= earlier);
            assert(grown.push(line).drop_last() =~= grown);
            assert(ended_lines(grown, end) == text + ts + end);
            assert(ended_lines(grown.push(line), end) == ended_lines(grown, end) + line + end);
            assert(text + ts + end + line + end =~= text + "tracestate: "@ + entry + end + end);
        } else {
            let l = with_entry(line, entry);
            assert(earlier.push(l).drop_last() =~= earlier);
            assert(ended_lines(earlier.push(l), end) == text + l + end);
            if is_tracestate_line(line) {
                if trim(line.skip(11)).len() == 0 {
                    assert(text + l + end =~= text + "tracestate: "@ + entry + end);
                } else {
                    assert(text + l + end =~= text + "tracestate: "@ + trim(line.skip(11)) + ","@
                        + entry + end);
                }
            }
        }
    }
}

proof fn lemma_new_lines_are_lines(lines: Seq<Seq<char>>, entry: Seq<char>)
    requires
        are_lines(lines),
        are_lines(seq![entry]),
    ensures
        are_lines(new_lines(lines, entry)),
    decreases lines.len(),
{
    if lines.len() > 0 {
        let shorter = lines.drop_last();
        assert forall|i: int, j: int|
            0 <= i < shorter.len() && 0 <= j < shorter[i].len() implies #[trigger] shorter[i][j]
            != '\n' by {
            assert(lines[i][j] != '\n');
        }
        lemma_new_lines_are_lines(shorter, entry);
        let earlier = new_lines(shorter, entry);
        let line = lines.last();
        assert forall|j: int| 0 <= j < line.len() implies line[j] != '\n' by {
            assert(lines[lines.len() - 1][j] != '\n');
        }
        assert forall|j: int| 0 <= j < entry.len() implies entry[j] != '\n' by {
            assert(seq![entry][0][j] != '\n');
        }
        reveal_strlit("tracestate: ");
        reveal_strlit(",");
        let ts = "tracestate: "@ + entry;
        let l = with_entry(line, entry);
        if names_tracestate(line) {
            let tail = line.skip(11);
            assert forall|j: int| 0 <= j < tail.len() implies tail[j] != '\n' by {
                assert(tail[j] == line[j + 11]);
            }
            lemma_trim_free(tail, '\n');
        }
        assert forall|j: int| 0 <= j < l.len() implies l[j] != '\n' by {}
        assert forall|j: int| 0 <= j < ts.len() implies ts[j] != '\n' by {}
        let all = new_lines(lines, entry);
        assert forall|i: int, j: int|
            0 <= i < all.len() && 0 <= j < all[i].len() implies #[trigger] all[i][j] != '\n' by {
            if i < earlier.len() {
                assert(earlier[i][j] != '\n');
            }
        }
    }
}

proof fn lemma_new_lines_at(lines: Seq<Seq<char>>, entry: Seq<char>, p: int)
    requires
        0 <= p,
        forall|j: int|
            0 <= j < p && j < lines.len() ==> (#[trigger] lines[j]).len() > 0 && !names_tracestate(
                lines[j],
            ),
        p < lines.len() ==> lines[p].len() == 0 || names_tracestate(lines[p]),
    ensures
        rewritten_head(lines, entry).1 == (p < lines.len()),
        ({
            let new = new_lines(lines, entry);
            if p >= lines.len() {
                new == lines
            } else if names_tracestate(lines[p]) {
                new.len() == lines.len() && forall|i: int|
                    0 <= i < lines.len() ==> #[trigger] new[i] == with_entry(lines[i], entry)
            } else {
                &&& new.len() == lines.len() + 1
                &&& new[p] == "tracestate: "@ + entry
                &&& forall|i: int| 0 <= i < p ==> #[trigger] new[i] == lines[i]
                &&& forall|i: int|
                    p < i <= lines.len() ==> #[trigger] new[i] == with_entry(lines[i - 1], entry)
            }
        }),
    decreases lines.len(),
{
    if lines.len() == 0 {
        assert(new_lines(lines, entry) =~= lines);
    } else {
        let shorter = lines.drop_last();
        assert forall|j: int| 0 <= j < p && j < shorter.len() implies (#[trigger] shorter[j]).len()
            > 0 && !names_tracestate(shorter[j]) by {
            assert(shorter[j] == lines[j]);
        }
        lemma_new_lines_at(shorter, entry, p);
        lemma_names_tracestate(lines.last());
        let earlier = new_lines(shorter, entry);
        let new = new_lines(lines, entry);
        let n = lines.len() - 1;
        assert(lines[n] == lines.last());
        if p >= lines.len() {
            assert(lines[n].len() > 0);
            assert(new =~= lines);
        } else if names_tracestate(lines[p]) {
            assert forall|i: int| 0 <= i < lines.len() implies #[trigger] new[i] == with_entry(
                lines[i],
                entry,
            ) by {
                if i < n {
                    assert(new[i] == earlier[i]);
                    assert(shorter[i] == lines[i]);
                }
            }
        } else {
            if p < n {
                assert forall|i: int| p < i <= lines.len() implies #[trigger] new[i] == with_entry(
                    lines[i - 1],
                    entry,
                ) by {
                    if i < lines.len() {
                        assert(new[i] == earlier[i]);
                        assert(shorter[i - 1] == lines[i - 1]);
                    }
                }
                assert forall|i: int| 0 <= i < p implies #[trigger] new[i] == lines[i] by {
                    assert(new[i] == earlier[i]);
                }
                assert(new[p] == earlier[p]);
            } else {
                assert(earlier =~= shorter);
                assert(new =~= shorter.push("tracestate: "@ + entry).push(lines[n]));
            }
        }
    }
}

proof fn lemma_new_lines_keep_others(lines: Seq<Seq<char>>, entry: Seq<char>)
    ensures
        new_lines(lines, entry).filter(|l: Seq<char>| !names_tracestate(l)) == lines.filter(
            |l: Seq<char>| !names_tracestate(l),
        ),
    decreases lines.len(),
{
    let other = |l: Seq<char>| !names_tracestate(l);
    reveal(Seq::filter);
    if lines.len() == 0 {
        assert(new_lines(lines, entry) =~= lines);
    } else {
        let shorter = lines.drop_last();
        let line = lines.last();
        lemma_new_lines_keep_others(shorter, entry);
        let earlier = new_lines(shorter, entry);
        let ts = "tracestate: "@ + entry;
        lemma_entry_line(entry);
        if line.len() == 0 && !rewritten_head(shorter, entry).1 {
            let grown = earlier.push(ts);
            assert(grown.drop_last() =~= earlier);
            assert(grown.last() == ts);
            assert(grown.filter(other) == earlier.filter(other));
            assert(grown.push(line).drop_last() =~= grown);
            assert(grown.push(line).last() == line);
            assert(new_lines(lines, entry) == grown.push(line));
        } else {
            let l = with_entry(line, entry);
            assert(earlier.push(l).drop_last() =~= earlier);
            assert(earlier.push(l).last() == l);
            assert(new_lines(lines, entry) == earlier.push(l));
            if names_tracestate(line) {
                let value = trim(line.skip(11));
                lemma_entry_line(value + ","@ + entry);
                assert("tracestate: "@ + (value + ","@ + entry) =~= "tracestate: "@ + value + ","@
                    + entry);
                assert(names_tracestate(l));
            }
        }
    }
}

proof fn lemma_lines_of_are_lines(text: Seq<char>)
    ensures
        are_lines(lines_of(split(text, '\n'))),
{
    let parts = split(text, '\n');
    lemma_split_free(text, '\n');
    let lines = lines_of(parts);
    assert forall|i: int, j: int|
        0 <= i < lines.len() && 0 <= j < lines[i].len() implies #[trigger] lines[i][j] != '\n' by {
        assert(0 <= i < parts.len());
        assert(lines[i][j] == parts[i][j]);
    }
}

proof fn lemma_entry_is_line(id: u128)
    ensures
        are_lines(seq![environment_entry(id)]),
{
    lemma_id_text(id);
    reveal_strlit("lapdev-env-id=");
    let e = environment_entry(id);
    assert forall|i: int, j: int|
        0 <= i < seq![e].len() && 0 <= j < seq![e][i].len() implies #[trigger] seq![e][i][j]
        != '\n' by {
        if j >= 14 {
            assert(e[j] == id_text(id)[j - 14]);
            assert(is_id_char(id_text(id)[j - 14]));
        } else {
            assert(e[j] == "lapdev-env-id="@[j]);
        }
    }
}

/// The lines of the head once the environment is added.
proof fn lemma_lines_of_new_head(head: Seq<char>, id: u128)
    ensures
        ({
            let old_lines = lines_of(split(head, '\n'));
            let entry = environment_entry(id);
            lines_of(split(head_with_environment(head, id), '\n')) == (if rewritten_head(
                old_lines,
                entry,
            ).1 {
                new_lines(old_lines, entry)
            } else {
                new_lines(old_lines, entry).push("tracestate: "@ + entry)
            })
        }),
{
    let old_lines = lines_of(split(head, '\n'));
    let entry = environment_entry(id);
    let end = "\r\n"@;
    lemma_lines_of_are_lines(head);
    lemma_entry_is_line(id);
    lemma_new_lines_are_lines(old_lines, entry);
    lemma_new_lines_text(old_lines, entry);
    let made = new_lines(old_lines, entry);
    let ts = "tracestate: "@ + entry;
    let none = Seq::<char>::empty();
    if rewritten_head(old_lines, entry).1 {
        law_lines_read_back(made, end, none);
        assert(ended_lines(made, end) + none =~= ended_lines(made, end));
    } else {
        let all = made.push(ts);
        reveal_strlit("tracestate: ");
        assert forall|j: int| 0 <= j < ts.len() implies ts[j] != '\n' by {
            if j >= 12 {
                assert(seq![entry][0][j - 12] != '\n');
            }
        }
        assert forall|i: int, j: int|
            0 <= i < all.len() && 0 <= j < all[i].len() implies #[trigger] all[i][j] != '\n' by {
            if i < made.len() {
                assert(made[i][j] != '\n');
            }
        }
        assert(all.drop_last() =~= made);
        law_lines_read_back(all, end, none);
        assert(ended_lines(all, end) + none =~= ended_lines(made, end) + "tracestate: "@ + entry
            + end);
    }
}

/// Naming the environment loses no line of the head, changes none and leaves
/// them in their order, but for `tracestate` lines.
pub proof fn law_other_lines_are_kept(head: &str, id: u128, r: String)
    requires
        call_ensures(add_environment_to_head, (head, id), r),
    ensures
        lines_of(split(r@, '\n')).filter(|l: Seq<char>| !names_tracestate(l)) == lines_of(
            split(head@, '\n'),
        ).filter(|l: Seq<char>| !names_tracestate(l)),
{
    let old_lines = lines_of(split(head@, '\n'));
    let entry = environment_entry(id);
    let other = |l: Seq<char>| !names_tracestate(l);
    lemma_lines_of_new_head(head@, id);
    lemma_new_lines_keep_others(old_lines, entry);
    let made = new_lines(old_lines, entry);
    let ts = "tracestate: "@ + entry;
    lemma_entry_line(entry);
    reveal(Seq::filter);
    assert(made.push(ts).drop_last() =~= made);
}

/// Where the first `tracestate` line stands before any empty line, every
/// `tracestate` line has the environment added behind what it says, and all
/// other lines stay where they are. Else a line with the environment is put
/// before the first empty line, or at the end where there is none, and the
/// lines behind it follow in their order.
pub proof fn law_environment_is_named_in_the_head(head: &str, id: u128, r: String, p: int)
    requires
        call_ensures(add_environment_to_head, (head, id), r),
        0 <= p <= lines_of(split(head@, '\n')).len(),
        forall|j: int|
            0 <= j < p ==> (#[trigger] lines_of(split(head@, '\n'))[j]).len() > 0
                && !names_tracestate(lines_of(split(head@, '\n'))[j]),
        p < lines_of(split(head@, '\n')).len() ==> lines_of(split(head@, '\n'))[p].len() == 0
            || names_tracestate(lines_of(split(head@, '\n'))[p]),
    ensures
        ({
            let before = lines_of(split(head@, '\n'));
            let after = lines_of(split(r@, '\n'));
            let entry = "lapdev-env-id="@ + id_text(id);
            if p < before.len() && names_tracestate(before[p]) {
                after.len() == before.len() && forall|i: int|
                    0 <= i < before.len() ==> #[trigger] after[i] == with_entry(before[i], entry)
            } else {
                &&& after.len() == before.len() + 1
                &&& after[p] == "tracestate: "@ + entry
                &&& forall|i: int| 0 <= i < p ==> #[trigger] after[i] == before[i]
                &&& forall|i: int|
                    p < i <= before.len() ==> #[trigger] after[i] == with_entry(
                        before[i - 1],
                        entry,
                    )
            }
        }),
{
    let before = lines_of(split(head@, '\n'));
    let entry = environment_entry(id);
    lemma_lines_of_new_head(head@, id);
    lemma_new_lines_at(before, entry, p);
}

/// Naming the environment in a request fails just where its head is no valid
/// text. Else it changes the head alone: every byte behind it stays.
pub proof fn law_body_is_kept(
    request: &[u8],
    headers_len: usize,
    id: u128,
    r: Result<Vec<u8>, ProxyError>,
    head: &str,
    new_head: String,
)
    requires
        headers_len <= request@.len(),
        call_ensures(add_environment_id_to_headers, (request, headers_len, id), r),
        head@ == decode_utf8(request@.take(headers_len as int)),
        call_ensures(add_environment_to_head, (head, id), new_head),
    ensures
        (r is Ok) == valid_utf8(request@.take(headers_len as int)),
        r matches Ok(bytes) ==> bytes@ == encode_utf8(new_head@) + request@.skip(
            headers_len as int,
        ),
{
}

/// Every kind of error is answered with its own status. What an error says is
/// told, in an answer and on a page, but a page never shows what went wrong
/// inside, and it always gives a reason where the kind has one of its own.
pub proof fn law_errors_are_answered(
    e: ProxyError,
    answer: (u16, String),
    page: (u16, String),
    detail: String,
)
    requires
        call_ensures(ProxyError::into_response, (e,), answer),
        call_ensures(respond_with_proxy_error, (&e,), page),
        e == ProxyError::InvalidUrl(detail) || e == ProxyError::NotFound(detail) || e
            == ProxyError::Forbidden(detail) || e == ProxyError::TunnelNotAvailable(detail) || e
            == ProxyError::Timeout(detail) || e == ProxyError::NetworkError(detail) || e
            == ProxyError::Internal(detail),
    ensures
        answer.0 == page.0,
        e is InvalidUrl ==> answer.0 == 400,
        e is Forbidden ==> answer.0 == 403,
        e is NotFound ==> answer.0 == 404,
        e is Internal ==> answer.0 == 500,
        e is NetworkError ==> answer.0 == 502,
        e is TunnelNotAvailable ==> answer.0 == 503,
        e is Timeout ==> answer.0 == 504,
        answer.1@ == detail@,
        !(e is Internal) && detail@.len() > 0 ==> page.1@ == detail@,
        !(e is NotFound || e is Forbidden) ==> page.1@.len() > 0,
        e is Internal ==> page.1@
            == "Lapdev hit an unexpected error while loading this preview. Please retry or recreate the Preview URL."@,
{
    reveal_strlit(
        "Lapdev couldn’t reach the preview environment right now. Please retry in a few seconds.",
    );
    reveal_strlit(
        "The preview environment took too long to answer. Refresh the page or restart the environment.",
    );
    reveal_strlit("This preview link was malformed. Double-check the URL and try again.");
    reveal_strlit("Lapdev couldn’t proxy the request to the environment. Try again shortly.");
    reveal_strlit(
        "Lapdev hit an unexpected error while loading this preview. Please retry or recreate the Preview URL.",
    );
}

/// An error page begins with its status, announces the number of bytes of its
/// body, and ends with the body behind an empty line.
pub proof fn law_error_page_is_framed(status: u16, body: &str, r: String)
    requires
        call_ensures(error_page, (status, body), r),
    ensures
        exists|words: Seq<char>, middle: Seq<char>|
            r@ == "HTTP/1.1 "@ + decimal(status as nat) + " "@ + words + "\r\n"@ + middle
                + "\r\nContent-Length: "@ + decimal(encode_utf8(body@).len()) + "\r\n"@
                + #[trigger] ("Connection: close"@ + "\r\n\r\n"@) + body@ && #[trigger] (words
                + middle).len() >= 0,
{
    let words = match reason_phrase(status) {
        Some(words) => words,
        None => "Unknown"@,
    };
    let middle = "Content-Type: text/html; charset=utf-8"@;
    reveal_strlit("\r\nContent-Type: text/html; charset=utf-8\r\nContent-Length: ");
    reveal_strlit("Content-Type: text/html; charset=utf-8");
    reveal_strlit("\r\nContent-Length: ");
    reveal_strlit("\r\nConnection: close\r\n\r\n");
    reveal_strlit("Connection: close");
    reveal_strlit("\r\n");
    reveal_strlit("\r\n\r\n");
    assert("\r\nContent-Type: text/html; charset=utf-8\r\nContent-Length: "@ =~= "\r\n"@ + middle
        + "\r\nContent-Length: "@);
    assert("\r\nConnection: close\r\n\r\n"@ =~= "\r\n"@ + ("Connection: close"@
        + "\r\n\r\n"@));
    assert(r@ =~= "HTTP/1.1 "@ + decimal(status as nat) + " "@ + words + "\r\n"@ + middle
        + "\r\nContent-Length: "@ + decimal(encode_utf8(body@).len()) + "\r\n"@ + (
    "Connection: close"@ + "\r\n\r\n"@) + body@);
    assert((words + middle).len() >= 0);
}

/// A request that was parsed is resolved by its host, up to the first dot. One
/// without a host is dropped, and what could not be parsed is refused.
pub proof fn law_first_label_is_the_link(
    parsed: Result<(ParsedHttpRequest, usize), HttpParseError>,
    r: PreviewStep,
    host: Option<Seq<char>>,
)
    requires
        call_ensures(after_parse, (parsed,), r),
        parsed matches Ok((request, _)) && is_first_header(request.headers@, "host"@, host),
    ensures
        match host {
            None => r matches PreviewStep::Drop(ProxyError::InvalidUrl(_)),
            Some(h) => r matches PreviewStep::Resolve { subdomain, request, headers_len } && request
                == parsed->Ok_0.0 && headers_len == parsed->Ok_0.1 && (forall|i: int|
                0 <= i < subdomain@.len() ==> subdomain@[i] != '.') && (h == subdomain@ || (
            subdomain@ + "."@).is_prefix_of(h)),
        },
{
    let headers = (parsed->Ok_0).0.headers@;
    lemma_same_first_header(headers, "host"@, host);
    reveal_strlit(".");
    if let Some(h) = host {
        lemma_first_index(h, '.');
        let n = first_index(h, '.') as int;
        let label = split(h, '.')[0];
        if n < h.len() {
            assert(label == h.take(n));
            assert((label + "."@) =~= h.take(n + 1));
            assert((label + "."@).is_prefix_of(h)) by {
                assert(h.take(n + 1) =~= h.subrange(0, (label + "."@).len() as int));
            }
        } else {
            assert(label == h);
        }
    }
}

/// What could not be parsed is refused with status 400.
pub proof fn law_unparsed_request_is_refused(error: HttpParseError, r: PreviewStep)
    requires
        call_ensures(after_parse, (Err::<(ParsedHttpRequest, usize), HttpParseError>(error),), r),
    ensures
        r matches PreviewStep::Refuse { status, reason: _ } && status == 400,
{
}

/// The cookie at `k` of the header at `i` has that name and that value.
pub open spec fn is_cookie(
    headers: Seq<(String, String)>,
    i: int,
    k: int,
    name: Seq<char>,
    value: Seq<char>,
) -> bool {
    &&& 0 <= i < headers.len()
    &&& lower(headers[i].0@) == "cookie"@
    &&& 0 <= k < split(headers[i].1@, ';').len()
    &&& trim(split(headers[i].1@, ';')[k]) == name + "="@ + value
}

proof fn lemma_cookie_in(cookies: Seq<Seq<char>>, prefix: Seq<char>)
    ensures
        match cookie_in(cookies, prefix) {
            Some(v) => exists|k: int|
                0 <= k < cookies.len() && trim(#[trigger] cookies[k]) == prefix + v && forall|
                    j: int,
                |
                    0 <= j < k ==> !prefix.is_prefix_of(trim(#[trigger] cookies[j])),
            None => forall|j: int|
                0 <= j < cookies.len() ==> !prefix.is_prefix_of(trim(#[trigger] cookies[j])),
        },
    decreases cookies.len(),
{
    if cookies.len() > 0 {
        let t = trim(cookies[0]);
        if prefix.is_prefix_of(t) {
            assert(t =~= prefix + t.skip(prefix.len() as int)) by {
                assert(prefix =~= t.subrange(0, prefix.len() as int));
            }
            assert(trim(cookies[0]) == prefix + cookie_in(cookies, prefix)->0);
        } else {
            let rest = cookies.drop_first();
            lemma_cookie_in(rest, prefix);
            match cookie_in(rest, prefix) {
                Some(v) => {
                    let k = choose|k: int|
                        0 <= k < rest.len() && trim(#[trigger] rest[k]) == prefix + v && forall|
                            j: int,
                        |
                            0 <= j < k ==> !prefix.is_prefix_of(trim(#[trigger] rest[j]));
                    assert(cookies[k + 1] == rest[k]);
                    assert forall|j: int| 0 <= j < k + 1 implies !prefix.is_prefix_of(
                        trim(#[trigger] cookies[j]),
                    ) by {
                        if j > 0 {
                            assert(rest[j - 1] == cookies[j]);
                        }
                    }
                },
                None => {
                    assert forall|j: int| 0 <= j < cookies.len() implies !prefix.is_prefix_of(
                        trim(#[trigger] cookies[j]),
                    ) by {
                        if j > 0 {
                            assert(rest[j - 1] == cookies[j]);
                        }
                    }
                },
            }
        }
    }
}

proof fn lemma_cookie_stems(
    headers: Seq<(Seq<char>, Seq<char>)>,
    prefix: Seq<char>,
) -> (at: (int, int))
    requires
        cookie_value(headers, prefix) is Some,
    ensures
        0 <= at.0 < headers.len(),
        lower(headers[at.0].0) == lower("cookie"@),
        0 <= at.1 < split(headers[at.0].1, ';').len(),
        trim(split(headers[at.0].1, ';')[at.1]) == prefix + cookie_value(headers, prefix)->0,
    decreases headers.len(),
{
    let cookies = split(headers[0].1, ';');
    let here = if lower(headers[0].0) == lower("cookie"@) {
        cookie_in(cookies, prefix)
    } else {
        None
    };
    match here {
        Some(v) => {
            lemma_cookie_in(cookies, prefix);
            let k = choose|k: int|
                0 <= k < cookies.len() && trim(#[trigger] cookies[k]) == prefix + v && forall|
                    j: int,
                |
                    0 <= j < k ==> !prefix.is_prefix_of(trim(#[trigger] cookies[j]));
            (0, k)
        },
        None => {
            let rest = headers.drop_first();
            let at = lemma_cookie_stems(rest, prefix);
            assert(rest[at.0] == headers[at.0 + 1]);
            (at.0 + 1, at.1)
        },
    }
}

proof fn lemma_cookie_found(headers: Seq<(Seq<char>, Seq<char>)>, prefix: Seq<char>, i: int, k: int)
    requires
        0 <= i < headers.len(),
        lower(headers[i].0) == lower("cookie"@),
        0 <= k < split(headers[i].1, ';').len(),
        prefix.is_prefix_of(trim(split(headers[i].1, ';')[k])),
    ensures
        cookie_value(headers, prefix) is Some,
    decreases headers.len(),
{
    let cookies = split(headers[0].1, ';');
    lemma_cookie_in(cookies, prefix);
    if i > 0 {
        let rest = headers.drop_first();
        assert(rest[i - 1] == headers[i]);
        lemma_cookie_found(rest, prefix, i - 1, k);
    } else if cookie_in(cookies, prefix) is None {
        assert(!prefix.is_prefix_of(trim(cookies[k])));
    }
}

/// A cookie of a request is found just where one of its `cookie` headers has
/// it, between semicolons, and then with a value that one of them gives it.
pub proof fn law_cookie_is_found(
    headers: &[(String, String)],
    name: &str,
    r: Option<String>,
    i: int,
    k: int,
    value: Seq<char>,
)
    requires
        call_ensures(extract_cookie_value, (headers, name), r),
    ensures
        is_cookie(headers@, i, k, name@, value) ==> r is Some,
        r matches Some(v) ==> exists|a: int, b: int| #[trigger]
            is_cookie(headers@, a, b, name@, v@),
{
    reveal_strlit("cookie");
    assert(lower("cookie"@) =~= "cookie"@);
    let all = header_views(headers@);
    let prefix = name@ + "="@;
    if is_cookie(headers@, i, k, name@, value) {
        assert(all[i] == (headers@[i].0@, headers@[i].1@));
        let t = trim(split(headers@[i].1@, ';')[k]);
        assert(prefix =~= t.subrange(0, prefix.len() as int));
        lemma_cookie_found(all, prefix, i, k);
    }
    if let Some(v) = r {
        let at = lemma_cookie_stems(all, prefix);
        assert(all[at.0] == (headers@[at.0].0@, headers@[at.0].1@));
        assert(is_cookie(headers@, at.0, at.1, name@, v@));
    }
}

/// A header holds no cookie that begins with the prefix.
pub open spec fn lacks_cookie(header: (Seq<char>, Seq<char>), prefix: Seq<char>) -> bool {
    lower(header.0) == "cookie"@ ==> forall|j: int|
        0 <= j < split(header.1, ';').len() ==> !prefix.is_prefix_of(
            trim(#[trigger] split(header.1, ';')[j]),
        )
}

proof fn lemma_first_cookie(
    headers: Seq<(Seq<char>, Seq<char>)>,
    prefix: Seq<char>,
    i: int,
    k: int,
    value: Seq<char>,
)
    requires
        0 <= i < headers.len(),
        forall|a: int| 0 <= a < i ==> lacks_cookie(#[trigger] headers[a], prefix),
        lower(headers[i].0) == "cookie"@,
        0 <= k < split(headers[i].1, ';').len(),
        trim(split(headers[i].1, ';')[k]) == prefix + value,
        forall|j: int|
            0 <= j < k ==> !prefix.is_prefix_of(trim(#[trigger] split(headers[i].1, ';')[j])),
    ensures
        cookie_value(headers, prefix) == Some(value),
    decreases headers.len(),
{
    reveal_strlit("cookie");
    assert(lower("cookie"@) =~= "cookie"@);
    let cookies = split(headers[0].1, ';');
    lemma_cookie_in(cookies, prefix);
    if i > 0 {
        let rest = headers.drop_first();
        assert(lacks_cookie(headers[0], prefix));
        assert(rest[i - 1] == headers[i]);
        assert forall|a: int| 0 <= a < i - 1 implies lacks_cookie(#[trigger] rest[a], prefix) by {
            assert(rest[a] == headers[a + 1]);
        }
        lemma_first_cookie(rest, prefix, i - 1, k, value);
        if lower(headers[0].0) == lower("cookie"@) {
            if let Some(v) = cookie_in(cookies, prefix) {
                let m = choose|m: int|
                    0 <= m < cookies.len() && trim(#[trigger] cookies[m]) == prefix + v && forall|
                        j: int,
                    |
                        0 <= j < m ==> !prefix.is_prefix_of(trim(#[trigger] cookies[j]));
                let u = trim(cookies[m]);
                assert(prefix =~= u.subrange(0, prefix.len() as int));
                assert(prefix.is_prefix_of(trim(cookies[m])));
            }
        }
    } else {
        let t = trim(cookies[k]);
        assert(prefix =~= t.subrange(0, prefix.len() as int));
        match cookie_in(cookies, prefix) {
            Some(v) => {
                let m = choose|m: int|
                    0 <= m < cookies.len() && trim(#[trigger] cookies[m]) == prefix + v && forall|
                        j: int,
                    |
                        0 <= j < m ==> !prefix.is_prefix_of(trim(#[trigger] cookies[j]));
                let u = trim(cookies[m]);
                assert(prefix =~= u.subrange(0, prefix.len() as int));
                assert(m == k) by {
                    if m < k {
                        assert(!prefix.is_prefix_of(trim(cookies[m])));
                    }
                    if k < m {
                        assert(!prefix.is_prefix_of(trim(cookies[k])));
                    }
                }
                assert(v =~= (prefix + v).skip(prefix.len() as int));
                assert(value =~= (prefix + value).skip(prefix.len() as int));
            },
            None => {
                assert(!prefix.is_prefix_of(trim(cookies[k])));
            },
        }
    }
}

/// The first cookie of its name counts: one in an earlier header, or earlier in
/// the same header.
pub proof fn law_first_cookie_counts(
    headers: &[(String, String)],
    name: &str,
    r: Option<String>,
    i: int,
    k: int,
    value: Seq<char>,
)
    requires
        call_ensures(extract_cookie_value, (headers, name), r),
        is_cookie(headers@, i, k, name@, value),
        forall|a: int|
            0 <= a < i ==> lacks_cookie(
                ((#[trigger] headers@[a]).0@, headers@[a].1@),
                name@ + "="@,
            ),
        forall|j: int|
            0 <= j < k ==> !(name@ + "="@).is_prefix_of(
                trim(#[trigger] split(headers@[i].1@, ';')[j]),
            ),
    ensures
        r matches Some(v) && v@ == value,
{
    let all = header_views(headers@);
    assert(all[i] == (headers@[i].0@, headers@[i].1@));
    assert forall|a: int| 0 <= a < i implies lacks_cookie(
        #[trigger] all[a],
        name@ + "="@,
    ) by {
        assert(all[a] == (headers@[a].0@, headers@[a].1@));
    }
    lemma_first_cookie(all, name@ + "="@, i, k, value);
}

/// A public preview is open to everybody. That of an organization is never
/// open without the token of a session, which has to be checked, and is
/// forbidden without one.
pub proof fn law_access_is_checked(
    headers: &[(String, String)],
    level: PreviewUrlAccessLevel,
    name: &str,
    r: AccessStep,
    cookie: Option<String>,
)
    requires
        call_ensures(authorize_request, (headers, level, name), r),
        call_ensures(extract_cookie_value, (headers, name), cookie),
    ensures
        (r is Allowed) == (level == PreviewUrlAccessLevel::Public),
        level == PreviewUrlAccessLevel::Organization ==> match cookie {
            Some(c) => r matches AccessStep::CheckToken { token } && token@ == c@,
            None => r matches AccessStep::Denied(ProxyError::Forbidden(_)),
        },
{
}

/// A user is known just where the claim is a text that names one.
pub proof fn law_claim_names_a_user(claim: Option<&Json>, r: Result<u128, ProxyError>)
    requires
        call_ensures(user_id_from_claim, (claim,), r),
    ensures
        match r {
            Ok(user) => claim matches Some(j) && (j@ matches JsonView::Text(t) && parsed_id(t)
                == Some(user)),
            Err(e) => e is Forbidden && !(claim matches Some(j) && (j@ matches JsonView::Text(t)
                && parsed_id(t) is Some)),
        },
{
}

/// Only who was found to be a member is let through; who was found to be none
/// is forbidden, and a lookup that failed otherwise is an error inside.
pub proof fn law_members_are_let_through(error: Option<&str>, r: Result<(), ProxyError>)
    requires
        call_ensures(membership, (error,), r),
    ensures
        (r is Ok) == (error is None),
        r matches Err(e) ==> (e is Forbidden || e is Internal) && (e is Forbidden) == (exists|i:
            int| #[trigger]
            occurs_at(error->0@, "no organization member found"@, i)),
{
}

/// A request is passed on just where the client of its cluster is there and
/// open, to the service inside its namespace.
pub proof fn law_open_tunnel_is_used(
    available: TunnelAvailability,
    service: &str,
    namespace: &str,
    r: Result<String, ProxyError>,
)
    requires
        call_ensures(tunnel_target, (available, service, namespace), r),
    ensures
        (r is Ok) == (available == TunnelAvailability::Open),
        r matches Ok(host) ==> host@ == service@ + "."@ + namespace@ + ".svc"@,
        r matches Err(e) ==> e is TunnelNotAvailable,
{
}

/// An intercept has a mapping for a port.
pub open spec fn holds_port(intercept: Option<Vec<DevboxPortMapping>>, port: u16) -> bool {
    intercept matches Some(mappings) && exists|k: int|
        0 <= k < mappings@.len() && (#[trigger] mappings@[k]).workload_port == port
}

proof fn lemma_holds_port(mappings: Vec<DevboxPortMapping>, port: u16)
    ensures
        holds_port(Some(mappings), port) == (mapped_local_port(mappings@, port) is Some),
        mapped_local_port(mappings@, port) matches Some(local) ==> exists|k: int|
            0 <= k < mappings@.len() && (#[trigger] mappings@[k]).workload_port == port
                && mappings@[k].local_port == local && forall|j: int|
                0 <= j < k ==> (#[trigger] mappings@[j]).workload_port != port,
{
    lemma_first_mapping(mappings@, port);
    let intercept: Option<Vec<DevboxPortMapping>> = Some(mappings);
    if mapped_local_port(mappings@, port) is Some {
        let k = choose|k: int|
            0 <= k < mappings@.len() && (#[trigger] mappings@[k]).workload_port == port;
        assert(intercept->0@[k].workload_port == port);
    }
    if holds_port(intercept, port) {
        let k = choose|k: int|
            0 <= k < intercept->0@.len() && (#[trigger] intercept->0@[k]).workload_port == port;
        assert(mappings@[k].workload_port == port);
    }
}

proof fn lemma_first_mapping(mappings: Seq<DevboxPortMapping>, port: u16)
    ensures
        (exists|k: int| 0 <= k < mappings.len() && (#[trigger] mappings[k]).workload_port == port)
            == (mapped_local_port(mappings, port) is Some),
        mapped_local_port(mappings, port) matches Some(local) ==> exists|k: int|
            0 <= k < mappings.len() && (#[trigger] mappings[k]).workload_port == port
                && mappings[k].local_port == local && forall|j: int|
                0 <= j < k ==> (#[trigger] mappings[j]).workload_port != port,
    decreases mappings.len(),
{
    if mappings.len() > 0 {
        if mappings[0].workload_port == port {
            assert(mappings[0].local_port == mapped_local_port(mappings, port)->0);
        } else {
            let rest = mappings.drop_first();
            lemma_first_mapping(rest, port);
            if exists|k: int|
                0 <= k < mappings.len() && (#[trigger] mappings[k]).workload_port == port {
                let k = choose|k: int|
                    0 <= k < mappings.len() && (#[trigger] mappings[k]).workload_port == port;
                assert(rest[k - 1] == mappings[k]);
            }
            if mapped_local_port(rest, port) is Some {
                let local = mapped_local_port(rest, port)->0;
                let k = choose|k: int|
                    0 <= k < rest.len() && (#[trigger] rest[k]).workload_port == port
                        && rest[k].local_port == local && forall|j: int|
                        0 <= j < k ==> (#[trigger] rest[j]).workload_port != port;
                assert(mappings[k + 1] == rest[k]);
                assert forall|j: int| 0 <= j < k + 1 implies (#[trigger] mappings[j]).workload_port
                    != port by {
                    if j > 0 {
                        assert(rest[j - 1] == mappings[j]);
                    }
                }
            }
        }
    }
}

proof fn lemma_intercept_of(intercepts: Seq<Option<Vec<DevboxPortMapping>>>, port: u16, at: nat)
    ensures
        match intercept_of(intercepts, port, at) {
            Some((i, local)) => at <= i < intercepts.len() && (intercepts[i as int] matches Some(m)
                && mapped_local_port(m@, port) == Some(local)) && forall|j: int|
                at <= j < i ==> !holds_port(#[trigger] intercepts[j], port),
            None => forall|j: int|
                at <= j < intercepts.len() ==> !holds_port(#[trigger] intercepts[j], port),
        },
    decreases intercepts.len() - at,
{
    if at < intercepts.len() {
        if let Some(m) = intercepts[at as int] {
            lemma_holds_port(m, port);
        }
        let here = match intercepts[at as int] {
            Some(mappings) => mapped_local_port(mappings@, port),
            None => None,
        };
        if here is None {
            assert(!holds_port(intercepts[at as int], port));
            lemma_intercept_of(intercepts, port, at + 1);
            match intercept_of(intercepts, port, at) {
                Some((i, local)) => {
                    assert forall|j: int| at <= j < i implies !holds_port(
                        #[trigger] intercepts[j],
                        port,
                    ) by {
                        if j > at {
                        }
                    }
                },
                None => {
                    assert forall|j: int| at <= j < intercepts.len() implies !holds_port(
                        #[trigger] intercepts[j],
                        port,
                    ) by {
                        if j > at {
                        }
                    }
                },
            }
        }
    }
}

/// The intercept of a port is the first that has a mapping for it, and the
/// local port is that of its first such mapping; there is none just where no
/// intercept has one.
pub proof fn law_intercept_of_a_port(
    intercepts: Vec<Option<Vec<DevboxPortMapping>>>,
    port: u16,
    r: Option<(usize, u16)>,
)
    requires
        call_ensures(find_intercept, (&intercepts, port), r),
    ensures
        match r {
            Some((i, local)) => {
                &&& i < intercepts@.len()
                &&& forall|j: int|
                    0 <= j < i ==> !holds_port(#[trigger] intercepts@[j], port)
                &&& intercepts@[i as int] matches Some(m) && exists|k: int|
                    0 <= k < m@.len() && (#[trigger] m@[k]).workload_port == port && m@[k].local_port
                        == local && forall|j: int|
                        0 <= j < k ==> (#[trigger] m@[j]).workload_port != port
            },
            None => forall|j: int|
                0 <= j < intercepts@.len() ==> !holds_port(#[trigger] intercepts@[j], port),
        },
{
    lemma_intercept_of(intercepts@, port, 0);
    assert(intercepts@.len() == intercepts.len());
    if let Some((i, local)) = r {
        if let Some(m) = intercepts@[i as int] {
            lemma_holds_port(m, port);
        }
    }
}

/// A user is called by their name, where they have one; else by their address,
/// and where that is not known either, by their identifier.
pub proof fn law_user_is_named(name: Option<&str>, email: Option<&str>, id: u128, r: String)
    requires
        call_ensures(user_label, (name, email, id), r),
    ensures
        name matches Some(n) ==> (n@.len() > 0 ==> r@ == n@),
        !(name matches Some(n) && n@.len() > 0) ==> match email {
            Some(e) => r@ == e@,
            None => r@ == "user "@ + id_text(id),
        },
{
}

/// The link of a request is read as a preview link; one that cannot be read
/// makes an invalid request.
pub proof fn law_link_of_a_request_is_read(
    subdomain: &str,
    r: Result<PreviewUrlInfo, ProxyError>,
    read: Result<PreviewUrlInfo, PreviewUrlError>,
)
    requires
        call_ensures(parse_link, (subdomain,), r),
        call_ensures(PreviewUrlResolver::parse_preview_url, (subdomain,), read),
    ensures
        r is Ok <==> read is Ok,
        r matches Ok(info) ==> info.port == read->Ok_0.port && info.service_name@
            == read->Ok_0.service_name@ && info.environment_hash@ == read->Ok_0.environment_hash@,
        r matches Err(e) ==> e is InvalidUrl,
{
}

/// A link that leads nowhere is not found, one that the user may not follow is
/// forbidden, and any other trouble is the proxy's own.
pub proof fn law_dead_links_are_not_found(
    e: PreviewUrlError,
    service: &str,
    port: u16,
    subdomain: &str,
    r: ProxyError,
)
    requires
        call_ensures(resolve_error, (&e, service, port, subdomain), r),
    ensures
        r is NotFound <==> e is EnvironmentNotFound || e is ServiceNotFound || e
            is PreviewUrlNotConfigured,
        r is Forbidden <==> e is AccessDenied,
        r is NotFound || r is Forbidden || r is Internal,
{
}

/// A request whose head is too large is refused as such; one that could not be
/// read otherwise is a bad request.
pub proof fn law_unread_heads_are_refused(error: HeaderReadError, r: PreviewStep)
    requires
        call_ensures(after_read_error, (&error,), r),
    ensures
        r matches PreviewStep::Refuse { status, .. } && (status == 413 <==> error is TooLarge) && (
        status == 400 <==> !(error is TooLarge)),
{
}

/// A tunnel that could not be opened timed out where the target could not be
/// reached, and else the network failed. The error tells what was said.
pub proof fn law_unopened_tunnels_are_explained(err: TunnelError, r: ProxyError)
    requires
        call_ensures(PreviewUrlProxy::map_tunnel_connect_error, (err,), r),
    ensures
        err is Remote ==> r is Timeout,
        err is ConnectionClosed ==> r is NetworkError,
        err matches TunnelError::Transport(e) ==> (r is Timeout <==> e.kind is ConnectionRefused
            || e.kind is ConnectionAborted || e.kind is ConnectionReset || e.kind is TimedOut
            || e.kind is NotConnected) && (r is Timeout || r is NetworkError),
{
}

/// A tunnel that failed in use timed out where the other side closed it, is not
/// available where it closed by itself, and else the network failed.
pub proof fn law_failed_tunnels_are_explained(err: IoError, r: ProxyError)
    requires
        call_ensures(PreviewUrlProxy::map_tunnel_runtime_error, (err,), r),
    ensures
        r is Timeout <==> err.cause is Remote,
        r is TunnelNotAvailable <==> err.cause is ConnectionClosed,
        r is NetworkError <==> err.cause is Transport || err.cause is Plain,
{
}

/// What comes first of an answer is passed on. An answer that never comes is a
/// timeout, which the hint explains where there is one, and a read that fails is
/// a tunnel that failed in use.
pub proof fn law_first_bytes_are_passed_on(
    read: Result<usize, IoError>,
    hint: Option<String>,
    r: FirstRead,
    mapped: ProxyError,
)
    requires
        call_ensures(PreviewUrlProxy::after_first_read, (read, hint), r),
        read matches Err(io) ==> call_ensures(
            PreviewUrlProxy::map_tunnel_runtime_error,
            (io,),
            mapped,
        ),
    ensures
        r is Forward <==> (read matches Ok(n) && n > 0),
        r matches FirstRead::Forward(n) ==> read == Ok::<usize, IoError>(n),
        read matches Ok(n) ==> (n == 0 ==> (r matches FirstRead::Failed(ProxyError::Timeout(m)) && (
        hint matches Some(h) ==> m@ == h@))),
        read is Err ==> (r matches FirstRead::Failed(e) && (e is Timeout <==> mapped is Timeout) && (
        e is TunnelNotAvailable <==> mapped is TunnelNotAvailable) && (e is NetworkError
            <==> mapped is NetworkError)),
{
}

} // verus!
