//! Header maps of the `http` crate.
use crate::text::{lower, lower_char};
use crate::tracestate::is_header_byte;
use vstd::prelude::*;

verus! {

// ---------------------------------------------------------------------------
// Names
// ---------------------------------------------------------------------------

/// A character that the name of a header may hold.
pub open spec fn is_name_char(c: char) -> bool {
    ||| 'a' <= c <= 'z'
    ||| 'A' <= c <= 'Z'
    ||| '0' <= c <= '9'
    ||| "!#$%&'*+-.^_`|~"@.contains(c)
}

/// The name of a header in lower case, or nothing where the text is no header
/// name.
pub open spec fn header_name_of(text: Seq<char>) -> Option<Seq<char>> {
    if 1 <= text.len() <= 65535 && (forall|i: int|
        0 <= i < text.len() ==> is_name_char(#[trigger] text[i])) {
        Some(lower(text))
    } else {
        None
    }
}

/// The text is the name of a header, in lower case.
pub open spec fn is_header_name(text: Seq<char>) -> bool {
    header_name_of(text) == Some(text)
}

/// What is read as the name of a header is the name of a header.
pub proof fn law_names_are_names(text: Seq<char>)
    ensures
        header_name_of(text) matches Some(name) ==> is_header_name(name),
{
    if let Some(name) = header_name_of(text) {
        assert forall|i: int| 0 <= i < name.len() implies is_name_char(#[trigger] name[i]) by {
            let c = text[i];
            assert(is_name_char(c));
            if 'A' <= c <= 'Z' {
                assert('a' <= lower_char(c) <= 'z');
            }
        }
        assert forall|i: int| 0 <= i < name.len() implies lower_char(#[trigger] name[i])
            == name[i] by {
            let c = text[i];
            if 'A' <= c <= 'Z' {
                assert('a' <= lower_char(c) <= 'z');
            }
        }
        assert(lower(name) =~= name);
    }
}

/// Small letters and hyphens make the name of a header.
pub(crate) proof fn lemma_plain_name(text: Seq<char>)
    requires
        1 <= text.len() <= 65535,
        forall|i: int| 0 <= i < text.len() ==> 'a' <= #[trigger] text[i] <= 'z' || text[i] == '-',
    ensures
        is_header_name(text),
{
    reveal_strlit("!#$%&'*+-.^_`|~");
    assert("!#$%&'*+-.^_`|~"@[8] == '-');
    assert forall|i: int| 0 <= i < text.len() implies is_name_char(#[trigger] text[i]) by {
        assert("!#$%&'*+-.^_`|~"@.contains('-'));
    }
    assert(lower(text) =~= text);
}

/// `http::HeaderName::from_bytes` on the bytes of a text: it takes up to 65535
/// letters, digits and the signs that a token may hold, and gives them back in
/// lower case. Its error always says the same.
#[verifier::external_body]
pub(crate) fn parse_header_name(text: &str) -> (r: Result<String, String>)
    ensures
        match r {
            Ok(t) => header_name_of(text@) == Some(t@),
            Err(e) => header_name_of(text@) is None && e@ == "invalid HTTP header name"@,
        },
{
    match http::HeaderName::from_bytes(text.as_bytes()) {
        Ok(name) => Ok(name.as_str().to_string()),
        Err(error) => Err(error.to_string()),
    }
}

// ---------------------------------------------------------------------------
// Maps
// ---------------------------------------------------------------------------

/// Bytes that may be a header value.
pub open spec fn is_header_value(value: Seq<u8>) -> bool {
    forall|i: int| 0 <= i < value.len() ==> is_header_byte(#[trigger] value[i])
}

/// The number of names up to which a map always takes another one. A map has
/// at most 32768 places, and it may refuse to grow further once a fifth of
/// them is taken.
pub const SAFE_NAMES: usize = 6553;

/// A map from the names of headers to their values.
#[verifier::external_type_specification]
#[verifier::external_body]
#[verifier::reject_recursive_types(T)]
pub struct ExHeaderMap<T>(http::HeaderMap<T>);

/// The value of a header.
#[verifier::external_type_specification]
#[verifier::external_body]
pub struct ExHeaderValue(http::HeaderValue);

/// The values of each name of a map, in the order in which they were added.
/// Names are in lower case.
pub uninterp spec fn header_content(map: http::HeaderMap<http::HeaderValue>) -> Map<
    Seq<char>,
    Seq<Seq<u8>>,
>;

/// `http::HeaderMap::remove`: all values of the name go. A map has finitely
/// many names.
#[verifier::external_body]
pub(crate) fn remove_header(map: &mut http::HeaderMap<http::HeaderValue>, name: &str)
    requires
        is_header_name(name@),
    ensures
        header_content(*final(map)) == header_content(*old(map)).remove(name@),
        header_content(*final(map)).dom().finite(),
        header_content(*old(map)).dom().finite(),
{
    map.remove(name);
}

/// `http::HeaderMap::try_insert`: the value takes the place of all values of
/// the name. Only a map with many names may be full, and is left as it was.
#[verifier::external_body]
pub(crate) fn insert_header(
    map: &mut http::HeaderMap<http::HeaderValue>,
    name: &str,
    value: &[u8],
) -> (r: bool)
    requires
        is_header_name(name@),
        is_header_value(value@),
    ensures
        header_content(*final(map)) == (if r {
            header_content(*old(map)).insert(name@, seq![value@])
        } else {
            header_content(*old(map))
        }),
        header_content(*old(map)).dom().len() <= SAFE_NAMES ==> r,
{
    let key = http::HeaderName::from_bytes(name.as_bytes()).unwrap();
    let value = http::HeaderValue::from_bytes(value).unwrap();
    map.try_insert(key, value).is_ok()
}

/// `http::HeaderMap::get`: the first value of the name.
#[verifier::external_body]
pub(crate) fn get_header(map: &http::HeaderMap<http::HeaderValue>, name: &str) -> (r: Option<Vec<u8>>)
    requires
        is_header_name(name@),
    ensures
        match r {
            Some(v) => {
                &&& header_content(*map).contains_key(name@)
                &&& header_content(*map)[name@].len() > 0
                &&& header_content(*map)[name@][0] == v@
                &&& is_header_value(v@)
            },
            None => !header_content(*map).contains_key(name@),
        },
{
    map.get(name).map(|value| value.as_bytes().to_vec())
}

} // verus!
