//! Identifiers as 128-bit numbers and their text.
use vstd::prelude::*;

verus! {

/// The character of a hexadecimal digit.
pub open spec fn hex_char(d: nat) -> char {
    if d < 10 {
        (('0' as nat + d) as u8) as char
    } else {
        (('a' as nat + (d - 10) as nat) as u8) as char
    }
}

/// The last `n` hexadecimal digits of a number.
pub open spec fn hex_digits(x: nat, n: nat) -> Seq<char>
    decreases n,
{
    if n == 0 {
        seq![]
    } else {
        hex_digits(x / 16, (n - 1) as nat).push(hex_char(x % 16))
    }
}

/// An identifier in the usual form: thirty-two hexadecimal digits in groups
/// of eight, four, four, four and twelve.
pub open spec fn id_text(id: u128) -> Seq<char> {
    let h = hex_digits(id as nat, 32);
    h.subrange(0, 8) + seq!['-'] + h.subrange(8, 12) + seq!['-'] + h.subrange(12, 16) + seq!['-']
        + h.subrange(16, 20) + seq!['-'] + h.subrange(20, 32)
}

/// `uuid::Uuid` as `Display` writes it: hyphenated, in lower case.
#[verifier::external_body]
pub(crate) fn format_id(id: u128) -> (r: String)
    ensures
        r@ == id_text(id),
{
    uuid::Uuid::from_u128(id).to_string()
}

/// What `uuid` makes of a text: an identifier, or what it says is wrong.
pub uninterp spec fn id_reading(text: Seq<char>) -> Result<u128, Seq<char>>;

/// The identifier that `uuid` reads in a text.
pub open spec fn parsed_id(text: Seq<char>) -> Option<u128> {
    match id_reading(text) {
        Ok(id) => Some(id),
        Err(_) => None,
    }
}

/// The contents of a reading.
pub open spec fn reading_view(r: Result<u128, String>) -> Result<u128, Seq<char>> {
    match r {
        Ok(id) => Ok(id),
        Err(e) => Err(e@),
    }
}

/// `uuid::Uuid::parse_str`, with the text of its error. It reads what
/// `format_id` writes, and further forms that are not stated here.
#[verifier::external_body]
pub(crate) fn parse_id(text: &str) -> (r: Result<u128, String>)
    ensures
        reading_view(r) == id_reading(text@),
        forall|id: u128| text@ == #[trigger] id_text(id) ==> r.ok() == Some(id),
{
    match uuid::Uuid::parse_str(text) {
        Ok(id) => Ok(id.as_u128()),
        Err(error) => Err(error.to_string()),
    }
}

/// `uuid::Uuid::new_v4`: a random identifier. Which one is left open; its
/// version is 4.
#[verifier::external_body]
fn random_id() -> (r: u128)
    ensures
        (r >> 76) & 15 == 4,
{
    uuid::Uuid::new_v4().as_u128()
}

/// A new token: the text of a random identifier.
pub fn new_token() -> (r: String)
    ensures
        exists|id: u128| r@ == #[trigger] id_text(id) && (id >> 76) & 15 == 4,
{
    let id: u128 = random_id();
    id_to_string(id)
}

/// The text of an identifier.
pub fn id_to_string(id: u128) -> (r: String)
    ensures
        r@ == id_text(id),
{
    format_id(id)
}

/// The identifier that a text writes.
pub fn id_from_str(text: &str) -> (r: Option<u128>)
    ensures
        r == parsed_id(text@),
        forall|id: u128| text@ == #[trigger] id_text(id) ==> r == Some(id),
{
    match parse_id(text) {
        Ok(id) => Some(id),
        Err(_) => None,
    }
}

} // verus!
