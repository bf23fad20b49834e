//! The environment that a request belongs to, carried in `tracestate`.
use crate::headers::{get_header, header_content, insert_header, lemma_plain_name, SAFE_NAMES};
use crate::http_parser::header_views;
use crate::ids::{hex_char, hex_digits, id_from_str, id_text, id_to_string, parsed_id};
use crate::otel_routing::{
    get_header_value, header_ignoring_case, lemma_first_ignoring_case, TRACESTATE_HEADER,
};
use crate::text::{
    chars_of, concat, eq_ignore_case, find_char, first_index, is_space, join, join_strings,
    lemma_first_index, lower, opt_text, slice_string, split, split_string, trim, trim_string,
    utf8_text_lossy, lossy_text, views, lemma_views_push, trim_start, trim_end,
};
use crate::workload::law_trim_idempotent;
use vstd::prelude::*;
use vstd::utf8::encode_utf8;

verus! {

/// An entry that carries the environment, once trimmed.
pub open spec fn is_environment_entry(entry: Seq<char>) -> bool {
    let eq = first_index(entry, '=') as int;
    eq < entry.len() && lower(trim(entry.take(eq))) == lower("lapdev-env-id"@)
}

/// The entries that stay when the environment is set: all that are not empty
/// and do not carry an environment, trimmed.
pub open spec fn other_entries(parts: Seq<Seq<char>>) -> Seq<Seq<char>>
    decreases parts.len(),
{
    if parts.len() == 0 {
        seq![]
    } else {
        let earlier = other_entries(parts.drop_last());
        let t = trim(parts.last());
        if t.len() == 0 || is_environment_entry(t) {
            earlier
        } else {
            earlier.push(t)
        }
    }
}

/// The entry that carries an environment.
pub open spec fn environment_entry(environment_id: u128) -> Seq<char> {
    "lapdev-env-id="@ + id_text(environment_id)
}

/// A `tracestate` value with the environment set: the entry of the
/// environment stands last.
pub open spec fn with_environment(existing: Option<Seq<char>>, environment_id: u128) -> Seq<char> {
    match existing {
        Some(value) => join(
            other_entries(split(value, ',')).push(environment_entry(environment_id)),
            ","@,
        ),
        None => environment_entry(environment_id),
    }
}

fn carries_environment(entry: &str) -> (r: bool)
    ensures
        r == is_environment_entry(entry@),
{
    let chars: Vec<char> = chars_of(entry);
    proof {
        assert(chars@.skip(0) =~= entry@);
        lemma_first_index(entry@, '=');
    }
    let eq: usize = find_char(&chars, 0, '=');
    if eq < chars.len() {
        let key: String = slice_string(&chars, 0, eq);
        proof {
            assert(key@ =~= entry@.take(eq as int));
        }
        let trimmed: String = trim_string(key.as_str());
        eq_ignore_case(trimmed.as_str(), "lapdev-env-id")
    } else {
        false
    }
}

fn keep_other_entries(parts: &Vec<String>) -> (r: Vec<String>)
    ensures
        views(r@) == other_entries(views(parts@)),
{
    let ghost all = views(parts@);
    let mut out: Vec<String> = Vec::new();
    let mut i: usize = 0;
    proof {
        assert(all.take(0) =~= Seq::<Seq<char>>::empty());
        assert(views(out@) =~= Seq::<Seq<char>>::empty());
    }
    while i < parts.len()
        invariant
            i <= parts@.len(),
            all == views(parts@),
            views(out@) == other_entries(all.take(i as int)),
        decreases parts@.len() - i,
    {
        proof {
            assert(all.take(i as int + 1).drop_last() =~= all.take(i as int));
            assert(all.take(i as int + 1).last() == parts@[i as int]@);
        }
        let trimmed: String = trim_string(parts[i].as_str());
        if !trimmed.as_str().is_empty() && !carries_environment(trimmed.as_str()) {
            proof {
                lemma_views_push(out@, trimmed);
            }
            out.push(trimmed);
        }
        i = i + 1;
    }
    proof {
        assert(all.take(all.len() as int) =~= all);
    }
    out
}

/// Sets the environment in a `tracestate` value.
pub fn set_environment(existing: Option<&str>, environment_id: u128) -> (r: String)
    ensures
        r@ == with_environment(
            match existing {
                Some(v) => Some(v@),
                None => None,
            },
            environment_id,
        ),
{
    let id: String = id_to_string(environment_id);
    let entry: String = concat("lapdev-env-id=", id.as_str());
    match existing {
        Some(value) => {
            let parts: Vec<String> = split_string(value, ',');
            let mut entries: Vec<String> = keep_other_entries(&parts);
            proof {
                lemma_views_push(entries@, entry);
            }
            entries.push(entry);
            join_strings(&entries, ",")
        },
        None => entry,
    }
}

/// A byte that a header value may hold.
pub open spec fn is_header_byte(b: u8) -> bool {
    (b >= 32 && b != 127) || b == 9
}

/// A text that may be a header value.
pub open spec fn is_header_text(text: Seq<char>) -> bool {
    forall|i: int|
        0 <= i < encode_utf8(text).len() ==> is_header_byte(#[trigger] encode_utf8(text)[i])
}

/// `http::HeaderValue::from_str` accepts a text whose bytes are all visible,
/// blanks, tabs or above ASCII. Its error always says the same.
#[verifier::external_body]
pub(crate) fn check_header_value(text: &str) -> (r: Result<(), String>)
    ensures
        match r {
            Ok(_) => is_header_text(text@),
            Err(e) => !is_header_text(text@) && e@ == "failed to parse header value"@,
        },
{
    match http::HeaderValue::from_str(text) {
        Ok(_) => Ok(()),
        Err(error) => Err(error.to_string()),
    }
}

/// The `tracestate` value with an environment set in it. An outcome that is no
/// header value is refused.
pub fn environment_tracestate(existing: Option<&[u8]>, environment_id: u128) -> (r: Result<
    String,
    String,
>)
    ensures
        ({
            let value = with_environment(
                match existing {
                    Some(bytes) => Some(lossy_text(bytes@)),
                    None => None,
                },
                environment_id,
            );
            if is_header_text(value) {
                r matches Ok(t) && t@ == value
            } else {
                r matches Err(e) && e@ == "failed to parse header value"@
            }
        }),
{
    let value: String = match existing {
        Some(bytes) => {
            let text: String = utf8_text_lossy(bytes);
            set_environment(Some(text.as_str()), environment_id)
        },
        None => set_environment(None, environment_id),
    };
    match check_header_value(value.as_str()) {
        Ok(_) => Ok(value),
        Err(error) => Err(error),
    }
}

/// The `tracestate` value of a request once an environment is set in it.
pub open spec fn tracestate_with(headers: Map<Seq<char>, Seq<Seq<u8>>>, environment_id: u128) -> Seq<
    char,
> {
    with_environment(
        if headers.contains_key(TRACESTATE_HEADER@) {
            Some(lossy_text(headers[TRACESTATE_HEADER@][0]))
        } else {
            None
        },
        environment_id,
    )
}

/// Sets the environment in the `tracestate` header of a request, in place of
/// all values that it had. An outcome that is no header value is refused; so
/// may be a header more where there are very many.
pub fn ensure_environment_tracestate(
    headers: &mut http::HeaderMap<http::HeaderValue>,
    environment_id: u128,
) -> (r: Result<(), String>)
    ensures
        ({
            let before = header_content(*old(headers));
            let value = tracestate_with(before, environment_id);
            match r {
                Ok(_) => is_header_text(value) && header_content(*final(headers)) == before.insert(
                    TRACESTATE_HEADER@,
                    seq![encode_utf8(value)],
                ),
                Err(e) => header_content(*final(headers)) == before && if is_header_text(value) {
                    e@ == "max size reached"@ && before.dom().len() > SAFE_NAMES
                } else {
                    e@ == "failed to parse header value"@
                },
            }
        }),
{
    proof {
        reveal_strlit("tracestate");
        lemma_plain_name(TRACESTATE_HEADER@);
    }
    let existing: Option<Vec<u8>> = get_header(headers, TRACESTATE_HEADER);
    let outcome: Result<String, String> = match &existing {
        Some(bytes) => environment_tracestate(Some(bytes.as_slice()), environment_id),
        None => environment_tracestate(None, environment_id),
    };
    match outcome {
        Ok(value) => {
            if insert_header(headers, TRACESTATE_HEADER, value.as_str().as_bytes()) {
                Ok(())
            } else {
                Err("max size reached".to_owned())
            }
        },
        Err(error) => Err(error),
    }
}

// ---------------------------------------------------------------------------
// Reading the environment
// ---------------------------------------------------------------------------

/// What the first entry of an environment says.
pub open spec fn environment_text(parts: Seq<Seq<char>>) -> Option<Seq<char>>
    decreases parts.len(),
{
    if parts.len() == 0 {
        None
    } else {
        let t = trim(parts[0]);
        if is_environment_entry(t) {
            Some(trim(t.skip(first_index(t, '=') as int + 1)))
        } else {
            environment_text(parts.drop_first())
        }
    }
}

/// The environment that a `tracestate` value carries.
pub open spec fn environment_in(value: Option<Seq<char>>) -> Option<u128> {
    match value {
        Some(v) => match environment_text(split(v, ',')) {
            Some(t) => parsed_id(t),
            None => None,
        },
        None => None,
    }
}

fn find_environment_text(parts: &Vec<String>) -> (r: Option<String>)
    ensures
        opt_text(r) == environment_text(views(parts@)),
{
    let ghost all = views(parts@);
    let mut i: usize = 0;
    proof {
        assert(all.skip(0) =~= all);
    }
    while i < parts.len()
        invariant
            i <= parts@.len(),
            all == views(parts@),
            environment_text(all) == environment_text(all.skip(i as int)),
        decreases parts@.len() - i,
    {
        proof {
            assert(all.skip(i as int)[0] == parts@[i as int]@);
            assert(all.skip(i as int).drop_first() =~= all.skip(i as int + 1));
        }
        let trimmed: String = trim_string(parts[i].as_str());
        if carries_environment(trimmed.as_str()) {
            let chars: Vec<char> = chars_of(trimmed.as_str());
            proof {
                assert(chars@.skip(0) =~= trimmed@);
                lemma_first_index(trimmed@, '=');
            }
            let eq: usize = find_char(&chars, 0, '=');
            assert(eq < chars.len());
            let value: String = slice_string(&chars, eq + 1, chars.len());
            proof {
                assert(value@ =~= trimmed@.skip(eq as int + 1));
            }
            return Some(trim_string(value.as_str()));
        }
        i = i + 1;
    }
    None
}

/// Reads the environment that a request belongs to.
pub fn environment_of_request(headers: &[(String, String)]) -> (r: Option<u128>)
    ensures
        r == environment_in(header_ignoring_case(header_views(headers@), TRACESTATE_HEADER@)),
        forall|id: u128|
            (match header_ignoring_case(header_views(headers@), TRACESTATE_HEADER@) {
                Some(v) => environment_text(split(v, ',')) == Some(#[trigger] id_text(id)),
                None => false,
            }) ==> r == Some(id),
{
    match get_header_value(headers, TRACESTATE_HEADER) {
        Some(value) => {
            let parts: Vec<String> = split_string(value.as_str(), ',');
            match find_environment_text(&parts) {
                Some(text) => id_from_str(text.as_str()),
                None => None,
            }
        },
        None => None,
    }
}

// ---------------------------------------------------------------------------
// Laws
// ---------------------------------------------------------------------------

/// No piece holds the separator.
pub open spec fn free_of(parts: Seq<Seq<char>>, sep: char) -> bool {
    forall|i: int, j: int|
        0 <= i < parts.len() && 0 <= j < parts[i].len() ==> #[trigger] parts[i][j] != sep
}

proof fn lemma_first_index_is(s: Seq<char>, c: char, n: int)
    requires
        0 <= n < s.len(),
        s[n] == c,
        forall|i: int| 0 <= i < n ==> s[i] != c,
    ensures
        first_index(s, c) == n,
{
    lemma_first_index(s, c);
}

pub proof fn lemma_split_append(a: Seq<char>, sep: char, b: Seq<char>)
    requires
        forall|i: int| 0 <= i < b.len() ==> b[i] != sep,
    ensures
        split(a + seq![sep] + b, sep) == split(a, sep).push(b),
    decreases a.len(),
{
    let whole = a + seq![sep] + b;
    lemma_first_index(a, sep);
    let n = first_index(a, sep) as int;
    if n < a.len() {
        assert forall|i: int| 0 <= i < n implies whole[i] != sep by {
            assert(whole[i] == a[i]);
        }
        assert(whole[n] == a[n]);
        lemma_first_index_is(whole, sep, n);
        let rest = a.skip(n + 1);
        lemma_split_append(rest, sep, b);
        assert(whole.skip(n + 1) =~= rest + seq![sep] + b);
        assert(whole.take(n) =~= a.take(n));
        assert(split(whole, sep) == seq![a.take(n)] + split(rest, sep).push(b));
        assert(split(a, sep).push(b) =~= seq![a.take(n)] + split(rest, sep).push(b));
    } else {
        assert forall|i: int| 0 <= i < a.len() implies whole[i] != sep by {
            assert(whole[i] == a[i]);
        }
        assert(whole[a.len() as int] == sep);
        lemma_first_index_is(whole, sep, a.len() as int);
        assert(whole.take(a.len() as int) =~= a);
        assert(whole.skip(a.len() as int + 1) =~= b);
        lemma_first_index(b, sep);
        assert(split(b, sep) == seq![b]);
        assert(split(whole, sep) == seq![a] + seq![b]);
        assert(split(a, sep) == seq![a]);
        assert(seq![a].push(b) =~= seq![a] + seq![b]);
    }
}

/// Splitting undoes joining, where no piece holds the separator.
pub proof fn law_split_join(parts: Seq<Seq<char>>, sep: char)
    requires
        parts.len() > 0,
        free_of(parts, sep),
    ensures
        split(join(parts, seq![sep]), sep) == parts,
    decreases parts.len(),
{
    if parts.len() == 1 {
        let p = parts[0];
        lemma_first_index(p, sep);
        assert forall|j: int| 0 <= j < p.len() implies p[j] != sep by {
            assert(parts[0][j] != sep);
        }
        assert(first_index(p, sep) == p.len());
        assert(split(p, sep) =~= parts);
    } else {
        let shorter = parts.drop_last();
        assert forall|i: int, j: int|
            0 <= i < shorter.len() && 0 <= j < shorter[i].len() implies #[trigger] shorter[i][j]
            != sep by {
            assert(parts[i][j] != sep);
        }
        law_split_join(shorter, sep);
        let b = parts.last();
        assert forall|j: int| 0 <= j < b.len() implies b[j] != sep by {
            assert(parts[parts.len() - 1][j] != sep);
        }
        lemma_split_append(join(shorter, seq![sep]), sep, b);
        assert(split(join(parts, seq![sep]), sep) == shorter.push(b));
        assert(shorter.push(b) =~= parts);
    }
}

pub proof fn lemma_split_free(s: Seq<char>, sep: char)
    ensures
        free_of(split(s, sep), sep),
    decreases s.len(),
{
    lemma_first_index(s, sep);
    let n = first_index(s, sep) as int;
    let parts = split(s, sep);
    if n < s.len() {
        lemma_split_free(s.skip(n + 1), sep);
        let rest = split(s.skip(n + 1), sep);
        assert(parts == seq![s.take(n)] + rest);
        assert forall|i: int, j: int|
            0 <= i < parts.len() && 0 <= j < parts[i].len() implies #[trigger] parts[i][j]
            != sep by {
            if i > 0 {
                assert(parts[i] == rest[i - 1]);
                assert(rest[i - 1][j] != sep);
            } else {
                assert(parts[0] == s.take(n));
            }
        }
    } else {
        assert forall|i: int, j: int|
            0 <= i < parts.len() && 0 <= j < parts[i].len() implies #[trigger] parts[i][j]
            != sep by {
            assert(parts[i] == s);
        }
    }
}

proof fn lemma_trim_start_suffix(s: Seq<char>)
    ensures
        exists|k: int| 0 <= k <= s.len() && trim_start(s) == #[trigger] s.skip(k),
    decreases s.len(),
{
    if s.len() > 0 && is_space(s[0]) {
        lemma_trim_start_suffix(s.drop_first());
        let k = choose|k: int|
            0 <= k <= s.drop_first().len() && trim_start(s.drop_first())
                == #[trigger] s.drop_first().skip(k);
        assert(s.drop_first().skip(k) =~= s.skip(k + 1));
    } else {
        assert(s.skip(0) =~= s);
    }
}

proof fn lemma_trim_end_prefix(s: Seq<char>)
    ensures
        exists|k: int| 0 <= k <= s.len() && trim_end(s) == #[trigger] s.take(k),
    decreases s.len(),
{
    if s.len() > 0 && is_space(s.last()) {
        lemma_trim_end_prefix(s.drop_last());
        let k = choose|k: int|
            0 <= k <= s.drop_last().len() && trim_end(s.drop_last())
                == #[trigger] s.drop_last().take(k);
        assert(s.drop_last().take(k) =~= s.take(k));
    } else {
        assert(s.take(s.len() as int) =~= s);
    }
}

pub proof fn lemma_trim_free(s: Seq<char>, sep: char)
    requires
        forall|i: int| 0 <= i < s.len() ==> s[i] != sep,
    ensures
        forall|i: int| 0 <= i < trim(s).len() ==> trim(s)[i] != sep,
{
    lemma_trim_start_suffix(s);
    let k = choose|k: int| 0 <= k <= s.len() && trim_start(s) == #[trigger] s.skip(k);
    let t = s.skip(k);
    lemma_trim_end_prefix(t);
    let m = choose|m: int| 0 <= m <= t.len() && trim_end(t) == #[trigger] t.take(m);
    assert forall|i: int| 0 <= i < trim(s).len() implies trim(s)[i] != sep by {
        assert(trim(s)[i] == s[k + i]);
    }
}

/// The entries of the list are trimmed, not empty, carry no environment and
/// hold no comma.
pub open spec fn are_other_entries(entries: Seq<Seq<char>>) -> bool {
    &&& free_of(entries, ',')
    &&& forall|i: int|
        0 <= i < entries.len() ==> {
            let e = #[trigger] entries[i];
            e.len() > 0 && trim(e) == e && !is_environment_entry(e)
        }
}

proof fn lemma_other_entries(parts: Seq<Seq<char>>)
    requires
        free_of(parts, ','),
    ensures
        are_other_entries(other_entries(parts)),
    decreases parts.len(),
{
    if parts.len() > 0 {
        let shorter = parts.drop_last();
        assert forall|i: int, j: int|
            0 <= i < shorter.len() && 0 <= j < shorter[i].len() implies #[trigger] shorter[i][j]
            != ',' by {
            assert(parts[i][j] != ',');
        }
        lemma_other_entries(shorter);
        let earlier = other_entries(shorter);
        let p = parts.last();
        let t = trim(p);
        assert forall|j: int| 0 <= j < p.len() implies p[j] != ',' by {
            assert(parts[parts.len() - 1][j] != ',');
        }
        lemma_trim_free(p, ',');
        law_trim_idempotent(p);
        let all = other_entries(parts);
        assert forall|i: int, j: int|
            0 <= i < all.len() && 0 <= j < all[i].len() implies #[trigger] all[i][j] != ',' by {
            if i < earlier.len() {
                assert(earlier[i][j] != ',');
            }
        }
    }
}

proof fn lemma_hex_digits(x: nat, n: nat)
    ensures
        hex_digits(x, n).len() == n,
        forall|i: int|
            0 <= i < n ==> exists|d: nat| d < 16 && #[trigger] hex_digits(x, n)[i] == hex_char(d),
    decreases n,
{
    if n > 0 {
        lemma_hex_digits(x / 16, (n - 1) as nat);
        let shorter = hex_digits(x / 16, (n - 1) as nat);
        assert forall|i: int| 0 <= i < n implies exists|d: nat|
            d < 16 && #[trigger] hex_digits(x, n)[i] == hex_char(d) by {
            if i < n - 1 {
                assert(hex_digits(x, n)[i] == shorter[i]);
            } else {
                assert(hex_digits(x, n)[i] == hex_char(x % 16));
            }
        }
    }
}

/// A character of the text of an identifier.
pub open spec fn is_id_char(c: char) -> bool {
    ('0' <= c <= '9') || ('a' <= c <= 'f') || c == '-'
}

pub proof fn lemma_id_text(id: u128)
    ensures
        id_text(id).len() == 36,
        forall|i: int| 0 <= i < id_text(id).len() ==> is_id_char(#[trigger] id_text(id)[i]),
{
    let h = hex_digits(id as nat, 32);
    lemma_hex_digits(id as nat, 32);
    assert forall|i: int| 0 <= i < 32 implies is_id_char(#[trigger] h[i]) by {
        let d = choose|d: nat| d < 16 && h[i] == hex_char(d);
        assert(is_id_char(hex_char(d)));
    }
    let t = id_text(id);
    assert forall|i: int| 0 <= i < t.len() implies is_id_char(#[trigger] t[i]) by {
        if i < 8 {
            assert(t[i] == h[i]);
        } else if i == 8 || i == 13 || i == 18 || i == 23 {
            assert(t[i] == '-');
        } else if i < 13 {
            assert(t[i] == h[i - 1]);
        } else if i < 18 {
            assert(t[i] == h[i - 2]);
        } else if i < 23 {
            assert(t[i] == h[i - 3]);
        } else {
            assert(t[i] == h[i - 4]);
        }
    }
}

proof fn lemma_trim_tight(s: Seq<char>)
    requires
        s.len() > 0,
        !is_space(s[0]),
        !is_space(s.last()),
    ensures
        trim(s) == s,
{
}

pub proof fn lemma_environment_entry(id: u128)
    ensures
        trim(environment_entry(id)) == environment_entry(id),
        is_environment_entry(environment_entry(id)),
        environment_entry(id).skip(first_index(environment_entry(id), '=') as int + 1) == id_text(
            id,
        ),
        trim(id_text(id)) == id_text(id),
        forall|j: int| 0 <= j < environment_entry(id).len() ==> environment_entry(id)[j] != ',',
{
    reveal_strlit("lapdev-env-id=");
    reveal_strlit("lapdev-env-id");
    lemma_id_text(id);
    let e = environment_entry(id);
    let t = id_text(id);
    assert(is_id_char(t[0]) && is_id_char(t[t.len() - 1]));
    assert(e[0] == 'l');
    assert(e.last() == t.last());
    lemma_trim_tight(e);
    lemma_trim_tight(t);
    assert(e[13] == '=');
    lemma_first_index_is(e, '=', 13);
    let key = e.take(13);
    assert(key =~= "lapdev-env-id"@);
    lemma_trim_tight(key);
    assert(e.skip(14) =~= t);
    assert forall|j: int| 0 <= j < e.len() implies e[j] != ',' by {
        if j >= 14 {
            assert(e[j] == t[j - 14]);
        }
    }
}

proof fn lemma_environment_text_last(entries: Seq<Seq<char>>, id: u128)
    requires
        are_other_entries(entries),
    ensures
        environment_text(entries.push(environment_entry(id))) == Some(id_text(id)),
    decreases entries.len(),
{
    lemma_environment_entry(id);
    let all = entries.push(environment_entry(id));
    if entries.len() > 0 {
        assert(all[0] == entries[0]);
        let rest = entries.drop_first();
        assert(all.drop_first() =~= rest.push(environment_entry(id)));
        assert forall|i: int, j: int|
            0 <= i < rest.len() && 0 <= j < rest[i].len() implies #[trigger] rest[i][j] != ',' by {
            assert(entries[i + 1][j] != ',');
        }
        assert forall|i: int| 0 <= i < rest.len() implies ({
            let e = #[trigger] rest[i];
            e.len() > 0 && trim(e) == e && !is_environment_entry(e)
        }) by {
            assert(rest[i] == entries[i + 1]);
        }
        lemma_environment_text_last(rest, id);
    } else {
        assert(all[0] == environment_entry(id));
    }
}

/// What is read back of a `tracestate` value in which an environment was set
/// is the text of that environment, whatever the value was before.
pub proof fn law_environment_reads_back(existing: Option<Seq<char>>, id: u128)
    ensures
        environment_text(split(with_environment(existing, id), ',')) == Some(id_text(id)),
{
    reveal_strlit(",");
    assert(","@ =~= seq![',']);
    lemma_environment_entry(id);
    let e = environment_entry(id);
    let kept = match existing {
        Some(value) => other_entries(split(value, ',')),
        None => seq![],
    };
    match existing {
        Some(value) => {
            lemma_split_free(value, ',');
            lemma_other_entries(split(value, ','));
        },
        None => {},
    }
    assert(are_other_entries(kept));
    let all = kept.push(e);
    assert forall|i: int, j: int|
        0 <= i < all.len() && 0 <= j < all[i].len() implies #[trigger] all[i][j] != ',' by {
        if i < kept.len() {
            assert(kept[i][j] != ',');
        }
    }
    law_split_join(all, ',');
    if existing is None {
        assert(all =~= seq![e]);
        assert(join(all, seq![',']) == e);
    }
    assert(with_environment(existing, id) == join(all, seq![',']));
    lemma_environment_text_last(kept, id);
}

proof fn lemma_other_entries_fixed(entries: Seq<Seq<char>>, id: u128)
    requires
        are_other_entries(entries),
    ensures
        other_entries(entries) == entries,
        other_entries(entries.push(environment_entry(id))) == entries,
    decreases entries.len(),
{
    lemma_environment_entry(id);
    let all = entries.push(environment_entry(id));
    assert(all.drop_last() =~= entries);
    assert(all.last() == environment_entry(id));
    if entries.len() > 0 {
        let shorter = entries.drop_last();
        assert forall|i: int, j: int|
            0 <= i < shorter.len() && 0 <= j < shorter[i].len() implies #[trigger] shorter[i][j]
            != ',' by {
            assert(entries[i][j] != ',');
        }
        assert forall|i: int| 0 <= i < shorter.len() implies ({
            let e = #[trigger] shorter[i];
            e.len() > 0 && trim(e) == e && !is_environment_entry(e)
        }) by {
            assert(shorter[i] == entries[i]);
        }
        lemma_other_entries_fixed(shorter, id);
        assert(entries[entries.len() - 1].len() > 0);
        assert(shorter.push(entries.last()) =~= entries);
        assert(other_entries(entries) == entries);
    } else {
        assert(other_entries(entries) =~= entries);
    }
}

/// Setting an environment twice comes to setting the second one: it replaces
/// the first and keeps everything else.
pub proof fn law_environment_replaced(existing: Option<Seq<char>>, first: u128, second: u128)
    ensures
        with_environment(Some(with_environment(existing, first)), second) == with_environment(
            existing,
            second,
        ),
{
    reveal_strlit(",");
    assert(","@ =~= seq![',']);
    lemma_environment_entry(first);
    let e = environment_entry(first);
    let kept = match existing {
        Some(value) => other_entries(split(value, ',')),
        None => seq![],
    };
    match existing {
        Some(value) => {
            lemma_split_free(value, ',');
            lemma_other_entries(split(value, ','));
        },
        None => {},
    }
    let all = kept.push(e);
    assert forall|i: int, j: int|
        0 <= i < all.len() && 0 <= j < all[i].len() implies #[trigger] all[i][j] != ',' by {
        if i < kept.len() {
            assert(kept[i][j] != ',');
        }
    }
    law_split_join(all, ',');
    if existing is None {
        assert(all =~= seq![e]);
        assert(kept.push(environment_entry(second)) =~= seq![environment_entry(second)]);
    }
    assert(with_environment(existing, first) == join(all, seq![',']));
    lemma_other_entries_fixed(kept, first);
}

/// The trimmed entry is that of an environment, which it calls `value`: before
/// its first equals sign it says `lapdev-env-id`, in whatever case.
pub open spec fn names_environment(entry: Seq<char>, value: Seq<char>) -> bool {
    exists|n: int|
        0 <= n < entry.len() && #[trigger] entry[n] == '=' && (forall|j: int|
            0 <= j < n ==> entry[j] != '=') && lower(trim(entry.take(n))) == "lapdev-env-id"@
            && trim(entry.skip(n + 1)) == value
}

proof fn lemma_names_environment(entry: Seq<char>, value: Seq<char>)
    ensures
        names_environment(entry, value) <==> is_environment_entry(entry) && trim(
            entry.skip(first_index(entry, '=') as int + 1),
        ) == value,
{
    reveal_strlit("lapdev-env-id");
    assert(lower("lapdev-env-id"@) =~= "lapdev-env-id"@);
    lemma_first_index(entry, '=');
    let n = first_index(entry, '=') as int;
    if names_environment(entry, value) {
        let m = choose|m: int|
            0 <= m < entry.len() && #[trigger] entry[m] == '=' && (forall|j: int|
                0 <= j < m ==> entry[j] != '=') && lower(trim(entry.take(m)))
                == "lapdev-env-id"@ && trim(entry.skip(m + 1)) == value;
        assert(m == n) by {
            if m < n {
                assert(entry[m] != '=');
            }
            if n < m {
                assert(entry[n] == '=');
            }
        }
    }
    if is_environment_entry(entry) {
        assert(entry[n] == '=');
    }
}

/// The trimmed entry is that of some environment.
pub open spec fn is_of_environment(entry: Seq<char>) -> bool {
    exists|value: Seq<char>| #[trigger] names_environment(entry, value)
}

proof fn lemma_is_of_environment(entry: Seq<char>)
    ensures
        is_of_environment(entry) == is_environment_entry(entry),
{
    if is_environment_entry(entry) {
        let value = trim(entry.skip(first_index(entry, '=') as int + 1));
        lemma_names_environment(entry, value);
        assert(names_environment(entry, value));
    }
    if is_of_environment(entry) {
        let value = choose|value: Seq<char>| #[trigger] names_environment(entry, value);
        lemma_names_environment(entry, value);
    }
}

proof fn lemma_other_entries_filtered(parts: Seq<Seq<char>>)
    ensures
        other_entries(parts) == parts.map_values(|p: Seq<char>| trim(p)).filter(
            |e: Seq<char>| e.len() > 0 && !is_of_environment(e),
        ),
    decreases parts.len(),
{
    let cut = |p: Seq<char>| trim(p);
    let keep = |e: Seq<char>| e.len() > 0 && !is_of_environment(e);
    reveal(Seq::filter);
    let all = parts.map_values(cut);
    if parts.len() == 0 {
        assert(all =~= Seq::<Seq<char>>::empty());
    } else {
        let shorter = parts.drop_last();
        lemma_other_entries_filtered(shorter);
        lemma_is_of_environment(trim(parts.last()));
        assert(all.drop_last() =~= shorter.map_values(cut));
        assert(all.last() == trim(parts.last()));
    }
}

/// Setting an environment keeps all other entries, in their order and without
/// the white space around them, drops every entry of another environment, and
/// puts that of the new one last.
pub proof fn law_environment_is_set(existing: Option<&str>, id: u128, r: String)
    requires
        call_ensures(set_environment, (existing, id), r),
    ensures
        split(r@, ',').len() > 0,
        split(r@, ',').last() == "lapdev-env-id="@ + id_text(id),
        split(r@, ',').drop_last() == (match existing {
            Some(value) => split(value@, ',').map_values(|p: Seq<char>| trim(p)).filter(
                |e: Seq<char>| e.len() > 0 && !is_of_environment(e),
            ),
            None => Seq::<Seq<char>>::empty(),
        }),
{
    reveal_strlit(",");
    assert(","@ =~= seq![',']);
    lemma_environment_entry(id);
    let e = environment_entry(id);
    let kept = match existing {
        Some(value) => other_entries(split(value@, ',')),
        None => seq![],
    };
    match existing {
        Some(value) => {
            lemma_split_free(value@, ',');
            lemma_other_entries(split(value@, ','));
            lemma_other_entries_filtered(split(value@, ','));
        },
        None => {},
    }
    assert(are_other_entries(kept));
    let all = kept.push(e);
    assert forall|i: int, j: int|
        0 <= i < all.len() && 0 <= j < all[i].len() implies #[trigger] all[i][j] != ',' by {
        if i < kept.len() {
            assert(kept[i][j] != ',');
        }
    }
    law_split_join(all, ',');
    if existing is None {
        assert(all =~= seq![e]);
        assert(join(all, seq![',']) == e);
    }
    assert(r@ == join(all, seq![',']));
    assert(all.drop_last() =~= kept);
}

proof fn lemma_environment_text(parts: Seq<Seq<char>>, k: int, value: Seq<char>)
    requires
        0 <= k <= parts.len(),
        forall|j: int| 0 <= j < k ==> !is_of_environment(trim(#[trigger] parts[j])),
        k < parts.len() ==> names_environment(trim(parts[k]), value),
    ensures
        environment_text(parts) == (if k < parts.len() {
            Some(value)
        } else {
            None
        }),
    decreases parts.len(),
{
    if parts.len() > 0 {
        let rest = parts.drop_first();
        lemma_is_of_environment(trim(parts[0]));
        if k == 0 {
            lemma_names_environment(trim(parts[0]), value);
        } else {
            assert(!is_of_environment(trim(parts[0])));
            assert forall|j: int| 0 <= j < k - 1 implies !is_of_environment(
                trim(#[trigger] rest[j]),
            ) by {
                assert(rest[j] == parts[j + 1]);
            }
            if k < parts.len() {
                assert(rest[k - 1] == parts[k]);
            }
            lemma_environment_text(rest, k - 1, value);
        }
    }
}

/// The environment of a request is the one that the first entry of an
/// environment names in its first `tracestate` header: `i` is where that header
/// stands, and `k` that entry. Without the header, or without such an entry,
/// there is none. What another proxy set is read back.
pub proof fn law_environment_is_read(
    headers: &[(String, String)],
    r: Option<u128>,
    i: int,
    k: int,
    value: Seq<char>,
)
    requires
        call_ensures(environment_of_request, (headers,), r),
        0 <= i <= headers@.len(),
        forall|j: int| 0 <= j < i ==> lower((#[trigger] headers@[j]).0@) != "tracestate"@,
        i < headers@.len() ==> lower(headers@[i].0@) == "tracestate"@ && 0 <= k <= split(
            headers@[i].1@,
            ',',
        ).len() && (forall|j: int|
            0 <= j < k ==> !is_of_environment(trim(#[trigger] split(headers@[i].1@, ',')[j]))) && (k
            < split(headers@[i].1@, ',').len() ==> names_environment(
            trim(split(headers@[i].1@, ',')[k]),
            value,
        )),
    ensures
        r == (if i < headers@.len() && k < split(headers@[i].1@, ',').len() {
            parsed_id(value)
        } else {
            None
        }),
        forall|id: u128|
            i < headers@.len() && k < split(headers@[i].1@, ',').len() && value
                == #[trigger] id_text(id) ==> r == Some(id),
{
    reveal_strlit("tracestate");
    assert(lower("tracestate"@) =~= "tracestate"@);
    let all = header_views(headers@);
    assert forall|j: int| 0 <= j < i implies lower((#[trigger] all[j]).0) != lower(
        TRACESTATE_HEADER@,
    ) by {
        assert(lower(headers@[j].0@) != "tracestate"@);
    }
    if i < headers@.len() {
        assert(all[i] == (headers@[i].0@, headers@[i].1@));
    }
    lemma_first_ignoring_case(all, TRACESTATE_HEADER@, i);
    if i < headers@.len() {
        lemma_environment_text(split(headers@[i].1@, ','), k, value);
    }
}

/// The value of a header with an environment is what setting the environment in
/// its text gives; only what is no header value is refused.
pub proof fn law_header_text_gets_the_environment(
    existing: Option<&[u8]>,
    id: u128,
    r: Result<String, String>,
    text: Option<&str>,
    set: String,
)
    requires
        call_ensures(environment_tracestate, (existing, id), r),
        text is Some <==> existing is Some,
        existing matches Some(bytes) ==> (text->0)@ == lossy_text(bytes@),
        call_ensures(set_environment, (text, id), set),
    ensures
        r is Ok <==> is_header_text(set@),
        r matches Ok(t) ==> t@ == set@,
{
}

/// The `tracestate` header of a request comes to hold its own value with the
/// environment set in it, and no other header is touched. A header that is
/// refused leaves the request as it was.
pub proof fn law_request_gets_the_environment(
    headers: &mut http::HeaderMap<http::HeaderValue>,
    id: u128,
    r: Result<(), String>,
    existing: Option<&[u8]>,
    made: Result<String, String>,
    other: Seq<char>,
)
    requires
        call_ensures(ensure_environment_tracestate, (headers, id), r),
        ({
            let before = header_content(*old(headers));
            &&& existing is Some <==> before.contains_key("tracestate"@)
            &&& existing matches Some(bytes) ==> bytes@ == before["tracestate"@][0]
        }),
        call_ensures(environment_tracestate, (existing, id), made),
    ensures
        ({
            let before = header_content(*old(headers));
            let after = header_content(*final(headers));
            &&& r is Ok ==> (made matches Ok(t) && after.contains_key("tracestate"@)
                && after["tracestate"@] == seq![encode_utf8(t@)])
            &&& other != "tracestate"@ ==> after.contains_key(other) == before.contains_key(other)
                && after[other] == before[other]
            &&& r is Err ==> after == before
            &&& made is Ok && before.dom().len() <= SAFE_NAMES ==> r is Ok
        }),
{
}

} // verus!
