//! Text as sequences of characters: the string operations that the rest of
//! the crate is specified with.
use vstd::prelude::*;
use vstd::string::StringExecFns;
use vstd::utf8::{decode_utf8, is_ascii_chars, valid_utf8};

verus! {

// ---------------------------------------------------------------------------
// Characters
// ---------------------------------------------------------------------------

/// The Unicode `White_Space` property, which `char::is_whitespace` tests.
pub open spec fn is_space(c: char) -> bool {
    ||| '\u{0009}' <= c <= '\u{000D}'
    ||| c == '\u{0020}'
    ||| c == '\u{0085}'
    ||| c == '\u{00A0}'
    ||| c == '\u{1680}'
    ||| '\u{2000}' <= c <= '\u{200A}'
    ||| c == '\u{2028}'
    ||| c == '\u{2029}'
    ||| c == '\u{202F}'
    ||| c == '\u{205F}'
    ||| c == '\u{3000}'
}

pub fn char_is_space(c: char) -> (r: bool)
    ensures
        r == is_space(c),
{
    ('\u{0009}' <= c && c <= '\u{000D}') || c == '\u{0020}' || c == '\u{0085}' || c == '\u{00A0}'
        || c == '\u{1680}' || ('\u{2000}' <= c && c <= '\u{200A}') || c == '\u{2028}' || c
        == '\u{2029}' || c == '\u{202F}' || c == '\u{205F}' || c == '\u{3000}'
}

/// The ASCII lower-case form of one character.
pub open spec fn lower_char(c: char) -> char {
    if 'A' <= c <= 'Z' {
        (c as u8 + 32) as char
    } else {
        c
    }
}

pub fn lower_ascii_char(c: char) -> (r: char)
    ensures
        r == lower_char(c),
{
    if 'A' <= c && c <= 'Z' {
        (c as u8 + 32) as char
    } else {
        c
    }
}

/// `c` is an ASCII decimal digit.
pub open spec fn is_digit(c: char) -> bool {
    '0' <= c <= '9'
}

// ---------------------------------------------------------------------------
// Strings and their characters
// ---------------------------------------------------------------------------

/// `str == str`: two strings are equal when their characters are.
pub assume_specification[ <str as PartialEq>::eq ](a: &str, b: &str) -> (r: bool)
    ensures
        r == (a@ == b@),
;

/// `String::push` appends one character.
pub assume_specification[ String::push ](s: &mut String, c: char)
    ensures
        final(s)@ == old(s)@.push(c),
;

/// Whether two strings hold the same characters.
pub fn same(a: &str, b: &str) -> (r: bool)
    ensures
        r == (a@ == b@),
{
    *a == *b
}

/// The characters of `s`, in order.
pub fn chars_of(s: &str) -> (r: Vec<char>)
    ensures
        r@ == s@,
{
    let mut out: Vec<char> = Vec::new();
    for c in it: s.chars()
        invariant
            it.seq() == s@,
            out@ == s@.take(it.index() as int),
    {
        out.push(c);
        proof {
            assert(s@.take(it.index() as int + 1) =~= s@.take(it.index() as int).push(c));
        }
    }
    proof {
        assert(s@.take(s@.len() as int) =~= s@);
    }
    out
}

/// The characters of an optional string.
pub open spec fn opt_text(s: Option<String>) -> Option<Seq<char>> {
    match s {
        Some(t) => Some(t@),
        None => None,
    }
}

/// Whether two optional strings are equal.
pub fn same_opt(a: &Option<String>, b: &Option<String>) -> (r: bool)
    ensures
        r == (opt_text(*a) == opt_text(*b)),
{
    match (a, b) {
        (Some(x), Some(y)) => same(x.as_str(), y.as_str()),
        (None, None) => true,
        _ => false,
    }
}

/// The characters held by each string of a list.
pub open spec fn views(v: Seq<String>) -> Seq<Seq<char>> {
    Seq::new(v.len(), |i: int| v[i]@)
}

/// `views` of a list that grew by one string.
pub proof fn lemma_views_push(v: Seq<String>, s: String)
    ensures
        views(v.push(s)) == views(v).push(s@),
{
    assert(views(v.push(s)) =~= views(v).push(s@));
}

/// A copy of the characters `from..to` of `chars`.
pub fn slice_string(chars: &[char], from: usize, to: usize) -> (r: String)
    requires
        from <= to <= chars@.len(),
    ensures
        r@ == chars@.subrange(from as int, to as int),
{
    let mut out: String = String::new();
    let mut i: usize = from;
    while i < to
        invariant
            from <= i <= to <= chars@.len(),
            out@ == chars@.subrange(from as int, i as int),
        decreases to - i,
    {
        out.push(chars[i]);
        proof {
            assert(chars@.subrange(from as int, i as int + 1) =~= chars@.subrange(
                from as int,
                i as int,
            ).push(chars@[i as int]));
        }
        i = i + 1;
    }
    out
}

/// `a` followed by `b`.
pub fn concat(a: &str, b: &str) -> (r: String)
    ensures
        r@ == a@ + b@,
{
    let mut out: String = a.to_owned();
    out.append(b);
    out
}

/// `a` followed by `b` and `c`.
pub fn concat3(a: &str, b: &str, c: &str) -> (r: String)
    ensures
        r@ == a@ + b@ + c@,
{
    let mut out: String = a.to_owned();
    out.append(b);
    out.append(c);
    out
}

// ---------------------------------------------------------------------------
// Case
// ---------------------------------------------------------------------------

/// `s` with its ASCII letters in lower case.
pub open spec fn lower(s: Seq<char>) -> Seq<char> {
    Seq::new(s.len(), |i: int| lower_char(s[i]))
}

pub fn to_lower(s: &str) -> (r: String)
    ensures
        r@ == lower(s@),
{
    let chars: Vec<char> = chars_of(s);
    let mut out: String = String::new();
    let mut i: usize = 0;
    while i < chars.len()
        invariant
            chars@ == s@,
            i <= chars@.len(),
            out@ == lower(s@).take(i as int),
        decreases chars@.len() - i,
    {
        out.push(lower_ascii_char(chars[i]));
        proof {
            assert(lower(s@).take(i as int + 1) =~= lower(s@).take(i as int).push(
                lower(s@)[i as int],
            ));
        }
        i = i + 1;
    }
    proof {
        assert(lower(s@).take(lower(s@).len() as int) =~= lower(s@));
    }
    out
}

/// Whether two strings are equal up to the case of ASCII letters.
pub fn eq_ignore_case(a: &str, b: &str) -> (r: bool)
    ensures
        r == (lower(a@) == lower(b@)),
{
    to_lower(a) == to_lower(b)
}

// ---------------------------------------------------------------------------
// Prefixes and suffixes
// ---------------------------------------------------------------------------

pub fn starts_with(s: &str, prefix: &str) -> (r: bool)
    ensures
        r == prefix@.is_prefix_of(s@),
{
    let a: Vec<char> = chars_of(s);
    let b: Vec<char> = chars_of(prefix);
    if b.len() > a.len() {
        return false;
    }
    let mut i: usize = 0;
    while i < b.len()
        invariant
            a@ == s@,
            b@ == prefix@,
            i <= b@.len() <= a@.len(),
            forall|j: int| 0 <= j < i ==> a@[j] == b@[j],
        decreases b@.len() - i,
    {
        if a[i] != b[i] {
            proof {
                if prefix@.is_prefix_of(s@) {
                    assert(s@.subrange(0, prefix@.len() as int)[i as int] == prefix@[i as int]);
                }
            }
            return false;
        }
        i = i + 1;
    }
    proof {
        assert(prefix@ =~= s@.subrange(0, prefix@.len() as int));
    }
    true
}

pub fn ends_with(s: &str, suffix: &str) -> (r: bool)
    ensures
        r == suffix@.is_suffix_of(s@),
{
    let a: Vec<char> = chars_of(s);
    let b: Vec<char> = chars_of(suffix);
    if b.len() > a.len() {
        return false;
    }
    let n: usize = a.len();
    let off: usize = n - b.len();
    let mut i: usize = 0;
    while i < b.len()
        invariant
            n == a@.len(),
            a@ == s@,
            b@ == suffix@,
            i <= b@.len() <= a@.len(),
            off == a@.len() - b@.len(),
            forall|j: int| 0 <= j < i ==> a@[off + j] == b@[j],
        decreases b@.len() - i,
    {
        if a[off + i] != b[i] {
            proof {
                if suffix@.is_suffix_of(s@) {
                    assert(s@.subrange(s@.len() - suffix@.len(), s@.len() as int)[i as int]
                        == suffix@[i as int]);
                }
            }
            return false;
        }
        i = i + 1;
    }
    proof {
        assert(suffix@ =~= s@.subrange(s@.len() - suffix@.len(), s@.len() as int));
    }
    true
}

/// `s` without the repetitions of `suffix` at its end.
pub open spec fn strip_suffixes(s: Seq<char>, suffix: Seq<char>) -> Seq<char>
    decreases s.len(),
{
    if suffix.len() > 0 && suffix.is_suffix_of(s) {
        strip_suffixes(s.take(s.len() - suffix.len()), suffix)
    } else {
        s
    }
}

/// `s` without the repetitions of `suffix` at its end, as
/// `str::trim_end_matches` leaves it.
pub fn trim_end_matches(s: &str, suffix: &str) -> (r: String)
    ensures
        r@ == strip_suffixes(s@, suffix@),
{
    let cut: usize = chars_of(suffix).len();
    let mut rest: String = s.to_owned();
    while cut > 0 && ends_with(rest.as_str(), suffix)
        invariant
            cut == suffix@.len(),
            strip_suffixes(s@, suffix@) == strip_suffixes(rest@, suffix@),
        decreases rest@.len(),
    {
        let chars: Vec<char> = chars_of(rest.as_str());
        let shorter: String = slice_string(&chars, 0, chars.len() - cut);
        proof {
            assert(shorter@ =~= rest@.take(rest@.len() - suffix@.len()));
        }
        rest = shorter;
    }
    rest
}

/// `part` occurs in `s` at `i`.
pub open spec fn occurs_at(s: Seq<char>, part: Seq<char>, i: int) -> bool {
    0 <= i && i + part.len() <= s.len() && s.subrange(i, i + part.len()) == part
}

/// Whether `part` occurs in `s`.
pub fn contains(s: &str, part: &str) -> (r: bool)
    ensures
        r == exists|i: int| #[trigger] occurs_at(s@, part@, i),
{
    let a: Vec<char> = chars_of(s);
    let b: Vec<char> = chars_of(part);
    if b.len() > a.len() {
        return false;
    }
    let last: usize = a.len() - b.len();
    let mut i: usize = 0;
    while i <= last
        invariant
            a@ == s@,
            b@ == part@,
            last == a@.len() - b@.len(),
            a@.len() <= usize::MAX,
            i <= last + 1,
            forall|k: int| 0 <= k < i ==> !occurs_at(s@, part@, k),
        decreases last + 1 - i,
    {
        let mut j: usize = 0;
        while j < b.len() && a[i + j] == b[j]
            invariant
                i <= last,
                last == a@.len() - b@.len(),
                a@.len() <= usize::MAX,
                j <= b@.len(),
                forall|k: int| 0 <= k < j ==> a@[i + k] == b@[k],
            decreases b@.len() - j,
        {
            j = j + 1;
        }
        if j == b.len() {
            proof {
                assert(s@.subrange(i as int, i + part@.len()) =~= part@);
                assert(occurs_at(s@, part@, i as int));
            }
            return true;
        }
        proof {
            if occurs_at(s@, part@, i as int) {
                assert(s@.subrange(i as int, i + part@.len())[j as int] == part@[j as int]);
            }
        }
        if i == last {
            return false;
        }
        i = i + 1;
    }
    false
}

/// `a` comes before or is equal to `b` in the order of strings.
pub open spec fn text_le(a: Seq<char>, b: Seq<char>) -> bool
    decreases a.len(),
{
    if a.len() == 0 {
        true
    } else if b.len() == 0 {
        false
    } else if a[0] == b[0] {
        text_le(a.drop_first(), b.drop_first())
    } else {
        a[0] < b[0]
    }
}

/// Whether `a` comes before or is equal to `b` in the order of strings.
pub fn is_text_le(a: &str, b: &str) -> (r: bool)
    ensures
        r == text_le(a@, b@),
{
    let x: Vec<char> = chars_of(a);
    let y: Vec<char> = chars_of(b);
    let mut i: usize = 0;
    proof {
        assert(x@.skip(0) =~= a@);
        assert(y@.skip(0) =~= b@);
    }
    while i < x.len() && i < y.len()
        invariant
            x@ == a@,
            y@ == b@,
            i <= x@.len(),
            i <= y@.len(),
            text_le(a@, b@) == text_le(x@.skip(i as int), y@.skip(i as int)),
        decreases x@.len() - i,
    {
        proof {
            assert(x@.skip(i as int).drop_first() =~= x@.skip(i as int + 1));
            assert(y@.skip(i as int).drop_first() =~= y@.skip(i as int + 1));
        }
        if x[i] != y[i] {
            return x[i] < y[i];
        }
        i = i + 1;
    }
    i == x.len()
}

// ---------------------------------------------------------------------------
// White space
// ---------------------------------------------------------------------------

/// `s` without its leading white space.
pub open spec fn trim_start(s: Seq<char>) -> Seq<char>
    decreases s.len(),
{
    if s.len() > 0 && is_space(s[0]) {
        trim_start(s.drop_first())
    } else {
        s
    }
}

/// `s` without its trailing white space.
pub open spec fn trim_end(s: Seq<char>) -> Seq<char>
    decreases s.len(),
{
    if s.len() > 0 && is_space(s.last()) {
        trim_end(s.drop_last())
    } else {
        s
    }
}

/// `s` without its leading and trailing white space.
pub open spec fn trim(s: Seq<char>) -> Seq<char> {
    trim_end(trim_start(s))
}

/// The index of the first character at or after `from` that is no white space.
pub fn skip_space(chars: &[char], from: usize) -> (lo: usize)
    requires
        from <= chars@.len(),
    ensures
        from <= lo <= chars@.len(),
        trim_start(chars@.skip(from as int)) == chars@.skip(lo as int),
        lo < chars@.len() ==> !is_space(chars@[lo as int]),
{
    let mut lo: usize = from;
    while lo < chars.len() && char_is_space(chars[lo])
        invariant
            from <= lo <= chars@.len(),
            trim_start(chars@.skip(from as int)) == trim_start(chars@.skip(lo as int)),
        decreases chars@.len() - lo,
    {
        proof {
            assert(chars@.skip(lo as int).drop_first() =~= chars@.skip(lo as int + 1));
        }
        lo = lo + 1;
    }
    lo
}

pub fn trim_string(s: &str) -> (r: String)
    ensures
        r@ == trim(s@),
{
    let chars: Vec<char> = chars_of(s);
    proof {
        assert(chars@.skip(0) =~= s@);
    }
    let lo: usize = skip_space(&chars, 0);
    let mut hi: usize = chars.len();
    proof {
        assert(chars@.skip(lo as int) =~= chars@.subrange(lo as int, hi as int));
    }
    while hi > lo && char_is_space(chars[hi - 1])
        invariant
            lo <= hi <= chars@.len(),
            trim(s@) == trim_end(chars@.subrange(lo as int, hi as int)),
        decreases hi - lo,
    {
        proof {
            assert(chars@.subrange(lo as int, hi as int).drop_last() =~= chars@.subrange(
                lo as int,
                hi as int - 1,
            ));
        }
        hi = hi - 1;
    }
    slice_string(&chars, lo, hi)
}

/// The number of characters of `s` before its first white space.
pub open spec fn word_len(s: Seq<char>) -> nat
    decreases s.len(),
{
    if s.len() == 0 || is_space(s[0]) {
        0
    } else {
        1 + word_len(s.drop_first())
    }
}

pub proof fn lemma_word_len(s: Seq<char>)
    ensures
        word_len(s) <= s.len(),
        s.len() > 0 && !is_space(s[0]) ==> word_len(s) > 0,
    decreases s.len(),
{
    if s.len() > 0 && !is_space(s[0]) {
        lemma_word_len(s.drop_first());
    }
}

pub proof fn lemma_trim_start_len(s: Seq<char>)
    ensures
        trim_start(s).len() <= s.len(),
        trim_start(s).len() > 0 ==> !is_space(trim_start(s)[0]),
    decreases s.len(),
{
    if s.len() > 0 && is_space(s[0]) {
        lemma_trim_start_len(s.drop_first());
    }
}

/// The white-space separated words of `s`.
pub open spec fn words(s: Seq<char>) -> Seq<Seq<char>>
    decreases s.len(),
    via words_decreases
{
    let t = trim_start(s);
    if t.len() == 0 {
        seq![]
    } else {
        let n = word_len(t) as int;
        seq![t.take(n)] + words(t.skip(n))
    }
}

#[via_fn]
proof fn words_decreases(s: Seq<char>) {
    lemma_trim_start_len(s);
    lemma_word_len(trim_start(s));
}

pub fn split_words(s: &str) -> (r: Vec<String>)
    ensures
        views(r@) == words(s@),
{
    let chars: Vec<char> = chars_of(s);
    let mut out: Vec<String> = Vec::new();
    let mut pos: usize = 0;
    proof {
        assert(chars@.skip(0) =~= s@);
        assert(views(out@) + words(chars@.skip(pos as int)) =~= words(s@));
    }
    while pos < chars.len()
        invariant
            chars@ == s@,
            pos <= chars@.len(),
            views(out@) + words(chars@.skip(pos as int)) == words(s@),
        decreases chars@.len() - pos,
    {
        let ghost rest = chars@.skip(pos as int);
        let lo: usize = skip_space(&chars, pos);
        let ghost t = chars@.skip(lo as int);
        if lo == chars.len() {
            proof {
                assert(words(rest) == Seq::<Seq<char>>::empty());
                assert(chars@.skip(lo as int).len() == 0);
                assert(words(chars@.skip(lo as int)) == Seq::<Seq<char>>::empty());
            }
            pos = lo;
        } else {
            let mut hi: usize = lo;
            while hi < chars.len() && !char_is_space(chars[hi])
                invariant
                    lo <= hi <= chars@.len(),
                    t == chars@.skip(lo as int),
                    word_len(t) == (hi - lo) + word_len(chars@.skip(hi as int)),
                decreases chars@.len() - hi,
            {
                proof {
                    assert(chars@.skip(hi as int).drop_first() =~= chars@.skip(hi as int + 1));
                }
                hi = hi + 1;
            }
            let word: String = slice_string(&chars, lo, hi);
            proof {
                lemma_word_len(t);
                assert(word_len(t) == hi - lo);
                assert(t.take(hi - lo) =~= word@);
                assert(t.skip(hi - lo) =~= chars@.skip(hi as int));
                lemma_views_push(out@, word);
                assert(words(rest) == seq![word@] + words(chars@.skip(hi as int)));
                assert(views(out@).push(word@) + words(chars@.skip(hi as int)) =~= views(out@)
                    + words(rest));
            }
            out.push(word);
            pos = hi;
        }
    }
    proof {
        assert(chars@.skip(pos as int).len() == 0);
        assert(words(chars@.skip(pos as int)) == Seq::<Seq<char>>::empty());
        assert(views(out@) + Seq::<Seq<char>>::empty() =~= views(out@));
    }
    out
}

// ---------------------------------------------------------------------------
// Searching, splitting and joining
// ---------------------------------------------------------------------------

/// The index of the first `c` in `s`; the length of `s` where there is none.
pub open spec fn first_index(s: Seq<char>, c: char) -> nat
    decreases s.len(),
{
    if s.len() == 0 || s[0] == c {
        0
    } else {
        1 + first_index(s.drop_first(), c)
    }
}

pub proof fn lemma_first_index(s: Seq<char>, c: char)
    ensures
        first_index(s, c) <= s.len(),
        first_index(s, c) < s.len() ==> s[first_index(s, c) as int] == c,
        forall|i: int| 0 <= i < first_index(s, c) ==> s[i] != c,
    decreases s.len(),
{
    if s.len() > 0 && s[0] != c {
        let t = s.drop_first();
        lemma_first_index(t, c);
        assert forall|i: int| 0 <= i < first_index(s, c) implies s[i] != c by {
            if i > 0 {
                assert(t[i - 1] == s[i]);
            }
        }
    }
}

/// The pieces of `s` between occurrences of `sep`.
pub open spec fn split(s: Seq<char>, sep: char) -> Seq<Seq<char>>
    decreases s.len(),
{
    let i = first_index(s, sep) as int;
    if i < s.len() {
        seq![s.take(i)] + split(s.skip(i + 1), sep)
    } else {
        seq![s]
    }
}

/// The index of the first `c` at or after `from`, or the length of `chars`.
pub fn find_char(chars: &[char], from: usize, c: char) -> (r: usize)
    requires
        from <= chars@.len(),
    ensures
        from <= r <= chars@.len(),
        r == from + first_index(chars@.skip(from as int), c),
{
    let mut i: usize = from;
    while i < chars.len() && chars[i] != c
        invariant
            from <= i <= chars@.len(),
            first_index(chars@.skip(from as int), c) == (i - from) + first_index(
                chars@.skip(i as int),
                c,
            ),
        decreases chars@.len() - i,
    {
        proof {
            assert(chars@.skip(i as int).drop_first() =~= chars@.skip(i as int + 1));
        }
        i = i + 1;
    }
    i
}

pub fn split_string(s: &str, sep: char) -> (r: Vec<String>)
    ensures
        views(r@) == split(s@, sep),
        r@.len() >= 1,
{
    let chars: Vec<char> = chars_of(s);
    let mut out: Vec<String> = Vec::new();
    let mut pos: usize = 0;
    let mut end: usize = find_char(&chars, 0, sep);
    proof {
        assert(chars@.skip(0) =~= s@);
        assert(views(out@) + split(chars@.skip(0), sep) =~= split(s@, sep));
    }
    while end < chars.len()
        invariant
            chars@ == s@,
            pos <= end <= chars@.len(),
            end == pos + first_index(chars@.skip(pos as int), sep),
            views(out@) + split(chars@.skip(pos as int), sep) == split(s@, sep),
        decreases chars@.len() - end,
    {
        let ghost rest = chars@.skip(pos as int);
        let piece: String = slice_string(&chars, pos, end);
        proof {
            assert(rest.take(end - pos) =~= piece@);
            assert(rest.skip(end - pos + 1) =~= chars@.skip(end as int + 1));
            lemma_views_push(out@, piece);
            assert(split(rest, sep) == seq![piece@] + split(chars@.skip(end as int + 1), sep));
            assert(views(out@).push(piece@) + split(chars@.skip(end as int + 1), sep) =~= views(
                out@,
            ) + split(rest, sep));
        }
        out.push(piece);
        pos = end + 1;
        end = find_char(&chars, pos, sep);
    }
    let piece: String = slice_string(&chars, pos, end);
    proof {
        assert(piece@ =~= chars@.skip(pos as int));
        lemma_views_push(out@, piece);
        assert(split(chars@.skip(pos as int), sep) == seq![piece@]);
        assert(views(out@).push(piece@) =~= views(out@) + seq![piece@]);
    }
    out.push(piece);
    out
}

/// The pieces of `parts` with `sep` between them.
pub open spec fn join(parts: Seq<Seq<char>>, sep: Seq<char>) -> Seq<char>
    decreases parts.len(),
{
    if parts.len() == 0 {
        seq![]
    } else if parts.len() == 1 {
        parts[0]
    } else {
        join(parts.drop_last(), sep) + sep + parts.last()
    }
}

pub fn join_strings(parts: &[String], sep: &str) -> (r: String)
    ensures
        r@ == join(views(parts@), sep@),
{
    let mut out: String = String::new();
    let mut i: usize = 0;
    while i < parts.len()
        invariant
            i <= parts@.len(),
            out@ == join(views(parts@).take(i as int), sep@),
        decreases parts@.len() - i,
    {
        if i > 0 {
            out.append(sep);
        }
        out.append(parts[i].as_str());
        proof {
            let t = views(parts@).take(i as int + 1);
            assert(t.drop_last() =~= views(parts@).take(i as int));
            assert(t.last() == parts@[i as int]@);
            if i == 0 {
                assert(out@ =~= parts@[0]@);
            }
        }
        i = i + 1;
    }
    proof {
        assert(views(parts@).take(parts@.len() as int) =~= views(parts@));
    }
    out
}

// ---------------------------------------------------------------------------
// Decimal numbers
// ---------------------------------------------------------------------------

/// The number that a sequence of decimal digits writes.
pub open spec fn digits_value(s: Seq<char>) -> nat
    decreases s.len(),
{
    if s.len() == 0 {
        0
    } else {
        digits_value(s.drop_last()) * 10 + (s.last() as nat - '0' as nat) as nat
    }
}

/// `s` is a non-empty sequence of decimal digits.
pub open spec fn is_digits(s: Seq<char>) -> bool {
    s.len() > 0 && forall|i: int| 0 <= i < s.len() ==> is_digit(#[trigger] s[i])
}

/// The number that `s` writes: digits behind an optional plus sign.
pub open spec fn unsigned_value(s: Seq<char>) -> Option<nat> {
    let d = if s.len() > 0 && s[0] == '+' {
        s.drop_first()
    } else {
        s
    };
    if is_digits(d) {
        Some(digits_value(d))
    } else {
        None
    }
}

/// The number that `s` writes, where it is at most `max`.
pub open spec fn bounded_value(s: Seq<char>, max: nat) -> Option<nat> {
    match unsigned_value(s) {
        Some(v) => if v <= max {
            Some(v)
        } else {
            None
        },
        None => None,
    }
}

proof fn lemma_digits_prefix(s: Seq<char>, i: int)
    requires
        0 <= i <= s.len(),
        forall|j: int| 0 <= j < s.len() ==> is_digit(#[trigger] s[j]),
    ensures
        digits_value(s.take(i)) <= digits_value(s),
    decreases s.len() - i,
{
    if i < s.len() {
        lemma_digits_prefix(s, i + 1);
        assert(s.take(i + 1).drop_last() =~= s.take(i));
        assert(is_digit(s[i]));
    } else {
        assert(s.take(i) =~= s);
    }
}

/// Reads the digits `from..` of `chars` as a number of at most `max`.
fn parse_digits(chars: &[char], from: usize, max: u64) -> (r: Option<u64>)
    requires
        from <= chars@.len(),
    ensures
        ({
            let d = chars@.skip(from as int);
            if is_digits(d) && digits_value(d) <= max {
                r == Some(digits_value(d) as u64)
            } else {
                r is None
            }
        }),
{
    let ghost d = chars@.skip(from as int);
    if from == chars.len() {
        return None;
    }
    let mut value: u64 = 0;
    let mut i: usize = from;
    while i < chars.len()
        invariant
            from <= i <= chars@.len(),
            d == chars@.skip(from as int),
            forall|j: int| 0 <= j < i - from ==> is_digit(#[trigger] d[j]),
            value == digits_value(d.take(i - from)),
            value <= max,
        decreases chars@.len() - i,
    {
        let c: char = chars[i];
        proof {
            assert(d[i - from] == c);
        }
        if c < '0' || c > '9' {
            return None;
        }
        let digit: u64 = c as u64 - '0' as u64;
        proof {
            assert(d.take(i - from + 1).drop_last() =~= d.take(i - from));
            assert(digits_value(d.take(i - from + 1)) == value * 10 + digit);
            if (forall|j: int| 0 <= j < d.len() ==> is_digit(#[trigger] d[j])) {
                lemma_digits_prefix(d, i - from + 1);
            }
        }
        let shifted: u64 = match value.checked_mul(10) {
            Some(v) => v,
            None => return None,
        };
        value = match shifted.checked_add(digit) {
            Some(v) => v,
            None => return None,
        };
        if value > max {
            return None;
        }
        i = i + 1;
    }
    proof {
        assert(d.take(d.len() as int) =~= d);
    }
    Some(value)
}

/// Reads `s` as an unsigned number of at most `max`, as `str::parse` reads one.
pub fn parse_unsigned(s: &str, max: u64) -> (r: Option<u64>)
    ensures
        match bounded_value(s@, max as nat) {
            Some(v) => r == Some(v as u64),
            None => r is None,
        },
{
    let chars: Vec<char> = chars_of(s);
    if chars.len() > 0 && chars[0] == '+' {
        proof {
            assert(chars@.skip(1) =~= s@.drop_first());
        }
        parse_digits(&chars, 1, max)
    } else {
        proof {
            assert(chars@.skip(0) =~= s@);
        }
        parse_digits(&chars, 0, max)
    }
}

/// The number that `s` writes, with an optional sign before its digits.
pub open spec fn signed_value(s: Seq<char>) -> Option<int> {
    if s.len() > 0 && s[0] == '-' {
        if is_digits(s.drop_first()) {
            Some(-(digits_value(s.drop_first()) as int))
        } else {
            None
        }
    } else {
        match unsigned_value(s) {
            Some(v) => Some(v as int),
            None => None,
        }
    }
}

/// Reads `s` as an `i32`, as `str::parse` reads one.
pub fn parse_i32(s: &str) -> (r: Option<i32>)
    ensures
        match signed_value(s@) {
            Some(v) => if i32::MIN <= v <= i32::MAX {
                r == Some(v as i32)
            } else {
                r is None
            },
            None => r is None,
        },
{
    let chars: Vec<char> = chars_of(s);
    if chars.len() > 0 && chars[0] == '-' {
        proof {
            assert(chars@.skip(1) =~= s@.drop_first());
        }
        match parse_digits(&chars, 1, 2147483648) {
            Some(v) => Some((-(v as i64)) as i32),
            None => None,
        }
    } else {
        match parse_unsigned(s, 2147483647) {
            Some(v) => Some(v as i32),
            None => None,
        }
    }
}

/// Reads `s` as an `i64`, as `str::parse` reads one.
pub fn parse_i64(s: &str) -> (r: Option<i64>)
    ensures
        match signed_value(s@) {
            Some(v) => if i64::MIN <= v <= i64::MAX {
                r == Some(v as i64)
            } else {
                r is None
            },
            None => r is None,
        },
{
    let chars: Vec<char> = chars_of(s);
    if chars.len() > 0 && chars[0] == '-' {
        proof {
            assert(chars@.skip(1) =~= s@.drop_first());
        }
        match parse_digits(&chars, 1, 9223372036854775808) {
            Some(v) => Some((-(v as i128)) as i64),
            None => None,
        }
    } else {
        match parse_unsigned(s, 9223372036854775807) {
            Some(v) => Some(v as i64),
            None => None,
        }
    }
}

/// The character of a decimal digit.
pub open spec fn digit_char(d: nat) -> char {
    (('0' as nat + d) as u8) as char
}

/// `n` in decimal digits, without leading zeros.
pub open spec fn decimal(n: nat) -> Seq<char>
    decreases n,
{
    if n < 10 {
        seq![digit_char(n)]
    } else {
        decimal(n / 10).push(digit_char(n % 10))
    }
}

/// `n` in decimal digits, as `Display` writes it.
pub fn format_u64(n: u64) -> (r: String)
    ensures
        r@ == decimal(n as nat),
    decreases n,
{
    let digit: char = (('0' as u8) + (n % 10) as u8) as char;
    if n < 10 {
        let mut out: String = String::new();
        out.push(digit);
        proof {
            assert(out@ =~= decimal(n as nat));
        }
        out
    } else {
        let mut out: String = format_u64(n / 10);
        out.push(digit);
        out
    }
}

/// `n` in decimal, with a minus sign where it is negative.
pub open spec fn signed_decimal(n: int) -> Seq<char> {
    if n < 0 {
        seq!['-'] + decimal((-n) as nat)
    } else {
        decimal(n as nat)
    }
}

/// `n` in decimal, as `Display` writes it.
pub fn format_i64(n: i64) -> (r: String)
    ensures
        r@ == signed_decimal(n as int),
{
    if n < 0 {
        let mut out: String = String::new();
        out.push('-');
        let digits: String = format_u64((-(n as i128)) as u64);
        out.append(digits.as_str());
        proof {
            assert(out@ =~= signed_decimal(n as int));
        }
        out
    } else {
        format_u64(n as u64)
    }
}

pub proof fn lemma_decimal_digits(n: nat)
    ensures
        is_digits(decimal(n)),
        digits_value(decimal(n)) == n,
    decreases n,
{
    if n < 10 {
        assert(decimal(n).drop_last() =~= Seq::<char>::empty());
        assert(decimal(n).last() == digit_char(n));
        assert(digits_value(Seq::<char>::empty()) == 0);
    } else {
        lemma_decimal_digits(n / 10);
        assert(decimal(n).drop_last() =~= decimal(n / 10));
        assert(decimal(n).last() == digit_char(n % 10));
    }
}

/// Reading back a written number gives the number.
pub proof fn law_decimal_round_trip(n: nat)
    ensures
        unsigned_value(decimal(n)) == Some(n),
{
    lemma_decimal_digits(n);
    assert(is_digit(decimal(n)[0]));
}

// ---------------------------------------------------------------------------
// Outside text functions
// ---------------------------------------------------------------------------

/// What `str::to_lowercase` makes of a text.
pub uninterp spec fn unicode_lower(s: Seq<char>) -> Seq<char>;

/// `str::to_lowercase`. Of an ASCII text it is the ASCII lower-case form.
#[verifier::external_body]
pub(crate) fn to_lowercase(s: &str) -> (r: String)
    ensures
        r@ == unicode_lower(s@),
        is_ascii_chars(s@) ==> r@ == lower(s@),
{
    s.to_lowercase()
}

/// What `std` says of bytes that are no UTF-8.
pub uninterp spec fn utf8_fault(bytes: Seq<u8>) -> Seq<char>;

/// `String::from_utf8`: the text that the bytes encode, where they are UTF-8,
/// and the text of its `Utf8Error` where they are not.
#[verifier::external_body]
pub(crate) fn utf8_text(bytes: Vec<u8>) -> (r: Result<String, String>)
    ensures
        match r {
            Ok(t) => valid_utf8(bytes@) && t@ == decode_utf8(bytes@),
            Err(e) => !valid_utf8(bytes@) && e@ == utf8_fault(bytes@),
        },
{
    match String::from_utf8(bytes) {
        Ok(text) => Ok(text),
        Err(error) => Err(error.utf8_error().to_string()),
    }
}

/// What `String::from_utf8_lossy` makes of bytes.
pub uninterp spec fn lossy_text(bytes: Seq<u8>) -> Seq<char>;

/// `String::from_utf8_lossy`. Of valid UTF-8 it is the text that is encoded.
#[verifier::external_body]
pub(crate) fn utf8_text_lossy(bytes: &[u8]) -> (r: String)
    ensures
        r@ == lossy_text(bytes@),
        valid_utf8(bytes@) ==> r@ == decode_utf8(bytes@),
{
    String::from_utf8_lossy(bytes).to_string()
}

/// A text is not behind another in order just where it is a beginning of it,
/// or has the smaller character at the first place where they differ.
pub proof fn law_texts_are_ordered(a: &str, b: &str, r: bool)
    requires
        call_ensures(is_text_le, (a, b), r),
    ensures
        r <==> {
            ||| a@.len() <= b@.len() && forall|j: int| 0 <= j < a@.len() ==> #[trigger] a@[j] == b@[j]
            ||| exists|k: int|
                0 <= k < a@.len() && k < b@.len() && #[trigger] a@[k] < b@[k] && forall|j: int|
                    0 <= j < k ==> a@[j] == b@[j]
        },
{
    lemma_text_order(a@, b@);
}

proof fn lemma_text_order(a: Seq<char>, b: Seq<char>)
    ensures
        text_le(a, b) <==> {
            ||| a.len() <= b.len() && forall|j: int| 0 <= j < a.len() ==> #[trigger] a[j] == b[j]
            ||| exists|k: int|
                0 <= k < a.len() && k < b.len() && #[trigger] a[k] < b[k] && forall|j: int|
                    0 <= j < k ==> a[j] == b[j]
        },
    decreases a.len(),
{
    if a.len() > 0 && b.len() > 0 {
        let x = a.drop_first();
        let y = b.drop_first();
        if a[0] == b[0] {
            lemma_text_order(x, y);
            if a.len() <= b.len() && forall|j: int|
                0 <= j < a.len() ==> #[trigger] a[j] == b[j] {
                assert forall|j: int| 0 <= j < x.len() implies #[trigger] x[j] == y[j] by {
                    assert(a[j + 1] == b[j + 1]);
                }
            }
            if x.len() <= y.len() && forall|j: int|
                0 <= j < x.len() ==> #[trigger] x[j] == y[j] {
                assert forall|j: int| 0 <= j < a.len() implies #[trigger] a[j] == b[j] by {
                    if j > 0 {
                        assert(x[j - 1] == y[j - 1]);
                    }
                }
            }
            if exists|k: int|
                0 <= k < a.len() && k < b.len() && #[trigger] a[k] < b[k] && forall|j: int|
                    0 <= j < k ==> a[j] == b[j] {
                let k = choose|k: int|
                    0 <= k < a.len() && k < b.len() && #[trigger] a[k] < b[k] && forall|j: int|
                        0 <= j < k ==> a[j] == b[j];
                assert(k > 0);
                assert(x[k - 1] < y[k - 1]);
                assert forall|j: int| 0 <= j < k - 1 implies x[j] == y[j] by {
                    assert(a[j + 1] == b[j + 1]);
                }
            }
            if exists|k: int|
                0 <= k < x.len() && k < y.len() && #[trigger] x[k] < y[k] && forall|j: int|
                    0 <= j < k ==> x[j] == y[j] {
                let k = choose|k: int|
                    0 <= k < x.len() && k < y.len() && #[trigger] x[k] < y[k] && forall|j: int|
                        0 <= j < k ==> x[j] == y[j];
                assert(a[k + 1] < b[k + 1]);
                assert forall|j: int| 0 <= j < k + 1 implies a[j] == b[j] by {
                    if j > 0 {
                        assert(x[j - 1] == y[j - 1]);
                    }
                }
            }
        } else {
            if exists|k: int|
                0 <= k < a.len() && k < b.len() && #[trigger] a[k] < b[k] && forall|j: int|
                    0 <= j < k ==> a[j] == b[j] {
                let k = choose|k: int|
                    0 <= k < a.len() && k < b.len() && #[trigger] a[k] < b[k] && forall|j: int|
                        0 <= j < k ==> a[j] == b[j];
                assert(k == 0) by {
                    if k > 0 {
                        assert(a[0] == b[0]);
                    }
                }
            }
        }
    }
}

/// Trimming takes away the white space at both ends of a text, all of it and
/// nothing else.
pub proof fn law_white_space_is_trimmed(s: &str, r: String)
    requires
        call_ensures(trim_string, (s,), r),
    ensures
        exists|a: int, b: int|
            0 <= a <= b <= s@.len() && r@ == #[trigger] s@.subrange(a, b) && (forall|i: int|
                0 <= i < a ==> is_space(#[trigger] s@[i])) && (forall|i: int|
                b <= i < s@.len() ==> is_space(#[trigger] s@[i])) && (a < b ==> !is_space(s@[a])
                && !is_space(s@[b - 1])),
{
    let t = s@;
    let a = lemma_trimmed_start(t);
    let u = t.skip(a);
    let n = lemma_trimmed_end(u);
    let b = a + n;
    assert(u.take(n) =~= t.subrange(a, b));
    assert forall|i: int| b <= i < t.len() implies is_space(#[trigger] t[i]) by {
        assert(u[i - a] == t[i]);
    }
    if a < b {
        assert(u[0] == t[a]);
        assert(u[n - 1] == t[b - 1]);
    }
    assert(r@ == t.subrange(a, b));
}

proof fn lemma_trimmed_start(s: Seq<char>) -> (n: int)
    ensures
        0 <= n <= s.len(),
        trim_start(s) == s.skip(n),
        forall|i: int| 0 <= i < n ==> is_space(#[trigger] s[i]),
        n < s.len() ==> !is_space(s[n]),
    decreases s.len(),
{
    if s.len() > 0 && is_space(s[0]) {
        let rest = s.drop_first();
        let n = lemma_trimmed_start(rest);
        assert(rest.skip(n) =~= s.skip(n + 1));
        assert forall|i: int| 0 <= i < n + 1 implies is_space(#[trigger] s[i]) by {
            if i > 0 {
                assert(rest[i - 1] == s[i]);
            }
        }
        n + 1
    } else {
        assert(s.skip(0) =~= s);
        0
    }
}

proof fn lemma_trimmed_end(s: Seq<char>) -> (n: int)
    ensures
        0 <= n <= s.len(),
        trim_end(s) == s.take(n),
        forall|i: int| n <= i < s.len() ==> is_space(#[trigger] s[i]),
        n > 0 ==> !is_space(s[n - 1]),
    decreases s.len(),
{
    if s.len() > 0 && is_space(s.last()) {
        let shorter = s.drop_last();
        let n = lemma_trimmed_end(shorter);
        assert(shorter.take(n) =~= s.take(n));
        assert forall|i: int| n <= i < s.len() implies is_space(#[trigger] s[i]) by {
            if i < shorter.len() {
                assert(shorter[i] == s[i]);
            }
        }
        n
    } else {
        assert(s.take(s.len() as int) =~= s);
        s.len() as int
    }
}

/// A number that was written is read back as it was, and only within the bound
/// that is asked for.
pub proof fn law_written_number_is_read(
    n: u64,
    text: String,
    s: &str,
    max: u64,
    r: Option<u64>,
)
    requires
        call_ensures(format_u64, (n,), text),
        s@ == text@,
        call_ensures(parse_unsigned, (s, max), r),
    ensures
        n <= max ==> r == Some(n),
        n > max ==> r is None,
{
    lemma_decimal_digits(n as nat);
    let d = text@;
    assert(is_digit(d[0]));
    assert(d[0] != '+');
}

/// A number with a sign that was written is read back as it was; into a smaller
/// number just where it fits.
pub proof fn law_written_signed_number_is_read(
    n: i64,
    text: String,
    s: &str,
    r: Option<i64>,
    small: Option<i32>,
)
    requires
        call_ensures(format_i64, (n,), text),
        s@ == text@,
        call_ensures(parse_i64, (s,), r),
        call_ensures(parse_i32, (s,), small),
    ensures
        r == Some(n),
        small is Some <==> i32::MIN <= n <= i32::MAX,
        small matches Some(m) ==> m == n,
{
    let magnitude = if n < 0 {
        (-(n as int)) as nat
    } else {
        n as nat
    };
    lemma_decimal_digits(magnitude);
    let d = decimal(magnitude);
    assert(is_digit(d[0]));
    if n < 0 {
        assert(text@.drop_first() =~= d);
    } else {
        assert(d[0] != '+' && d[0] != '-');
    }
}

/// Lower case keeps every character in its place. Just the letters from `A` to
/// `Z` change, each into the one that is 32 further on.
pub proof fn law_lower_case_keeps_places(s: &str, r: String, i: int)
    requires
        call_ensures(to_lower, (s,), r),
        0 <= i < s@.len(),
    ensures
        r@.len() == s@.len(),
        'A' <= s@[i] <= 'Z' ==> r@[i] as int == s@[i] as int + 32,
        !('A' <= s@[i] <= 'Z') ==> r@[i] == s@[i],
{
}

/// Two texts are equal up to case just where their lower-case forms are equal.
pub proof fn law_equal_up_to_case(a: &str, b: &str, la: String, lb: String, r: bool)
    requires
        call_ensures(to_lower, (a,), la),
        call_ensures(to_lower, (b,), lb),
        call_ensures(eq_ignore_case, (a, b), r),
    ensures
        r <==> la@ == lb@,
{
}

/// A text starts with its prefixes, ends with its suffixes and contains what
/// stands between them.
pub proof fn law_parts_are_found(
    s: &str,
    part: &str,
    starts: bool,
    ends: bool,
    inside: bool,
    before: Seq<char>,
    after: Seq<char>,
)
    requires
        call_ensures(starts_with, (s, part), starts),
        call_ensures(ends_with, (s, part), ends),
        call_ensures(contains, (s, part), inside),
    ensures
        s@ == part@ + after ==> starts,
        s@ == before + part@ ==> ends,
        s@ == before + part@ + after ==> inside,
        starts ==> s@ == part@ + s@.skip(part@.len() as int) && inside,
        ends ==> s@ == s@.take(s@.len() - part@.len()) + part@ && inside,
        inside ==> exists|i: int|
            0 <= i <= s@.len() - part@.len() && s@ == #[trigger] s@.take(i) + part@ + s@.skip(
                i + part@.len(),
            ),
{
    let n = part@.len() as int;
    if s@ == part@ + after {
        assert(s@.subrange(0, n) =~= part@);
    }
    if s@ == before + part@ {
        assert(s@.subrange(s@.len() - n, s@.len() as int) =~= part@);
    }
    if s@ == before + part@ + after {
        let i = before.len() as int;
        assert(s@.subrange(i, i + n) =~= part@);
        assert(occurs_at(s@, part@, i));
    }
    if starts {
        assert(s@.subrange(0, n) =~= part@);
        assert(s@ =~= part@ + s@.skip(n));
        assert(occurs_at(s@, part@, 0));
    }
    if ends {
        let i = s@.len() - n;
        assert(s@.subrange(i, i + n) =~= part@);
        assert(s@ =~= s@.take(i) + part@);
        assert(occurs_at(s@, part@, i));
    }
    if inside {
        let i = choose|i: int| #[trigger] occurs_at(s@, part@, i);
        assert(s@.subrange(i, i + n) =~= part@);
        assert(s@ =~= s@.take(i) + part@ + s@.skip(i + n));
    }
}

proof fn lemma_join_front(parts: Seq<Seq<char>>, sep: Seq<char>)
    requires
        parts.len() > 1,
    ensures
        join(parts, sep) == parts[0] + sep + join(parts.drop_first(), sep),
    decreases parts.len(),
{
    let rest = parts.drop_first();
    if parts.len() == 2 {
        assert(parts.drop_last().len() == 1);
        assert(rest[0] == parts[1]);
        assert(join(parts.drop_last(), sep) == parts[0]);
        assert(join(rest, sep) == parts[1]);
        assert(parts.last() == parts[1]);
    } else {
        let shorter = parts.drop_last();
        lemma_join_front(shorter, sep);
        assert(shorter.drop_first() =~= rest.drop_last());
        assert(rest.last() == parts.last());
        assert(shorter[0] == parts[0]);
        let middle = join(rest.drop_last(), sep);
        assert(parts[0] + sep + middle + sep + parts.last() =~= parts[0] + sep + (middle + sep
            + parts.last()));
    }
}

proof fn lemma_split_joined(s: Seq<char>, sep: char)
    ensures
        split(s, sep).len() >= 1,
        join(split(s, sep), seq![sep]) == s,
        forall|k: int, i: int|
            0 <= k < split(s, sep).len() && 0 <= i < split(s, sep)[k].len() ==> #[trigger] split(
                s,
                sep,
            )[k][i] != sep,
    decreases s.len(),
{
    lemma_first_index(s, sep);
    let n = first_index(s, sep) as int;
    if n < s.len() {
        let rest = s.skip(n + 1);
        lemma_split_joined(rest, sep);
        let parts = split(s, sep);
        let others = split(rest, sep);
        assert(parts == seq![s.take(n)] + others);
        assert(parts.drop_first() =~= others);
        lemma_join_front(parts, seq![sep]);
        assert(s =~= s.take(n) + seq![sep] + rest);
        assert forall|k: int, i: int|
            0 <= k < parts.len() && 0 <= i < parts[k].len() implies #[trigger] parts[k][i]
            != sep by {
            if k > 0 {
                assert(parts[k] == others[k - 1]);
                assert(others[k - 1][i] != sep);
            } else {
                assert(parts[0][i] == s[i]);
            }
        }
    } else {
        assert forall|k: int, i: int|
            0 <= k < split(s, sep).len() && 0 <= i < split(s, sep)[k].len() implies #[trigger] split(
            s,
            sep,
        )[k][i] != sep by {
            assert(split(s, sep)[k] == s);
        }
    }
}

/// The pieces of a text hold no separator, and joined by it they are the text
/// again.
pub proof fn law_pieces_join_again(
    s: &str,
    sep: char,
    pieces: Vec<String>,
    parts: &[String],
    between: &str,
    r: String,
)
    requires
        call_ensures(split_string, (s, sep), pieces),
        parts@ == pieces@,
        between@ == seq![sep],
        call_ensures(join_strings, (parts, between), r),
    ensures
        r@ == s@,
        forall|k: int, i: int|
            0 <= k < pieces@.len() && 0 <= i < pieces@[k]@.len() ==> #[trigger] pieces@[k]@[i]
                != sep,
{
    lemma_split_joined(s@, sep);
    assert forall|k: int, i: int|
        0 <= k < pieces@.len() && 0 <= i < pieces@[k]@.len() implies #[trigger] pieces@[k]@[i]
        != sep by {
        assert(views(pieces@)[k] == pieces@[k]@);
        assert(split(s@, sep)[k][i] != sep);
    }
}

/// The words of a text are what white space separates: white space in front is
/// passed over, and a word that white space follows stands before the words of
/// the rest. A text without white space is a word.
pub proof fn law_words_are_separated(
    s: &str,
    r: Vec<String>,
    word: Seq<char>,
    gap: char,
    rest: &str,
    others: Vec<String>,
)
    requires
        call_ensures(split_words, (s,), r),
        call_ensures(split_words, (rest,), others),
        is_space(gap),
        word.len() > 0,
        forall|i: int| 0 <= i < word.len() ==> !is_space(#[trigger] word[i]),
    ensures
        s@ == seq![gap] + rest@ ==> views(r@) == views(others@),
        s@ == word + seq![gap] + rest@ ==> views(r@) == seq![word] + views(others@),
        s@ == word ==> views(r@) == seq![word],
        s@.len() == 0 ==> r@.len() == 0,
{
    if s@ == seq![gap] + rest@ {
        assert(s@.drop_first() =~= rest@);
        assert(trim_start(s@) == trim_start(rest@));
        lemma_words_trimmed(s@, rest@);
    }
    if s@ == word + seq![gap] + rest@ {
        let tail = seq![gap] + rest@;
        assert(s@ =~= word + tail);
        lemma_word_in_front(word, tail);
        assert(tail.drop_first() =~= rest@);
        lemma_words_trimmed(tail, rest@);
    }
    if s@ == word {
        assert(word =~= word + Seq::<char>::empty());
        lemma_word_in_front(word, Seq::<char>::empty());
        assert(words(Seq::<char>::empty()) =~= Seq::<Seq<char>>::empty());
        assert(seq![word] + Seq::<Seq<char>>::empty() =~= seq![word]);
    }
    if s@.len() == 0 {
        assert(views(r@).len() == 0);
    }
}

proof fn lemma_words_trimmed(a: Seq<char>, b: Seq<char>)
    requires
        trim_start(a) == trim_start(b),
    ensures
        words(a) == words(b),
{
}

proof fn lemma_word_in_front(word: Seq<char>, tail: Seq<char>)
    requires
        word.len() > 0,
        forall|i: int| 0 <= i < word.len() ==> !is_space(#[trigger] word[i]),
        tail.len() == 0 || is_space(tail[0]),
    ensures
        words(word + tail) == seq![word] + words(tail),
{
    let s = word + tail;
    assert(s[0] == word[0]);
    assert(trim_start(s) == s);
    lemma_word_len_of(word, tail);
    assert(s.take(word.len() as int) =~= word);
    assert(s.skip(word.len() as int) =~= tail);
}

proof fn lemma_word_len_of(word: Seq<char>, tail: Seq<char>)
    requires
        forall|i: int| 0 <= i < word.len() ==> !is_space(#[trigger] word[i]),
        tail.len() == 0 || is_space(tail[0]),
    ensures
        word_len(word + tail) == word.len(),
    decreases word.len(),
{
    let s = word + tail;
    if word.len() > 0 {
        let shorter = word.drop_first();
        assert(s[0] == word[0]);
        assert forall|i: int| 0 <= i < shorter.len() implies !is_space(#[trigger] shorter[i]) by {
            assert(shorter[i] == word[i + 1]);
        }
        lemma_word_len_of(shorter, tail);
        assert(s.drop_first() =~= shorter + tail);
    } else {
        assert(s =~= tail);
    }
}

} // verus!
