//! JSON documents: a plain tree, and the outside parsers that build it.
use crate::text::{parse_i32, same, signed_value};
use crate::text_map::{text_values, TextMap};
use vstd::prelude::*;

verus! {

/// A JSON document. Numbers are kept in the text that JSON writes for them;
/// the members of an object stand in the order of its keys.
#[derive(Debug)]
pub enum Json {
    Null,
    Bool(bool),
    Number(String),
    Text(String),
    List(Vec<Json>),
    Object(Vec<(String, Json)>),
}

/// What a JSON document holds.
pub enum JsonView {
    Null,
    Bool(bool),
    Number(Seq<char>),
    Text(Seq<char>),
    List(Seq<JsonView>),
    Object(Seq<(Seq<char>, JsonView)>),
}

impl View for Json {
    type V = JsonView;

    open spec fn view(&self) -> JsonView {
        json_view(*self)
    }
}

/// What `j` holds.
pub open spec fn json_view(j: Json) -> JsonView
    decreases j,
{
    match j {
        Json::Null => JsonView::Null,
        Json::Bool(b) => JsonView::Bool(b),
        Json::Number(t) => JsonView::Number(t@),
        Json::Text(t) => JsonView::Text(t@),
        Json::List(items) => JsonView::List(
            Seq::new(
                items@.len(),
                |i: int|
                    if 0 <= i < items@.len() {
                        json_view(items@[i])
                    } else {
                        JsonView::Null
                    },
            ),
        ),
        Json::Object(members) => JsonView::Object(
            Seq::new(
                members@.len(),
                |i: int|
                    if 0 <= i < members@.len() {
                        (members@[i].0@, json_view(members@[i].1))
                    } else {
                        (seq![], JsonView::Null)
                    },
            ),
        ),
    }
}

/// The first member with the given key.
pub open spec fn find_member(members: Seq<(Seq<char>, JsonView)>, key: Seq<char>) -> Option<
    JsonView,
>
    decreases members.len(),
{
    if members.len() == 0 {
        None
    } else if members[0].0 == key {
        Some(members[0].1)
    } else {
        find_member(members.drop_first(), key)
    }
}

/// The member of an object; nothing of any other document.
pub open spec fn member(j: JsonView, key: Seq<char>) -> Option<JsonView> {
    match j {
        JsonView::Object(members) => find_member(members, key),
        _ => None,
    }
}

/// The member of an object that may be missing itself.
pub open spec fn member_of(j: Option<JsonView>, key: Seq<char>) -> Option<JsonView> {
    match j {
        Some(d) => member(d, key),
        None => None,
    }
}

/// The text of a document that is a string.
pub open spec fn text_of(j: Option<JsonView>) -> Option<Seq<char>> {
    match j {
        Some(JsonView::Text(t)) => Some(t),
        _ => None,
    }
}

/// The items of a document that is a list; none of any other.
pub open spec fn items_of(j: Option<JsonView>) -> Seq<JsonView> {
    match j {
        Some(JsonView::List(items)) => items,
        _ => seq![],
    }
}

/// What an optional reference to a document refers to.
pub open spec fn opt_view(j: Option<&Json>) -> Option<JsonView> {
    match j {
        Some(d) => Some(d@),
        None => None,
    }
}

impl Json {
    /// The member of an object with the given key.
    pub fn get(&self, key: &str) -> (r: Option<&Json>)
        ensures
            opt_view(r) == member(self@, key@),
    {
        match self {
            Json::Object(members) => {
                let ghost all = self@->Object_0;
                let mut i: usize = 0;
                proof {
                    assert(all.skip(0) =~= all);
                }
                while i < members.len()
                    invariant
                        i <= members@.len(),
                        self@ == JsonView::Object(all),
                        all.len() == members@.len(),
                        forall|j: int|
                            0 <= j < all.len() ==> #[trigger] all[j] == (
                                members@[j].0@,
                                json_view(members@[j].1),
                            ),
                        find_member(all, key@) == find_member(all.skip(i as int), key@),
                    decreases members@.len() - i,
                {
                    proof {
                        assert(all.skip(i as int)[0] == all[i as int]);
                        assert(all.skip(i as int).drop_first() =~= all.skip(i as int + 1));
                    }
                    if same(members[i].0.as_str(), key) {
                        return Some(&members[i].1);
                    }
                    i = i + 1;
                }
                None
            },
            _ => None,
        }
    }
}

/// The member of a document that may be missing.
pub fn get_in<'a>(j: Option<&'a Json>, key: &str) -> (r: Option<&'a Json>)
    ensures
        opt_view(r) == member_of(opt_view(j), key@),
{
    match j {
        Some(d) => d.get(key),
        None => None,
    }
}

/// A copy of the text of a document that may be missing.
pub fn text_in(j: Option<&Json>) -> (r: Option<String>)
    ensures
        match r {
            Some(t) => text_of(opt_view(j)) == Some(t@),
            None => text_of(opt_view(j)) is None,
        },
{
    match j {
        Some(Json::Text(t)) => Some(t.clone()),
        _ => None,
    }
}

/// What each document of a list holds.
pub open spec fn json_views(items: Seq<Json>) -> Seq<JsonView> {
    Seq::new(items.len(), |i: int| items[i]@)
}

/// The items of a document that may be missing, where it is a list.
pub fn list_in<'a>(j: Option<&'a Json>) -> (r: Option<&'a Vec<Json>>)
    ensures
        match r {
            Some(v) => items_of(opt_view(j)) == json_views(v@),
            None => items_of(opt_view(j)) == Seq::<JsonView>::empty(),
        },
{
    match j {
        Some(Json::List(items)) => {
            proof {
                assert(items_of(opt_view(j)) =~= json_views(items@));
            }
            Some(items)
        },
        _ => None,
    }
}

/// The number of a document, where it is one that an `i32` holds.
pub open spec fn i32_of(j: Option<JsonView>) -> Option<i32> {
    match j {
        Some(JsonView::Number(t)) => match signed_value(t) {
            Some(v) => if i32::MIN <= v <= i32::MAX {
                Some(v as i32)
            } else {
                None
            },
            None => None,
        },
        _ => None,
    }
}

/// Reads the number of a document that may be missing.
pub fn i32_in(j: Option<&Json>) -> (r: Option<i32>)
    ensures
        r == i32_of(opt_view(j)),
{
    match j {
        Some(Json::Number(t)) => parse_i32(t.as_str()),
        _ => None,
    }
}

/// The string members of an object, by key.
pub open spec fn text_members(members: Seq<(Seq<char>, JsonView)>) -> Map<Seq<char>, Seq<char>>
    decreases members.len(),
{
    if members.len() == 0 {
        Map::empty()
    } else {
        let m = text_members(members.drop_last());
        match members.last().1 {
            JsonView::Text(t) => m.insert(members.last().0, t),
            _ => m,
        }
    }
}

/// The string members of a document that is an object; none of any other.
pub open spec fn texts_of(j: Option<JsonView>) -> Map<Seq<char>, Seq<char>> {
    match j {
        Some(JsonView::Object(members)) => text_members(members),
        _ => Map::empty(),
    }
}

/// Copies the string members of a document that may be missing.
pub fn texts_in(j: Option<&Json>) -> (r: TextMap<String>)
    ensures
        r.texts() == texts_of(opt_view(j)),
{
    let mut out: TextMap<String> = TextMap::new();
    proof {
        assert(out.texts() =~= Map::<Seq<char>, Seq<char>>::empty());
    }
    match j {
        Some(Json::Object(members)) => {
            let ghost all = opt_view(j)->0->Object_0;
            let mut i: usize = 0;
            proof {
                assert(all.take(0) =~= Seq::<(Seq<char>, JsonView)>::empty());
            }
            while i < members.len()
                invariant
                    i <= members@.len(),
                    j == Some(&Json::Object(*members)),
                    all == opt_view(j)->0->Object_0,
                    out.texts() == text_members(all.take(i as int)),
                decreases members@.len() - i,
            {
                proof {
                    assert(all.take(i as int + 1).drop_last() =~= all.take(i as int));
                    assert(all[i as int] == (
                        members@[i as int].0@,
                        json_view(members@[i as int].1),
                    ));
                }
                if let Json::Text(t) = &members[i].1 {
                    let ghost before = out@;
                    out.insert(members[i].0.clone(), t.clone());
                    proof {
                        assert(out.texts() =~= text_values(before).insert(
                            members@[i as int].0@,
                            t@,
                        ));
                    }
                }
                i = i + 1;
            }
            proof {
                assert(all.take(all.len() as int) =~= all);
            }
        },
        _ => {},
    }
    out
}

/// The number is a zero with a fraction, of either sign.
pub open spec fn is_float_zero(t: Seq<char>) -> bool {
    t == "0.0"@ || t == "-0.0"@
}

/// The numbers are the same. Zeros of both signs are.
pub open spec fn same_number(a: Seq<char>, b: Seq<char>) -> bool {
    a == b || (is_float_zero(a) && is_float_zero(b))
}

/// Where the first member with the given key stands; the number of members
/// where there is none.
pub open spec fn key_index(members: Seq<(Seq<char>, JsonView)>, key: Seq<char>) -> nat
    decreases members.len(),
{
    if members.len() == 0 {
        0
    } else if members[0].0 == key {
        0
    } else {
        1 + key_index(members.drop_first(), key)
    }
}

/// The object has a member with the given key.
pub open spec fn has_key(members: Seq<(Seq<char>, JsonView)>, key: Seq<char>) -> bool {
    key_index(members, key) < members.len()
}

/// The documents say the same: numbers by their value, and objects member by
/// member, whatever the order. Of members with the same key the first counts.
pub open spec fn same_json(a: JsonView, b: JsonView) -> bool
    decreases a,
{
    match (a, b) {
        (JsonView::Null, JsonView::Null) => true,
        (JsonView::Bool(x), JsonView::Bool(y)) => x == y,
        (JsonView::Number(x), JsonView::Number(y)) => same_number(x, y),
        (JsonView::Text(x), JsonView::Text(y)) => x == y,
        (JsonView::List(x), JsonView::List(y)) => {
            &&& x.len() == y.len()
            &&& forall|i: int| 0 <= i < x.len() ==> same_json(#[trigger] x[i], y[i])
        },
        (JsonView::Object(x), JsonView::Object(y)) => {
            &&& forall|i: int| 0 <= i < x.len() ==> has_key(y, (#[trigger] x[i]).0)
            &&& forall|i: int| 0 <= i < y.len() ==> has_key(x, (#[trigger] y[i]).0)
            &&& forall|i: int|
                0 <= i < x.len() && key_index(x, (#[trigger] x[i]).0) == i ==> same_json(
                    x[i].1,
                    y[key_index(y, x[i].0) as int].1,
                )
        },
        _ => false,
    }
}

proof fn lemma_key_index(members: Seq<(Seq<char>, JsonView)>, key: Seq<char>)
    ensures
        key_index(members, key) <= members.len(),
        has_key(members, key) ==> members[key_index(members, key) as int].0 == key,
        forall|i: int| 0 <= i < key_index(members, key) ==> (#[trigger] members[i]).0 != key,
    decreases members.len(),
{
    if members.len() > 0 && members[0].0 != key {
        let rest = members.drop_first();
        lemma_key_index(rest, key);
        assert forall|i: int| 0 <= i < key_index(members, key) implies (#[trigger] members[i]).0
            != key by {
            if i > 0 {
                assert(rest[i - 1] == members[i]);
            }
        }
    }
}

/// Every document says the same as itself.
pub proof fn law_same_as_itself(j: JsonView)
    ensures
        same_json(j, j),
    decreases j,
{
    match j {
        JsonView::List(x) => {
            assert forall|i: int| 0 <= i < x.len() implies same_json(#[trigger] x[i], x[i]) by {
                law_same_as_itself(x[i]);
            }
        },
        JsonView::Object(x) => {
            assert forall|i: int| 0 <= i < x.len() implies has_key(x, (#[trigger] x[i]).0) by {
                lemma_key_index(x, x[i].0);
            }
            assert forall|i: int|
                0 <= i < x.len() && key_index(x, (#[trigger] x[i]).0) == i implies same_json(
                x[i].1,
                x[key_index(x, x[i].0) as int].1,
            ) by {
                law_same_as_itself(x[i].1);
            }
        },
        _ => {},
    }
}

proof fn lemma_same_objects(
    x: Seq<(Seq<char>, JsonView)>,
    y: Seq<(Seq<char>, JsonView)>,
)
    requires
        same_json(JsonView::Object(x), JsonView::Object(y)),
    ensures
        forall|i: int| 0 <= i < x.len() ==> has_key(y, (#[trigger] x[i]).0),
        forall|i: int| 0 <= i < y.len() ==> has_key(x, (#[trigger] y[i]).0),
        forall|i: int|
            0 <= i < x.len() && key_index(x, (#[trigger] x[i]).0) == i ==> same_json(
                x[i].1,
                y[key_index(y, x[i].0) as int].1,
            ),
{
    let a = JsonView::Object(x);
    let b = JsonView::Object(y);
    assert forall|i: int| 0 <= i < x.len() implies has_key(y, (#[trigger] x[i]).0) by {
        assert(has_key(b->Object_0, a->Object_0[i].0));
    }
    assert forall|i: int| 0 <= i < y.len() implies has_key(x, (#[trigger] y[i]).0) by {
        assert(has_key(a->Object_0, b->Object_0[i].0));
    }
    assert forall|i: int|
        0 <= i < x.len() && key_index(x, (#[trigger] x[i]).0) == i implies same_json(
        x[i].1,
        y[key_index(y, x[i].0) as int].1,
    ) by {
        assert(key_index(a->Object_0, a->Object_0[i].0) == i);
        assert(same_json(
            a->Object_0[i].1,
            b->Object_0[key_index(b->Object_0, a->Object_0[i].0) as int].1,
        ));
    }
}

fn is_zero_text(t: &str) -> (r: bool)
    ensures
        r == is_float_zero(t@),
{
    same(t, "0.0") || same(t, "-0.0")
}

fn find_key(members: &Vec<(String, Json)>, key: &str) -> (r: usize)
    ensures
        r == key_index(member_views(members@), key@),
        r <= members@.len(),
{
    let ghost all = member_views(members@);
    let mut i: usize = 0;
    proof {
        assert(all.skip(0) =~= all);
    }
    while i < members.len()
        invariant
            i <= members@.len(),
            all == member_views(members@),
            key_index(all, key@) == i + key_index(all.skip(i as int), key@),
        decreases members@.len() - i,
    {
        proof {
            assert(all.skip(i as int)[0] == all[i as int]);
            assert(all.skip(i as int).drop_first() =~= all.skip(i as int + 1));
        }
        if same(members[i].0.as_str(), key) {
            return i;
        }
        i = i + 1;
    }
    i
}

/// Tells whether two documents say the same.
pub fn json_eq(a: &Json, b: &Json) -> (r: bool)
    ensures
        r == same_json(a@, b@),
    decreases a,
{
    match (a, b) {
        (Json::Null, Json::Null) => true,
        (Json::Bool(x), Json::Bool(y)) => *x == *y,
        (Json::Number(x), Json::Number(y)) => same(x.as_str(), y.as_str()) || (is_zero_text(
            x.as_str(),
        ) && is_zero_text(y.as_str())),
        (Json::Text(x), Json::Text(y)) => same(x.as_str(), y.as_str()),
        (Json::List(x), Json::List(y)) => {
            let ghost xs = a@->List_0;
            let ghost ys = b@->List_0;
            if x.len() != y.len() {
                return false;
            }
            let mut i: usize = 0;
            while i < x.len()
                invariant
                    i <= x@.len(),
                    x@.len() == y@.len(),
                    *a == Json::List(*x),
                    *b == Json::List(*y),
                    a@ == JsonView::List(xs),
                    b@ == JsonView::List(ys),
                    forall|j: int| 0 <= j < i ==> same_json(#[trigger] xs[j], ys[j]),
                decreases x@.len() - i,
            {
                proof {
                    assert(xs[i as int] == json_view(x@[i as int]));
                    assert(ys[i as int] == json_view(y@[i as int]));
                }
                if !json_eq(&x[i], &y[i]) {
                    return false;
                }
                i = i + 1;
            }
            true
        },
        (Json::Object(x), Json::Object(y)) => {
            let ghost xs = a@->Object_0;
            let ghost ys = b@->Object_0;
            proof {
                assert(xs =~= member_views(x@));
                assert(ys =~= member_views(y@));
            }
            let mut i: usize = 0;
            while i < x.len()
                invariant
                    i <= x@.len(),
                    *a == Json::Object(*x),
                    *b == Json::Object(*y),
                    a@ == JsonView::Object(xs),
                    b@ == JsonView::Object(ys),
                    xs == member_views(x@),
                    ys == member_views(y@),
                    forall|j: int| 0 <= j < i ==> has_key(ys, (#[trigger] xs[j]).0),
                    forall|j: int|
                        0 <= j < i && key_index(xs, (#[trigger] xs[j]).0) == j ==> same_json(
                            xs[j].1,
                            ys[key_index(ys, xs[j].0) as int].1,
                        ),
                decreases x@.len() - i,
            {
                let key: &str = x[i].0.as_str();
                let at: usize = find_key(y, key);
                proof {
                    assert(xs[i as int] == (x@[i as int].0@, json_view(x@[i as int].1)));
                }
                if at >= y.len() {
                    proof {
                        assert(!has_key(ys, xs[i as int].0));
                        if same_json(a@, b@) {
                            lemma_same_objects(xs, ys);
                        }
                    }
                    return false;
                }
                proof {
                    assert(ys[at as int] == (y@[at as int].0@, json_view(y@[at as int].1)));
                }
                if find_key(x, key) == i && !json_eq(&x[i].1, &y[at].1) {
                    proof {
                        assert(key_index(xs, xs[i as int].0) == i);
                        assert(!same_json(xs[i as int].1, ys[key_index(ys, xs[i as int].0) as int].1));
                        if same_json(a@, b@) {
                            lemma_same_objects(xs, ys);
                        }
                    }
                    return false;
                }
                i = i + 1;
            }
            let mut k: usize = 0;
            while k < y.len()
                invariant
                    k <= y@.len(),
                    a@ == JsonView::Object(xs),
                    b@ == JsonView::Object(ys),
                    xs == member_views(x@),
                    ys == member_views(y@),
                    forall|j: int| 0 <= j < k ==> has_key(xs, (#[trigger] ys[j]).0),
                decreases y@.len() - k,
            {
                proof {
                    assert(ys[k as int].0 == y@[k as int].0@);
                }
                if find_key(x, y[k].0.as_str()) >= x.len() {
                    proof {
                        assert(!has_key(xs, ys[k as int].0));
                        if same_json(a@, b@) {
                            lemma_same_objects(xs, ys);
                        }
                    }
                    return false;
                }
                k = k + 1;
            }
            true
        },
        _ => false,
    }
}

/// A copy of a document.
pub fn json_copy(j: &Json) -> (r: Json)
    ensures
        r@ == j@,
    decreases j,
{
    match j {
        Json::Null => Json::Null,
        Json::Bool(b) => Json::Bool(*b),
        Json::Number(t) => Json::Number(t.clone()),
        Json::Text(t) => Json::Text(t.clone()),
        Json::List(items) => {
            let mut out: Vec<Json> = Vec::new();
            let mut i: usize = 0;
            while i < items.len()
                invariant
                    i <= items@.len(),
                    *j == Json::List(*items),
                    out@.len() == i,
                    forall|k: int| 0 <= k < i ==> json_view(#[trigger] out@[k]) == json_view(items@[k]),
                decreases items@.len() - i,
            {
                proof {
                    assert(decreases_to!(*j => (*j)->List_0));
                    assert(decreases_to!(*items => items@));
                    assert(decreases_to!(items@ => items@[i as int]));
                }
                out.push(json_copy(&items[i]));
                i = i + 1;
            }
            let r = Json::List(out);
            proof {
                assert(r@->List_0 =~= j@->List_0);
            }
            r
        },
        Json::Object(members) => {
            let mut out: Vec<(String, Json)> = Vec::new();
            let mut i: usize = 0;
            while i < members.len()
                invariant
                    i <= members@.len(),
                    *j == Json::Object(*members),
                    out@.len() == i,
                    forall|k: int|
                        #![trigger out@[k]]
                        0 <= k < i ==> out@[k].0@ == members@[k].0@ && json_view(out@[k].1)
                            == json_view(members@[k].1),
                decreases members@.len() - i,
            {
                proof {
                    assert(decreases_to!(*j => (*j)->Object_0));
                    assert(decreases_to!(*members => members@));
                    assert(decreases_to!(members@ => members@[i as int]));
                    assert(decreases_to!(members@[i as int] => members@[i as int].1));
                }
                out.push((members[i].0.clone(), json_copy(&members[i].1)));
                i = i + 1;
            }
            let r = Json::Object(out);
            proof {
                assert(r@->Object_0 =~= j@->Object_0);
            }
            r
        },
    }
}

/// The members of an object but for those with the given key.
pub open spec fn drop_key(members: Seq<(Seq<char>, JsonView)>, key: Seq<char>) -> Seq<
    (Seq<char>, JsonView),
>
    decreases members.len(),
{
    if members.len() == 0 {
        seq![]
    } else if members.last().0 == key {
        drop_key(members.drop_last(), key)
    } else {
        drop_key(members.drop_last(), key).push(members.last())
    }
}

/// A document without the member of the given key.
pub open spec fn without(j: JsonView, key: Seq<char>) -> JsonView {
    match j {
        JsonView::Object(members) => JsonView::Object(drop_key(members, key)),
        _ => j,
    }
}

/// A copy of a document without the member of the given key.
pub fn json_without(j: &Json, key: &str) -> (r: Json)
    ensures
        r@ == without(j@, key@),
{
    match j {
        Json::Object(members) => {
            let ghost all = j@->Object_0;
            let mut out: Vec<(String, Json)> = Vec::new();
            let ghost mut kept: Seq<(Seq<char>, JsonView)> = seq![];
            let mut i: usize = 0;
            while i < members.len()
                invariant
                    i <= members@.len(),
                    *j == Json::Object(*members),
                    all == j@->Object_0,
                    kept == drop_key(all.take(i as int), key@),
                    kept.len() == out@.len(),
                    forall|k: int|
                        #![trigger out@[k]]
                        0 <= k < out@.len() ==> kept[k] == (out@[k].0@, json_view(out@[k].1)),
                decreases members@.len() - i,
            {
                proof {
                    assert(all.take(i as int + 1).drop_last() =~= all.take(i as int));
                    assert(all[i as int] == (
                        members@[i as int].0@,
                        json_view(members@[i as int].1),
                    ));
                }
                if !same(members[i].0.as_str(), key) {
                    out.push((members[i].0.clone(), json_copy(&members[i].1)));
                    proof {
                        kept = kept.push(all[i as int]);
                    }
                }
                i = i + 1;
            }
            let r = Json::Object(out);
            proof {
                assert(all.take(all.len() as int) =~= all);
                assert(r@->Object_0 =~= kept);
            }
            r
        },
        _ => json_copy(j),
    }
}

/// A document with a member of the given key set to a value.
pub open spec fn with_member(j: JsonView, key: Seq<char>, value: JsonView) -> JsonView {
    match j {
        JsonView::Object(members) => JsonView::Object(drop_key(members, key).push((key, value))),
        _ => JsonView::Object(seq![(key, value)]),
    }
}

proof fn lemma_find_push(
    members: Seq<(Seq<char>, JsonView)>,
    pair: (Seq<char>, JsonView),
    key: Seq<char>,
)
    ensures
        find_member(members.push(pair), key) == (match find_member(members, key) {
            Some(v) => Some(v),
            None => if pair.0 == key {
                Some(pair.1)
            } else {
                None
            },
        }),
    decreases members.len(),
{
    let more = members.push(pair);
    if members.len() == 0 {
        assert(more.drop_first() =~= Seq::<(Seq<char>, JsonView)>::empty());
    } else {
        assert(more[0] == members[0]);
        assert(more.drop_first() =~= members.drop_first().push(pair));
        lemma_find_push(members.drop_first(), pair, key);
    }
}

proof fn lemma_find_dropped(
    members: Seq<(Seq<char>, JsonView)>,
    dropped: Seq<char>,
    key: Seq<char>,
)
    ensures
        find_member(drop_key(members, dropped), key) == (if key == dropped {
            None
        } else {
            find_member(members, key)
        }),
    decreases members.len(),
{
    if members.len() > 0 {
        let rest = members.drop_last();
        let last = members.last();
        lemma_find_dropped(rest, dropped, key);
        assert(rest.push(last) =~= members);
        lemma_find_push(rest, last, key);
        lemma_find_push(drop_key(rest, dropped), last, key);
    }
}

/// A member that is set is read back, and no other member is touched.
pub proof fn law_member_set(j: JsonView, key: Seq<char>, value: JsonView, other: Seq<char>)
    ensures
        member(with_member(j, key, value), other) == (if other == key {
            Some(value)
        } else {
            member(j, other)
        }),
{
    let (kept, before) = match j {
        JsonView::Object(members) => {
            lemma_find_dropped(members, key, other);
            (drop_key(members, key), find_member(members, other))
        },
        _ => (Seq::<(Seq<char>, JsonView)>::empty(), None),
    };
    lemma_find_push(kept, (key, value), other);
    if !(j is Object) {
        assert(kept.push((key, value)) =~= seq![(key, value)]);
    }
}

/// A copy of a document with a member of the given key set to a value.
pub fn json_with(j: &Json, key: &str, value: Json) -> (r: Json)
    ensures
        r@ == with_member(j@, key@, value@),
{
    let mut members: Vec<(String, Json)> = match json_without(j, key) {
        Json::Object(kept) => kept,
        _ => Vec::new(),
    };
    let ghost before = members@;
    members.push((key.to_owned(), value));
    let r = Json::Object(members);
    proof {
        match j@ {
            JsonView::Object(all) => {
                assert(r@->Object_0 =~= drop_key(all, key@).push((key@, value@)));
            },
            _ => {
                assert(before.len() == 0);
                assert(r@->Object_0 =~= seq![(key@, value@)]);
            },
        }
    }
    r
}

/// What the members of an object hold.
pub open spec fn member_views(members: Seq<(String, Json)>) -> Seq<(Seq<char>, JsonView)> {
    Seq::new(members.len(), |i: int| (members[i].0@, members[i].1@))
}

/// The document is an object, and all its members are strings.
pub open spec fn only_texts(j: JsonView) -> bool {
    j matches JsonView::Object(members) && forall|i: int|
        0 <= i < members.len() ==> (#[trigger] members[i]).1 is Text
}

/// An object of texts.
pub fn json_of_texts(texts: &TextMap<String>) -> (r: Json)
    ensures
        only_texts(r@),
        texts_of(Some(r@)) == texts.texts(),
{
    let ghost all = texts.entry_seq();
    let n: usize = texts.len();
    let mut members: Vec<(String, Json)> = Vec::new();
    let mut i: usize = 0;
    while i < n
        invariant
            i <= n,
            n == all.len(),
            all == texts.entry_seq(),
            forall|j: int|
                0 <= j < members@.len() ==> (#[trigger] member_views(members@)[j]).1 is Text,
            forall|k: Seq<char>| #[trigger]
                text_members(member_views(members@)).contains_key(k) ==> texts.texts().contains_key(k)
                    && text_members(member_views(members@))[k] == texts.texts()[k],
            forall|j: int|
                0 <= j < i ==> text_members(member_views(members@)).contains_key(
                    (#[trigger] all[j]).0@,
                ),
        decreases n - i,
    {
        let (key, _) = texts.entry(i);
        proof {
            texts.lemma_entries();
        }
        if let Some(value) = texts.get(key) {
            let ghost before = member_views(members@);
            members.push((key.to_owned(), Json::Text(value.clone())));
            proof {
                let now = member_views(members@);
                assert(now.drop_last() =~= before);
                assert(now.last() == (key@, JsonView::Text(value@)));
                assert forall|j: int| 0 <= j < members@.len() implies (#[trigger] now[j]).1 is Text by {
                    if j < before.len() {
                        assert(now[j] == before[j]);
                    }
                }
                assert(text_members(now) == text_members(before).insert(key@, value@));
            }
        }
        i = i + 1;
    }
    let r = Json::Object(members);
    proof {
        texts.lemma_entries();
        assert(r@->Object_0 =~= member_views(members@));
        assert(texts_of(Some(r@)) =~= texts.texts());
    }
    r
}

// ---------------------------------------------------------------------------
// Outside documents
// ---------------------------------------------------------------------------

/// A parsed JSON document of the `serde_json` crate.
#[verifier::external_type_specification]
#[verifier::external_body]
pub struct ExValue(serde_json::Value);

/// What a `serde_json::Value` holds.
pub uninterp spec fn value_content(v: serde_json::Value) -> JsonView;

/// Takes a `serde_json::Value` apart, member by member and item by item.
#[verifier::external_body]
pub(crate) fn json_of(v: serde_json::Value) -> (r: Json)
    ensures
        r@ == value_content(v),
{
    match v {
        serde_json::Value::Null => Json::Null,
        serde_json::Value::Bool(b) => Json::Bool(b),
        serde_json::Value::Number(n) => Json::Number(n.to_string()),
        serde_json::Value::String(s) => Json::Text(s),
        serde_json::Value::Array(items) => Json::List(items.into_iter().map(json_of).collect()),
        serde_json::Value::Object(m) => Json::Object(m.into_iter().map(|(k, x)| (k, json_of(x))).collect()),
    }
}

/// The member of a YAML document with the given key, as a JSON document;
/// nothing where it has none. The text of the error where the text is no YAML
/// or JSON cannot say what the member says.
pub uninterp spec fn yaml_member_content(yaml: Seq<char>, key: Seq<char>) -> Result<
    Option<JsonView>,
    Seq<char>,
>;

/// What an optional document holds.
pub open spec fn value_view(v: Option<serde_json::Value>) -> Option<JsonView> {
    match v {
        Some(x) => Some(value_content(x)),
        None => None,
    }
}

/// `serde_yaml::from_str` into an untyped document, `serde_yaml::Value::get`
/// of the key, and `serde_json::to_value` of what was found.
#[verifier::external_body]
fn yaml_member_value(yaml: &str, key: &str) -> (r: Result<Option<serde_json::Value>, String>)
    ensures
        match r {
            Ok(v) => yaml_member_content(yaml@, key@) == Ok::<Option<JsonView>, Seq<char>>(value_view(v)),
            Err(e) => yaml_member_content(yaml@, key@) == Err::<Option<JsonView>, Seq<char>>(e@),
        },
{
    let document: serde_yaml::Value = serde_yaml::from_str(yaml).map_err(|e| e.to_string())?;
    document.get(key).map(serde_json::to_value).transpose().map_err(|e| e.to_string())
}

/// Reads the member of a YAML document with the given key.
pub fn yaml_member(yaml: &str, key: &str) -> (r: Result<Option<Json>, String>)
    ensures
        match yaml_member_content(yaml@, key@) {
            Ok(Some(j)) => r matches Ok(Some(m)) && m@ == j,
            Ok(None) => r matches Ok(None),
            Err(text) => r matches Err(e) && e@ == text,
        },
{
    match yaml_member_value(yaml, key) {
        Ok(Some(v)) => Ok(Some(json_of(v))),
        Ok(None) => Ok(None),
        Err(e) => Err(e),
    }
}

/// The member of an object is the first one with its key.
pub proof fn law_member_is_the_first(members: Seq<(Seq<char>, JsonView)>, i: int)
    requires
        0 <= i < members.len(),
        forall|j: int| 0 <= j < i ==> (#[trigger] members[j]).0 != members[i].0,
    ensures
        member(JsonView::Object(members), members[i].0) == Some(members[i].1),
    decreases members.len(),
{
    if i > 0 {
        let rest = members.drop_first();
        assert(members[0].0 != members[i].0);
        assert(rest[i - 1] == members[i]);
        assert forall|j: int| 0 <= j < i - 1 implies (#[trigger] rest[j]).0 != rest[i - 1].0 by {
            assert(rest[j] == members[j + 1]);
        }
        law_member_is_the_first(rest, i - 1);
    }
}

/// An object has no member with a key that none of its members has.
pub proof fn law_member_is_missing(members: Seq<(Seq<char>, JsonView)>, key: Seq<char>)
    requires
        forall|j: int| 0 <= j < members.len() ==> (#[trigger] members[j]).0 != key,
    ensures
        member(JsonView::Object(members), key) is None,
    decreases members.len(),
{
    if members.len() > 0 {
        let rest = members.drop_first();
        assert(members[0].0 != key);
        assert forall|j: int| 0 <= j < rest.len() implies (#[trigger] rest[j]).0 != key by {
            assert(rest[j] == members[j + 1]);
        }
        law_member_is_missing(rest, key);
    }
}

proof fn lemma_find_in_grown(
    members: Seq<(Seq<char>, JsonView)>,
    last: (Seq<char>, JsonView),
    key: Seq<char>,
)
    ensures
        find_member(members.push(last), key) == (match find_member(members, key) {
            Some(v) => Some(v),
            None => if last.0 == key {
                Some(last.1)
            } else {
                None
            },
        }),
    decreases members.len(),
{
    let grown = members.push(last);
    if members.len() == 0 {
        assert(grown.drop_first() =~= members);
        assert(grown[0] == last);
        assert(find_member(grown.drop_first(), key) is None);
    } else {
        assert(grown[0] == members[0]);
        assert(grown.drop_first() =~= members.drop_first().push(last));
        lemma_find_in_grown(members.drop_first(), last, key);
    }
}

proof fn lemma_drop_other_key(
    members: Seq<(Seq<char>, JsonView)>,
    dropped: Seq<char>,
    key: Seq<char>,
)
    requires
        key != dropped,
    ensures
        find_member(drop_key(members, dropped), key) == find_member(members, key),
    decreases members.len(),
{
    if members.len() > 0 {
        let shorter = members.drop_last();
        lemma_drop_other_key(shorter, dropped, key);
        assert(shorter.push(members.last()) =~= members);
        lemma_find_in_grown(shorter, members.last(), key);
        if members.last().0 != dropped {
            lemma_find_in_grown(drop_key(shorter, dropped), members.last(), key);
        }
    }
}

/// Leaving out one member of a document leaves all others as they are.
pub proof fn law_without_keeps_the_rest(j: JsonView, dropped: Seq<char>, key: Seq<char>)
    ensures
        key != dropped ==> member(without(j, dropped), key) == member(j, key),
{
    if key != dropped {
        if let JsonView::Object(members) = j {
            lemma_drop_other_key(members, dropped, key);
        }
    }
}

proof fn lemma_index_and_member(members: Seq<(Seq<char>, JsonView)>, key: Seq<char>)
    ensures
        has_key(members, key) == (find_member(members, key) is Some),
        has_key(members, key) ==> find_member(members, key) == Some(
            members[key_index(members, key) as int].1,
        ),
    decreases members.len(),
{
    if members.len() > 0 && members[0].0 != key {
        lemma_index_and_member(members.drop_first(), key);
    }
}

/// Objects that say the same have the same members, each saying the same in
/// both; and objects of which that holds say the same.
pub proof fn law_same_objects(x: Seq<(Seq<char>, JsonView)>, y: Seq<(Seq<char>, JsonView)>)
    ensures
        same_json(JsonView::Object(x), JsonView::Object(y)) <==> forall|key: Seq<char>|
            #![trigger member(JsonView::Object(x), key)]
            match (member(JsonView::Object(x), key), member(JsonView::Object(y), key)) {
                (Some(a), Some(b)) => same_json(a, b),
                (None, None) => true,
                _ => false,
            },
{
    let a = JsonView::Object(x);
    let b = JsonView::Object(y);
    if same_json(a, b) {
        assert forall|key: Seq<char>|
            #![trigger member(a, key)]
            match (member(a, key), member(b, key)) {
                (Some(v), Some(w)) => same_json(v, w),
                (None, None) => true,
                _ => false,
            } by {
            lemma_index_and_member(x, key);
            lemma_index_and_member(y, key);
            lemma_key_index(x, key);
            lemma_key_index(y, key);
            if has_key(x, key) {
                let i = key_index(x, key) as int;
                assert(x[i].0 == key);
                assert(has_key(y, x[i].0));
            }
            if has_key(y, key) {
                let i = key_index(y, key) as int;
                assert(y[i].0 == key);
                assert(has_key(x, y[i].0));
            }
        }
    }
    if forall|key: Seq<char>|
        #![trigger member(a, key)]
        match (member(a, key), member(b, key)) {
            (Some(v), Some(w)) => same_json(v, w),
            (None, None) => true,
            _ => false,
        } {
        assert forall|i: int| 0 <= i < x.len() implies has_key(y, (#[trigger] x[i]).0) by {
            lemma_index_and_member(x, x[i].0);
            lemma_index_and_member(y, x[i].0);
            lemma_key_index(x, x[i].0);
            assert(member(a, x[i].0) is Some);
        }
        assert forall|i: int| 0 <= i < y.len() implies has_key(x, (#[trigger] y[i]).0) by {
            lemma_index_and_member(x, y[i].0);
            lemma_index_and_member(y, y[i].0);
            lemma_key_index(y, y[i].0);
            assert(member(b, y[i].0) is Some);
            assert(member(a, y[i].0) is Some);
        }
        assert forall|i: int|
            0 <= i < x.len() && key_index(x, (#[trigger] x[i]).0) == i implies same_json(
            x[i].1,
            y[key_index(y, x[i].0) as int].1,
        ) by {
            lemma_index_and_member(x, x[i].0);
            lemma_index_and_member(y, x[i].0);
            assert(member(a, x[i].0) == Some(x[i].1));
        }
    }
}

/// Documents that say the same are of one sort. Texts and truth values are
/// then equal, numbers are equal or both a zero with a fraction, and lists
/// have as many items, each saying the same in both.
pub proof fn law_same_documents(a: JsonView, b: JsonView)
    requires
        same_json(a, b),
    ensures
        match a {
            JsonView::Null => b is Null,
            JsonView::Bool(x) => b == JsonView::Bool(x),
            JsonView::Text(x) => b == JsonView::Text(x),
            JsonView::Number(x) => b matches JsonView::Number(y) && (x == y || ((x == "0.0"@ || x
                == "-0.0"@) && (y == "0.0"@ || y == "-0.0"@))),
            JsonView::List(x) => b matches JsonView::List(y) && x.len() == y.len() && forall|i: int|
                0 <= i < x.len() ==> same_json(#[trigger] x[i], y[i]),
            JsonView::Object(_) => b is Object,
        },
{
}

proof fn lemma_text_members(members: Seq<(Seq<char>, JsonView)>, key: Seq<char>)
    ensures
        text_members(members).contains_key(key) <==> exists|i: int|
            0 <= i < members.len() && (#[trigger] members[i]).0 == key && members[i].1 is Text,
        text_members(members).contains_key(key) ==> exists|i: int|
            0 <= i < members.len() && (#[trigger] members[i]).0 == key && members[i].1
                == JsonView::Text(text_members(members)[key]),
    decreases members.len(),
{
    if members.len() > 0 {
        let shorter = members.drop_last();
        lemma_text_members(shorter, key);
        let n = members.len() - 1;
        assert(members[n] == members.last());
        if text_members(members).contains_key(key) {
            if !(members[n].0 == key && members[n].1 is Text) {
                let i = choose|i: int|
                    0 <= i < shorter.len() && (#[trigger] shorter[i]).0 == key && shorter[i].1
                        == JsonView::Text(text_members(shorter)[key]);
                assert(members[i] == shorter[i]);
            }
        }
        if exists|i: int|
            0 <= i < members.len() && (#[trigger] members[i]).0 == key && members[i].1 is Text {
            let i = choose|i: int|
                0 <= i < members.len() && (#[trigger] members[i]).0 == key && members[i].1 is Text;
            if i < shorter.len() {
                assert(shorter[i] == members[i]);
                assert(text_members(shorter).contains_key(key));
            }
        }
    }
}

/// The texts of an object are just its members that are strings, each under
/// its key and with its text.
pub proof fn law_texts_are_the_string_members(
    members: Seq<(Seq<char>, JsonView)>,
    key: Seq<char>,
)
    ensures
        ({
            let texts = texts_of(Some(JsonView::Object(members)));
            &&& texts.contains_key(key) <==> exists|i: int|
                0 <= i < members.len() && (#[trigger] members[i]).0 == key && members[i].1 is Text
            &&& texts.contains_key(key) ==> exists|i: int|
                0 <= i < members.len() && (#[trigger] members[i]).0 == key && members[i].1
                    == JsonView::Text(texts[key])
        }),
{
    lemma_text_members(members, key);
}

/// The member of an object is the first with its key; a document that is no
/// object, and one without the key, have none.
pub proof fn law_first_member_is_got(j: Json, key: &str, r: Option<&Json>)
    requires
        call_ensures(Json::get, (&j, key), r),
    ensures
        !(j is Object) ==> r is None,
        j matches Json::Object(members) ==> {
            &&& r is None <==> forall|i: int|
                0 <= i < members@.len() ==> (#[trigger] members@[i]).0@ != key@
            &&& forall|i: int|
                0 <= i < members@.len() && (#[trigger] members@[i]).0@ == key@ && (forall|k: int|
                    0 <= k < i ==> (#[trigger] members@[k]).0@ != key@) ==> (r matches Some(d) && d@
                    == members@[i].1@)
        },
{
    if let Json::Object(members) = j {
        let all = j@->Object_0;
        assert forall|i: int| 0 <= i < members@.len() implies #[trigger] all[i] == (
            members@[i].0@,
            members@[i].1@,
        ) by {}
        if forall|i: int| 0 <= i < members@.len() ==> (#[trigger] members@[i]).0@ != key@ {
            assert forall|i: int| 0 <= i < all.len() implies (#[trigger] all[i]).0 != key@ by {
                assert(members@[i].0@ != key@);
            }
            law_member_is_missing(all, key@);
        } else {
            let i = choose|i: int|
                0 <= i < members@.len() && (#[trigger] members@[i]).0@ == key@;
            lemma_member_is_there(all, key@, i);
        }
        assert forall|i: int|
            0 <= i < members@.len() && (#[trigger] members@[i]).0@ == key@ && (forall|k: int|
                0 <= k < i ==> (#[trigger] members@[k]).0@ != key@) implies (r matches Some(d) && d@
            == members@[i].1@) by {
            assert forall|k: int| 0 <= k < i implies (#[trigger] all[k]).0 != all[i].0 by {
                assert(members@[k].0@ != key@);
            }
            law_member_is_the_first(all, i);
        }
    }
}

proof fn lemma_member_is_there(members: Seq<(Seq<char>, JsonView)>, key: Seq<char>, i: int)
    requires
        0 <= i < members.len(),
        members[i].0 == key,
    ensures
        find_member(members, key) is Some,
    decreases members.len(),
{
    if members[0].0 != key {
        assert(members.drop_first()[i - 1] == members[i]);
        lemma_member_is_there(members.drop_first(), key, i - 1);
    }
}

/// A text is read of a string alone, items of a list alone, and a number of a
/// number alone, and they are what the document holds.
pub proof fn law_documents_are_read_by_type(
    j: Option<&Json>,
    text: Option<String>,
    items: Option<&Vec<Json>>,
    number: Option<i32>,
    s: &str,
    parsed: Option<i32>,
)
    requires
        call_ensures(text_in, (j,), text),
        call_ensures(list_in, (j,), items),
        call_ensures(i32_in, (j,), number),
        call_ensures(parse_i32, (s,), parsed),
    ensures
        text is Some <==> (j matches Some(Json::Text(_))),
        j matches Some(Json::Text(t)) ==> (text matches Some(r) && r@ == t@),
        j matches Some(Json::List(l)) ==> (l@.len() > 0 ==> items is Some),
        items matches Some(v) ==> (v@.len() > 0 ==> (j matches Some(Json::List(l)) && v@.len()
            == l@.len() && forall|i: int|
            0 <= i < l@.len() ==> (#[trigger] v@[i])@ == l@[i]@)),
        number is Some ==> (j matches Some(Json::Number(_))),
        j matches Some(Json::Number(t)) ==> (t@ == s@ ==> number == parsed),
{
    if let Some(Json::List(l)) = j {
        let view = items_of(opt_view(j));
        assert(view.len() == l@.len());
        if let Some(v) = items {
            assert(view == json_views(v@));
            assert forall|i: int| 0 <= i < l@.len() implies (#[trigger] v@[i])@ == l@[i]@ by {
                assert(view[i] == json_views(v@)[i]);
            }
        }
    } else {
        if let Some(v) = items {
            assert(json_views(v@).len() == v@.len());
        }
    }
}

} // verus!
