//! JSON texts, as far as the library reads them.

use crate::text;
use vstd::prelude::*;

verus! {

/// `serde_json::Value`, a JSON value.
#[verifier::external_type_specification]
#[verifier::external_body]
pub struct ExValue(serde_json::Value);

/// A JSON value. Of a number only whether it is a `u64`, and which, is kept.
#[derive(Debug)]
pub enum Json {
    Null,
    Bool(bool),
    Number(Option<u64>),
    Text(String),
    List(Vec<Json>),
    /// Each key once.
    Object(Vec<(String, Json)>),
}

/// A JSON value.
pub enum JsonView {
    Null,
    Bool(bool),
    Number(Option<u64>),
    Text(Seq<char>),
    List(Seq<JsonView>),
    Object(Seq<(Seq<char>, JsonView)>),
}

/// A JSON value.
pub open spec fn json_view(j: Json) -> JsonView
    decreases j, 0nat,
{
    match j {
        Json::Null => JsonView::Null,
        Json::Bool(b) => JsonView::Bool(b),
        Json::Number(n) => JsonView::Number(n),
        Json::Text(s) => JsonView::Text(s@),
        Json::List(v) => JsonView::List(list_view(v@, v@.len())),
        Json::Object(v) => JsonView::Object(member_views(v@, v@.len())),
    }
}

/// The first `n` values.
pub open spec fn list_view(v: Seq<Json>, n: nat) -> Seq<JsonView>
    decreases v, n,
{
    if n == 0 || n > v.len() {
        Seq::empty()
    } else {
        list_view(v, (n - 1) as nat).push(json_view(v[n - 1]))
    }
}

/// The first `n` members.
pub open spec fn member_views(v: Seq<(String, Json)>, n: nat) -> Seq<(Seq<char>, JsonView)>
    decreases v, n,
{
    if n == 0 || n > v.len() {
        Seq::empty()
    } else {
        member_views(v, (n - 1) as nat).push((v[n - 1].0@, json_view(v[n - 1].1)))
    }
}

/// What a `serde_json::Value` holds; a number as `serde_json::Number::as_u64` gives it.
pub uninterp spec fn value_json(value: serde_json::Value) -> JsonView;

/// What `serde_json::from_str` makes of a text; nothing where it is no JSON.
pub uninterp spec fn parsed_json(s: Seq<char>) -> Option<JsonView>;

/// Calls `serde_json::from_str`: the value of the text, which depends on the text alone;
/// nothing where it is no JSON.
#[verifier::external_body]
fn parse_value(s: &str) -> (r: Option<serde_json::Value>)
    ensures
        match r {
            Some(value) => parsed_json(s@) == Some(value_json(value)),
            None => parsed_json(s@) is None,
        },
{
    serde_json::from_str(s).ok()
}

/// A value with what it directly holds.
enum Layer<'a> {
    Null,
    Bool(bool),
    Number(Option<u64>),
    Text(&'a String),
    List(&'a Vec<serde_json::Value>),
    Object(Vec<(&'a String, &'a serde_json::Value)>),
}

/// What a value with some parts holds.
spec fn layer_json(layer: Layer) -> JsonView {
    match layer {
        Layer::Null => JsonView::Null,
        Layer::Bool(b) => JsonView::Bool(b),
        Layer::Number(n) => JsonView::Number(n),
        Layer::Text(s) => JsonView::Text(s@),
        Layer::List(v) => JsonView::List(Seq::new(v@.len(), |i: int| value_json(v@[i]))),
        Layer::Object(m) => JsonView::Object(
            Seq::new(m@.len(), |i: int| (m@[i].0@, value_json(*m@[i].1))),
        ),
    }
}

/// Tells the variants of `serde_json::Value` apart and gives what each holds: a number by
/// `serde_json::Number::as_u64`, the members of an object in the order of its map.
#[verifier::external_body]
fn open_value<'a>(value: &'a serde_json::Value) -> (r: Layer<'a>)
    ensures
        value_json(*value) == layer_json(r),
{
    match value {
        serde_json::Value::Null => Layer::Null,
        serde_json::Value::Bool(b) => Layer::Bool(*b),
        serde_json::Value::Number(n) => Layer::Number(n.as_u64()),
        serde_json::Value::String(s) => Layer::Text(s),
        serde_json::Value::Array(v) => Layer::List(v),
        serde_json::Value::Object(m) => Layer::Object(m.iter().collect()),
    }
}

/// A value with everything that it holds.
fn json_of(value: &serde_json::Value) -> (r: Json)
    ensures
        json_view(r) == value_json(*value),
    decreases value_json(*value),
{
    match open_value(value) {
        Layer::Null => Json::Null,
        Layer::Bool(b) => Json::Bool(b),
        Layer::Number(n) => Json::Number(n),
        Layer::Text(s) => Json::Text(s.as_str().to_owned()),
        Layer::List(v) => {
            let ghost all = value_json(*value)->List_0;
            let mut r: Vec<Json> = Vec::new();
            let mut i: usize = 0;
            while i < v.len()
                invariant
                    i <= v@.len(),
                    r@.len() == i,
                    value_json(*value) == JsonView::List(all),
                    all == Seq::new(v@.len(), |k: int| value_json(v@[k])),
                    forall|k: int| 0 <= k < i ==> json_view(#[trigger] r@[k]) == all[k],
                decreases v.len() - i,
            {
                assert(decreases_to!(value_json(*value) => value_json(*value)->List_0));
                assert(decreases_to!(all => all[i as int]));
                let item = json_of(&v[i]);
                r.push(item);
                i = i + 1;
            }
            proof {
                list_view_at(r@, r@.len());
                assert(list_view(r@, r@.len()) =~= all);
            }
            Json::List(r)
        },
        Layer::Object(m) => {
            let ghost all = value_json(*value)->Object_0;
            let mut r: Vec<(String, Json)> = Vec::new();
            let mut i: usize = 0;
            while i < m.len()
                invariant
                    i <= m@.len(),
                    r@.len() == i,
                    value_json(*value) == JsonView::Object(all),
                    all == Seq::new(m@.len(), |k: int| (m@[k].0@, value_json(*m@[k].1))),
                    forall|k: int|
                        0 <= k < i ==> ((#[trigger] r@[k]).0@, json_view(r@[k].1)) == all[k],
                decreases m.len() - i,
            {
                assert(decreases_to!(value_json(*value) => value_json(*value)->Object_0));
                assert(decreases_to!(all => all[i as int]));
                assert(decreases_to!(all[i as int] => all[i as int].1));
                let item = json_of(m[i].1);
                r.push((m[i].0.as_str().to_owned(), item));
                i = i + 1;
            }
            proof {
                member_view_at(r@, r@.len());
                assert(member_views(r@, r@.len()) =~= all);
            }
            Json::Object(r)
        },
    }
}

/// Reads a JSON text.
pub fn parse(s: &str) -> (r: Option<Json>)
    ensures
        match r {
            Some(j) => parsed_json(s@) == Some(json_view(j)),
            None => parsed_json(s@) is None,
        },
{
    match parse_value(s) {
        Some(value) => Some(json_of(&value)),
        None => None,
    }
}

/// The value of the first of some members with this key.
pub open spec fn first_member(members: Seq<(Seq<char>, JsonView)>, key: Seq<char>) -> Option<
    JsonView,
>
    decreases members.len(),
{
    if members.len() == 0 {
        None
    } else if members[0].0 == key {
        Some(members[0].1)
    } else {
        first_member(members.drop_first(), key)
    }
}

/// The member of an object with this key; nothing for any other value.
pub open spec fn member(j: JsonView, key: Seq<char>) -> Option<JsonView> {
    match j {
        JsonView::Object(members) => first_member(members, key),
        _ => None,
    }
}

/// The text of a value that is one.
pub open spec fn as_text(j: Option<JsonView>) -> Option<Seq<char>> {
    match j {
        Some(JsonView::Text(s)) => Some(s),
        _ => None,
    }
}

/// The values of a value that is a list.
pub open spec fn as_list(j: Option<JsonView>) -> Option<Seq<JsonView>> {
    match j {
        Some(JsonView::List(v)) => Some(v),
        _ => None,
    }
}

/// The views of values stand in the same places.
pub proof fn list_view_at(v: Seq<Json>, n: nat)
    requires
        n <= v.len(),
    ensures
        list_view(v, n).len() == n,
        forall|i: int| 0 <= i < n ==> #[trigger] list_view(v, n)[i] == json_view(v[i]),
    decreases n,
{
    if n > 0 {
        list_view_at(v, (n - 1) as nat);
    }
}

/// The views of members stand in the same places.
pub proof fn member_view_at(v: Seq<(String, Json)>, n: nat)
    requires
        n <= v.len(),
    ensures
        member_views(v, n).len() == n,
        forall|i: int|
            0 <= i < n ==> #[trigger] member_views(v, n)[i] == (v[i].0@, json_view(v[i].1)),
    decreases n,
{
    if n > 0 {
        member_view_at(v, (n - 1) as nat);
    }
}

/// The member of an object with this key.
pub fn find<'a>(j: &'a Json, key: &str) -> (r: Option<&'a Json>)
    ensures
        match r {
            Some(found) => member(json_view(*j), key@) == Some(json_view(*found)),
            None => member(json_view(*j), key@) is None,
        },
{
    match j {
        Json::Object(v) => {
            let ghost all = member_views(v@, v@.len());
            proof {
                member_view_at(v@, v@.len());
            }
            let mut i: usize = 0;
            assert(all.skip(0) =~= all);
            while i < v.len()
                invariant
                    i <= v@.len(),
                    json_view(*j) == JsonView::Object(all),
                    all.len() == v@.len(),
                    forall|k: int|
                        0 <= k < v@.len() ==> #[trigger] all[k] == (v@[k].0@, json_view(v@[k].1)),
                    first_member(all, key@) == first_member(all.skip(i as int), key@),
                decreases v.len() - i,
            {
                assert(all.skip(i as int)[0] == all[i as int]);
                assert(all.skip(i as int).drop_first() =~= all.skip(i + 1));
                if text::same(v[i].0.as_str(), key) {
                    return Some(&v[i].1);
                }
                i = i + 1;
            }
            None
        },
        _ => None,
    }
}

/// The text of a member; nothing where it is missing or no text.
pub fn find_text(j: &Json, key: &str) -> (r: Option<String>)
    ensures
        text::text_option(r) == as_text(member(json_view(*j), key@)),
{
    match find(j, key) {
        Some(Json::Text(s)) => Some(s.as_str().to_owned()),
        _ => None,
    }
}

/// The member of an object with a key is the first one with it; a list, a text or a number
/// has none.
pub proof fn law_members_are_found(
    members: Seq<(Seq<char>, JsonView)>,
    key: Seq<char>,
    list: Seq<JsonView>,
    line: Seq<char>,
)
    ensures
        match member(JsonView::Object(members), key) {
            Some(j) => exists|i: int|
                0 <= i < members.len() && #[trigger] members[i] == (key, j) && forall|k: int|
                    0 <= k < i ==> (#[trigger] members[k]).0 != key,
            None => forall|i: int| 0 <= i < members.len() ==> (#[trigger] members[i]).0 != key,
        },
        member(JsonView::Null, key) is None,
        member(JsonView::List(list), key) is None,
        member(JsonView::Text(line), key) is None,
    decreases members.len(),
{
    if members.len() > 0 && members[0].0 != key {
        let rest = members.drop_first();
        law_members_are_found(rest, key, list, line);
        assert forall|k: int| 0 <= k < rest.len() implies #[trigger] rest[k] == members[k + 1] by {}
        assert forall|k: int| 1 <= k < members.len() implies #[trigger] members[k] == rest[k - 1] by {}
        if first_member(rest, key) is Some {
            let j = first_member(rest, key)->0;
            let i = choose|i: int|
                0 <= i < rest.len() && #[trigger] rest[i] == (key, j) && forall|k: int|
                    0 <= k < i ==> (#[trigger] rest[k]).0 != key;
            assert(members[i + 1] == (key, j));
        }
    } else if members.len() > 0 {
        assert(members[0] == (key, members[0].1));
    }
}

} // verus!
