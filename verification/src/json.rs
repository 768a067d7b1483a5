//! JSON documents as plain values.

use vstd::prelude::*;

verus! {

/// A JSON value. A number is told by the integers that it is, where it is one: a signed and an
/// unsigned one of 64 bits. An object is the list of its entries, with each key once.
#[derive(Debug)]
pub enum Json {
    Null,
    Bool(bool),
    Number(Option<i64>, Option<u64>),
    Text(String),
    List(Vec<Json>),
    Object(Vec<(String, Json)>),
}

/// A [`Json`] value with its texts and lists as sequences.
pub enum JsonView {
    Null,
    Bool(bool),
    Number(Option<i64>, Option<u64>),
    Text(Seq<char>),
    List(Seq<JsonView>),
    Object(Seq<(Seq<char>, JsonView)>),
}

/// `value` with its texts and lists as sequences.
pub open spec fn json_view(value: Json) -> JsonView
    decreases value,
{
    match value {
        Json::Null => JsonView::Null,
        Json::Bool(flag) => JsonView::Bool(flag),
        Json::Number(signed, unsigned) => JsonView::Number(signed, unsigned),
        Json::Text(text) => JsonView::Text(text@),
        Json::List(items) => JsonView::List(
            Seq::new(
                items@.len(),
                |at: int|
                    if 0 <= at < items@.len() {
                        json_view(items@[at])
                    } else {
                        JsonView::Null
                    },
            ),
        ),
        Json::Object(entries) => JsonView::Object(
            Seq::new(
                entries@.len(),
                |at: int|
                    if 0 <= at < entries@.len() {
                        (entries@[at].0@, json_view(entries@[at].1))
                    } else {
                        (Seq::empty(), JsonView::Null)
                    },
            ),
        ),
    }
}

impl View for Json {
    type V = JsonView;

    open spec fn view(&self) -> JsonView {
        json_view(*self)
    }
}

/// The value under `key` in the first of `entries` that has it.
pub open spec fn entry_of(entries: Seq<(Seq<char>, JsonView)>, key: Seq<char>) -> Option<JsonView>
    decreases entries.len(),
{
    if entries.len() == 0 {
        None
    } else {
        match entry_of(entries.drop_last(), key) {
            Some(value) => Some(value),
            None => if entries.last().0 == key {
                Some(entries.last().1)
            } else {
                None
            },
        }
    }
}

/// The value under `key`, where `value` is an object that has it.
pub open spec fn member(value: JsonView, key: Seq<char>) -> Option<JsonView> {
    match value {
        JsonView::Object(entries) => entry_of(entries, key),
        _ => None,
    }
}

/// The text under `key`, where there is one.
pub open spec fn text_member(value: JsonView, key: Seq<char>) -> Option<Seq<char>> {
    match member(value, key) {
        Some(JsonView::Text(text)) => Some(text),
        _ => None,
    }
}

/// The truth value under `key`, where there is one.
pub open spec fn bool_member(value: JsonView, key: Seq<char>) -> Option<bool> {
    match member(value, key) {
        Some(JsonView::Bool(flag)) => Some(flag),
        _ => None,
    }
}

/// The signed integer under `key`, where there is one.
pub open spec fn signed_member(value: JsonView, key: Seq<char>) -> Option<i64> {
    match member(value, key) {
        Some(JsonView::Number(signed, _)) => signed,
        _ => None,
    }
}

/// The unsigned integer under `key`, where there is one.
pub open spec fn unsigned_member(value: JsonView, key: Seq<char>) -> Option<u64> {
    match member(value, key) {
        Some(JsonView::Number(_, unsigned)) => unsigned,
        _ => None,
    }
}

/// The list under `key`, where there is one; otherwise an empty one.
pub open spec fn list_member(value: JsonView, key: Seq<char>) -> Seq<JsonView> {
    match member(value, key) {
        Some(JsonView::List(items)) => items,
        _ => seq![],
    }
}

/// The entry found among the first ones is the one found among all of them.
proof fn entry_of_first(entries: Seq<(Seq<char>, JsonView)>, key: Seq<char>, length: int)
    requires
        0 <= length <= entries.len(),
        entry_of(entries.take(length), key) is Some,
    ensures
        entry_of(entries, key) == entry_of(entries.take(length), key),
    decreases entries.len() - length,
{
    if length < entries.len() {
        assert(entries.take(length + 1).drop_last() =~= entries.take(length));
        entry_of_first(entries, key, length + 1);
    } else {
        assert(entries.take(length) =~= entries);
    }
}

/// What a value that may be absent is.
pub open spec fn optional_json(value: Option<&Json>) -> Option<JsonView> {
    match value {
        Some(value) => Some(json_view(*value)),
        None => None,
    }
}

impl Json {
    /// The value under `key`, where this is an object that has it.
    pub fn get(&self, key: &str) -> (value: Option<&Json>)
        ensures
            optional_json(value) == member(self@, key@),
            value is Some ==> decreases_to!(*self => *value->0),
    {
        match self {
            Json::Object(entries) => {
                let ghost views = self@->Object_0;
                let owned = key.to_owned();
                let mut at: usize = 0;
                while at < entries.len()
                    invariant
                        at <= entries.len(),
                        *self == Json::Object(*entries),
                        views == json_view(*self)->Object_0,
                        owned@ == key@,
                        entry_of(views.take(at as int), key@) is None,
                    decreases entries.len() - at,
                {
                    assert(views.take(at + 1).drop_last() =~= views.take(at as int));
                    assert(views[at as int] == (
                        entries@[at as int].0@,
                        json_view(entries@[at as int].1),
                    ));
                    if entries[at].0 == owned {
                        proof {
                            entry_of_first(views, key@, at + 1);
                            assert(decreases_to!(*self => *entries));
                            assert(decreases_to!(*entries => entries@));
                            assert(decreases_to!(entries@ => entries@[at as int]));
                            assert(decreases_to!(entries@[at as int] => entries@[at as int].1));
                        }
                        return Some(&entries[at].1);
                    }
                    at = at + 1;
                }
                assert(views.take(views.len() as int) =~= views);
                None
            },
            _ => None,
        }
    }

    /// The text under `key`, where there is one.
    pub fn text(&self, key: &str) -> (text: Option<&String>)
        ensures
            match text {
                Some(text) => text_member(self@, key@) == Some(text@),
                None => text_member(self@, key@) is None,
            },
    {
        match self.get(key) {
            Some(Json::Text(text)) => Some(text),
            _ => None,
        }
    }

    /// The truth value under `key`, where there is one.
    pub fn flag(&self, key: &str) -> (flag: Option<bool>)
        ensures
            flag == bool_member(self@, key@),
    {
        match self.get(key) {
            Some(Json::Bool(flag)) => Some(*flag),
            _ => None,
        }
    }

    /// The signed integer under `key`, where there is one.
    pub fn signed(&self, key: &str) -> (number: Option<i64>)
        ensures
            number == signed_member(self@, key@),
    {
        match self.get(key) {
            Some(Json::Number(signed, _)) => *signed,
            _ => None,
        }
    }

    /// The unsigned integer under `key`, where there is one.
    pub fn unsigned(&self, key: &str) -> (number: Option<u64>)
        ensures
            number == unsigned_member(self@, key@),
    {
        match self.get(key) {
            Some(Json::Number(_, unsigned)) => *unsigned,
            _ => None,
        }
    }

    /// The values of this list, where it is one.
    pub fn as_list(&self) -> (items: Option<&Vec<Json>>)
        ensures
            match items {
                Some(items) => self@ == JsonView::List(json_views(items@)),
                None => !(self@ is List),
            },
    {
        match self {
            Json::List(items) => {
                assert(json_view(*self)->List_0 =~= json_views(items@));
                Some(items)
            },
            _ => None,
        }
    }

    /// The list under `key`, where there is one.
    pub fn list(&self, key: &str) -> (items: Option<&Vec<Json>>)
        ensures
            match items {
                Some(items) => list_member(self@, key@) == json_views(items@) && decreases_to!(
                    *self => items@),
                None => list_member(self@, key@) == Seq::<JsonView>::empty(),
            },
    {
        match self.get(key) {
            Some(value) => match value {
                Json::List(items) => {
                    proof {
                        assert(decreases_to!(*value => *items));
                        assert(decreases_to!(*items => items@));
                        assert(json_view(*value)->List_0 =~= json_views(items@));
                    }
                    Some(items)
                },
                _ => None,
            },
            None => None,
        }
    }
}

/// The values of a list, each by its view.
pub open spec fn json_views(items: Seq<Json>) -> Seq<JsonView> {
    items.map_values(|item: Json| json_view(item))
}

/// [`serde_json::Value`]: a JSON document as that crate holds it.
#[verifier::external_type_specification]
#[verifier::external_body]
pub struct ExValue(serde_json::Value);

/// What a [`serde_json::Value`] holds.
pub uninterp spec fn document(value: serde_json::Value) -> JsonView;

/// What `serde_json::from_slice` reads from `bytes`, where that is a JSON document.
pub uninterp spec fn parsed_json(bytes: Seq<u8>) -> Option<JsonView>;

/// [`serde_json::from_slice`]: the JSON document that `bytes` hold, or nothing where they hold none.
/// What is read depends on the bytes alone.
#[verifier::external_body]
fn from_slice(bytes: &[u8]) -> (value: Option<serde_json::Value>)
    ensures
        match value {
            Some(read) => parsed_json(bytes@) == Some(document(read)),
            None => parsed_json(bytes@) is None,
        },
{
    serde_json::from_slice(bytes).ok()
}

/// A [`serde_json::Value`] as a [`Json`] value, one variant for one. A number is converted by
/// `as_i64` and `as_u64` of [`serde_json::Number`].
#[verifier::external_body]
fn json_of(value: serde_json::Value) -> (json: Json)
    ensures
        json@ == document(value),
{
    match value {
        serde_json::Value::Null => Json::Null,
        serde_json::Value::Bool(flag) => Json::Bool(flag),
        serde_json::Value::Number(number) => Json::Number(number.as_i64(), number.as_u64()),
        serde_json::Value::String(text) => Json::Text(text),
        serde_json::Value::Array(items) => Json::List(items.into_iter().map(json_of).collect()),
        serde_json::Value::Object(entries) => Json::Object(
            entries.into_iter().map(|(key, value)| (key, json_of(value))).collect(),
        ),
    }
}

/// The JSON document that `bytes` hold, where they hold one.
pub fn parse_json(bytes: &[u8]) -> (value: Option<Json>)
    ensures
        match value {
            Some(json) => parsed_json(bytes@) == Some(json@),
            None => parsed_json(bytes@) is None,
        },
{
    match from_slice(bytes) {
        Some(value) => Some(json_of(value)),
        None => None,
    }
}

/// A member is the first entry with its key, and is taken only as what it is: a text as a text, a
/// number as a number. Where there is none, or it is something else, there is nothing.
pub proof fn members_are_found_by_key(
    before: Seq<(Seq<char>, JsonView)>,
    key: Seq<char>,
    value: JsonView,
    rest: Seq<(Seq<char>, JsonView)>,
)
    requires
        forall|at: int| 0 <= at < before.len() ==> (#[trigger] before[at]).0 != key,
    ensures
        member(JsonView::Object(before), key) is None,
        ({
            let object = JsonView::Object(before.push((key, value)) + rest);
            &&& member(object, key) == Some(value)
            &&& text_member(object, key) == (if value is Text {
                Some(value->Text_0)
            } else {
                None
            })
            &&& bool_member(object, key) == (if value is Bool {
                Some(value->Bool_0)
            } else {
                None
            })
            &&& signed_member(object, key) == (if value is Number {
                value->Number_0
            } else {
                None
            })
            &&& unsigned_member(object, key) == (if value is Number {
                value->Number_1
            } else {
                None
            })
            &&& value is List ==> list_member(object, key) == value->List_0
            &&& !(value is List) ==> list_member(object, key).len() == 0
        }),
        !(value is Object) ==> member(value, key) is None,
    decreases before.len() + rest.len(),
{
    let whole = before.push((key, value)) + rest;
    if rest.len() > 0 {
        members_are_found_by_key(before, key, value, rest.drop_last());
        assert(whole.drop_last() =~= before.push((key, value)) + rest.drop_last());
    } else {
        if before.len() > 0 {
            let front = before.drop_last();
            assert forall|at: int| 0 <= at < front.len() implies (#[trigger] front[at]).0 != key by {
                assert(before[at].0 != key);
            }
            members_are_found_by_key(front, key, value, rest);
            assert(before[before.len() - 1].0 != key);
        }
        assert(whole.drop_last() =~= before);
        assert(whole.last() == (key, value));
    }
}

} // verus!
