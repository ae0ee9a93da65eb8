//! A plain model of a parsed JSON value: what the entries of a summary
//! record's `topics` and `action_items` arrays are read from.
use vstd::prelude::*;

verus! {

/// A JSON value. Numbers carry no payload: nothing here ever reads one,
/// only notices that one stands where a string or array was expected.
#[derive(Debug)]
pub enum Json {
    Null,
    Bool(bool),
    Number,
    Str(String),
    Array(Vec<Json>),
    Object(Vec<JsonMember>),
}

/// One `"key": value` pair of a JSON object.
#[derive(Debug)]
pub struct JsonMember {
    pub key: String,
    pub value: Json,
}

/// What a [`Json`] value holds, as mathematical values.
pub enum JsonView {
    Null,
    Bool(bool),
    Number,
    Str(Seq<char>),
    Array(Seq<JsonView>),
    Object(Seq<(Seq<char>, JsonView)>),
}

/// The content of one JSON value.
pub open spec fn json_view(j: Json) -> JsonView
    decreases j,
{
    match j {
        Json::Null => JsonView::Null,
        Json::Bool(b) => JsonView::Bool(b),
        Json::Number => JsonView::Number,
        Json::Str(s) => JsonView::Str(s@),
        Json::Array(items) => JsonView::Array(json_seq_view(items@)),
        Json::Object(members) => JsonView::Object(members_view(members@)),
    }
}

/// The contents of a sequence of JSON values, element by element.
pub open spec fn json_seq_view(items: Seq<Json>) -> Seq<JsonView>
    decreases items,
{
    if items.len() == 0 {
        Seq::empty()
    } else {
        seq![json_view(items[0])] + json_seq_view(items.drop_first())
    }
}

/// The contents of an object's members, as `(key, value)` pairs in order.
pub open spec fn members_view(members: Seq<JsonMember>) -> Seq<(Seq<char>, JsonView)>
    decreases members,
{
    if members.len() == 0 {
        Seq::empty()
    } else {
        seq![(members[0].key@, json_view(members[0].value))] + members_view(members.drop_first())
    }
}

impl View for Json {
    type V = JsonView;

    open spec fn view(&self) -> JsonView {
        json_view(*self)
    }
}

} // verus!
