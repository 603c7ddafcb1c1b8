//! Members of JSON texts.

use vstd::prelude::*;

verus! {

/// How many elements the JSON array has that a text denotes, if it denotes one.
pub uninterp spec fn json_array_len(text: Seq<char>) -> Option<usize>;

/// The member of this name in the JSON value that a text denotes, if it denotes one.
pub uninterp spec fn json_member_of(text: Seq<char>, name: Seq<char>) -> Option<JsonMemberView>;

/// The JSON text of the member of this name, where there is one.
pub uninterp spec fn json_member_text(text: Seq<char>, name: Seq<char>) -> Option<Seq<char>>;

/// One member of a JSON object.
#[derive(Debug)]
pub enum JsonMember {
    Absent,
    Null,
    Bool(bool),
    /// A number, as an unsigned and as a signed integer where it is one, and in its own text.
    Number(Option<u64>, Option<i64>, String),
    Text(String),
    /// An array or an object.
    Nested,
}

pub enum JsonMemberView {
    Absent,
    Null,
    Bool(bool),
    Number(Option<u64>, Option<i64>, Seq<char>),
    Text(Seq<char>),
    Nested,
}

impl View for JsonMember {
    type V = JsonMemberView;

    open spec fn view(&self) -> JsonMemberView {
        match *self {
            JsonMember::Absent => JsonMemberView::Absent,
            JsonMember::Null => JsonMemberView::Null,
            JsonMember::Bool(value) => JsonMemberView::Bool(value),
            JsonMember::Number(unsigned, signed, text) => JsonMemberView::Number(
                unsigned,
                signed,
                text@,
            ),
            JsonMember::Text(text) => JsonMemberView::Text(text@),
            JsonMember::Nested => JsonMemberView::Nested,
        }
    }
}

pub open spec fn member_view(member: Option<JsonMember>) -> Option<JsonMemberView> {
    match member {
        Some(member) => Some(member@),
        None => None,
    }
}

pub open spec fn text_view(text: Option<String>) -> Option<Seq<char>> {
    match text {
        Some(text) => Some(text@),
        None => None,
    }
}

/// Counts the elements of an array that `serde_json::from_str` reads. The contract only says that
/// the count is a function of the text.
#[verifier::external_body]
pub(crate) fn count_json_array(text: &str) -> (count: Option<usize>)
    ensures
        count == json_array_len(text@),
{
    Some(serde_json::from_str::<Vec<serde_json::Value>>(text).ok()?.len())
}

/// Reads a text with `serde_json::from_str` and looks a member up with `serde_json::Value::get`.
/// The contract only says that the member is a function of the text and the name.
#[verifier::external_body]
pub(crate) fn json_member(text: &str, name: &str) -> (member: Option<JsonMember>)
    ensures
        member_view(member) == json_member_of(text@, name@),
{
    Some(match serde_json::from_str::<serde_json::Value>(text).ok()?.get(name) {
        None => JsonMember::Absent,
        Some(serde_json::Value::Null) => JsonMember::Null,
        Some(serde_json::Value::Bool(value)) => JsonMember::Bool(*value),
        Some(serde_json::Value::Number(value)) => {
            JsonMember::Number(value.as_u64(), value.as_i64(), value.to_string())
        },
        Some(serde_json::Value::String(value)) => JsonMember::Text(value.clone()),
        Some(_) => JsonMember::Nested,
    })
}

/// Writes a member that `serde_json::Value::get` finds with `to_string`. The contract only says
/// that the text is a function of the text and the name.
#[verifier::external_body]
pub(crate) fn render_json_member(text: &str, name: &str) -> (member: Option<String>)
    ensures
        text_view(member) == json_member_text(text@, name@),
{
    Some(serde_json::from_str::<serde_json::Value>(text).ok()?.get(name)?.to_string())
}

} // verus!
