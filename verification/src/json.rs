//! Reading JSON values.

use vstd::prelude::*;
use vstd::string::*;

verus! {

/// A JSON value.
#[verifier::external_type_specification]
#[verifier::external_body]
pub struct ExValue(serde_json::Value);

/// The JSON value that bytes stand for, or the text that says why they stand for none.
pub uninterp spec fn json_value(bytes: Seq<u8>) -> Result<serde_json::Value, Seq<char>>;

/// Calls `serde_json::from_slice` for a value of any shape. The value, or the text of the
/// error, is a function of the bytes.
#[verifier::external_body]
pub(crate) fn parse_json(bytes: &[u8]) -> (r: Result<serde_json::Value, String>)
    ensures
        match r {
            Ok(value) => json_value(bytes@) == Ok::<_, Seq<char>>(value),
            Err(text) => json_value(bytes@) == Err::<serde_json::Value, _>(text@),
        },
{
    serde_json::from_slice(bytes).map_err(|error| error.to_string())
}

/// What a member of a JSON object holds, as far as it is read here.
pub enum Member {
    Null,
    Truth(bool),
    Text(String),
    Unsigned(u64),
    Other,
}

/// What a member of a JSON object holds, on the level of specifications.
pub enum MemberView {
    Null,
    Truth(bool),
    Text(Seq<char>),
    Unsigned(u64),
    Other,
}

impl Member {
    pub open spec fn view(self) -> MemberView {
        match self {
            Member::Null => MemberView::Null,
            Member::Truth(b) => MemberView::Truth(b),
            Member::Text(s) => MemberView::Text(s@),
            Member::Unsigned(n) => MemberView::Unsigned(n),
            Member::Other => MemberView::Other,
        }
    }
}

/// The members of a JSON object by name; none where the value is no object.
pub uninterp spec fn json_members(value: serde_json::Value) -> Map<Seq<char>, MemberView>;

/// Calls `serde_json::Value::get` with a name and tells the variants of what it finds
/// apart: nothing, `null`, a truth value, a string, a number that `as_u64` gives, or anything
/// else.
#[verifier::external_body]
pub(crate) fn object_member(value: &serde_json::Value, name: &str) -> (r: Option<Member>)
    ensures
        match r {
            Some(m) => json_members(*value).dom().contains(name@) && json_members(*value)[name@]
                == m.view(),
            None => !json_members(*value).dom().contains(name@),
        },
{
    value.get(name).map(
        |member|
            match member {
                serde_json::Value::Null => Member::Null,
                serde_json::Value::Bool(truth) => Member::Truth(*truth),
                serde_json::Value::String(text) => Member::Text(text.clone()),
                serde_json::Value::Number(n) => n.as_u64().map_or(Member::Other, Member::Unsigned),
                _ => Member::Other,
            },
    )
}

/// The text of a member.
pub open spec fn member_text(members: Map<Seq<char>, MemberView>, name: Seq<char>) -> Option<
    Seq<char>,
> {
    if members.dom().contains(name) {
        match members[name] {
            MemberView::Text(t) => Some(t),
            _ => None,
        }
    } else {
        None
    }
}

/// The number of a member.
pub open spec fn member_number(members: Map<Seq<char>, MemberView>, name: Seq<char>) -> Option<
    u64,
> {
    if members.dom().contains(name) {
        match members[name] {
            MemberView::Unsigned(n) => Some(n),
            _ => None,
        }
    } else {
        None
    }
}

/// A member that may be absent or `null`; the outer option is `None` where it is
/// something else than a text.
pub open spec fn member_option(members: Map<Seq<char>, MemberView>, name: Seq<char>) -> Option<
    Option<Seq<char>>,
> {
    if members.dom().contains(name) {
        match members[name] {
            MemberView::Null => Some(None),
            MemberView::Text(t) => Some(Some(t)),
            _ => None,
        }
    } else {
        Some(None)
    }
}

/// Whether a member is there and true.
pub open spec fn member_true(members: Map<Seq<char>, MemberView>, name: Seq<char>) -> bool {
    members.dom().contains(name) && members[name] == MemberView::Truth(true)
}

/// The text of a member.
pub(crate) fn text_member(value: &serde_json::Value, name: &str) -> (r: Option<String>)
    ensures
        match r {
            Some(t) => member_text(json_members(*value), name@) == Some(t@),
            None => member_text(json_members(*value), name@) is None,
        },
{
    match object_member(value, name) {
        Some(Member::Text(t)) => Some(t),
        _ => None,
    }
}

/// The number of a member.
pub(crate) fn number_member(value: &serde_json::Value, name: &str) -> (r: Option<u64>)
    ensures
        r == member_number(json_members(*value), name@),
{
    match object_member(value, name) {
        Some(Member::Unsigned(n)) => Some(n),
        _ => None,
    }
}

/// Whether a member is there and true.
pub(crate) fn true_member(value: &serde_json::Value, name: &str) -> (r: bool)
    ensures
        r == member_true(json_members(*value), name@),
{
    match object_member(value, name) {
        Some(Member::Truth(truth)) => truth,
        _ => false,
    }
}

/// A member is read as what it is: a text as a text, a number as a number, and nothing else as
/// either; one that may be absent is also read where it is null.
pub proof fn law_members_are_read_as_they_are(
    members: Map<Seq<char>, MemberView>,
    name: Seq<char>,
    text: Seq<char>,
    number: u64,
)
    ensures
        member_text(members, name) == Some(text) <==> members.dom().contains(name)
            && members[name] == MemberView::Text(text),
        member_number(members, name) == Some(number) <==> members.dom().contains(name)
            && members[name] == MemberView::Unsigned(number),
        member_true(members, name) <==> members.dom().contains(name) && members[name]
            == MemberView::Truth(true),
        member_option(members, name) == Some(Some(text)) <==> members.dom().contains(name)
            && members[name] == MemberView::Text(text),
        member_option(members, name) == Some(None::<Seq<char>>) <==> !members.dom().contains(name)
            || members[name] == MemberView::Null,
{
}

} // verus!
