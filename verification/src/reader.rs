//! Reading JSON text into the library's own values.

use vstd::prelude::*;
use vstd::string::*;
use crate::error::{result_view, Fault, GenError, GenErrorType};
use crate::json::{Json, JsonView, Member, MemberView};

verus! {

/// `serde_json::Value`, the tree that the crate's parser builds. Nothing of
/// its inside is known here: `peel` hands it out level by level.
#[verifier::external_type_specification]
#[verifier::external_body]
pub struct ExValue(serde_json::Value);

/// What a `serde_json::Value` holds: null, a boolean, a number by the
/// decimal text that the crate prints for it, a string, an array by its
/// items in order, an object by its members in the order in which the crate
/// walks them. Only `read_value` and `peel` say anything of it.
pub uninterp spec fn value_json(value: serde_json::Value) -> JsonView;

/// What `serde_json::from_str` makes of a text: the value it denotes, or the
/// text of the crate's error where it denotes none. The crate's parser reads
/// nothing but the text.
pub uninterp spec fn json_from_text(text: Seq<char>) -> Result<JsonView, Seq<char>>;

/// One level of a `serde_json` value: its variant, with the children still
/// as that crate holds them.
enum Shell<'a> {
    Null,
    Bool(bool),
    Number(String),
    Text(&'a String),
    Array(&'a Vec<serde_json::Value>),
    Object(Vec<(&'a String, &'a serde_json::Value)>),
}

/// What a shell holds, its children taken by what they hold.
spec fn shell_json(shell: Shell) -> JsonView {
    match shell {
        Shell::Null => JsonView::Null,
        Shell::Bool(b) => JsonView::Bool(b),
        Shell::Number(text) => JsonView::Number(text@),
        Shell::Text(text) => JsonView::Text(text@),
        Shell::Array(items) => JsonView::Array(
            Seq::new(items@.len(), |i: int| value_json(items@[i])),
        ),
        Shell::Object(members) => JsonView::Object(
            Seq::new(
                members@.len(),
                |i: int| MemberView { key: members@[i].0@, value: value_json(*members@[i].1) },
            ),
        ),
    }
}

/// `serde_json::from_str` at the type `serde_json::Value`: the parsed value on
/// success, else the text of the crate's error.
#[verifier::external_body]
fn read_value(text: &str) -> (r: Result<serde_json::Value, String>)
    ensures
        match r {
            Ok(value) => json_from_text(text@) == Ok::<JsonView, Seq<char>>(value_json(value)),
            Err(complaint) => json_from_text(text@) == Err::<JsonView, Seq<char>>(complaint@),
        },
{
    match serde_json::from_str::<serde_json::Value>(text) {
        Ok(value) => Ok(value),
        Err(e) => Err(e.to_string()),
    }
}

/// Tells the variants of `serde_json::Value` apart. A number is handed out as
/// the decimal text that the crate prints for it, an object's members in the
/// order in which `serde_json::Map::iter` walks them.
#[verifier::external_body]
fn peel<'a>(value: &'a serde_json::Value) -> (shell: Shell<'a>)
    ensures
        shell_json(shell) == value_json(*value),
{
    match value {
        serde_json::Value::Null => Shell::Null,
        serde_json::Value::Bool(b) => Shell::Bool(*b),
        serde_json::Value::Number(n) => Shell::Number(n.to_string()),
        serde_json::Value::String(text) => Shell::Text(text),
        serde_json::Value::Array(items) => Shell::Array(items),
        serde_json::Value::Object(members) => Shell::Object(members.iter().collect()),
    }
}

/// The library's value for a value of `serde_json`.
fn json_of(value: &serde_json::Value) -> (json: Json)
    ensures
        json@ == value_json(*value),
    decreases value_json(*value),
{
    let shell = peel(value);
    match shell {
        Shell::Null => Json::Null,
        Shell::Bool(b) => Json::Bool(b),
        Shell::Number(text) => Json::Number(text),
        Shell::Text(text) => Json::Text(text.clone()),
        Shell::Array(items) => {
            let mut out: Vec<Json> = Vec::new();
            let mut i: usize = 0;
            while i < items.len()
                invariant
                    i <= items.len(),
                    out.len() == i,
                    shell_json(Shell::Array(items)) == value_json(*value),
                    forall|k: int| 0 <= k < i ==> out@[k]@ == value_json(items@[k]),
                decreases items.len() - i,
            {
                proof {
                    let ghost seen = value_json(*value)->Array_0;
                    assert(seen[i as int] == value_json(items@[i as int]));
                    assert(decreases_to!(value_json(*value) => seen));
                    assert(decreases_to!(seen => seen[i as int]));
                }
                out.push(json_of(&items[i]));
                i += 1;
            }
            let json = Json::Array(out);
            assert(json@->Array_0 =~= value_json(*value)->Array_0);
            json
        },
        Shell::Object(members) => {
            let mut out: Vec<Member> = Vec::new();
            let mut i: usize = 0;
            while i < members.len()
                invariant
                    i <= members.len(),
                    out.len() == i,
                    shell_json(Shell::Object(members)) == value_json(*value),
                    forall|k: int|
                        0 <= k < i ==> out@[k].key@ == members@[k].0@ && out@[k].value@
                            == value_json(*members@[k].1),
                decreases members.len() - i,
            {
                proof {
                    let ghost seen = value_json(*value)->Object_0;
                    assert(seen[i as int].value == value_json(*members@[i as int].1));
                    assert(decreases_to!(value_json(*value) => seen));
                    assert(decreases_to!(seen => seen[i as int]));
                    assert(decreases_to!(seen[i as int] => seen[i as int].value));
                }
                let key = members[i].0.clone();
                let child = json_of(members[i].1);
                out.push(Member { key: key, value: child });
                i += 1;
            }
            let json = Json::Object(out);
            assert(json@->Object_0 =~= value_json(*value)->Object_0);
            json
        },
    }
}

/// The failure for a text that is no JSON.
pub open spec fn invalid_json_fault(complaint: Seq<char>) -> Fault {
    Fault { reason: "the template is not valid JSON: "@ + complaint, tpe: GenErrorType::Parser }
}

/// What reading a text gives: the value it denotes, or the failure that
/// passes on the parser's complaint.
pub open spec fn read_json_spec(text: Seq<char>) -> Result<JsonView, Fault> {
    match json_from_text(text) {
        Ok(json) => Ok(json),
        Err(complaint) => Err(invalid_json_fault(complaint)),
    }
}

/// Reads JSON text.
pub fn read_json(text: &str) -> (r: Result<Json, GenError>)
    ensures
        result_view(r) == read_json_spec(text@),
{
    match read_value(text) {
        Ok(value) => Ok(json_of(&value)),
        Err(complaint) => {
            let reason = String::from_str("the template is not valid JSON: ").concat(
                complaint.as_str(),
            );
            Err(GenError::new_with_in_parser(reason.as_str()))
        },
    }
}

} // verus!
