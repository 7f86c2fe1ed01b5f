//! What the window answers control requests with, as JSON: the outcome of
//! injected pointer input and of a finished tab.

use vstd::prelude::*;
use crate::json::JsonValue;
use crate::tab::TabId;
use crate::text::{concat, decimal, decimal_chars};

verus! {

/// Where an injected wheel event went and how much of it.
#[derive(Clone, Copy, Debug, PartialEq, Eq)]
pub struct WheelOutcome {
    pub route: &'static str,
    pub delivered_notches: i16,
    pub changed: bool,
}

/// Where an injected mouse event went.
#[derive(Clone, Copy, Debug, PartialEq, Eq)]
pub struct MouseOutcome {
    pub route: &'static str,
    pub changed: bool,
}

/// Whether `members` are these names with these values, in order.
pub open spec fn object_is(document: JsonValue, names: Seq<Seq<char>>, values: Seq<JsonValue>) -> bool {
    document matches JsonValue::Object(m) && m@.len() == names.len() && names.len() == values.len()
        && forall|i: int| 0 <= i < names.len() ==> (#[trigger] m@[i]).0@ == names[i] && m@[i].1 == values[i]
}

/// An object with the one member `name`.
pub fn single_field_json(name: &str, value: JsonValue) -> (document: JsonValue)
    ensures
        object_is(document, seq![name@], seq![value]),
{
    let mut members: Vec<(String, JsonValue)> = Vec::new();
    members.push((name.to_owned(), value));
    JsonValue::Object(members)
}

/// A tab id as JSON: `"@N"`.
pub open spec fn tab_id_text(id: TabId) -> Seq<char> {
    "@"@ + decimal_chars(id.0 as nat)
}

/// A tab id as JSON, or `null`.
pub fn tab_id_json(id: Option<TabId>) -> (document: JsonValue)
    ensures
        match id {
            Some(t) => document matches JsonValue::Str(s) && s@ == tab_id_text(t),
            None => document == JsonValue::Null,
        },
{
    match id {
        Some(t) => JsonValue::Str(concat("@", decimal(t.0).as_str())),
        None => JsonValue::Null,
    }
}

/// A child exit code as JSON: the number, or `null` while the child runs.
pub fn exit_code_json(exit_code: Option<i32>) -> (document: JsonValue)
    ensures
        document == match exit_code {
            Some(code) => JsonValue::Signed(code as i64),
            None => JsonValue::Null,
        },
{
    match exit_code {
        Some(code) => JsonValue::Signed(code as i64),
        None => JsonValue::Null,
    }
}

/// The answer to a finished tab: its id, no longer alive, and its exit code.
pub fn tab_exit_json(id: TabId, exit_code: Option<i32>) -> (document: JsonValue)
    ensures
        document matches JsonValue::Object(m) && m@.len() == 3 && m@[0].0@ == "id"@
            && (m@[0].1 matches JsonValue::Str(s) && s@ == tab_id_text(id)) && m@[1].0@ == "child_alive"@
            && m@[1].1 == JsonValue::Bool(false) && m@[2].0@ == "child_exit_code"@ && m@[2].1
            == match exit_code {
            Some(code) => JsonValue::Signed(code as i64),
            None => JsonValue::Null,
        },
{
    let mut members: Vec<(String, JsonValue)> = Vec::new();
    members.push(("id".to_owned(), tab_id_json(Some(id))));
    members.push(("child_alive".to_owned(), JsonValue::Bool(false)));
    members.push(("child_exit_code".to_owned(), exit_code_json(exit_code)));
    JsonValue::Object(members)
}

/// The answer to injected mouse input.
pub fn mouse_outcome_json(outcome: MouseOutcome) -> (document: JsonValue)
    ensures
        document matches JsonValue::Object(m) && m@.len() == 3 && m@[0].0@ == "delivered"@
            && m@[0].1 == JsonValue::Bool(true) && m@[1].0@ == "route"@ && (m@[1].1 matches JsonValue::Str(
            r,
        ) && r@ == outcome.route@) && m@[2].0@ == "changed"@ && m@[2].1 == JsonValue::Bool(
            outcome.changed,
        ),
{
    let mut members: Vec<(String, JsonValue)> = Vec::new();
    members.push(("delivered".to_owned(), JsonValue::Bool(true)));
    members.push(("route".to_owned(), JsonValue::Str(outcome.route.to_owned())));
    members.push(("changed".to_owned(), JsonValue::Bool(outcome.changed)));
    JsonValue::Object(members)
}

/// The answer to injected wheel input.
pub fn wheel_outcome_json(outcome: WheelOutcome) -> (document: JsonValue)
    ensures
        document matches JsonValue::Object(m) && m@.len() == 3 && m@[0].0@ == "delivered_notches"@
            && m@[0].1 == JsonValue::Signed(outcome.delivered_notches as i64) && m@[1].0@ == "route"@
            && (m@[1].1 matches JsonValue::Str(r) && r@ == outcome.route@) && m@[2].0@ == "changed"@
            && m@[2].1 == JsonValue::Bool(outcome.changed),
{
    let mut members: Vec<(String, JsonValue)> = Vec::new();
    members.push(("delivered_notches".to_owned(), JsonValue::Signed(outcome.delivered_notches as i64)));
    members.push(("route".to_owned(), JsonValue::Str(outcome.route.to_owned())));
    members.push(("changed".to_owned(), JsonValue::Bool(outcome.changed)));
    JsonValue::Object(members)
}

} // verus!
