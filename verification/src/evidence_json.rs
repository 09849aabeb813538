//! Evidence lists stored as JSON text: arrays of objects whose fields the
//! collector reads as text, such as an item's type and value, or a device
//! evidence item's source.

use vstd::prelude::*;

use crate::text::{opt_string_view, str_eq};

verus! {

/// What `serde_json` reads from a text as an array of JSON values: for each
/// element in order, the string values of fields `first` and `second`
/// (none where a field is absent or not a string); none when the text is
/// not a JSON array.
pub uninterp spec fn json_array_fields(text: Seq<char>, first: Seq<char>, second: Seq<char>) -> Option<Seq<(Option<Seq<char>>, Option<Seq<char>>)>>;

pub open spec fn field_pairs_view(v: Seq<(Option<String>, Option<String>)>) -> Seq<(Option<Seq<char>>, Option<Seq<char>>)> {
    v.map_values(|p: (Option<String>, Option<String>)| (opt_string_view(p.0), opt_string_view(p.1)))
}

/// Calls `serde_json::from_str::<Vec<serde_json::Value>>` and picks, from
/// each element, the two named fields where they are strings; the outcome
/// is named `json_array_fields`.
#[verifier::external_body]
fn parse_field_pairs(text: &str, first: &str, second: &str) -> (r: Option<Vec<(Option<String>, Option<String>)>>)
    ensures
        match r {
            Some(v) => json_array_fields(text@, first@, second@) == Some(field_pairs_view(v@)),
            None => json_array_fields(text@, first@, second@) is None,
        },
{
    serde_json::from_str::<Vec<serde_json::Value>>(text).ok().map(|items| {
        items
            .iter()
            .map(|item| {
                (
                    item.get(first).and_then(|v| v.as_str()).map(str::to_owned),
                    item.get(second).and_then(|v| v.as_str()).map(str::to_owned),
                )
            })
            .collect()
    })
}

/// The items of a JSON evidence list, as `json_array_fields` reads them, or
/// no items when the text is not a JSON array.
pub open spec fn evidence_items(text: Seq<char>, first: Seq<char>, second: Seq<char>) -> Seq<(Option<Seq<char>>, Option<Seq<char>>)> {
    match json_array_fields(text, first, second) {
        Some(items) => items,
        None => Seq::empty(),
    }
}

/// Reads fields `first` and `second` of each item of a JSON evidence list;
/// no items when the text is not a JSON array.
pub fn evidence_fields(text: &str, first: &str, second: &str) -> (r: Vec<(Option<String>, Option<String>)>)
    ensures
        field_pairs_view(r@) == evidence_items(text@, first@, second@),
{
    match parse_field_pairs(text, first, second) {
        Some(v) => v,
        None => {
            let v: Vec<(Option<String>, Option<String>)> = Vec::new();
            assert(field_pairs_view(v@) =~= Seq::empty());
            v
        },
    }
}

/// Whether some evidence item's `type` is the given one.
pub open spec fn json_has_evidence_type(text: Seq<char>, evidence_type: Seq<char>) -> bool {
    exists|k: int|
        0 <= k < evidence_items(text, "type"@, "value"@).len() && (#[trigger] evidence_items(
            text,
            "type"@,
            "value"@,
        )[k]).0 == Some(evidence_type)
}

/// Whether an attribution's JSON evidence list holds an item of the given
/// type; an unreadable list holds none.
pub fn attribution_has_evidence(evidence_json: &str, evidence_type: &str) -> (r: bool)
    ensures
        r == json_has_evidence_type(evidence_json@, evidence_type@),
{
    let items = evidence_fields(evidence_json, "type", "value");
    let ghost v = field_pairs_view(items@);
    let mut i: usize = 0;
    while i < items.len()
        invariant
            i <= items@.len(),
            v == field_pairs_view(items@),
            v == evidence_items(evidence_json@, "type"@, "value"@),
            forall|j: int| 0 <= j < i ==> (#[trigger] v[j]).0 != Some(evidence_type@),
        decreases items@.len() - i,
    {
        match &items[i].0 {
            Some(t) => {
                if str_eq(t.as_str(), evidence_type) {
                    assert(v[i as int].0 == Some(evidence_type@));
                    return true;
                }
            },
            None => {},
        }
        i = i + 1;
    }
    false
}

/// Whether a flow's attribution binds its endpoint: a recognised
/// application, identified confidently (`confident`), whose JSON evidence
/// shows it is self-hosted.
pub fn binds_endpoint(application_id: &str, confident: bool, evidence_json: &str) -> (r: bool)
    ensures
        r == (application_id@ != "unknown"@ && confident && json_has_evidence_type(
            evidence_json@,
            "self_host_application"@,
        )),
{
    !str_eq(application_id, "unknown") && confident && attribution_has_evidence(evidence_json, "self_host_application")
}

} // verus!
