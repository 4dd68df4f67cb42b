//! JSON text: the compact encoding of a tree, and reading a tree from text,
//! both through serde_json.

use vstd::prelude::*;
use crate::value::Json;

verus! {

#[verifier::external_type_specification]
#[verifier::external_body]
pub struct ExJsonValue(serde_json::Value);

/// The compact JSON text of a tree, as serde_json writes it (object keys in
/// serde_json's map order).
pub uninterp spec fn json_text_of(j: Json) -> Seq<char>;

/// The tree that a JSON text holds, if it is valid JSON whose numbers are all
/// integers.
pub uninterp spec fn json_parse_of(s: Seq<char>) -> Option<Json>;

/// Every number of the tree lies in `i64::MIN ..= u64::MAX`, the range that a
/// serde_json number holds.
pub open spec fn numbers_fit(j: Json) -> bool
    decreases j,
{
    match j {
        Json::Number(n) => -0x8000_0000_0000_0000 <= n <= 0xffff_ffff_ffff_ffff,
        Json::Array(items) => forall|i: int| 0 <= i < items.len() ==> numbers_fit(#[trigger] items[i]),
        Json::Object(entries) => forall|i: int| 0 <= i < entries.len() ==> numbers_fit((#[trigger] entries[i]).1),
        _ => true,
    }
}

/// Whether every number of the tree fits a serde_json number.
pub fn fits_json_numbers(j: &Json) -> (r: bool)
    ensures
        r == numbers_fit(*j),
    decreases j,
{
    match j {
        Json::Number(n) => -0x8000_0000_0000_0000 <= *n && *n <= 0xffff_ffff_ffff_ffff,
        Json::Array(items) => {
            let mut i: usize = 0;
            while i < items.len()
                invariant
                    *j == Json::Array(*items),
                    i <= items@.len(),
                    forall|k: int| 0 <= k < i ==> numbers_fit(#[trigger] items[k]),
                decreases items@.len() - i,
            {
                assert(decreases_to!(*j => (*j)->Array_0));
                assert(decreases_to!(*items => items[i as int]));
                if !fits_json_numbers(&items[i]) {
                    return false;
                }
                i = i + 1;
            }
            true
        },
        Json::Object(entries) => {
            let mut i: usize = 0;
            while i < entries.len()
                invariant
                    *j == Json::Object(*entries),
                    i <= entries@.len(),
                    forall|k: int| 0 <= k < i ==> numbers_fit((#[trigger] entries[k]).1),
                decreases entries@.len() - i,
            {
                assert(decreases_to!(*j => (*j)->Object_0));
                assert(decreases_to!(*entries => entries[i as int]));
                assert(decreases_to!(entries[i as int] => entries[i as int].1));
                if !fits_json_numbers(&entries[i].1) {
                    return false;
                }
                i = i + 1;
            }
            true
        },
        _ => true,
    }
}

/// Relies on the constructors of `serde_json::Value` and on
/// `serde_json::Number::from_i128`, which returns `Some` for every number in
/// `i64::MIN ..= u64::MAX` (the `requires`): the same tree in serde_json's form.
#[verifier::external_body]
fn serde_value(j: &Json) -> serde_json::Value
    requires
        numbers_fit(*j),
{
    match j {
        Json::Null => serde_json::Value::Null,
        Json::Bool(b) => serde_json::Value::Bool(*b),
        Json::Number(n) => serde_json::Number::from_i128(*n).map_or(serde_json::Value::Null, serde_json::Value::Number),
        Json::Str(s) => serde_json::Value::String(s.clone()),
        Json::Array(items) => serde_json::Value::Array(items.iter().map(serde_value).collect()),
        Json::Object(entries) => serde_json::Value::Object(
            entries.iter().map(|(k, v)| (k.clone(), serde_value(v))).collect(),
        ),
    }
}

/// Relies on the variants of `serde_json::Value` and on
/// `serde_json::Number::as_i128`: the same tree in this crate's form, `None`
/// when it holds a number that is not an integer.
#[verifier::external_body]
fn tree_of(v: serde_json::Value) -> Option<Json> {
    match v {
        serde_json::Value::Null => Some(Json::Null),
        serde_json::Value::Bool(b) => Some(Json::Bool(b)),
        serde_json::Value::Number(n) => n.as_i128().map(Json::Number),
        serde_json::Value::String(s) => Some(Json::Str(s)),
        serde_json::Value::Array(items) => items.into_iter().map(tree_of).collect::<Option<Vec<Json>>>().map(Json::Array),
        serde_json::Value::Object(m) => m.into_iter().map(|(k, v)| tree_of(v).map(|t| (k, t)))
            .collect::<Option<Vec<(String, Json)>>>().map(Json::Object),
    }
}

/// Relies on `Display for serde_json::Value`: compact JSON text, a function of
/// the tree alone.
#[verifier::external_body]
pub(crate) fn json_text(j: &Json) -> (r: String)
    requires
        numbers_fit(*j),
    ensures
        r@ == json_text_of(*j),
{
    serde_value(j).to_string()
}

/// Relies on `serde_json::from_str::<serde_json::Value>`: a function of the
/// text alone.
#[verifier::external_body]
pub(crate) fn parse_json(s: &str) -> (r: Option<Json>)
    ensures
        r == json_parse_of(s@),
{
    serde_json::from_str::<serde_json::Value>(s).ok().and_then(tree_of)
}

} // verus!
