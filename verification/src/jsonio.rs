//! JSON field access.
//!
//! serde_json parses text and walks JSON pointers; what it yields for a
//! given text and pointer is named by uninterpreted functions, and the
//! logic that reads WebDriver replies and saved datasets is verified over
//! those names.

use vstd::prelude::*;

verus! {

/// What `serde_json::from_str` followed by `Value::pointer` and `as_str`
/// yields: the string at the pointer, `None` when the text does not
/// parse, the pointer does not resolve, or the value is not a string.
pub uninterp spec fn json_str_at(text: Seq<char>, pointer: Seq<char>) -> Option<Seq<char>>;

/// What `Value::pointer` and `as_u64` yield: the unsigned integer at the
/// pointer, if any.
pub uninterp spec fn json_uint_at(text: Seq<char>, pointer: Seq<char>) -> Option<u64>;

/// What `Value::pointer`, `as_array` and element-wise `as_str` yield: the
/// string elements of the array at the pointer, in order, non-strings
/// skipped; `None` when there is no array there.
pub uninterp spec fn json_strs_at(text: Seq<char>, pointer: Seq<char>) -> Option<Seq<Seq<char>>>;

/// What `Value::pointer` and `as_array` yield: the length of the array at
/// the pointer, if any.
pub uninterp spec fn json_arr_len_at(text: Seq<char>, pointer: Seq<char>) -> Option<usize>;

/// Relies on `serde_json::from_str`, `Value::pointer` and `Value::as_str`:
/// the string at a JSON pointer, a function of text and pointer alone.
#[verifier::external_body]
pub fn json_string_at(text: &str, pointer: &str) -> (r: Option<String>)
    ensures
        r is Some <==> json_str_at(text@, pointer@) is Some,
        r matches Some(v) ==> json_str_at(text@, pointer@) == Some(v@),
{
    serde_json::from_str::<serde_json::Value>(text).ok().and_then(
        |doc| doc.pointer(pointer).and_then(|v| v.as_str().map(|s| s.to_string())),
    )
}

/// Relies on `serde_json::from_str`, `Value::pointer` and `Value::as_u64`:
/// the unsigned integer at a JSON pointer.
#[verifier::external_body]
pub fn json_uint_value_at(text: &str, pointer: &str) -> (r: Option<u64>)
    ensures
        r == json_uint_at(text@, pointer@),
{
    serde_json::from_str::<serde_json::Value>(text).ok().and_then(
        |doc| doc.pointer(pointer).and_then(|v| v.as_u64()),
    )
}

/// Relies on `serde_json::from_str`, `Value::pointer`, `Value::as_array`
/// and `Value::as_str`: the string elements of the array at a JSON
/// pointer.
#[verifier::external_body]
pub fn json_strings_at(text: &str, pointer: &str) -> (r: Option<Vec<String>>)
    ensures
        r is Some <==> json_strs_at(text@, pointer@) is Some,
        r matches Some(v) ==> json_strs_at(text@, pointer@) == Some(
            crate::urlnorm::string_views(v@),
        ),
{
    serde_json::from_str::<serde_json::Value>(text).ok().and_then(
        |doc| doc.pointer(pointer).and_then(
            |v| v.as_array().map(
                |arr| arr.iter().filter_map(|x| x.as_str().map(|s| s.to_string())).collect(),
            ),
        ),
    )
}

/// Relies on `serde_json::from_str`, `Value::pointer` and
/// `Value::as_array`: the length of the array at a JSON pointer.
#[verifier::external_body]
pub fn json_array_len_at(text: &str, pointer: &str) -> (r: Option<usize>)
    ensures
        r == json_arr_len_at(text@, pointer@),
{
    serde_json::from_str::<serde_json::Value>(text).ok().and_then(
        |doc| doc.pointer(pointer).and_then(|v| v.as_array().map(|arr| arr.len())),
    )
}

} // verus!
