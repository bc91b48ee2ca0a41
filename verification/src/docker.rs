//! Reading what `docker system df --format json` prints: the reclaimable
//! size of each kind of Docker object, as text.
use vstd::prelude::*;

use crate::text::owned;

verus! {

/// A JSON value of `serde_json`, carried through unopened.
#[verifier::external_type_specification]
#[verifier::external_body]
pub struct ExJsonValue(serde_json::Value);

/// A JSON parse error of `serde_json`.
#[verifier::external_type_specification]
#[verifier::external_body]
pub struct ExJsonError(serde_json::Error);

/// The elements of the JSON array that the text spells, or `None` when it is
/// not one (the result of `serde_json::from_str::<Vec<Value>>`).
pub uninterp spec fn json_array_of(raw: Seq<char>) -> Option<Seq<serde_json::Value>>;

/// The member `key` of a JSON value (the result of `Value::get` with a string key).
pub uninterp spec fn json_member_of(v: serde_json::Value, key: Seq<char>) -> Option<serde_json::Value>;

/// The text of a JSON string value (the result of `Value::as_str`).
pub uninterp spec fn json_text_of(v: serde_json::Value) -> Option<Seq<char>>;

/// Calls `serde_json::from_str::<Vec<serde_json::Value>>`; the contract says
/// only that the outcome is determined by the text.
#[verifier::external_body]
fn parse_json_array(raw: &str) -> (r: Result<Vec<serde_json::Value>, serde_json::Error>)
    ensures
        match r {
            Ok(v) => json_array_of(raw@) == Some(v@),
            Err(_) => json_array_of(raw@) is None,
        },
{
    serde_json::from_str::<Vec<serde_json::Value>>(raw)
}

/// Calls `serde_json::Value::get` with a string key; the contract says only
/// that the outcome is determined by the value and the key.
#[verifier::external_body]
fn json_member<'a>(v: &'a serde_json::Value, key: &str) -> (r: Option<&'a serde_json::Value>)
    ensures
        match r {
            Some(m) => json_member_of(*v, key@) == Some(*m),
            None => json_member_of(*v, key@) is None,
        },
{
    v.get(key)
}

/// Calls `serde_json::Value::as_str`; the contract says only that the
/// outcome is determined by the value.
#[verifier::external_body]
fn json_as_text<'a>(v: &'a serde_json::Value) -> (r: Option<&'a str>)
    ensures
        match r {
            Some(s) => json_text_of(*v) == Some(s@),
            None => json_text_of(*v) is None,
        },
{
    v.as_str()
}

/// The `ReclaimableSize` texts of the objects of `arr`, in order, skipping
/// objects without one or where it is not a string.
pub open spec fn reclaimable_texts(arr: Seq<serde_json::Value>) -> Seq<Seq<char>>
    decreases arr.len(),
{
    if arr.len() == 0 {
        Seq::empty()
    } else {
        let rest = reclaimable_texts(arr.drop_last());
        match json_member_of(arr.last(), "ReclaimableSize"@) {
            Some(m) => match json_text_of(m) {
                Some(t) => rest.push(t),
                None => rest,
            },
            None => rest,
        }
    }
}

/// The `ReclaimableSize` texts of the Docker report `raw`; none when it is
/// not a JSON array.
pub open spec fn docker_reclaimable(raw: Seq<char>) -> Seq<Seq<char>> {
    match json_array_of(raw) {
        Some(arr) => reclaimable_texts(arr),
        None => Seq::empty(),
    }
}

/// The characters of each string.
pub open spec fn text_views(v: Seq<String>) -> Seq<Seq<char>> {
    Seq::new(v.len(), |i: int| v[i]@)
}

/// The `ReclaimableSize` texts of the parsed Docker report `arr`, in order.
pub fn reclaimable_sizes_of(arr: &Vec<serde_json::Value>) -> (r: Vec<String>)
    ensures
        text_views(r@) == reclaimable_texts(arr@),
{
    let mut out: Vec<String> = Vec::new();
    let mut i: usize = 0;
    while i < arr.len()
        invariant
            0 <= i <= arr.len(),
            text_views(out@) == reclaimable_texts(arr@.subrange(0, i as int)),
        decreases arr.len() - i,
    {
        let ghost pre = arr@.subrange(0, i as int);
        let ghost nxt = arr@.subrange(0, i + 1);
        assert(nxt.drop_last() == pre);
        let ghost before = out@;
        match json_member(&arr[i], "ReclaimableSize") {
            Some(m) => match json_as_text(m) {
                Some(t) => {
                    out.push(owned(t));
                    assert(text_views(out@) =~= text_views(before).push(t@));
                },
                None => {},
            },
            None => {},
        }
        i = i + 1;
    }
    assert(arr@.subrange(0, arr.len() as int) == arr@);
    out
}

/// The `ReclaimableSize` texts of what `docker system df --format json`
/// printed; none when the report is not a JSON array.
pub fn docker_reclaimable_sizes(raw: &str) -> (r: Vec<String>)
    ensures
        text_views(r@) == docker_reclaimable(raw@),
{
    match parse_json_array(raw) {
        Ok(arr) => reclaimable_sizes_of(&arr),
        Err(_) => {
            let out: Vec<String> = Vec::new();
            assert(text_views(out@) =~= Seq::<Seq<char>>::empty());
            out
        },
    }
}

} // verus!
