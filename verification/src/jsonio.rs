//! The trusted face of the object codecs: zlib inflation and JSON field
//! access.
//!
//! Both are deterministic functions of the input bytes, so each call's
//! result is named by an uninterpreted spec function; the decoders in
//! `decode` are verified against those names.  Every wrapper parses the
//! whole object and projects one field: the stored objects are small, and
//! the repeated parse keeps each trusted item a single call chain.

use vstd::prelude::*;

verus! {

/// What the zlib stream `b` inflates to, if it is well-formed.
pub uninterp spec fn spec_inflate(b: Seq<u8>) -> Option<Seq<u8>>;

/// The unsigned integer at top-level key `key` of the JSON object `b`.
pub uninterp spec fn spec_json_u64(b: Seq<u8>, key: Seq<char>) -> Option<u64>;

/// The string at top-level key `key` of the JSON object `b`.
pub uninterp spec fn spec_json_str(b: Seq<u8>, key: Seq<char>) -> Option<Seq<char>>;

/// Whether top-level key `key` of the JSON object `b` is present and not null.
pub uninterp spec fn spec_json_non_null(b: Seq<u8>, key: Seq<char>) -> bool;

/// The length of the array at top-level key `key` of the JSON object `b`.
pub uninterp spec fn spec_json_arr_len(b: Seq<u8>, key: Seq<char>) -> Option<usize>;

/// The string at index `i` of the array at top-level key `key` of `b`.
pub uninterp spec fn spec_json_arr_str(b: Seq<u8>, key: Seq<char>, i: usize) -> Option<Seq<char>>;

/// The unsigned integer at key `field` of the object at index `i` of the
/// array at top-level key `key` of `b`.
pub uninterp spec fn spec_json_arr_obj_u64(
    b: Seq<u8>,
    key: Seq<char>,
    i: usize,
    field: Seq<char>,
) -> Option<u64>;

/// The string at key `field` of the object at index `i` of the array at
/// top-level key `key` of `b`.
pub uninterp spec fn spec_json_arr_obj_str(
    b: Seq<u8>,
    key: Seq<char>,
    i: usize,
    field: Seq<char>,
) -> Option<Seq<char>>;

/// Relies on `flate2::read::ZlibDecoder` with `read_to_end`: a well-formed
/// zlib stream inflates to bytes determined by the input alone; a malformed
/// stream gives an error.
#[verifier::external_body]
pub(crate) fn zlib_inflate(bytes: &[u8]) -> (r: Option<Vec<u8>>)
    ensures
        match r {
            Some(out) => spec_inflate(bytes@) == Some(out@),
            None => spec_inflate(bytes@) is None,
        },
{
    let mut d = flate2::read::ZlibDecoder::new(bytes);
    let mut out: Vec<u8> = Vec::new();
    match std::io::Read::read_to_end(&mut d, &mut out) {
        Ok(_) => Some(out),
        Err(_) => None,
    }
}

/// Relies on `serde_json::from_slice`, `Value::get` and `Value::as_u64`:
/// the unsigned integer stored at a top-level key.
#[verifier::external_body]
pub(crate) fn json_u64_field(b: &[u8], key: &str) -> (r: Option<u64>)
    ensures
        r == spec_json_u64(b@, key@),
{
    serde_json::from_slice::<serde_json::Value>(b).ok()?.get(key)?.as_u64()
}

/// Relies on `serde_json::from_slice`, `Value::get` and `Value::as_str`:
/// the string stored at a top-level key.
#[verifier::external_body]
pub(crate) fn json_str_field(b: &[u8], key: &str) -> (r: Option<String>)
    ensures
        match r {
            Some(s) => spec_json_str(b@, key@) == Some(s@),
            None => spec_json_str(b@, key@) is None,
        },
{
    let v = serde_json::from_slice::<serde_json::Value>(b).ok()?;
    Some(v.get(key)?.as_str()?.to_string())
}

/// Relies on `serde_json::from_slice`, `Value::get` and `Value::is_null`:
/// whether a top-level key is present with a non-null value.
#[verifier::external_body]
pub(crate) fn json_field_non_null(b: &[u8], key: &str) -> (r: bool)
    ensures
        r == spec_json_non_null(b@, key@),
{
    match serde_json::from_slice::<serde_json::Value>(b) {
        Ok(v) => match v.get(key) {
            Some(x) => !x.is_null(),
            None => false,
        },
        Err(_) => false,
    }
}

/// Relies on `serde_json::from_slice`, `Value::get` and `Value::as_array`:
/// the length of the array stored at a top-level key.
#[verifier::external_body]
pub(crate) fn json_arr_len(b: &[u8], key: &str) -> (r: Option<usize>)
    ensures
        r == spec_json_arr_len(b@, key@),
{
    let v = serde_json::from_slice::<serde_json::Value>(b).ok()?;
    Some(v.get(key)?.as_array()?.len())
}

/// Relies on `serde_json::from_slice`, `Value::get`, `Value::as_array` and
/// `Value::as_str`: the string at one index of an array field.
#[verifier::external_body]
pub(crate) fn json_arr_str(b: &[u8], key: &str, i: usize) -> (r: Option<String>)
    ensures
        match r {
            Some(s) => spec_json_arr_str(b@, key@, i) == Some(s@),
            None => spec_json_arr_str(b@, key@, i) is None,
        },
{
    let v = serde_json::from_slice::<serde_json::Value>(b).ok()?;
    Some(v.get(key)?.as_array()?.get(i)?.as_str()?.to_string())
}

/// Relies on `serde_json::from_slice`, `Value::get`, `Value::as_array` and
/// `Value::as_u64`: the unsigned integer at one field of an object held in
/// an array field.
#[verifier::external_body]
pub(crate) fn json_arr_obj_u64(b: &[u8], key: &str, i: usize, field: &str) -> (r: Option<u64>)
    ensures
        r == spec_json_arr_obj_u64(b@, key@, i, field@),
{
    let v = serde_json::from_slice::<serde_json::Value>(b).ok()?;
    v.get(key)?.as_array()?.get(i)?.get(field)?.as_u64()
}

/// Relies on `serde_json::from_slice`, `Value::get`, `Value::as_array` and
/// `Value::as_str`: the string at one field of an object held in an array
/// field.
#[verifier::external_body]
pub(crate) fn json_arr_obj_str(b: &[u8], key: &str, i: usize, field: &str) -> (r: Option<String>)
    ensures
        match r {
            Some(s) => spec_json_arr_obj_str(b@, key@, i, field@) == Some(s@),
            None => spec_json_arr_obj_str(b@, key@, i, field@) is None,
        },
{
    let v = serde_json::from_slice::<serde_json::Value>(b).ok()?;
    Some(v.get(key)?.as_array()?.get(i)?.get(field)?.as_str()?.to_string())
}

} // verus!
