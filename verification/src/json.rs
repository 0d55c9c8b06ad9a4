//! What the library has from `serde_json`.

use vstd::prelude::*;

verus! {

/// `serde_json::Value`, carried through without a look inside.
#[verifier::external_type_specification]
#[verifier::external_body]
pub struct ExValue(serde_json::Value);

/// `Value::clone`, derived field by field: the copy equals what was copied.
pub assume_specification[ <serde_json::Value as Clone>::clone ](
    v: &serde_json::Value,
) -> (copy: serde_json::Value)
    ensures
        copy == *v,
;

/// What `serde_json` finds under a key of a JSON object, item by item.
pub uninterp spec fn numbers_at(body: Seq<u8>, key: Seq<char>) -> Option<Seq<Option<u64>>>;

/// `serde_json::from_slice` on the body, then `Value::get` with the key,
/// `Value::as_array`, and `Value::as_u64` on every item. The result is a
/// function of the body's bytes and the key: nothing when the body is not
/// JSON, is no object, lacks the key or holds no array there; otherwise one
/// entry per item, empty for an item that is no unsigned 64-bit number. How
/// the bytes of a JSON text denote those numbers is left unsaid here.
#[verifier::external_body]
pub(crate) fn json_numbers_at(body: &[u8], key: &str) -> (numbers: Option<Vec<Option<u64>>>)
    ensures
        numbers is Some <==> numbers_at(body@, key@) is Some,
        numbers is Some ==> numbers_at(body@, key@) == Some(numbers->0@),
{
    let value: serde_json::Value = serde_json::from_slice(body).ok()?;
    let items: &Vec<serde_json::Value> = value.get(key)?.as_array()?;
    Some(items.iter().map(|v| v.as_u64()).collect())
}

} // verus!
