//! The key that clients present to the gateway.

use crate::text::{is_lower_hex, joined};
use vstd::prelude::*;

verus! {

/// The shape of a key: `sk-` followed by 32 lower-case hexadecimal digits.
pub open spec fn is_api_key(s: Seq<char>) -> bool {
    &&& s.len() == 35
    &&& s[0] == 's'
    &&& s[1] == 'k'
    &&& s[2] == '-'
    &&& forall|i: int| 3 <= i < 35 ==> is_lower_hex(#[trigger] s[i])
}

/// The shape of a random UUID in simple lower-case form: 32 hexadecimal
/// digits, of which the thirteenth is the version `4` and the seventeenth a
/// variant digit in `8..=b`.
pub open spec fn is_key_digits(s: Seq<char>) -> bool {
    &&& s.len() == 32
    &&& forall|i: int| 0 <= i < 32 ==> is_lower_hex(#[trigger] s[i])
    &&& s[12] == '4'
    &&& (s[16] == '8' || s[16] == '9' || s[16] == 'a' || s[16] == 'b')
}

/// The digits of a fresh random UUID.
///
/// Calls `uuid::Uuid::new_v4` and renders the result with the `Display` of
/// its `simple` form, which is 32 lower-case hexadecimal digits without
/// hyphens. The value is random; the contract states only the shape that
/// every version 4 UUID has in that form. `new_v4` panics when the operating
/// system cannot supply random bytes.
#[verifier::external_body]
fn fresh_key_digits() -> (digits: String)
    ensures
        is_key_digits(digits@),
{
    uuid::Uuid::new_v4().simple().to_string()
}

/// The key made of `digits`.
pub fn api_key_from(digits: &str) -> (key: String)
    ensures
        key@ == "sk-"@ + digits@,
{
    joined("sk-", digits)
}

/// A key made of 32 hexadecimal digits has the shape of a key.
pub proof fn lemma_key_shape(digits: Seq<char>)
    requires
        digits.len() == 32,
        forall|i: int| 0 <= i < 32 ==> is_lower_hex(#[trigger] digits[i]),
    ensures
        is_api_key("sk-"@ + digits),
{
    reveal_strlit("sk-");
    let key = "sk-"@ + digits;
    assert forall|i: int| 3 <= i < 35 implies is_lower_hex(#[trigger] key[i]) by {
        assert(key[i] == digits[i - 3]);
    }
}

/// Generates a new key: `sk-` and the digits of a random UUID.
pub fn generate_api_key() -> (key: String)
    ensures
        is_api_key(key@),
        is_key_digits(key@.subrange(3, 35)),
{
    let digits = fresh_key_digits();
    let key = api_key_from(digits.as_str());
    proof {
        lemma_key_shape(digits@);
        assert(key@.subrange(3, 35) =~= digits@);
    }
    key
}

} // verus!
