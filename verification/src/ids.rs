//! Fresh identifiers.

use crate::text::text2;
use vstd::prelude::*;

verus! {

/// Whether a character is a lower-case hexadecimal digit.
pub open spec fn is_hex_digit(c: char) -> bool {
    '0' <= c <= '9' || 'a' <= c <= 'f'
}

/// Whether a text is a version 4 UUID without hyphens: 32 lower-case
/// hexadecimal digits, the version digit a four.
pub open spec fn is_uuid(s: Seq<char>) -> bool {
    &&& s.len() == 32
    &&& forall|i: int| 0 <= i < 32 ==> is_hex_digit(#[trigger] s[i])
    &&& s[12] == '4'
}

/// `Uuid::new_v4` in its simple form: a random version 4 UUID without hyphens.
#[verifier::external_body]
fn random_uuid() -> (r: String)
    ensures
        is_uuid(r@),
{
    uuid::Uuid::new_v4().simple().to_string()
}

/// Whether a text is a prefix followed by a UUID.
pub open spec fn is_id(s: Seq<char>, prefix: Seq<char>) -> bool {
    exists|u: Seq<char>| #[trigger] is_uuid(u) && s == prefix + u
}

/// A fresh identifier: the prefix and a random UUID.
pub fn new_id(prefix: &str) -> (r: String)
    ensures
        is_id(r@, prefix@),
{
    let u = random_uuid();
    text2(prefix, u.as_str())
}

/// A fresh request id.
pub fn new_request_id() -> (r: String)
    ensures
        is_id(r@, "req_"@),
{
    new_id("req_")
}

/// An id is its prefix and 32 hexadecimal digits behind it.
pub proof fn law_ids_begin_with_their_prefix(s: Seq<char>, prefix: Seq<char>, i: int)
    requires
        is_id(s, prefix),
    ensures
        s.len() == prefix.len() + 32,
        s.take(prefix.len() as int) == prefix,
        prefix.len() <= i < s.len() ==> '0' <= s[i] <= '9' || 'a' <= s[i] <= 'f',
{
    let u = choose|u: Seq<char>| #[trigger] is_uuid(u) && s == prefix + u;
    assert(s.take(prefix.len() as int) =~= prefix);
    if prefix.len() <= i < s.len() {
        assert(s[i] == u[i - prefix.len()]);
        assert(is_hex_digit(u[i - prefix.len()]));
    }
}

} // verus!
