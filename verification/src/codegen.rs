//! Short-code generation: compact, URL-safe, collision-resistant
//! identifiers for new entries.
//!
//! Generation performs no uniqueness check; uniqueness is enforced by the
//! persistent store's insert constraint, and the create path retries on a
//! collision with a freshly generated code.

use vstd::prelude::*;

verus! {

/// Characters a short code may contain: ASCII letters, digits, `_` and
/// `-`, all of which pass through a URL unescaped.
pub open spec fn is_url_safe_char(c: char) -> bool {
    ||| c == '_'
    ||| c == '-'
    ||| '0' <= c && c <= '9'
    ||| 'a' <= c && c <= 'z'
    ||| 'A' <= c && c <= 'Z'
}

/// A well-formed short code: eight characters, each URL-safe.
pub open spec fn valid_code(s: Seq<char>) -> bool {
    s.len() == 8 && forall|i: int| 0 <= i < s.len() ==> is_url_safe_char(s[i])
}

/// Relies on nanoid::format, driven by nanoid's default random source
/// over its URL-safe alphabet (ASCII letters, digits, `_`, `-`): the
/// returned identifier has exactly the requested number of characters,
/// each drawn from that alphabet. The identifier is random, so nothing
/// else holds of it.
#[verifier::external_body]
pub(crate) fn generate_code() -> (r: String)
    ensures
        valid_code(r@),
{
    nanoid::format(nanoid::rngs::default, &nanoid::alphabet::SAFE, 8)
}

} // verus!
