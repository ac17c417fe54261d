//! Resolution of references against a base URL.

use vstd::prelude::*;
use crate::text::opt_chars;

verus! {

/// The absolute URL, in its serialized form, that the reference `reference`
/// stands for when it is met in a document whose base URL is `base`; `None`
/// where `base` is no absolute URL or the reference cannot be resolved
/// against it.
pub uninterp spec fn resolved_url(base: Seq<char>, reference: Seq<char>) -> Option<Seq<char>>;

/// Resolves `reference` against `base`.
///
/// Trusted: the body reads `base` with `url::Url::parse`, resolves the
/// reference with `url::Url::join` and hands back the serialization of the
/// result, or `None` where either step reports a `url::ParseError`. Both
/// steps depend on their arguments alone; the contract gives their joint
/// result the name `resolved_url` and claims nothing else of it.
#[verifier::external_body]
pub(crate) fn join_url(base: &str, reference: &str) -> (r: Option<String>)
    ensures
        opt_chars(r) == resolved_url(base@, reference@),
{
    match url::Url::parse(base) {
        Ok(parsed) => match parsed.join(reference) {
            Ok(joined) => Some(String::from(joined)),
            Err(_) => None,
        },
        Err(_) => None,
    }
}

} // verus!
