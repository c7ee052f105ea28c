//! Which origins may use the API across sites.

use axum::http::HeaderValue;
use crate::text::same_text;
use vstd::prelude::*;
use vstd::utf8::encode_utf8;

verus! {

/// The origins that are allowed.
#[derive(Debug, PartialEq)]
pub enum CorsPolicy {
    /// Cross-origin requests are not allowed.
    Disabled,
    /// Every origin is allowed.
    AnyOrigin,
    /// These origins are allowed.
    Origins(Vec<String>),
}

/// Whether a text can stand in a header: each of its bytes is a tab, or neither a
/// control character nor the delete character.
pub open spec fn is_header_text(text: Seq<char>) -> bool {
    forall|i: int|
        0 <= i < encode_utf8(text).len() ==> {
            let b = #[trigger] encode_utf8(text)[i];
            b == 9 || (b >= 32 && b != 127)
        }
}

/// Calls [`HeaderValue::from_str`], which takes a text for a header value: it fails
/// exactly on a byte that is a control character other than tab, or delete.
#[verifier::external_body]
fn header_value_accepts(text: &str) -> (r: bool)
    ensures
        r == is_header_text(text@),
{
    HeaderValue::from_str(text).is_ok()
}

/// The origins that can stand in a header, in order.
pub open spec fn header_origins(origins: Seq<String>) -> Seq<String>
    decreases origins.len(),
{
    if origins.len() == 0 {
        seq![]
    } else if is_header_text(origins.last()@) {
        header_origins(origins.drop_last()).push(origins.last())
    } else {
        header_origins(origins.drop_last())
    }
}

/// The policy for a list of configured origins: none of them disables cross-origin
/// requests, `*` among them allows every origin, else those that can stand in a
/// header are allowed.
pub fn build_cors_policy(origins: &Vec<String>) -> (r: CorsPolicy)
    ensures
        match r {
            CorsPolicy::Disabled => origins@.len() == 0,
            CorsPolicy::AnyOrigin => exists|i: int|
                0 <= i < origins@.len() && (#[trigger] origins@[i])@ == "*"@,
            CorsPolicy::Origins(allowed) => {
                &&& origins@.len() > 0
                &&& forall|i: int| 0 <= i < origins@.len() ==> (#[trigger] origins@[i])@ != "*"@
                &&& allowed@ == header_origins(origins@)
            },
        },
{
    if origins.len() == 0 {
        return CorsPolicy::Disabled;
    }
    let mut allowed: Vec<String> = Vec::new();
    let mut i: usize = 0;
    while i < origins.len()
        invariant
            i <= origins@.len(),
            forall|j: int| 0 <= j < i ==> (#[trigger] origins@[j])@ != "*"@,
            allowed@ == header_origins(origins@.take(i as int)),
        decreases origins@.len() - i,
    {
        if same_text(origins[i].as_str(), "*") {
            return CorsPolicy::AnyOrigin;
        }
        proof {
            assert(origins@.take(i + 1).drop_last() =~= origins@.take(i as int));
        }
        if header_value_accepts(origins[i].as_str()) {
            allowed.push(origins[i].clone());
        }
        i = i + 1;
    }
    proof {
        assert(origins@.take(i as int) =~= origins@);
    }
    CorsPolicy::Origins(allowed)
}

} // verus!
