use std::sync::Arc;
use vstd::prelude::*;

verus! {

/// Calls `Arc::clone`: another pointer to the same value.
#[verifier::external_body]
pub(crate) fn share<T>(p: &Arc<T>) -> (r: Arc<T>)
    ensures
        r == *p,
{
    Arc::clone(p)
}

/// Another pointer to what an optional pointer points to.
pub(crate) fn share_option<T>(p: &Option<Arc<T>>) -> (r: Option<Arc<T>>)
    ensures
        r == *p,
{
    match p {
        Some(p) => Some(share(p)),
        None => None,
    }
}

} // verus!
