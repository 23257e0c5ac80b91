//! Aborting pings: the handles of `futures`' abortable futures, and the
//! receipt that a handle was aborted.

use vstd::prelude::*;
use futures::future::AbortHandle;
use futures::future::AbortRegistration;

verus! {

#[verifier::external_type_specification]
#[verifier::external_body]
pub struct ExAbortHandle(AbortHandle);

#[verifier::external_type_specification]
#[verifier::external_body]
pub struct ExAbortRegistration(AbortRegistration);

/// The proof that a handle was aborted. Only `abort_with_receipt` makes one,
/// right after it called `AbortHandle::abort` on the handle it holds.
pub struct AbortReceipt {
    handle: AbortHandle,
}

impl AbortReceipt {
    /// The handle that was aborted.
    pub closed spec fn handle(&self) -> AbortHandle {
        self.handle
    }
}

/// `handle` aborts the future registered with `registration`: the two were
/// made together by `AbortHandle::new_pair` and share one abort flag.
pub uninterp spec fn aborts(handle: AbortHandle, registration: AbortRegistration) -> bool;

/// `AbortHandle::new_pair`: a handle and the registration it aborts (the
/// two share one abort flag).
#[verifier::external_body]
pub(crate) fn new_abort_pair() -> (r: (AbortHandle, AbortRegistration))
    ensures
        aborts(r.0, r.1),
{
    AbortHandle::new_pair()
}

/// `AbortHandle::abort`: asks the future registered with `handle` to stop,
/// and hands back the handle in the receipt of that call.
#[verifier::external_body]
pub(crate) fn abort_with_receipt(handle: AbortHandle) -> (r: AbortReceipt)
    ensures
        r.handle() == handle,
{
    handle.abort();
    AbortReceipt { handle }
}

} // verus!
