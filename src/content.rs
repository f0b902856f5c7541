use std::any::Any;
use std::sync::Arc;
use vstd::prelude::*;

verus! {

/// A type-erased message payload: any value that may be shared between
/// threads, behind an `Arc`. Verus cannot see through `dyn`, so the payload
/// stays opaque to the proofs: only its transport is reasoned about.
#[verifier::external_body]
pub struct Content {
    inner: Arc<dyn Any + Send + Sync>,
}

impl Clone for Content {
    /// Relies on `Arc::clone`: a second handle to the same payload.
    #[verifier::external_body]
    fn clone(&self) -> (r: Content) {
        Content { inner: Arc::clone(&self.inner) }
    }
}

impl Content {
    /// Relies on `Arc::new`: shares `v` behind a fresh `Arc`, its type erased.
    #[verifier::external_body]
    pub fn new<V: Send + Sync + 'static>(v: V) -> (r: Content) {
        Content { inner: Arc::new(v) }
    }

    /// Relies on `Arc::downcast`: the payload as `Arc<H>` when its dynamic
    /// type is `H`, and nothing otherwise.
    #[verifier::external_body]
    pub fn into_inner<H: Send + Sync + 'static>(self) -> (r: Option<Arc<H>>) {
        self.inner.downcast::<H>().ok()
    }
}

} // verus!
