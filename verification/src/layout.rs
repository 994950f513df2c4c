//! How a byte array lies in memory.
use crate::bytesinner::PyBytesInner;
use crossbeam_utils::atomic::AtomicCell;
use vstd::prelude::*;

verus! {

/// The lock of `lock_api`, which `parking_lot` builds on. Only its size matters here.
#[verifier::external_type_specification]
#[verifier::external_body]
#[verifier::reject_recursive_types(R)]
#[verifier::reject_recursive_types(T)]
pub struct ExRwLock<R, T: ?Sized>(parking_lot::lock_api::RwLock<R, T>);

/// What `parking_lot` puts into that lock.
#[verifier::external_type_specification]
#[verifier::external_body]
pub struct ExRawRwLock(parking_lot::RawRwLock);

/// A byte array as an object that several owners share: its bytes behind a lock, and the counter of
/// its exports.
pub struct ByteArrayObject {
    pub inner: parking_lot::lock_api::RwLock<parking_lot::RawRwLock, PyBytesInner>,
    pub exports: AtomicCell<usize>,
}

} // verus!
