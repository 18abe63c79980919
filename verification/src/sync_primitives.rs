//! A spin lock's state: a lock flag beside the data it guards.

use vstd::prelude::*;

verus! {

/// A mutual-exclusion lock built on an atomic flag.
pub struct MyMutex<T> {
    locked: std::sync::atomic::AtomicBool,
    data: T,
}

} // verus!
