//! Marker types naming the lock kinds of the library.
use vstd::prelude::*;

verus! {

/// A type that can be shared and sent between threads.
pub trait ThreadSafe: Sync + Send {

}

/// A lock taken by compare-and-swap.
pub struct CASLock {}

/// A blocking mutual-exclusion lock.
pub struct SyncMutexLock {}

/// An asynchronous mutual-exclusion lock.
pub struct AsyncMutexLock {}

/// A compare-and-swap lock that falls back to `SyncMutexLock`.
pub struct CASSyncMutexLock {}

/// A compare-and-swap lock that falls back to `AsyncMutexLock`.
pub struct CASAsyncMutexLock {}

/// A blocking reader/writer lock.
pub struct SyncRwLock {}

/// An asynchronous reader/writer lock.
pub struct AsyncRwLock {}

/// A compare-and-swap lock that falls back to `SyncRwLock`.
pub struct CASSyncRwLock {}

/// A compare-and-swap lock that falls back to `AsyncRwLock`.
pub struct CASAsyncRwLock {}

} // verus!
