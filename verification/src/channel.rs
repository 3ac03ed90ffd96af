//! Channels between threads, built on a verified reader/writer lock.
//!
//! The buffers sit behind `vstd::rwlock::RwLock`; waking a waiting task goes
//! through `tokio::sync::Notify`.  Awaiting a wake-up is asynchronous, so the
//! waiting loops themselves are written outside this crate on top of the
//! non-blocking operations here.  What a receive gives back depends on how
//! the threads interleave, so those operations promise nothing about it.
use vstd::prelude::*;
use vstd::rwlock::{RwLock, RwLockPredicate};
use std::sync::Arc;
use tokio::sync::Notify;

verus! {

#[verifier::external_type_specification]
#[verifier::external_body]
pub struct ExNotify(tokio::sync::Notify);

/// `tokio::sync::Notify::new`: a notifier with no stored permit.  Nothing is
/// claimed of the result beyond its type.
#[verifier::external_body]
fn notify_new() -> (n: Notify) {
    Notify::new()
}

/// `tokio::sync::Notify::notify_one`: wakes one waiting task or stores a
/// permit.  Nothing observable to the caller is claimed.
#[verifier::external_body]
fn notify_one(n: &Notify) {
    n.notify_one()
}

/// `tokio::sync::Notify::notify_waiters`: wakes every task waiting now.
/// Nothing observable to the caller is claimed.
#[verifier::external_body]
fn notify_waiters(n: &Notify) {
    n.notify_waiters()
}

/// `<Arc<T> as Clone>::clone`: another handle to the same value.
#[verifier::external_body]
fn arc_clone<T>(a: &Arc<T>) -> (r: Arc<T>)
    ensures
        r == *a,
{
    a.clone()
}

/// A lock predicate that admits every value.
pub struct AnyValue;

impl<V> RwLockPredicate<V> for AnyValue {
    open spec fn inv(self, v: V) -> bool {
        true
    }
}

/// A many-to-many channel.  Its buffer is a stack: a receive takes the value
/// sent most recently among those still there.
pub struct Channel<T> {
    inner: RwLock<Vec<T>, AnyValue>,
    notify: Notify,
}

impl<T> Channel<T> {
    /// A channel with an empty buffer.  The buffer sits behind the lock,
    /// whose specification shows only that it admits any buffer, so no
    /// clause states that it starts empty.
    pub fn new() -> (c: Self) {
        Channel { inner: RwLock::new(Vec::new(), Ghost(AnyValue)), notify: notify_new() }
    }

    /// Puts `val` on top of the buffer and wakes one waiting receiver.
    pub fn push(&self, val: T) {
        let (mut buf, handle) = self.inner.acquire_write();
        buf.push(val);
        handle.release_write(buf);
        notify_one(&self.notify);
    }

    /// Takes the top of the buffer, if it holds anything.  Other threads
    /// may push or take in between, so which value comes back, if any, is
    /// left unstated.
    pub fn try_recv(&self) -> (r: Option<T>) {
        let (mut buf, handle) = self.inner.acquire_write();
        let r = buf.pop();
        handle.release_write(buf);
        r
    }

    /// The notifier that `push` wakes.
    pub closed spec fn notifier(&self) -> Notify {
        self.notify
    }

    /// The notifier that `push` wakes.
    pub fn notify(&self) -> (n: &Notify)
        ensures
            *n == self.notifier(),
    {
        &self.notify
    }
}

/// A channel that carries one value from one sender to its receivers.
pub struct OnetimeChannel<T> {
    val: RwLock<Option<T>, AnyValue>,
    notify: Notify,
}

impl<T> OnetimeChannel<T> {
    /// A channel that holds no value yet.  The slot sits behind the lock,
    /// whose specification shows only that it admits any content, so no
    /// clause states that it starts empty.
    pub fn new() -> (c: Self) {
        OnetimeChannel { val: RwLock::new(None, Ghost(AnyValue)), notify: notify_new() }
    }

    /// Splits the channel into its sending and its receiving end, which share it.
    pub fn split(self) -> (r: (OnetimeSender<T>, OnetimeReceiver<T>))
        ensures
            r.0.channel == r.1.channel,
    {
        let channel = Arc::new(self);
        let tx = OnetimeSender { channel: arc_clone(&channel) };
        let rx = OnetimeReceiver { channel };
        (tx, rx)
    }

    /// Stores `val` and wakes every waiting receiver.
    pub fn send(&self, val: T) {
        let (_old, handle) = self.val.acquire_write();
        handle.release_write(Some(val));
        notify_waiters(&self.notify);
    }

    /// Takes the value, if it has been sent and not taken yet.  Whether the
    /// sender or another receiver came first depends on the threads, so the
    /// result is left unstated.
    pub fn try_recv(&self) -> (r: Option<T>) {
        let (v, handle) = self.val.acquire_write();
        handle.release_write(None);
        v
    }

    /// The notifier that `send` wakes.
    pub closed spec fn notifier(&self) -> Notify {
        self.notify
    }

    /// The notifier that `send` wakes.
    pub fn notify(&self) -> (n: &Notify)
        ensures
            *n == self.notifier(),
    {
        &self.notify
    }
}

/// The sending end of a one-time channel.
pub struct OnetimeSender<T> {
    pub channel: Arc<OnetimeChannel<T>>,
}

impl<T> OnetimeSender<T> {
    pub fn send(self, val: T) {
        self.channel.send(val);
    }
}

/// The receiving end of a one-time channel.
#[derive(Clone)]
pub struct OnetimeReceiver<T> {
    pub channel: Arc<OnetimeChannel<T>>,
}

impl<T> OnetimeReceiver<T> {
    /// Takes the value, if it has been sent and not taken yet (see
    /// `OnetimeChannel::try_recv`; the result is left unstated there too).
    pub fn try_recv(&self) -> (r: Option<T>) {
        self.channel.try_recv()
    }
}

} // verus!
