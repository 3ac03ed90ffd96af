use messfunc::perf::adjust_decay_rate;
use messfunc::{create_large_array, AtomicBox, Channel, OnetimeChannel, OptionExt, Version};
use std::cell::Cell;

#[test]
fn version_counts_up() {
    let mut v = Version::new();
    let a = v.next();
    let b = v.next();
    assert!(a < b);
    assert_eq!(b, v);
    assert!(Version::new() < a);
}

#[test]
fn large_array_calls_init_in_order() {
    let counter = Cell::new(0u32);
    let arr: Box<[u32; 1000]> = create_large_array(|| {
        let n = counter.get();
        counter.set(n + 1);
        n
    });
    assert_eq!(arr.len(), 1000);
    assert_eq!(arr[0], 0);
    assert_eq!(arr[999], 999);
    assert_eq!(counter.get(), 1000);
}

#[test]
fn option_ext_runs_only_on_some() {
    let seen = Cell::new(0);
    assert!(Some(4).with_some(|x| seen.set(x)));
    assert_eq!(seen.get(), 4);
    assert!(!None::<i32>.with_some(|x| seen.set(x)));
    assert_eq!(seen.get(), 4);
    let o = Some(9);
    assert!(o.with_some_ref(|x| seen.set(*x)));
    assert_eq!(seen.get(), 9);
    let mut m = Some(1);
    assert!(m.with_some_mut(|x| *x += 10));
    assert_eq!(m, Some(11));
    let mut n: Option<i32> = None;
    assert!(!n.with_some_mut(|x| *x += 10));
    assert_eq!(n, None);
}

#[test]
fn atomic_box_update_and_load() {
    let b = AtomicBox::new(5u64);
    assert_eq!(b.load(), 5);
    let old = b.update(6);
    assert_eq!(*old, 5);
    assert_eq!(b.load(), 6);
    let c: AtomicBox<u8> = AtomicBox::from(3u8);
    assert_eq!(c.load(), 3);
}

#[test]
fn atomic_box_shared_handles() {
    let b = std::sync::Arc::new(AtomicBox::new((0u64, 0u64)));
    let other = b.clone();
    for i in 1..100u64 {
        other.update((i, i));
        let (x, y) = b.load();
        assert_eq!((x, y), (i, i));
    }
}

#[test]
fn channel_is_last_in_first_out() {
    let c = Channel::new();
    assert_eq!(c.try_recv(), None);
    c.push(1);
    c.push(2);
    c.push(3);
    assert_eq!(c.try_recv(), Some(3));
    c.push(4);
    assert_eq!(c.try_recv(), Some(4));
    assert_eq!(c.try_recv(), Some(2));
    assert_eq!(c.try_recv(), Some(1));
    assert_eq!(c.try_recv(), None);
}

#[test]
fn onetime_channel_delivers_once() {
    let (tx, rx) = OnetimeChannel::new().split();
    let rx2 = rx.clone();
    assert_eq!(rx.try_recv(), None);
    tx.send(String::from("hi"));
    assert_eq!(rx2.try_recv(), Some(String::from("hi")));
    assert_eq!(rx.try_recv(), None);
}

#[test]
fn decay_rate_follows_tick_time() {
    assert_eq!(adjust_decay_rate(10, 1000, 1001, true), 11);
    assert_eq!(adjust_decay_rate(10, 1000, 1000, true), 9);
    assert_eq!(adjust_decay_rate(255, 1000, 2000, true), 255);
    assert_eq!(adjust_decay_rate(0, 1000, 10, true), 0);
    assert_eq!(adjust_decay_rate(10, 1000, 2000, false), 10);
}

#[test]
fn push_wakes_the_channels_notifier() {
    let rt = tokio::runtime::Builder::new_current_thread().build().unwrap();
    let c: messfunc::Channel<u8> = messfunc::Channel::new();
    c.push(3);
    // the permit that `push` stored is taken by a wait on `notify()`
    rt.block_on(c.notify().notified());
    assert_eq!(c.try_recv(), Some(3));
}

#[test]
fn send_wakes_the_onetime_notifier() {
    let rt = tokio::runtime::Builder::new_current_thread().build().unwrap();
    let (tx, rx) = messfunc::OnetimeChannel::<u8>::new().split();
    let mut waiting = Box::pin(rx.channel.notify().notified());
    waiting.as_mut().enable();
    tx.send(9);
    rt.block_on(waiting);
    assert_eq!(rx.try_recv(), Some(9));
}
