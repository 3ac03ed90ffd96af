//! Verified core of a chunk-partitioned game server and its small support library.
pub mod config;
pub mod pos;
pub mod vec_map;
pub mod schunk;
pub mod world;
pub mod channel;
pub mod server;
pub mod ticker;
pub mod array;
pub mod atomic;
pub mod lock;
pub mod perf;
pub mod version;
pub mod option_ext;
pub mod ticker_laws;

pub use array::create_large_array;
pub use atomic::AtomicBox;
pub use channel::{Channel, OnetimeChannel, OnetimeReceiver, OnetimeSender};
pub use lock::{
    AsyncMutexLock, AsyncRwLock, CASAsyncMutexLock, CASAsyncRwLock, CASLock, CASSyncMutexLock,
    CASSyncRwLock, SyncMutexLock, SyncRwLock, ThreadSafe,
};
pub use option_ext::OptionExt;
pub use version::Version;
