//! Response caching: lookups, stores, cache keys and the on-disk format.

pub mod format;
pub mod memory;

pub use format::DiskCacheEntry;
pub use memory::{build_cache_key, CacheLookup, CacheStore, CacheSummary, MemoryCache};
