//! A thumbnail service core: a fingerprint generator that derives a stable
//! cache key from an image request, a bounded least-recently-used result
//! cache, a thumbnail engine that decodes, resizes, tone-adjusts and encodes
//! raster images, and the cache-aware dispatch logic that ties them together.

pub mod params;
pub mod fingerprint;
pub mod cache_model;
pub mod lru_store;
pub mod cache;
pub mod fit;
pub mod tone;
pub mod engine;
pub mod dispatch;
