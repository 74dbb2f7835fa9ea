//! A minimal origin server core: byte-level pattern search, manual parsing
//! of a constrained HTTP/1.x request subset, a memoizing resource cache, and
//! response formatting. Network and filesystem work stays outside; every
//! function here is specified and verified on plain byte values.

pub mod cache;
pub mod files;
pub mod matcher;
pub mod numbers;
pub mod response;
pub mod server;
