//! Read-through / write-invalidate caching for query statements.
//!
//! The library holds the logic of the cache layer:
//! - [`error`]: the error type of the cache layer;
//! - [`table`]: the key/value table behind the in-memory cache, and its laws;
//! - [`cacher`]: cheap cloneable cache handles, and the in-memory cache whose
//!   handles share one table;
//! - [`statement_wrappers`]: the three engines that wrap a row stream or an
//!   update (populating, lookup, invalidation), with the laws of their runs;
//! - [`redis_reply`]: what the reply of a Redis `td_get` call holds;
//! - [`pipeline`]: the syntax tree of flow queries, read from a parse tree;
//! - [`online_wait`]: the decisions of a bounded wait for a server to answer.
//!
//! Each engine talks to a cache through the [`cacher::CacheHandle`] trait and
//! to the rows of a query through a plain `Iterator`.
pub mod error;
pub mod table;
pub mod cacher;
pub mod statement_wrappers;
pub mod redis_reply;
pub mod pipeline;
pub mod online_wait;
