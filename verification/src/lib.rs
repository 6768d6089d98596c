//! Data-access layer for crawled pages, tags, categories and the crawl queue.
//!
//! The store keeps one table per entity and every operation on it carries a
//! contract over the tables' contents. Request handling and the pool that
//! hands operations to workers are state machines over plain values.

pub mod api;
pub mod crawl_queue;
pub mod db;
pub mod dispatcher;
pub mod error;
pub mod laws;
pub mod models;
pub mod names;
pub mod operation;
pub mod paging;
pub mod worker;
