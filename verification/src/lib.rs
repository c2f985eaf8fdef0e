//! Issue aggregation, caching, dependency-graph and query engine for a
//! multi-directory issue tracker whose records live in an external store.

pub mod cache;
pub mod config;
pub mod filter;
pub mod gateway;
pub mod graph;
pub mod model;
pub mod order;
pub mod query;
pub mod readiness;
pub mod save;
pub mod session;
pub mod strmap;
pub mod text;
