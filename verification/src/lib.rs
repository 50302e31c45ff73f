//! A queryable index of filesystem metadata: a store of file entries with a
//! synchronized full-text shadow index, a scanner policy that decides what is
//! indexed, and a query layer that validates, compiles and executes searches.
pub mod engine;
pub mod indexer;
pub mod order;
pub mod provider;
pub mod query;
pub mod sql;
pub mod store;
pub mod text;
pub mod types;
