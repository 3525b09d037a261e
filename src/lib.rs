//! An in-memory time-series store: named series of timestamped records, queried through
//! a pipeline of range, filter and window-aggregation stages.

pub mod value;
pub mod entry;
pub mod query;
pub mod expression;
pub mod index;
pub mod aggregate;
pub mod action;
pub mod measurement;
pub mod timedb;
pub mod message;
pub mod http;

pub use action::Action;
pub use aggregate::{AggregateFunction, QueryError};
pub use entry::Entry;
pub use expression::Expression;
pub use query::QueryResponse;
pub use timedb::TimeDb;
pub use value::Value;
