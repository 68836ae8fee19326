//! A benchmark harness for embedded document stores.

pub mod bench;
pub mod collection;
pub mod document;
pub mod kind;
pub mod ops;
pub mod order;
pub mod random;
pub mod report;
pub mod run;
pub mod store;
pub mod text;
pub mod workload;
