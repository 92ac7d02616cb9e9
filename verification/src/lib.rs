//! A partition-compute-merge engine for row-wise Jaccard similarity over
//! list-of-integer columns, together with a null-propagating elementwise
//! sum transform for deferred query plans.
//!
//! The engine splits a table into contiguous row partitions, evaluates each
//! partition independently, and concatenates the per-partition results in
//! partition order, so that the degree of parallelism is unobservable in the
//! output. Host-side concerns (dataframe marshalling, thread dispatch, plan
//! registration) live outside this crate; the types here hold the cell
//! values as plain data.

pub mod elementwise;
pub mod engine;
pub mod jaccard;
pub mod partition;
pub mod table;
