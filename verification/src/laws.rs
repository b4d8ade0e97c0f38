//! What the library promises, stated of inputs and results.
//!
//! The contracts of the functions define their results. The laws here say what these results come
//! to: which devices are touched, what is refused, what a text shows, how the results of two calls
//! are related.

pub mod commands;
pub mod comparing;
pub mod contents;
pub mod cutting;
pub mod cycling;
pub mod devices;
pub mod flags;
pub mod limits;
pub mod manifests;
pub mod naming;
pub mod numbers;
pub mod paths;
pub mod planning;
pub mod readiness;
pub mod refusing;
pub mod registers;
pub mod reporting;
pub mod texts;
pub mod waiting;
