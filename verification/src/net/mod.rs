//! Network request pipeline: the fetch client's configuration, responses, and errors.
pub mod fetch;

pub use fetch::{FetchClient, FetchError, Response};
