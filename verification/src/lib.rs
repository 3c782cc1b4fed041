//! The verified core of a small HTTP microservice: an entity store with
//! stable, reusable integer ids; a route dispatcher over a fixed table of
//! typed matchers; streaming and buffered body transforms; and a sampling
//! endpoint that reads a tagged distribution descriptor, draws a value, and
//! frames the response.

pub mod bytes;
pub mod http;
pub mod json;
pub mod number;
pub mod router;
pub mod sampler;
pub mod service;
pub mod store;
pub mod transform;

