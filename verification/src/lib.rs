//! Schema-migration engine of a database command-line client.
//!
//! The library turns a directory of schema-definition files into a linear,
//! content-addressed sequence of migration scripts and keeps that sequence
//! consistent with what a live database server reports it has applied.
//! All I/O (filesystem, network round-trips to the server) is performed by
//! the surrounding application; the library holds the data model and every
//! decision, each with a verified contract.

pub mod errors;
pub mod preparser;
pub mod sourcemap;
pub mod aggregate;
pub mod records;
pub mod hashid;
pub mod writer;
pub mod create;
pub mod platform;
pub mod markdown;
