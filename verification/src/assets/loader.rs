//! Finding where an asset lies.

pub mod resolver;

pub use resolver::Resolver;
