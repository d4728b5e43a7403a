pub mod connection;
pub mod document;
pub mod error;
pub mod fields;
pub mod ops;
