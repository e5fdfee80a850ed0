//! Collects what is to happen to the rows of database tables, and turns it into a list of changes.
pub mod key;
pub mod laws;
pub mod map;
pub mod model;
pub mod outside;
pub mod pb;
pub mod scalar;
pub mod tables;
pub mod text;
pub mod value;
