//! Alias bookkeeping and temporary-directory layout of a vector-database
//! storage node.
//!
//! The crate holds the pure logic: the alias table kept by
//! [`alias_mapping::AliasPersistence`], and the paths of the temporary
//! directories derived from the storage configuration in
//! [`temp_directories`]. Reading and writing files is left to the caller.

pub mod paths;
pub mod errors;
pub mod alias_mapping;
pub mod temp_directories;
pub mod laws;
