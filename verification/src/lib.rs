//! Disk image layout synthesis: resolves a partition schema into byte
//! placements, plans GPT / DOS partition tables and extracts the non-zero
//! metadata chunks of a sparse virtual disk.

pub mod disk;
pub mod generation_laws;
pub mod generator;
pub mod hex;
pub mod imaging;
pub mod layout;
pub mod resolution_laws;
pub mod resolver;
pub mod schema;
pub mod table_io;
pub mod tables;
pub mod utils;

