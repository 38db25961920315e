//! A verified core for a paginating text reader: a pagination engine that
//! partitions wrapped text rows into fixed-height pages, a per-file
//! reading-progress store with schema-checked persistence, and a session
//! controller that coordinates the current file, page index and cached pages.

mod clock;
pub mod decode;
pub mod pagination;
pub mod persist;
pub mod session;
pub mod store;
