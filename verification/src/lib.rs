//! Finds reclaimable disk space, removes it on request, and undoes a removal
//! by reconciling the deletion history with what the trash store still holds.
//!
//! The library decides and counts; it reads no file and moves none. A caller
//! gives it what the host reported and carries out what it asks for.

pub mod cleaner;
pub mod debug_log;
pub mod file_restore;
pub mod history;
pub mod paths;
pub mod plan;
pub mod restore;
pub mod scan_command;
pub mod scanner;
pub mod session;
pub mod status;
pub mod text;
pub mod trash;
