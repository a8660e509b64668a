//! Size-bounded log files with a numbered chain of backups.
//!
//! The library decides, and a host carries out: every write request is turned
//! into a short list of file operations over numbered slots (the live file and
//! its backups), together with the size bookkeeping that goes with it. The
//! operations have an exact meaning over a model of the disk, and an in-memory
//! disk runs them the same way.
pub mod disk;
pub mod handler;
pub mod laws;
pub mod naming;
