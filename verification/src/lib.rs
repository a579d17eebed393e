//! Compares the contents of two directory trees by the fingerprints of their
//! files.
//!
//! A [`scan::Scanner`] walks one root and records each regular file under
//! it; [`reconcile::reconcile`] groups the records of two scans, side by
//! side, into added, unchanged and conflicting files; [`report`] orders the
//! groups into the lines of a report.

pub mod argument_holder;
pub mod checksum;
pub mod file_result;
pub mod path_order;
pub mod reconcile;
pub mod report;
pub mod results;
pub mod scan;
pub mod text;
