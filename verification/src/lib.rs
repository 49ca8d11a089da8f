//! Audio clip metadata of a gzip-wrapped XML project file.
//!
//! The stages run in a line. [`gzip::inflate`] turns the file's bytes into
//! text. [`xml::parse_document`] turns the text into a flat tree, and
//! [`scan::scan_nodes`] walks the tree and collects one raw record per
//! `AudioClip` element; [`scan::scan_file`] does all three. The caller reads
//! each record's start text as a number and makes a clip of it with
//! [`clip::AudioClip::from_raw`]. [`aggregate::aggregate`] orders the clips by
//! start time and lists each sample path once.

pub mod aggregate;
pub mod clip;
pub mod error;
pub mod gzip;
pub mod run;
pub mod scan;
pub mod sort;
pub mod xml;
