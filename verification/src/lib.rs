//! Resolution of sequencing-archive accession codes into per-file download
//! descriptors.
//!
//! A raw input line is classified into a typed accession
//! ([`accession::AccessionCodes`]), the accession is mapped to the identifier
//! that the record archive can be queried with ([`resolve`]), the records the
//! archive returns are expanded into one [`record::DownloadInfo`] per physical
//! file ([`record`]), and the per-line pipelines are planned and their results
//! collected ([`schedule`]).

pub mod accession;
pub mod record;
pub mod resolve;
pub mod schedule;
