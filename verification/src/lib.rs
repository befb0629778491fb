//! Lossless description and reconstruction of CD-ROM images: raw sector
//! framing, the ISO 9660 and Joliet filesystems that live in the sectors, and
//! the patches that carry what the structure does not explain.
pub mod bytes;
pub mod error;
pub mod hexcode;
pub mod iso9660;
pub mod manifest;
pub mod message;
pub mod model;
pub mod ppf;
pub mod ppf_laws;
pub mod raw_cd;
pub mod report;
pub mod report_laws;
pub mod text;
pub mod text_laws;
pub mod xa;
