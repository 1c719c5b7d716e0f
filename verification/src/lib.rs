//! Verified management of hostname-to-address mappings kept in a
//! line-oriented hosts file: classifying lines, adding, updating and
//! removing entries while preserving every other line verbatim.
pub mod address;
pub mod hostname;
pub mod hostsentry;
pub mod hostsfile;
pub mod text;
