//! Verified core of a DICOM series organizer.
//!
//! The library ingests already-probed imaging metadata, groups objects into
//! acquisition series, deduplicates them by SOP instance identifier, keeps
//! every series ordered by spatial position, and plans the relocation and
//! anonymization writes that an I/O driver then carries out.

pub mod tags;
pub mod meta;
pub mod order;
pub mod store;
pub mod aggregator;
pub mod paths;
pub mod plan;
