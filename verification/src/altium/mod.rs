//! Native Altium library parsing.
//!
//! Reads the record streams of `.SchLib` / `.PcbLib` OLE containers.

pub mod records;
pub mod pcblib;
pub mod sch;
pub mod svg;
pub mod library;
