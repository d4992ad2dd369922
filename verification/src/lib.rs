//! Altium database-library tooling: record-stream and library parsers for
//! Altium `.SchLib` / `.PcbLib` files and the `.DbLib` link file format.

pub mod altium;
pub mod text;
pub mod altium_dbl;
pub mod paths;
pub mod dbl_round_trip;
pub mod db;
pub mod update;
pub mod render;
pub mod settings;
pub mod import;
pub mod statements;
