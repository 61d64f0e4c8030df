//! Verified core of a ROM collection manager: checksums, archive and disc
//! image bookkeeping, tool output parsing, settings and the browser views.

pub mod crc32;
pub mod text;
pub mod paths;
pub mod archive;
pub mod hex;
pub mod model;
pub mod checksum;
pub mod config;
pub mod sort;
pub mod patterns;
pub mod chdman;
pub mod ctrtool;
pub mod common;
pub mod dolphin;
pub mod frontend;
pub mod bchunk;
pub mod check_roms;
pub mod convert_roms;
pub mod create_dats;
pub mod convert_run;
