//! Rows of the ROM database that the verified logic reads.

use vstd::prelude::*;

verus! {

/// A system (a DAT file's worth of games).
#[derive(Clone, Debug)]
pub struct System {
    pub id: i64,
    pub name: String,
    pub custom_name: Option<String>,
    pub description: String,
    pub version: String,
    pub url: Option<String>,
    pub arcade: bool,
    pub merging: i64,
    pub completion: i64,
    pub custom_extension: Option<String>,
}

/// A game of a system.
#[derive(Clone, Debug)]
pub struct Game {
    pub id: i64,
    pub name: String,
    pub description: String,
    pub comment: Option<String>,
    pub external_id: Option<String>,
    pub device: bool,
    pub bios: bool,
    pub jbfolder: bool,
    pub regions: String,
    pub sorting: i64,
    pub completion: i64,
    pub system_id: i64,
    pub parent_id: Option<i64>,
    pub bios_id: Option<i64>,
    pub playlist_id: Option<i64>,
}

/// A ROM a game is made of, with the checksums its DAT gives.
#[derive(Clone, Debug)]
pub struct Rom {
    pub id: i64,
    pub name: String,
    pub bios: bool,
    pub disk: bool,
    pub size: i64,
    pub crc: Option<String>,
    pub md5: Option<String>,
    pub sha1: Option<String>,
    pub game_id: i64,
    pub romfile_id: Option<i64>,
    pub parent_id: Option<i64>,
    pub original: bool,
}

/// A file on disk holding one or more ROMs.
#[derive(Clone, Debug)]
pub struct Romfile {
    pub id: i64,
    pub path: String,
    pub size: i64,
    pub parent_id: Option<i64>,
    pub romfile_type: i64,
}

/// A header that dumps of a system may carry before the ROM data.
#[derive(Clone, Debug)]
pub struct Header {
    pub id: i64,
    pub name: String,
    pub version: String,
    pub size: i64,
    pub system_id: i64,
}

/// One test of a header: the bytes at `start_byte` begin with `hex_value`.
#[derive(Clone, Debug)]
pub struct Rule {
    pub start_byte: i64,
    pub hex_value: String,
    pub header_id: i64,
}

/// Where a game's files are sorted to.
#[derive(Clone, Copy, Debug, PartialEq, Eq, Structural)]
pub enum Sorting {
    AllRegions,
    OneRegion,
    Ignored,
}

/// The number a sorting is stored as.
pub open spec fn sorting_number(s: Sorting) -> i64 {
    match s {
        Sorting::AllRegions => 0,
        Sorting::OneRegion => 1,
        Sorting::Ignored => 2,
    }
}

impl Sorting {
    /// The number this sorting is stored as.
    pub fn as_i64(self) -> (n: i64)
        ensures
            n == sorting_number(self),
    {
        match self {
            Sorting::AllRegions => 0,
            Sorting::OneRegion => 1,
            Sorting::Ignored => 2,
        }
    }

    /// The sorting stored as `n`, if any.
    pub fn from_i64(n: i64) -> (s: Option<Sorting>)
        ensures
            match s {
                Some(s) => sorting_number(s) == n,
                None => n < 0 || n > 2,
            },
    {
        if n == 0 {
            Some(Sorting::AllRegions)
        } else if n == 1 {
            Some(Sorting::OneRegion)
        } else if n == 2 {
            Some(Sorting::Ignored)
        } else {
            None
        }
    }
}

} // verus!
