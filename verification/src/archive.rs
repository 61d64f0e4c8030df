//! Archives: their types and compression settings, how their entries are
//! listed, and how an archive is written anew when entries are renamed,
//! deleted or added.

use crate::common::{dotted, relative_to, CommonRomfile};
use crate::config::{effective, integer_readable, integer_value, text_value, HashAlgorithm, Settings};
use crate::hex::{hex_fixed, hex_u32};
use crate::paths::{
    append_chars, file_name, get_lower_extension, join, join_path, lemma_with_extension_parts, lower_extension, parent_part,
    path_extension, set_extension, stem_of, with_extension,
};
use crate::text::{chars_of, replace_all, replaced, same, string_of};
use vstd::prelude::*;

verus! {

pub const SEVENZIP_COMPRESSION_LEVEL_RANGE: [usize; 2] = [1, 9];
pub const ZIP_COMPRESSION_LEVEL_RANGE: [usize; 2] = [1, 9];
pub const ZSTD_COMPRESSION_LEVEL_RANGE: [usize; 2] = [1, 22];

/// Level used when none is configured.
pub const DEFAULT_COMPRESSION_LEVEL: usize = 9;
/// Zstandard level used when none is configured (what RomVault writes).
pub const DEFAULT_ZSTD_COMPRESSION_LEVEL: usize = 19;

/// Extension (and name) of 7z archives.
pub const SEVENZIP_EXTENSION: &'static str = "7z";
/// Extension (and name) of zip archives.
pub const ZIP_EXTENSION: &'static str = "zip";

#[derive(Clone, Copy, Debug, PartialEq, Eq, Structural)]
pub enum SevenzipCompressionAlgorithm {
    Lzma2,
    Zstd,
}

#[derive(Clone, Copy, Debug, PartialEq, Eq, Structural)]
pub enum ZipCompressionAlgorithm {
    Deflate,
    Zstd,
}

/// An algorithm and its level, on that algorithm's own scale.
#[derive(Clone, Copy, Debug, PartialEq, Eq, Structural)]
pub enum ArchiveCompression {
    Deflate(usize),
    Lzma2(usize),
    Zstd(usize),
    /// Whatever the archive crate picks for itself.
    Default,
}

#[derive(Clone, Copy, Debug, PartialEq, Eq, Structural)]
pub enum ArchiveType {
    Sevenzip,
    Zip,
}

/// Why an archive operation was refused.
#[derive(Clone, Copy, Debug, PartialEq, Eq, Structural)]
pub enum ArchiveError {
    /// The file's extension names no archive type.
    NotAnArchive,
}

impl SevenzipCompressionAlgorithm {
    /// The setting values, in declaration order.
    pub const VARIANTS: [&'static str; 2] = ["lzma2", "zstd"];

    /// The lowercase name used in settings.
    pub fn as_str(self) -> (s: &'static str)
        ensures
            s@ == (match self {
                SevenzipCompressionAlgorithm::Lzma2 => "lzma2"@,
                SevenzipCompressionAlgorithm::Zstd => "zstd"@,
            }),
    {
        match self {
            SevenzipCompressionAlgorithm::Lzma2 => "lzma2",
            SevenzipCompressionAlgorithm::Zstd => "zstd",
        }
    }
}

impl ZipCompressionAlgorithm {
    /// The setting values, in declaration order.
    pub const VARIANTS: [&'static str; 2] = ["deflate", "zstd"];

    /// The lowercase name used in settings.
    pub fn as_str(self) -> (s: &'static str)
        ensures
            s@ == (match self {
                ZipCompressionAlgorithm::Deflate => "deflate"@,
                ZipCompressionAlgorithm::Zstd => "zstd"@,
            }),
    {
        match self {
            ZipCompressionAlgorithm::Deflate => "deflate",
            ZipCompressionAlgorithm::Zstd => "zstd",
        }
    }
}

/// The name of an archive type, which is also its extension.
pub open spec fn archive_type_name(t: ArchiveType) -> Seq<char> {
    match t {
        ArchiveType::Sevenzip => "7z"@,
        ArchiveType::Zip => "zip"@,
    }
}

/// The archive type an extension names, if any.
pub open spec fn archive_type_named(ext: Seq<char>) -> Option<ArchiveType> {
    if ext == "7z"@ {
        Some(ArchiveType::Sevenzip)
    } else if ext == "zip"@ {
        Some(ArchiveType::Zip)
    } else {
        None
    }
}

impl ArchiveType {
    /// The type's name, which is also its extension.
    pub fn as_str(self) -> (s: &'static str)
        ensures
            s@ == archive_type_name(self),
    {
        match self {
            ArchiveType::Sevenzip => SEVENZIP_EXTENSION,
            ArchiveType::Zip => ZIP_EXTENSION,
        }
    }

    /// The type named by `name` exactly.
    pub fn from_name(name: &[char]) -> (r: Option<ArchiveType>)
        ensures
            r == archive_type_named(name@),
    {
        let sevenzip = chars_of(SEVENZIP_EXTENSION);
        let zip = chars_of(ZIP_EXTENSION);
        if same(name, &sevenzip) {
            Some(ArchiveType::Sevenzip)
        } else if same(name, &zip) {
            Some(ArchiveType::Zip)
        } else {
            None
        }
    }
}

/// The archive type of a file, read from its extension whatever its case.
pub open spec fn type_of_spec(path: Seq<char>) -> Result<ArchiveType, ArchiveError> {
    match archive_type_named(lower_extension(path)) {
        Some(t) => Ok(t),
        None => Err(ArchiveError::NotAnArchive),
    }
}

/// The archive type of the file at `path`, from its extension.
pub fn type_of(path: &str) -> (r: Result<ArchiveType, ArchiveError>)
    ensures
        r == type_of_spec(path@),
{
    let p = chars_of(path);
    let ext = get_lower_extension(&p);
    match ArchiveType::from_name(&ext) {
        Some(t) => Ok(t),
        None => Err(ArchiveError::NotAnArchive),
    }
}

/// Where an archive is written anew before it takes the old one's place.
pub open spec fn temporary_path_spec(path: Seq<char>) -> Seq<char> {
    with_extension(path, "oxyromon-tmp"@)
}

/// The scratch file an archive is rewritten into, next to it: same
/// directory, same stem, extension `oxyromon-tmp`, so never the archive
/// itself unless that already has this extension.
pub fn temporary_path(path: &str) -> (r: String)
    ensures
        r@ == temporary_path_spec(path@),
        file_name(path@).len() > 0 ==> {
            &&& parent_part(r@) == parent_part(path@)
            &&& stem_of(file_name(r@)) == stem_of(file_name(path@))
            &&& path_extension(r@) == Some("oxyromon-tmp"@)
            &&& (path_extension(path@) != Some("oxyromon-tmp"@) ==> r@ != path@)
        },
{
    let p = chars_of(path);
    let ext = chars_of("oxyromon-tmp");
    proof {
        reveal_strlit("oxyromon-tmp");
        if file_name(path@).len() > 0 {
            lemma_with_extension_parts(path@, "oxyromon-tmp"@);
        }
    }
    string_of(&set_extension(&p, &ext))
}

/// What the configured algorithm name and levels select. An unknown or
/// missing algorithm leaves the choice to the archive crate.
pub open spec fn compression_spec(
    algorithm: Option<Seq<char>>,
    zstd_level: Option<usize>,
    level: Option<usize>,
) -> ArchiveCompression {
    match algorithm {
        Some(a) => if a == "zstd"@ {
            ArchiveCompression::Zstd(zstd_level.unwrap_or(DEFAULT_ZSTD_COMPRESSION_LEVEL))
        } else if a == "lzma2"@ {
            ArchiveCompression::Lzma2(level.unwrap_or(DEFAULT_COMPRESSION_LEVEL))
        } else if a == "deflate"@ {
            ArchiveCompression::Deflate(level.unwrap_or(DEFAULT_COMPRESSION_LEVEL))
        } else {
            ArchiveCompression::Default
        },
        None => ArchiveCompression::Default,
    }
}

/// The compression an archive is written with, from the configured algorithm
/// and the level kept under its own key for Zstandard (1-22) and for the
/// others.
pub fn select_compression(
    algorithm: Option<&str>,
    zstd_level: Option<usize>,
    level: Option<usize>,
) -> (c: ArchiveCompression)
    ensures
        c == compression_spec(
            match algorithm {
                Some(a) => Some(a@),
                None => None,
            },
            zstd_level,
            level,
        ),
{
    match algorithm {
        Some(a) => {
            let a = chars_of(a);
            if same(&a, &chars_of("zstd")) {
                ArchiveCompression::Zstd(
                    match zstd_level {
                        Some(l) => l,
                        None => DEFAULT_ZSTD_COMPRESSION_LEVEL,
                    },
                )
            } else if same(&a, &chars_of("lzma2")) {
                ArchiveCompression::Lzma2(
                    match level {
                        Some(l) => l,
                        None => DEFAULT_COMPRESSION_LEVEL,
                    },
                )
            } else if same(&a, &chars_of("deflate")) {
                ArchiveCompression::Deflate(
                    match level {
                        Some(l) => l,
                        None => DEFAULT_COMPRESSION_LEVEL,
                    },
                )
            } else {
                ArchiveCompression::Default
            }
        },
        None => ArchiveCompression::Default,
    }
}

/// The setting keys of an archive type: its algorithm, its Zstandard level
/// and its other level.
pub fn compression_keys(archive_type: ArchiveType) -> (keys: (&'static str, &'static str, &'static str))
    ensures
        archive_type == ArchiveType::Sevenzip ==> keys.0@ == "SEVENZIP_COMPRESSION_ALGORITHM"@
            && keys.1@ == "SEVENZIP_ZSTD_COMPRESSION_LEVEL"@ && keys.2@
            == "SEVENZIP_COMPRESSION_LEVEL"@,
        archive_type == ArchiveType::Zip ==> keys.0@ == "ZIP_COMPRESSION_ALGORITHM"@ && keys.1@
            == "ZIP_ZSTD_COMPRESSION_LEVEL"@ && keys.2@ == "ZIP_COMPRESSION_LEVEL"@,
{
    match archive_type {
        ArchiveType::Sevenzip => (
            "SEVENZIP_COMPRESSION_ALGORITHM",
            "SEVENZIP_ZSTD_COMPRESSION_LEVEL",
            "SEVENZIP_COMPRESSION_LEVEL",
        ),
        ArchiveType::Zip => (
            "ZIP_COMPRESSION_ALGORITHM",
            "ZIP_ZSTD_COMPRESSION_LEVEL",
            "ZIP_COMPRESSION_LEVEL",
        ),
    }
}

/// The 7z coder an archive is written with.
#[derive(Clone, Copy, Debug, PartialEq, Eq, Structural)]
pub enum SevenzipMethod {
    Lzma2,
    Zstd,
}

/// The 7z coder and level a compression selects: Zstandard and LZMA2 at the
/// chosen level, anything else LZMA2 at the default level.
pub fn sevenzip_method(compression: ArchiveCompression) -> (m: (SevenzipMethod, usize))
    ensures
        m == (match compression {
            ArchiveCompression::Zstd(l) => (SevenzipMethod::Zstd, l),
            ArchiveCompression::Lzma2(l) => (SevenzipMethod::Lzma2, l),
            _ => (SevenzipMethod::Lzma2, DEFAULT_COMPRESSION_LEVEL),
        }),
{
    match compression {
        ArchiveCompression::Zstd(l) => (SevenzipMethod::Zstd, l),
        ArchiveCompression::Lzma2(l) => (SevenzipMethod::Lzma2, l),
        _ => (SevenzipMethod::Lzma2, DEFAULT_COMPRESSION_LEVEL),
    }
}

/// The zip method an archive is written with.
#[derive(Clone, Copy, Debug, PartialEq, Eq, Structural)]
pub enum ZipMethod {
    Deflated,
    Zstd,
}

/// The zip method and level a compression selects: Zstandard or Deflate at
/// the chosen level, anything else Deflate at the crate's own level.
pub fn zip_method(compression: ArchiveCompression) -> (m: (ZipMethod, Option<usize>))
    ensures
        m == (match compression {
            ArchiveCompression::Zstd(l) => (ZipMethod::Zstd, Some(l)),
            ArchiveCompression::Deflate(l) => (ZipMethod::Deflated, Some(l)),
            _ => (ZipMethod::Deflated, None),
        }),
{
    match compression {
        ArchiveCompression::Zstd(l) => (ZipMethod::Zstd, Some(l)),
        ArchiveCompression::Deflate(l) => (ZipMethod::Deflated, Some(l)),
        _ => (ZipMethod::Deflated, None),
    }
}

/// What a 7z archive is re-encoded with when rewritten: Zstandard at the
/// default level if any of its blocks used it, else the crate's default.
pub fn rewrite_compression(uses_zstd: bool) -> (c: ArchiveCompression)
    ensures
        c == (if uses_zstd {
            ArchiveCompression::Zstd(DEFAULT_ZSTD_COMPRESSION_LEVEL)
        } else {
            ArchiveCompression::Default
        }),
{
    if uses_zstd {
        ArchiveCompression::Zstd(DEFAULT_ZSTD_COMPRESSION_LEVEL)
    } else {
        ArchiveCompression::Default
    }
}


/// How the entry names of an archive are passed through a rewrite.
#[derive(Clone, Debug)]
pub enum EntryMap {
    /// Every entry stays as it is (adding to an archive).
    Keep,
    /// The entry named `from` is renamed `to`; the others stay.
    Rename { from: String, to: String },
    /// The entry named `name` is dropped; the others stay.
    Delete { name: String },
}

/// The name an entry has after the rewrite, or `None` when it is dropped.
pub open spec fn mapped(m: EntryMap, name: Seq<char>) -> Option<Seq<char>> {
    match m {
        EntryMap::Keep => Some(name),
        EntryMap::Rename { from, to } => if name == from@ {
            Some(to@)
        } else {
            Some(name)
        },
        EntryMap::Delete { name: gone } => if name == gone@ {
            None
        } else {
            Some(name)
        },
    }
}

impl EntryMap {
    /// The name `name` has after the rewrite, or `None` when it is dropped.
    pub fn apply(&self, name: &str) -> (r: Option<String>)
        ensures
            match r {
                Some(n) => mapped(*self, name@) == Some(n@),
                None => mapped(*self, name@) is None,
            },
    {
        let n = chars_of(name);
        match self {
            EntryMap::Keep => Some(string_of(&n)),
            EntryMap::Rename { from, to } => {
                if same(&n, &chars_of(from.as_str())) {
                    Some(string_of(&chars_of(to.as_str())))
                } else {
                    Some(string_of(&n))
                }
            },
            EntryMap::Delete { name: gone } => {
                if same(&n, &chars_of(gone.as_str())) {
                    None
                } else {
                    Some(string_of(&n))
                }
            },
        }
    }
}

/// The names held by a vector of strings.
pub open spec fn names(v: Seq<String>) -> Seq<Seq<char>> {
    v.map_values(|s: String| s@)
}

/// How many of the first `n` entries lie in `block`.
pub open spec fn members(blocks: Seq<Option<usize>>, block: usize, n: int) -> nat
    decreases n,
{
    if n <= 0 {
        0
    } else {
        members(blocks, block, n - 1) + (if blocks[n - 1] == Some(block) {
            1nat
        } else {
            0nat
        })
    }
}

/// How many of the first `n` entries lie in `block` and survive `m`.
pub open spec fn survivors_in(
    entries: Seq<Seq<char>>,
    blocks: Seq<Option<usize>>,
    block: usize,
    m: EntryMap,
    n: int,
) -> nat
    decreases n,
{
    if n <= 0 {
        0
    } else {
        survivors_in(entries, blocks, block, m, n - 1) + (if blocks[n - 1] == Some(block)
            && mapped(m, entries[n - 1]) is Some {
            1nat
        } else {
            0nat
        })
    }
}

/// How many of the first `n` entries survive `m`.
pub open spec fn survivors(entries: Seq<Seq<char>>, m: EntryMap, n: int) -> nat
    decreases n,
{
    if n <= 0 {
        0
    } else {
        survivors(entries, m, n - 1) + (if mapped(m, entries[n - 1]) is Some {
            1nat
        } else {
            0nat
        })
    }
}

/// What a rewrite does with one compressed block of a 7z archive.
#[derive(Clone, Copy, Debug, PartialEq, Eq, Structural)]
pub enum BlockAction {
    /// Every entry of the block survives: the block is copied as it is, with
    /// the entries' new names.
    Copy,
    /// Some entries survive: those are decoded and encoded anew.
    Reencode,
    /// No entry survives: the block is left out.
    Drop,
}

/// The action for a block from how many entries it holds and how many of
/// them survive.
pub open spec fn block_action(held: nat, kept: nat) -> BlockAction {
    if kept == held {
        BlockAction::Copy
    } else if kept > 0 {
        BlockAction::Reencode
    } else {
        BlockAction::Drop
    }
}

/// The entries of `entries` that lie in no block and survive `m`, as their
/// positions and new names, in order.
pub open spec fn loose_survivors(
    entries: Seq<Seq<char>>,
    blocks: Seq<Option<usize>>,
    m: EntryMap,
    n: int,
) -> Seq<(int, Seq<char>)>
    decreases n,
{
    if n <= 0 {
        seq![]
    } else {
        let before = loose_survivors(entries, blocks, m, n - 1);
        if blocks[n - 1] is None && mapped(m, entries[n - 1]) is Some {
            before.push((n - 1, mapped(m, entries[n - 1]).unwrap()))
        } else {
            before
        }
    }
}

/// A plan for writing a 7z archive anew.
pub struct RewritePlan {
    /// One action per block, in block order.
    pub blocks: Vec<BlockAction>,
    /// Entries in no block (directories, empty files) that are kept, as their
    /// positions and new names, in order.
    pub loose: Vec<(usize, String)>,
    /// How many entries the archive holds afterwards, before any is added.
    pub kept: usize,
}

/// Every entry's block exists.
pub open spec fn blocks_valid(blocks: Seq<Option<usize>>, block_count: usize) -> bool {
    forall|i: int| 0 <= i < blocks.len() ==> (#[trigger] blocks[i] matches Some(b) ==> b
        < block_count)
}

/// Count the entries among the first `n` that lie in `block`, and those that
/// also survive `m`.
fn count_block(
    entries: &Vec<String>,
    blocks: &Vec<Option<usize>>,
    block: usize,
    m: &EntryMap,
) -> (r: (usize, usize))
    requires
        entries@.len() == blocks@.len(),
    ensures
        r.0 == members(blocks@, block, blocks@.len() as int),
        r.1 == survivors_in(names(entries@), blocks@, block, *m, blocks@.len() as int),
{
    let mut held: usize = 0;
    let mut kept: usize = 0;
    let mut i: usize = 0;
    while i < blocks.len()
        invariant
            entries@.len() == blocks@.len(),
            i <= blocks@.len(),
            held == members(blocks@, block, i as int),
            kept == survivors_in(names(entries@), blocks@, block, *m, i as int),
            held <= i,
            kept <= i,
        decreases blocks.len() - i,
    {
        if blocks[i] == Some(block) {
            held += 1;
            let survives = m.apply(entries[i].as_str()).is_some();
            assert(names(entries@)[i as int] == entries@[i as int]@);
            if survives {
                kept += 1;
            }
        }
        i += 1;
    }
    (held, kept)
}

/// Plan the rewrite of a 7z archive whose entries are named `entries`, the
/// `i`-th lying in block `blocks[i]` (or in none), through `m`: a block all
/// of whose entries survive is copied, one some of whose entries survive is
/// re-encoded, one none of whose entries survive is left out; loose entries
/// that survive are written again under their new names.
pub fn plan_rewrite(
    entries: &Vec<String>,
    blocks: &Vec<Option<usize>>,
    block_count: usize,
    m: &EntryMap,
) -> (plan: RewritePlan)
    requires
        entries@.len() == blocks@.len(),
        blocks_valid(blocks@, block_count),
    ensures
        plan.blocks@.len() == block_count,
        forall|b: int|
            0 <= b < block_count ==> #[trigger] plan.blocks@[b] == block_action(
                members(blocks@, b as usize, blocks@.len() as int),
                survivors_in(names(entries@), blocks@, b as usize, *m, blocks@.len() as int),
            ),
        plan.loose@.len() == loose_survivors(names(entries@), blocks@, *m, blocks@.len() as int).len(),
        forall|k: int|
            0 <= k < plan.loose@.len() ==> (#[trigger] plan.loose@[k]).0 as int == loose_survivors(
                names(entries@),
                blocks@,
                *m,
                blocks@.len() as int,
            )[k].0 && plan.loose@[k].1@ == loose_survivors(
                names(entries@),
                blocks@,
                *m,
                blocks@.len() as int,
            )[k].1,
        plan.kept == survivors(names(entries@), *m, entries@.len() as int),
{
    let mut actions: Vec<BlockAction> = Vec::new();
    let mut b: usize = 0;
    while b < block_count
        invariant
            entries@.len() == blocks@.len(),
            b <= block_count,
            actions@.len() == b,
            forall|c: int|
                0 <= c < b ==> #[trigger] actions@[c] == block_action(
                    members(blocks@, c as usize, blocks@.len() as int),
                    survivors_in(names(entries@), blocks@, c as usize, *m, blocks@.len() as int),
                ),
        decreases block_count - b,
    {
        let (held, kept_here) = count_block(entries, blocks, b, m);
        let action = if kept_here == held {
            BlockAction::Copy
        } else if kept_here > 0 {
            BlockAction::Reencode
        } else {
            BlockAction::Drop
        };
        actions.push(action);
        b += 1;
    }
    let mut loose: Vec<(usize, String)> = Vec::new();
    let mut kept: usize = 0;
    let mut i: usize = 0;
    while i < entries.len()
        invariant
            entries@.len() == blocks@.len(),
            i <= entries@.len(),
            kept == survivors(names(entries@), *m, i as int),
            kept <= i,
            loose@.len() == loose_survivors(names(entries@), blocks@, *m, i as int).len(),
            forall|k: int|
                0 <= k < loose@.len() ==> (#[trigger] loose@[k]).0 as int == loose_survivors(
                    names(entries@),
                    blocks@,
                    *m,
                    i as int,
                )[k].0 && loose@[k].1@ == loose_survivors(names(entries@), blocks@, *m, i as int)[k].1,
        decreases entries.len() - i,
    {
        let renamed = m.apply(entries[i].as_str());
        assert(names(entries@)[i as int] == entries@[i as int]@);
        match renamed {
            Some(name) => {
                kept += 1;
                if blocks[i].is_none() {
                    loose.push((i, name));
                }
            },
            None => {},
        }
        i += 1;
    }
    RewritePlan { blocks: actions, loose, kept }
}

/// What becomes of an archive once it has been written anew.
#[derive(Clone, Copy, Debug, PartialEq, Eq, Structural)]
pub enum Replacement {
    /// Nothing was kept: the scratch file and the archive are both removed.
    RemoveArchive,
    /// The scratch file takes the archive's place.
    UseRewritten,
}

/// An archive left empty is removed; otherwise the rewritten one replaces it.
pub open spec fn replacement_spec(kept: nat) -> Replacement {
    if kept == 0 {
        Replacement::RemoveArchive
    } else {
        Replacement::UseRewritten
    }
}

/// Exec form of [`replacement_spec`].
pub fn replacement(kept: usize) -> (r: Replacement)
    ensures
        r == replacement_spec(kept as nat),
{
    if kept == 0 {
        Replacement::RemoveArchive
    } else {
        Replacement::UseRewritten
    }
}

/// What a zip rewrite does with one entry.
#[derive(Clone, Debug)]
pub enum ZipStep {
    /// Copied as it is.
    Copy,
    /// Copied under a new name.
    CopyAs(String),
    /// Left out.
    Skip,
}

/// The step for an entry named `name` under `m`.
pub open spec fn zip_step_spec(m: EntryMap, name: Seq<char>, step: ZipStep) -> bool {
    match mapped(m, name) {
        Some(n) => if n == name {
            step is Copy
        } else {
            step matches ZipStep::CopyAs(t) && t@ == n
        },
        None => step is Skip,
    }
}

/// Plan the rewrite of a zip archive, entry by entry, with how many entries
/// it keeps.
pub fn plan_zip_rewrite(entries: &Vec<String>, m: &EntryMap) -> (r: (Vec<ZipStep>, usize))
    ensures
        r.0@.len() == entries@.len(),
        forall|i: int| 0 <= i < entries@.len() ==> zip_step_spec(*m, entries@[i]@, #[trigger] r.0@[i]),
        r.1 == survivors(names(entries@), *m, entries@.len() as int),
{
    let mut steps: Vec<ZipStep> = Vec::new();
    let mut kept: usize = 0;
    let mut i: usize = 0;
    while i < entries.len()
        invariant
            i <= entries@.len(),
            steps@.len() == i,
            kept <= i,
            kept == survivors(names(entries@), *m, i as int),
            forall|j: int| 0 <= j < i ==> zip_step_spec(*m, entries@[j]@, #[trigger] steps@[j]),
        decreases entries.len() - i,
    {
        let name = entries[i].as_str();
        assert(names(entries@)[i as int] == entries@[i as int]@);
        match m.apply(name) {
            Some(n) => {
                if same(&chars_of(n.as_str()), &chars_of(name)) {
                    steps.push(ZipStep::Copy);
                } else {
                    steps.push(ZipStep::CopyAs(n));
                }
                kept += 1;
            },
            None => {
                steps.push(ZipStep::Skip);
            },
        }
        i += 1;
    }
    (steps, kept)
}


/// How many of the first `n` entries are named `name`.
pub open spec fn occurrences(entries: Seq<Seq<char>>, name: Seq<char>, n: int) -> nat
    decreases n,
{
    if n <= 0 {
        0
    } else {
        occurrences(entries, name, n - 1) + (if entries[n - 1] == name {
            1nat
        } else {
            0nat
        })
    }
}

/// No entry is dropped by `m`.
pub open spec fn spares_all(m: EntryMap, entries: Seq<Seq<char>>) -> bool {
    forall|i: int| 0 <= i < entries.len() ==> (#[trigger] mapped(m, entries[i])) is Some
}

proof fn lemma_spared_counts(
    entries: Seq<Seq<char>>,
    blocks: Seq<Option<usize>>,
    block: usize,
    m: EntryMap,
    n: int,
)
    requires
        0 <= n <= entries.len(),
        entries.len() == blocks.len(),
        spares_all(m, entries),
    ensures
        survivors_in(entries, blocks, block, m, n) == members(blocks, block, n),
        survivors(entries, m, n) == n,
    decreases n,
{
    if n > 0 {
        lemma_spared_counts(entries, blocks, block, m, n - 1);
        assert(mapped(m, entries[n - 1]) is Some);
    }
}

/// Renaming an entry, or adding to an archive, drops nothing: every block of
/// a 7z archive is copied as it is and every entry is kept.
pub proof fn rewrite_sparing_all_copies_every_block(
    entries: Seq<Seq<char>>,
    blocks: Seq<Option<usize>>,
    m: EntryMap,
)
    requires
        entries.len() == blocks.len(),
        m is Keep || m is Rename,
    ensures
        forall|b: usize|
            #[trigger] block_action(
                members(blocks, b, blocks.len() as int),
                survivors_in(entries, blocks, b, m, blocks.len() as int),
            ) == BlockAction::Copy,
        survivors(entries, m, entries.len() as int) == entries.len(),
{
    assert(spares_all(m, entries));
    assert forall|b: usize|
        #[trigger] block_action(
            members(blocks, b, blocks.len() as int),
            survivors_in(entries, blocks, b, m, blocks.len() as int),
        ) == BlockAction::Copy by {
        lemma_spared_counts(entries, blocks, b, m, blocks.len() as int);
    }
    lemma_spared_counts(entries, blocks, 0, m, blocks.len() as int);
}

proof fn lemma_delete_counts(
    entries: Seq<Seq<char>>,
    blocks: Seq<Option<usize>>,
    block: usize,
    name: String,
    n: int,
)
    requires
        0 <= n <= entries.len(),
        entries.len() == blocks.len(),
    ensures
        survivors(entries, EntryMap::Delete { name }, n) + occurrences(entries, name@, n) == n,
        survivors_in(entries, blocks, block, EntryMap::Delete { name }, n) <= members(
            blocks,
            block,
            n,
        ),
        occurrences(entries, name@, n) == 0 ==> survivors_in(
            entries,
            blocks,
            block,
            EntryMap::Delete { name },
            n,
        ) == members(blocks, block, n),
    decreases n,
{
    if n > 0 {
        lemma_delete_counts(entries, blocks, block, name, n - 1);
    }
}

proof fn lemma_delete_one(
    entries: Seq<Seq<char>>,
    blocks: Seq<Option<usize>>,
    block: usize,
    name: String,
    d: int,
    n: int,
)
    requires
        0 <= d < n <= entries.len(),
        entries.len() == blocks.len(),
        entries[d] == name@,
        forall|i: int| 0 <= i < entries.len() && i != d ==> entries[i] != name@,
    ensures
        blocks[d] == Some(block) ==> survivors_in(
            entries,
            blocks,
            block,
            EntryMap::Delete { name },
            n,
        ) + 1 == members(blocks, block, n),
        blocks[d] != Some(block) ==> survivors_in(
            entries,
            blocks,
            block,
            EntryMap::Delete { name },
            n,
        ) == members(blocks, block, n),
    decreases n,
{
    if n - 1 > d {
        lemma_delete_one(entries, blocks, block, name, d, n - 1);
    } else {
        assert forall|i: int| 0 <= i < n - 1 implies entries[i] != name@ by {}
        lemma_no_name_counts(entries, blocks, block, name, n - 1);
    }
}

proof fn lemma_no_name_counts(
    entries: Seq<Seq<char>>,
    blocks: Seq<Option<usize>>,
    block: usize,
    name: String,
    n: int,
)
    requires
        0 <= n <= entries.len(),
        entries.len() == blocks.len(),
        forall|i: int| 0 <= i < n ==> entries[i] != name@,
    ensures
        survivors_in(entries, blocks, block, EntryMap::Delete { name }, n) == members(
            blocks,
            block,
            n,
        ),
        survivors(entries, EntryMap::Delete { name }, n) == n,
    decreases n,
{
    if n > 0 {
        lemma_no_name_counts(entries, blocks, block, name, n - 1);
    }
}

/// Deleting an entry of a 7z archive whose entry names are distinct: the
/// entry's own block is re-encoded if it holds others and left out if not,
/// every other block is copied as it is, and one entry fewer is kept; an
/// archive whose last entry is deleted is removed.
pub proof fn rewrite_deleting_one_entry(
    entries: Seq<Seq<char>>,
    blocks: Seq<Option<usize>>,
    name: String,
    d: int,
)
    requires
        entries.len() == blocks.len(),
        0 <= d < entries.len(),
        entries[d] == name@,
        forall|i: int| 0 <= i < entries.len() && i != d ==> entries[i] != name@,
    ensures
        forall|b: usize|
            blocks[d] != Some(b) ==> #[trigger] block_action(
                members(blocks, b, blocks.len() as int),
                survivors_in(entries, blocks, b, EntryMap::Delete { name }, blocks.len() as int),
            ) == BlockAction::Copy,
        blocks[d] matches Some(bd) ==> block_action(
            members(blocks, bd, blocks.len() as int),
            survivors_in(entries, blocks, bd, EntryMap::Delete { name }, blocks.len() as int),
        ) == (if members(blocks, bd, blocks.len() as int) == 1 {
            BlockAction::Drop
        } else {
            BlockAction::Reencode
        }),
        survivors(entries, EntryMap::Delete { name }, entries.len() as int) + 1 == entries.len(),
        replacement_spec(survivors(entries, EntryMap::Delete { name }, entries.len() as int))
            == (if entries.len() == 1 {
            Replacement::RemoveArchive
        } else {
            Replacement::UseRewritten
        }),
{
    let n = entries.len() as int;
    assert forall|b: usize|
        blocks[d] != Some(b) implies #[trigger] block_action(
            members(blocks, b, n),
            survivors_in(entries, blocks, b, EntryMap::Delete { name }, n),
        ) == BlockAction::Copy by {
        lemma_delete_one(entries, blocks, b, name, d, n);
    }
    if blocks[d] is Some {
        lemma_delete_one(entries, blocks, blocks[d].unwrap(), name, d, n);
    }
    lemma_delete_counts(entries, blocks, 0, name, n);
    lemma_occurrences_one(entries, name@, d, n);
}

proof fn lemma_occurrences_one(entries: Seq<Seq<char>>, name: Seq<char>, d: int, n: int)
    requires
        0 <= d < n <= entries.len(),
        entries[d] == name,
        forall|i: int| 0 <= i < entries.len() && i != d ==> entries[i] != name,
    ensures
        occurrences(entries, name, n) == 1,
    decreases n,
{
    if n - 1 > d {
        lemma_occurrences_one(entries, name, d, n - 1);
    } else {
        lemma_occurrences_none(entries, name, n - 1);
    }
}

proof fn lemma_occurrences_none(entries: Seq<Seq<char>>, name: Seq<char>, n: int)
    requires
        0 <= n <= entries.len(),
        forall|i: int| 0 <= i < n ==> entries[i] != name,
    ensures
        occurrences(entries, name, n) == 0,
    decreases n,
{
    if n > 0 {
        lemma_occurrences_none(entries, name, n - 1);
    }
}

// === reading the configured compression ===

/// The store holds what reading an archive type's compression needs: its
/// algorithm, and the level the algorithm is read with as a number.
pub open spec fn compression_readable(
    v: Seq<(Seq<char>, Option<Seq<char>>, Option<i64>)>,
    keys: (Seq<char>, Seq<char>, Seq<char>),
    system_id: Option<i64>,
) -> bool {
    &&& effective(v, keys.0, system_id) is Some
    &&& text_value(v, keys.0, system_id) == Some("zstd"@) ==> integer_readable(v, keys.1, system_id)
    &&& (text_value(v, keys.0, system_id) == Some("lzma2"@) || text_value(v, keys.0, system_id) == Some(
        "deflate"@,
    )) ==> integer_readable(v, keys.2, system_id)
}

/// The setting keys of an archive type: its algorithm, its Zstandard level
/// and its other level.
pub open spec fn compression_keys_spec(t: ArchiveType) -> (Seq<char>, Seq<char>, Seq<char>) {
    match t {
        ArchiveType::Sevenzip => (
            "SEVENZIP_COMPRESSION_ALGORITHM"@,
            "SEVENZIP_ZSTD_COMPRESSION_LEVEL"@,
            "SEVENZIP_COMPRESSION_LEVEL"@,
        ),
        ArchiveType::Zip => (
            "ZIP_COMPRESSION_ALGORITHM"@,
            "ZIP_ZSTD_COMPRESSION_LEVEL"@,
            "ZIP_COMPRESSION_LEVEL"@,
        ),
    }
}

/// The compression archives of `archive_type` are written with in the
/// system's scope: the configured algorithm at its configured level, the
/// default level when that is null, and the archive crate's own choice for
/// an unknown or null algorithm.
pub fn get_archive_compression(settings: &Settings, archive_type: ArchiveType, system_id: Option<i64>) -> (c: ArchiveCompression)
    requires
        compression_readable(settings@, compression_keys_spec(archive_type), system_id),
    ensures
        ({
            let k = compression_keys_spec(archive_type);
            c == compression_spec(
                text_value(settings@, k.0, system_id),
                integer_value(settings@, k.1, system_id),
                integer_value(settings@, k.2, system_id),
            )
        }),
{
    let (algorithm_key, zstd_key, level_key) = compression_keys(archive_type);
    let algorithm = settings.get_string(algorithm_key, system_id);
    let ghost k = compression_keys_spec(archive_type);
    match algorithm {
        Some(a) => {
            let name = chars_of(a.as_str());
            if same(&name, &chars_of("zstd")) {
                let level = settings.get_integer(zstd_key, system_id);
                select_compression(Some(a.as_str()), level, None)
            } else if same(&name, &chars_of("lzma2")) || same(&name, &chars_of("deflate")) {
                let level = settings.get_integer(level_key, system_id);
                select_compression(Some(a.as_str()), None, level)
            } else {
                select_compression(Some(a.as_str()), None, None)
            }
        },
        None => ArchiveCompression::Default,
    }
}

// === entries of an archive ===

/// An entry as an archive lists it.
#[derive(Clone, Debug)]
pub struct RawEntry {
    pub name: String,
    pub size: u64,
    pub crc: u32,
    pub is_directory: bool,
}

/// An entry is listed when it is a file and, if one name is wanted, has it.
pub open spec fn entry_wanted(e: RawEntry, wanted: Option<Seq<char>>) -> bool {
    !e.is_directory && (wanted matches Some(w) ==> w == e.name@)
}

/// The listing of `entries`: each wanted one as its name, size and CRC-32
/// in eight lowercase hex digits, in order.
pub open spec fn listing_of(entries: Seq<RawEntry>, wanted: Option<Seq<char>>) -> Seq<(Seq<char>, u64, Seq<char>)>
    decreases entries.len(),
{
    if entries.len() == 0 {
        Seq::empty()
    } else {
        let rest = listing_of(entries.drop_last(), wanted);
        let e = entries.last();
        if entry_wanted(e, wanted) {
            rest.push((e.name@, e.size, hex_fixed(e.crc as nat, 8)))
        } else {
            rest
        }
    }
}

/// The views of a listing.
pub open spec fn listing_view(v: Seq<(String, u64, String)>) -> Seq<(Seq<char>, u64, Seq<char>)> {
    v.map_values(|t: (String, u64, String)| (t.0@, t.1, t.2@))
}

/// List the files of an archive as `(path, size, crc)`, keeping only the one
/// named `wanted` when given.
pub fn list_entries(entries: &Vec<RawEntry>, wanted: Option<&str>) -> (r: Vec<(String, u64, String)>)
    ensures
        listing_view(r@) == listing_of(
            entries@,
            match wanted {
                Some(w) => Some(w@),
                None => None,
            },
        ),
{
    let ghost w = match wanted {
        Some(w) => Some(w@),
        None => None::<Seq<char>>,
    };
    let mut r: Vec<(String, u64, String)> = Vec::new();
    let mut i: usize = 0;
    assert(entries@.take(0) =~= Seq::<RawEntry>::empty());
    assert(listing_view(r@) =~= Seq::<(Seq<char>, u64, Seq<char>)>::empty());
    while i < entries.len()
        invariant
            i <= entries@.len(),
            w == (match wanted {
                Some(w) => Some(w@),
                None => None::<Seq<char>>,
            }),
            listing_view(r@) == listing_of(entries@.take(i as int), w),
        decreases entries.len() - i,
    {
        let e = &entries[i];
        let keep = !e.is_directory && match wanted {
            Some(name) => same(&chars_of(name), &chars_of(e.name.as_str())),
            None => true,
        };
        let ghost before = r@;
        if keep {
            r.push((string_of(&chars_of(e.name.as_str())), e.size, string_of(&hex_u32(e.crc))));
            assert(listing_view(r@) =~= listing_view(before).push((e.name@, e.size, hex_fixed(e.crc as nat, 8))));
        }
        proof {
            assert(entries@.take(i + 1).drop_last() =~= entries@.take(i as int));
            assert(entries@.take(i + 1).last() == entries@[i as int]);
        }
        i += 1;
    }
    assert(entries@.take(i as int) =~= entries@);
    r
}

/// A file inside an archive: the archive, the entry's path in it, and the
/// size and CRC-32 the archive records for it (0 and empty when unknown).
#[derive(Clone, Debug)]
pub struct ArchiveRomfile {
    pub romfile: CommonRomfile,
    pub path: String,
    pub archive_type: ArchiveType,
    pub size: u64,
    pub crc: String,
}

/// A copy of `f`: same path and system.
fn copy_romfile(f: &CommonRomfile) -> (r: CommonRomfile)
    ensures
        r.path@ == f.path@,
        r.system_id == f.system_id,
{
    CommonRomfile { path: string_of(&chars_of(f.path.as_str())), system_id: f.system_id }
}

impl CommonRomfile {
    /// The files of this archive, from its listing; refused when its
    /// extension names no archive type.
    pub fn as_archive(&self, listing: &Vec<(String, u64, String)>) -> (r: Result<Vec<ArchiveRomfile>, ArchiveError>)
        requires
            path_extension(self.path@) is Some,
        ensures
            match type_of_spec(self.path@) {
                Ok(t) => r matches Ok(v) && v@.len() == listing@.len() && forall|i: int|
                    0 <= i < v@.len() ==> {
                        &&& (#[trigger] v@[i]).romfile.path@ == self.path@
                        &&& v@[i].romfile.system_id == self.system_id
                        &&& v@[i].path@ == listing@[i].0@
                        &&& v@[i].archive_type == t
                        &&& v@[i].size == listing@[i].1
                        &&& v@[i].crc@ == listing@[i].2@
                    },
                Err(e) => r == Err::<Vec<ArchiveRomfile>, ArchiveError>(e),
            },
    {
        let t = match type_of(self.path.as_str()) {
            Ok(t) => t,
            Err(e) => return Err(e),
        };
        let mut v: Vec<ArchiveRomfile> = Vec::new();
        let mut i: usize = 0;
        while i < listing.len()
            invariant
                i <= listing@.len(),
                v@.len() == i,
                forall|k: int|
                    0 <= k < i ==> {
                        &&& (#[trigger] v@[k]).romfile.path@ == self.path@
                        &&& v@[k].romfile.system_id == self.system_id
                        &&& v@[k].path@ == listing@[k].0@
                        &&& v@[k].archive_type == t
                        &&& v@[k].size == listing@[k].1
                        &&& v@[k].crc@ == listing@[k].2@
                    },
            decreases listing.len() - i,
        {
            let entry = &listing[i];
            v.push(ArchiveRomfile {
                romfile: copy_romfile(self),
                path: string_of(&chars_of(entry.0.as_str())),
                archive_type: t,
                size: entry.1,
                crc: string_of(&chars_of(entry.2.as_str())),
            });
            i += 1;
        }
        Ok(v)
    }

    /// The archive this file is packed into and the entry it becomes: the
    /// archive `archive_name` of `archive_type` in `destination_directory`,
    /// the entry at the file's path relative to `working_directory`, of
    /// unknown size and CRC-32. Also the name the entry is written under,
    /// with `/` for `\`.
    pub fn to_archive(
        &self,
        working_directory: &str,
        destination_directory: &str,
        archive_name: &str,
        archive_type: ArchiveType,
    ) -> (r: (ArchiveRomfile, String))
        requires
            relative_to(self.path@, working_directory@) is Some,
        ensures
            r.0.romfile.path@ == join(destination_directory@, dotted(archive_name@, archive_type_name(archive_type))),
            r.0.romfile.system_id is None,
            r.0.path@ == relative_to(self.path@, working_directory@)->0,
            r.0.archive_type == archive_type,
            r.0.size == 0,
            r.0.crc@ == Seq::<char>::empty(),
            r.1@ == replaced(r.0.path@, seq!['\\'], seq!['/']),
    {
        let mut name = chars_of(archive_name);
        name.push('.');
        append_chars(&mut name, &chars_of(archive_type.as_str()));
        assert(name@ =~= dotted(archive_name@, archive_type_name(archive_type)));
        let archive_path = string_of(&join_path(&chars_of(destination_directory), &name));
        let entry = match self.relative_path(working_directory) {
            Ok(p) => p,
            Err(_) => string_of(&Vec::new()),
        };
        let mut back: Vec<char> = Vec::new();
        back.push('\\');
        let mut slash: Vec<char> = Vec::new();
        slash.push('/');
        let stored = string_of(&replace_all(&chars_of(entry.as_str()), &back, &slash));
        let empty: Vec<char> = Vec::new();
        (
            ArchiveRomfile {
                romfile: CommonRomfile { path: archive_path, system_id: None },
                path: entry,
                archive_type,
                size: 0,
                crc: string_of(&empty),
            },
            stored,
        )
    }
}

impl ArchiveRomfile {
    /// The same file once renamed to `new_path` in its archive.
    pub fn renamed(&self, new_path: &str) -> (r: ArchiveRomfile)
        ensures
            r.romfile.path@ == self.romfile.path@,
            r.romfile.system_id == self.romfile.system_id,
            r.path@ == new_path@,
            r.archive_type == self.archive_type,
            r.size == self.size,
            r.crc@ == self.crc@,
    {
        ArchiveRomfile {
            romfile: copy_romfile(&self.romfile),
            path: string_of(&chars_of(new_path)),
            archive_type: self.archive_type,
            size: self.size,
            crc: string_of(&chars_of(self.crc.as_str())),
        }
    }

    /// Where this file lands when extracted into `directory`.
    pub fn extracted_path(&self, directory: &str) -> (r: String)
        ensures
            r@ == join(directory@, self.path@),
    {
        string_of(&join_path(&chars_of(directory), &chars_of(self.path.as_str())))
    }

    /// The size the archive records for this file, when it records one;
    /// otherwise the file is extracted and measured.
    pub fn recorded_size(&self) -> (r: Option<u64>)
        ensures
            r == (if self.size > 0 {
                Some(self.size)
            } else {
                None
            }),
    {
        if self.size > 0 {
            Some(self.size)
        } else {
            None
        }
    }

    /// The checksum and size the archive records for this file, when they
    /// answer for `algorithm`: only CRC-32, and only when both are known.
    /// Otherwise the file is extracted and hashed.
    pub fn recorded_hash_and_size(&self, algorithm: HashAlgorithm) -> (r: Option<(String, u64)>)
        ensures
            match r {
                Some(h) => algorithm == HashAlgorithm::Crc && self.crc@.len() > 0 && self.size > 0
                    && h.0@ == self.crc@ && h.1 == self.size,
                None => !(algorithm == HashAlgorithm::Crc && self.crc@.len() > 0 && self.size > 0),
            },
    {
        if algorithm == HashAlgorithm::Crc && self.crc.as_str().unicode_len() > 0 && self.size > 0 {
            Some((string_of(&chars_of(self.crc.as_str())), self.size))
        } else {
            None
        }
    }
}

/// How one file is copied from one zip archive to another.
#[derive(Clone, Debug)]
pub enum CopyStep {
    /// Copied raw under its own name.
    Copy(String),
    /// Copied raw under another name: from, to.
    CopyAs(String, String),
}

/// The steps that copy `sources[i]` to `destinations[i]`, pair by pair, as
/// far as the shorter list goes.
pub fn copy_steps(sources: &Vec<String>, destinations: &Vec<String>) -> (r: Vec<CopyStep>)
    ensures
        r@.len() == if sources@.len() <= destinations@.len() {
            sources@.len()
        } else {
            destinations@.len()
        },
        forall|i: int|
            0 <= i < r@.len() ==> match #[trigger] r@[i] {
                CopyStep::Copy(n) => sources@[i]@ == destinations@[i]@ && n@ == sources@[i]@,
                CopyStep::CopyAs(a, b) => sources@[i]@ != destinations@[i]@ && a@ == sources@[i]@ && b@
                    == destinations@[i]@,
            },
{
    let n = if sources.len() <= destinations.len() {
        sources.len()
    } else {
        destinations.len()
    };
    let mut r: Vec<CopyStep> = Vec::new();
    let mut i: usize = 0;
    while i < n
        invariant
            i <= n,
            n <= sources@.len(),
            n <= destinations@.len(),
            r@.len() == i,
            forall|k: int|
                0 <= k < i ==> match #[trigger] r@[k] {
                    CopyStep::Copy(m) => sources@[k]@ == destinations@[k]@ && m@ == sources@[k]@,
                    CopyStep::CopyAs(a, b) => sources@[k]@ != destinations@[k]@ && a@ == sources@[k]@ && b@
                        == destinations@[k]@,
                },
        decreases n - i,
    {
        let a = chars_of(sources[i].as_str());
        let b = chars_of(destinations[i].as_str());
        if same(&a, &b) {
            r.push(CopyStep::Copy(string_of(&a)));
        } else {
            r.push(CopyStep::CopyAs(string_of(&a), string_of(&b)));
        }
        i += 1;
    }
    r
}

} // verus!
