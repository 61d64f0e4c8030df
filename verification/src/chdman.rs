//! CHD images made and read by `chdman`: the command lines it is run with
//! and what is read from its reports.

use crate::paths::{append_chars, file_name, get_file_name, join, join_path, set_extension, with_extension};
use crate::config::{decimal, to_decimal};
use crate::text::{
    join_with, joined, replace_all, replaced, strings,
    after_last, after_last_char, before_first, before_first_char, chars_of, contains, has_infix,
    has_prefix, lines, lines_of, parse_u64, parse_unsigned, remove_char, starts_with, string_of,
    trim, trimmed, views, without,
};
use crate::common::{
    has_extension, extension_is, CommonRomfile, RomfileError, CHD_EXTENSION, RDSK_EXTENSION, RIFF_EXTENSION,
};
use crate::paths::path_extension;
use crate::config::HashAlgorithm;
use crate::patterns::{regex_find, regex_first_match};
use vstd::prelude::*;

verus! {

pub const CHD_HUNK_SIZE_RANGE: [usize; 2] = [16, 1048576];
pub const MIN_DREAMCAST_VERSION: &'static str = "0.264";
pub const MIN_SPLITBIN_VERSION: &'static str = "0.265";

/// What a CHD holds.
#[derive(Clone, Copy, Debug, PartialEq, Eq, Structural)]
pub enum ChdType {
    Cd,
    Dvd,
    Hd,
    Ld,
}

/// Codecs for CD images; `Uncompressed` is stored as `none`.
#[derive(Clone, Copy, Debug, PartialEq, Eq, Structural)]
pub enum ChdCdCompressionAlgorithm {
    Uncompressed,
    Cdfl,
    Cdlz,
    Cdzl,
    Cdzs,
}

/// Codecs for DVD images; `Uncompressed` is stored as `none`.
#[derive(Clone, Copy, Debug, PartialEq, Eq, Structural)]
pub enum ChdDvdCompressionAlgorithm {
    Uncompressed,
    Flac,
    Huff,
    Lzma,
    Zlib,
    Zstd,
}

/// Codecs for hard disk images; `Uncompressed` is stored as `none`.
#[derive(Clone, Copy, Debug, PartialEq, Eq, Structural)]
pub enum ChdHdCompressionAlgorithm {
    Uncompressed,
    Flac,
    Huff,
    Lzma,
    Zlib,
    Zstd,
}

/// Codecs for LaserDisc images; `Uncompressed` is stored as `none`.
#[derive(Clone, Copy, Debug, PartialEq, Eq, Structural)]
pub enum ChdLdCompressionAlgorithm {
    Uncompressed,
    Avhu,
}

// === reading `chdman info` ===

/// Position of the first line beginning with `p`, or the number of lines.
pub open spec fn first_with_prefix(ls: Seq<Seq<char>>, p: Seq<char>) -> int
    decreases ls.len(),
{
    if ls.len() == 0 {
        0
    } else if has_prefix(ls[0], p) {
        0
    } else {
        1 + first_with_prefix(ls.drop_first(), p)
    }
}

proof fn lemma_first_with_prefix(ls: Seq<Seq<char>>, p: Seq<char>, n: int)
    requires
        0 <= n <= ls.len(),
        forall|j: int| 0 <= j < n ==> !has_prefix(#[trigger] ls[j], p),
        n == ls.len() || has_prefix(ls[n], p),
    ensures
        first_with_prefix(ls, p) == n,
    decreases n,
{
    if n > 0 {
        assert forall|j: int| 0 <= j < n - 1 implies !has_prefix(#[trigger] ls.drop_first()[j], p) by {
            assert(ls.drop_first()[j] == ls[j + 1]);
        }
        lemma_first_with_prefix(ls.drop_first(), p, n - 1);
    }
}

/// Some line begins with `p`.
pub open spec fn has_line(ls: Seq<Seq<char>>, p: Seq<char>) -> bool {
    first_with_prefix(ls, p) < ls.len()
}

/// The first line beginning with `p`.
pub open spec fn line_with(ls: Seq<Seq<char>>, p: Seq<char>) -> Seq<char> {
    ls[first_with_prefix(ls, p)]
}

/// Position of the first of `ls` that begins with `p`.
fn find_line(ls: &Vec<Vec<char>>, p: &[char]) -> (i: usize)
    ensures
        i == first_with_prefix(views(ls@), p@),
        i <= ls@.len(),
{
    let mut i: usize = 0;
    while i < ls.len()
        invariant
            i <= ls@.len(),
            forall|j: int| 0 <= j < i ==> !has_prefix(#[trigger] views(ls@)[j], p@),
        decreases ls.len() - i,
    {
        assert(views(ls@)[i as int] == ls@[i as int]@);
        if starts_with(&ls[i], p) {
            proof {
                lemma_first_with_prefix(views(ls@), p@, i as int);
            }
            return i;
        }
        i += 1;
    }
    proof {
        lemma_first_with_prefix(views(ls@), p@, i as int);
    }
    i
}

/// The value of a `Name: value` line: what follows its last `:`, trimmed.
pub open spec fn field_of(line: Seq<char>) -> Seq<char> {
    trim(after_last(line, ':'))
}

/// Exec form of [`field_of`].
fn get_field(line: &[char]) -> (r: Vec<char>)
    ensures
        r@ == field_of(line@),
{
    trimmed(&after_last_char(line, ':'))
}

/// The metadata names a CD image's tracks are stored under.
pub open spec fn is_cd_metadata(m: Seq<char>) -> bool {
    has_infix(m, "CHCD"@) || has_infix(m, "CHGD"@) || has_infix(m, "CHGT"@) || has_infix(m, "CHT2"@)
        || has_infix(m, "CHTR"@)
}

/// How many lines, trimmed, begin with `TRACK:`.
pub open spec fn track_count(ls: Seq<Seq<char>>) -> nat
    decreases ls.len(),
{
    if ls.len() == 0 {
        0
    } else {
        track_count(ls.drop_last()) + (if has_prefix(trim(ls.last()), "TRACK:"@) {
            1nat
        } else {
            0nat
        })
    }
}

/// The number in a `Logical size:` line: the first word of its value, with
/// thousands separators taken out.
pub open spec fn size_text(line: Seq<char>) -> Seq<char> {
    without(before_first(field_of(line), ' '), ',')
}

/// Why a `chdman info` report could not be read.
#[derive(Clone, Copy, Debug, PartialEq, Eq, Structural)]
pub enum ChdInfoError {
    /// The logical size is not a number.
    BadSize,
    /// The metadata names no known kind of image.
    UnknownType,
}

/// What a `chdman info` report says of a CHD.
#[derive(Clone, Debug)]
pub struct ChdInfo {
    pub chd_type: ChdType,
    /// Size of the data held, 0 for CD images.
    pub size: u64,
    /// SHA-1 of the data held, empty for CD images.
    pub sha1: String,
    /// SHA-1 of the CHD as a whole.
    pub chd_sha1: String,
    /// SHA-1 of the parent CHD, if it has one.
    pub parent_sha1: Option<String>,
    pub track_count: usize,
}

/// The report has the lines that are read without a check.
pub open spec fn chd_report_complete(out: Seq<char>) -> bool {
    let ls = lines_of(out);
    &&& has_line(ls, "Metadata:"@)
    &&& has_line(ls, "SHA1:"@)
    &&& !is_cd_metadata(line_with(ls, "Metadata:"@)) ==> has_line(ls, "Logical size:"@) && has_line(
        ls,
        "Data SHA1:"@,
    )
}

/// The kind of image the metadata of a non-CD image names.
pub open spec fn other_type(m: Seq<char>) -> Option<ChdType> {
    if has_infix(m, "DVD"@) {
        Some(ChdType::Dvd)
    } else if has_infix(m, "GDDD"@) || has_infix(m, "GDDI"@) {
        Some(ChdType::Hd)
    } else if has_infix(m, "AVAV"@) || has_infix(m, "AVLD"@) {
        Some(ChdType::Ld)
    } else {
        None
    }
}

/// The parent's SHA-1, from its line if there is one.
pub open spec fn parent_sha1_of(ls: Seq<Seq<char>>) -> Option<Seq<char>> {
    if has_line(ls, "Parent SHA1:"@) {
        Some(field_of(line_with(ls, "Parent SHA1:"@)))
    } else {
        None
    }
}

/// What `chdman info` output `out` says, or why it cannot be read.
pub open spec fn chd_report_result(out: Seq<char>, r: Result<ChdInfo, ChdInfoError>) -> bool {
    let ls = lines_of(out);
    let metadata = line_with(ls, "Metadata:"@);
    let chd_sha1 = field_of(line_with(ls, "SHA1:"@));
    if is_cd_metadata(metadata) {
        r matches Ok(info) && info.chd_type == ChdType::Cd && info.size == 0 && info.sha1@ == Seq::<char>::empty()
            && info.chd_sha1@ == chd_sha1 && crate::config::opt_text(info.parent_sha1) == parent_sha1_of(ls)
            && info.track_count == track_count(ls)
    } else {
        match parse_unsigned(size_text(line_with(ls, "Logical size:"@)), 10) {
            None => r == Err::<ChdInfo, ChdInfoError>(ChdInfoError::BadSize),
            Some(size) => match other_type(metadata) {
                Some(t) => r matches Ok(info) && info.chd_type == t && info.size == size
                    && info.sha1@ == field_of(line_with(ls, "Data SHA1:"@)) && info.chd_sha1@ == chd_sha1
                    && crate::config::opt_text(info.parent_sha1) == parent_sha1_of(ls)
                    && info.track_count == 1,
                None => r == Err::<ChdInfo, ChdInfoError>(ChdInfoError::UnknownType),
            },
        }
    }
}

/// The number of lines that, trimmed, begin with `TRACK:`.
proof fn lemma_track_count_counts(ls: Seq<Seq<char>>)
    ensures
        track_count(ls) == ls.filter(|l: Seq<char>| has_prefix(trim(l), "TRACK:"@)).len(),
    decreases ls.len(),
{
    reveal(Seq::filter);
    if ls.len() > 0 {
        lemma_track_count_counts(ls.drop_last());
    }
}

/// A report whose metadata carries any of the CD track tags (`CHCD`,
/// `CHGD` for GD-ROMs, `CHGT`, `CHT2`, `CHTR`) is read as a CD image, of no
/// data size or data SHA-1, with as many tracks as lines that, trimmed,
/// begin with `TRACK:`.
pub proof fn lemma_cd_tags_read_as_cd(out: Seq<char>, r: Result<ChdInfo, ChdInfoError>)
    requires
        chd_report_result(out, r),
        ({
            let m = line_with(lines_of(out), "Metadata:"@);
            has_infix(m, "CHCD"@) || has_infix(m, "CHGD"@) || has_infix(m, "CHGT"@) || has_infix(m, "CHT2"@)
                || has_infix(m, "CHTR"@)
        }),
    ensures
        r matches Ok(info) && info.chd_type == ChdType::Cd && info.size == 0 && info.sha1@.len() == 0
            && info.track_count == lines_of(out).filter(|l: Seq<char>| has_prefix(trim(l), "TRACK:"@)).len(),
{
    lemma_track_count_counts(lines_of(out));
}

/// Whether `chdman info` output has the lines read without a check, so
/// that [`parse_chd_report`] can be called.
pub fn chd_report_is_complete(out: &str) -> (r: bool)
    ensures
        r == chd_report_complete(out@),
{
    let ls = lines(&chars_of(out));
    let m = find_line(&ls, &chars_of("Metadata:"));
    let s = find_line(&ls, &chars_of("SHA1:"));
    if m >= ls.len() || s >= ls.len() {
        return false;
    }
    assert(views(ls@)[m as int] == ls@[m as int]@);
    if is_cd(&ls[m]) {
        return true;
    }
    let z = find_line(&ls, &chars_of("Logical size:"));
    let d = find_line(&ls, &chars_of("Data SHA1:"));
    z < ls.len() && d < ls.len()
}

fn is_cd(metadata: &[char]) -> (r: bool)
    ensures
        r == is_cd_metadata(metadata@),
{
    contains(metadata, &chars_of("CHCD")) || contains(metadata, &chars_of("CHGD")) || contains(
        metadata,
        &chars_of("CHGT"),
    ) || contains(metadata, &chars_of("CHT2")) || contains(metadata, &chars_of("CHTR"))
}

fn count_tracks(ls: &Vec<Vec<char>>) -> (n: usize)
    ensures
        n == track_count(views(ls@)),
{
    let mut n: usize = 0;
    let mut i: usize = 0;
    let track = chars_of("TRACK:");
    while i < ls.len()
        invariant
            i <= ls@.len(),
            n <= i,
            track@ == "TRACK:"@,
            n == track_count(views(ls@).take(i as int)),
        decreases ls.len() - i,
    {
        proof {
            assert(views(ls@).take(i + 1).drop_last() =~= views(ls@).take(i as int));
            assert(views(ls@).take(i + 1).last() == ls@[i as int]@);
        }
        if starts_with(&trimmed(&ls[i]), &track) {
            n += 1;
        }
        i += 1;
    }
    assert(views(ls@).take(ls@.len() as int) =~= views(ls@));
    n
}

/// Read the output of `chdman info`: the image's kind, its data size and
/// SHA-1 (for all but CD images), the CHD's SHA-1, its parent's SHA-1 and,
/// for CD images, how many tracks it holds.
pub fn parse_chd_report(out: &str) -> (r: Result<ChdInfo, ChdInfoError>)
    requires
        chd_report_complete(out@),
    ensures
        chd_report_result(out@, r),
{
    let ls = lines(&chars_of(out));
    let m = find_line(&ls, &chars_of("Metadata:"));
    let s = find_line(&ls, &chars_of("SHA1:"));
    let p = find_line(&ls, &chars_of("Parent SHA1:"));
    assert(views(ls@)[m as int] == ls@[m as int]@);
    assert(views(ls@)[s as int] == ls@[s as int]@);
    let metadata = &ls[m];
    let chd_sha1 = string_of(&get_field(&ls[s]));
    let parent_sha1 = if p < ls.len() {
        assert(views(ls@)[p as int] == ls@[p as int]@);
        Some(string_of(&get_field(&ls[p])))
    } else {
        None
    };
    if is_cd(metadata) {
        return Ok(
            ChdInfo {
                chd_type: ChdType::Cd,
                size: 0,
                sha1: string_of(&Vec::new()),
                chd_sha1,
                parent_sha1,
                track_count: count_tracks(&ls),
            },
        );
    }
    let z = find_line(&ls, &chars_of("Logical size:"));
    let d = find_line(&ls, &chars_of("Data SHA1:"));
    assert(views(ls@)[z as int] == ls@[z as int]@);
    assert(views(ls@)[d as int] == ls@[d as int]@);
    let size_digits = remove_char(&before_first_char(&get_field(&ls[z]), ' '), ',');
    let size = match parse_u64(&size_digits, 10) {
        Some(n) => n,
        None => {
            return Err(ChdInfoError::BadSize);
        },
    };
    let data_sha1 = string_of(&get_field(&ls[d]));
    let chd_type = if contains(metadata, &chars_of("DVD")) {
        ChdType::Dvd
    } else if contains(metadata, &chars_of("GDDD")) || contains(metadata, &chars_of("GDDI")) {
        ChdType::Hd
    } else if contains(metadata, &chars_of("AVAV")) || contains(metadata, &chars_of("AVLD")) {
        ChdType::Ld
    } else {
        return Err(ChdInfoError::UnknownType);
    };
    Ok(ChdInfo { chd_type, size, sha1: data_sha1, chd_sha1, parent_sha1, track_count: 1 })
}


// === command lines ===

/// The `chdman` command that makes a CHD of a type.
pub open spec fn create_command(t: ChdType) -> Seq<char> {
    match t {
        ChdType::Cd => "createcd"@,
        ChdType::Dvd => "createdvd"@,
        ChdType::Hd => "createhd"@,
        ChdType::Ld => "createld"@,
    }
}

/// The `chdman` command that unpacks a CHD of a type.
pub open spec fn extract_command(t: ChdType) -> Seq<char> {
    match t {
        ChdType::Cd => "extractcd"@,
        ChdType::Dvd => "extractdvd"@,
        ChdType::Hd => "extracthd"@,
        ChdType::Ld => "extractld"@,
    }
}

/// Where a CHD made from `source` in `directory` is written.
pub open spec fn chd_path_spec(source: Seq<char>, directory: Seq<char>) -> Seq<char> {
    with_extension(join(directory, file_name(source)), "chd"@)
}

/// The arguments `chdman` is given to make a CHD.
pub open spec fn create_args_spec(
    chd_type: ChdType,
    source: Seq<char>,
    chd_path: Seq<char>,
    hunk_size: Option<usize>,
    algorithms: Seq<Seq<char>>,
    parent: Option<Seq<char>>,
) -> Seq<Seq<char>> {
    seq![create_command(chd_type), "-i"@, source, "-o"@, chd_path] + (match hunk_size {
        Some(h) => seq!["--hunksize"@, decimal(h as nat)],
        None => seq![],
    }) + (if algorithms.len() > 0 {
        seq!["--compression"@, joined(algorithms, ',')]
    } else {
        seq![]
    }) + (match parent {
        Some(p) => seq!["-op"@, p],
        None => seq![],
    })
}

fn push_text(v: &mut Vec<String>, s: &str)
    ensures
        strings(final(v)@) == strings(old(v)@).push(s@),
{
    v.push(string_of(&chars_of(s)));
    assert(strings(v@) =~= strings(old(v)@).push(s@));
}

fn push_chars(v: &mut Vec<String>, s: &[char])
    ensures
        strings(final(v)@) == strings(old(v)@).push(s@),
{
    v.push(string_of(s));
    assert(strings(v@) =~= strings(old(v)@).push(s@));
}

impl ChdType {
    fn create_command(self) -> (s: &'static str)
        ensures
            s@ == create_command(self),
    {
        match self {
            ChdType::Cd => "createcd",
            ChdType::Dvd => "createdvd",
            ChdType::Hd => "createhd",
            ChdType::Ld => "createld",
        }
    }

    fn extract_command(self) -> (s: &'static str)
        ensures
            s@ == extract_command(self),
    {
        match self {
            ChdType::Cd => "extractcd",
            ChdType::Dvd => "extractdvd",
            ChdType::Hd => "extracthd",
            ChdType::Ld => "extractld",
        }
    }
}

/// The CHD to write from `source` into `directory`, and the `chdman`
/// arguments that write it: the hunk size and the codecs when given, and the
/// parent CHD when there is one.
pub fn create_chd_command(
    source: &str,
    directory: &str,
    chd_type: ChdType,
    hunk_size: Option<usize>,
    algorithms: &Vec<String>,
    parent: Option<&str>,
) -> (r: (String, Vec<String>))
    ensures
        r.0@ == chd_path_spec(source@, directory@),
        strings(r.1@) == create_args_spec(
            chd_type,
            source@,
            r.0@,
            hunk_size,
            strings(algorithms@),
            match parent {
                Some(p) => Some(p@),
                None => None,
            },
        ),
{
    let src = chars_of(source);
    let chd_path = set_extension(&join_path(&chars_of(directory), &get_file_name(&src)), &chars_of("chd"));
    let mut args: Vec<String> = Vec::new();
    push_text(&mut args, chd_type.create_command());
    push_text(&mut args, "-i");
    push_chars(&mut args, &src);
    push_text(&mut args, "-o");
    push_chars(&mut args, &chd_path);
    let ghost base = strings(args@);
    if let Some(h) = hunk_size {
        push_text(&mut args, "--hunksize");
        push_chars(&mut args, &to_decimal(h as u64));
    }
    let ghost with_hunk = strings(args@);
    if algorithms.len() > 0 {
        push_text(&mut args, "--compression");
        push_chars(&mut args, &join_with(algorithms, ','));
    }
    let ghost with_codecs = strings(args@);
    if let Some(p) = parent {
        push_text(&mut args, "-op");
        push_text(&mut args, p);
    }
    let r = (string_of(&chd_path), args);
    proof {
        let hunk_part: Seq<Seq<char>> = match hunk_size {
            Some(h) => seq!["--hunksize"@, decimal(h as nat)],
            None => seq![],
        };
        let codec_part: Seq<Seq<char>> = if algorithms@.len() > 0 {
            seq!["--compression"@, joined(strings(algorithms@), ',')]
        } else {
            seq![]
        };
        let parent_part: Seq<Seq<char>> = match parent {
            Some(p) => seq!["-op"@, p@],
            None => seq![],
        };
        assert(with_hunk =~= base + hunk_part);
        assert(with_codecs =~= with_hunk + codec_part);
        assert(strings(r.1@) =~= with_codecs + parent_part);
        assert(base =~= seq![create_command(chd_type), "-i"@, source@, "-o"@, r.0@]);
    }
    r
}

/// Where an unpacked CHD's data goes: a name with `%t` in place of the track
/// number when tracks are split, and, for CD images, a hidden cue sheet.
pub open spec fn extract_paths_spec(
    source: Seq<char>,
    directory: Seq<char>,
    extension: Seq<char>,
    chd_type: ChdType,
    split: bool,
) -> (Seq<char>, Option<Seq<char>>) {
    let bin = with_extension(
        join(directory, file_name(source)),
        if split {
            "%t."@ + extension
        } else {
            extension
        },
    );
    let cue = if chd_type == ChdType::Cd {
        Some(with_extension(join(directory, seq!['.'] + file_name(source)), "cue"@))
    } else {
        None
    };
    (bin, cue)
}

/// The arguments `chdman` is given to unpack a CHD.
pub open spec fn extract_args_spec(
    chd_type: ChdType,
    source: Seq<char>,
    bin: Seq<char>,
    cue: Option<Seq<char>>,
    parent: Option<Seq<char>>,
    split: bool,
) -> Seq<Seq<char>> {
    seq![extract_command(chd_type), "-i"@, source] + (match cue {
        Some(c) => seq!["-o"@, c, "-ob"@, bin],
        None => seq!["-o"@, bin],
    }) + (match parent {
        Some(p) => seq!["-ip"@, p],
        None => seq![],
    }) + (if split {
        seq!["-sb"@]
    } else {
        seq![]
    })
}

/// The files a CHD unpacks to in `directory` (its data, and its cue sheet
/// for CD images), and the `chdman` arguments that unpack it.
pub fn extract_chd_command(
    source: &str,
    directory: &str,
    extension: &str,
    chd_type: ChdType,
    parent: Option<&str>,
    split: bool,
) -> (r: (String, Option<String>, Vec<String>))
    ensures
        (r.0@, crate::config::opt_text(r.1)) == extract_paths_spec(source@, directory@, extension@, chd_type, split),
        strings(r.2@) == extract_args_spec(
            chd_type,
            source@,
            r.0@,
            crate::config::opt_text(r.1),
            match parent {
                Some(p) => Some(p@),
                None => None,
            },
            split,
        ),
{
    let src = chars_of(source);
    let dir = chars_of(directory);
    let name = get_file_name(&src);
    let ext = if split {
        let mut e = chars_of("%t.");
        append_chars(&mut e, &chars_of(extension));
        e
    } else {
        chars_of(extension)
    };
    let bin = set_extension(&join_path(&dir, &name), &ext);
    let cue = match chd_type {
        ChdType::Cd => {
            let mut hidden: Vec<char> = Vec::new();
            hidden.push('.');
            append_chars(&mut hidden, &name);
            assert(hidden@ =~= seq!['.'] + name@);
            Some(set_extension(&join_path(&dir, &hidden), &chars_of("cue")))
        },
        _ => None,
    };
    let mut args: Vec<String> = Vec::new();
    push_text(&mut args, chd_type.extract_command());
    push_text(&mut args, "-i");
    push_chars(&mut args, &src);
    let ghost base = strings(args@);
    match &cue {
        Some(c) => {
            push_text(&mut args, "-o");
            push_chars(&mut args, c);
            push_text(&mut args, "-ob");
            push_chars(&mut args, &bin);
        },
        None => {
            push_text(&mut args, "-o");
            push_chars(&mut args, &bin);
        },
    }
    let ghost with_out = strings(args@);
    if let Some(p) = parent {
        push_text(&mut args, "-ip");
        push_text(&mut args, p);
    }
    let ghost with_parent = strings(args@);
    if split {
        push_text(&mut args, "-sb");
    }
    let cue_text = match &cue {
        Some(c) => Some(string_of(c)),
        None => None,
    };
    let r = (string_of(&bin), cue_text, args);
    proof {
        let out_part: Seq<Seq<char>> = match crate::config::opt_text(r.1) {
            Some(c) => seq!["-o"@, c, "-ob"@, r.0@],
            None => seq!["-o"@, r.0@],
        };
        let parent_part: Seq<Seq<char>> = match parent {
            Some(p) => seq!["-ip"@, p@],
            None => seq![],
        };
        let split_part: Seq<Seq<char>> = if split { seq!["-sb"@] } else { seq![] };
        assert(with_out =~= base + out_part);
        assert(with_parent =~= with_out + parent_part);
        assert(strings(r.2@) =~= with_parent + split_part);
        assert(base =~= seq![extract_command(chd_type), "-i"@, source@]);
        if split {
            assert(ext@ =~= "%t."@ + extension@);
        }
    }
    r
}

/// The file name of the `track`-th (from 1) data file of a split CD image
/// unpacked to `bin_path`.
pub open spec fn track_file_name(bin_path: Seq<char>, track: nat) -> Seq<char> {
    replaced(file_name(bin_path), "%t"@, decimal(track))
}

/// Where each track of a split CD image unpacked to `bin_path` in
/// `directory` lies, tracks counted from 1.
pub fn track_paths(bin_path: &str, directory: &str, track_count: usize) -> (r: Vec<String>)
    requires
        track_count < usize::MAX,
    ensures
        r@.len() == track_count,
        forall|i: int| 0 <= i < track_count ==> (#[trigger] r@[i])@ == join(directory@, track_file_name(bin_path@, (i + 1) as nat)),
{
    let name = get_file_name(&chars_of(bin_path));
    let dir = chars_of(directory);
    let pat = chars_of("%t");
    proof {
        reveal_strlit("%t");
    }
    assert(pat@.len() == 2);
    let mut r: Vec<String> = Vec::new();
    let mut i: usize = 0;
    while i < track_count
        invariant
            i <= track_count,
            track_count < usize::MAX,
            r@.len() == i,
            name@ == file_name(bin_path@),
            dir@ == directory@,
            pat@ == "%t"@,
            pat@.len() == 2,
            forall|j: int| 0 <= j < i ==> (#[trigger] r@[j])@ == join(directory@, track_file_name(bin_path@, (j + 1) as nat)),
        decreases track_count - i,
    {
        let n = to_decimal((i + 1) as u64);
        let file = replace_all(&name, &pat, &n);
        r.push(string_of(&join_path(&dir, &file)));
        i += 1;
    }
    r
}

// === versions ===

/// The pattern a `chdman` version is found by.
pub const CHDMAN_VERSION_PATTERN: &'static str = "\\d+\\.\\d+";

/// A found version, or `unknown`.
pub open spec fn version_or_unknown_spec(found: Option<Seq<char>>) -> Seq<char> {
    match found {
        Some(v) => v,
        None => "unknown"@,
    }
}

/// A found version, or `unknown` when none was found.
pub fn version_or_unknown(found: Option<String>) -> (r: String)
    ensures
        r@ == version_or_unknown_spec(crate::config::opt_text(found)),
{
    match found {
        Some(v) => v,
        None => string_of(&chars_of("unknown")),
    }
}

/// The version `chdman` reports: the first match of its version pattern in
/// the first line of its output, or `unknown`.
pub fn chdman_version(output: &str) -> (r: String)
    ensures
        r@ == version_or_unknown_spec(
            if lines_of(output@).len() > 0 {
                regex_first_match(CHDMAN_VERSION_PATTERN@, lines_of(output@)[0])
            } else {
                None
            },
        ),
{
    let ls = lines(&chars_of(output));
    if ls.len() == 0 {
        return version_or_unknown(None);
    }
    assert(views(ls@)[0] == ls@[0]@);
    let first = string_of(&ls[0]);
    version_or_unknown(regex_find(CHDMAN_VERSION_PATTERN, first.as_str()))
}

/// Whether `version` sorts before `min` (`version.cmp(min) == Less`).
pub fn is_older_version(version: &str, min: &str) -> (r: bool)
    ensures
        r == crate::sort::lex_lt(version@, min@),
{
    crate::sort::less_than(&chars_of(version), &chars_of(min))
}

// === CHD files ===

/// A CHD and what its report says of it; a CHD just written knows only its
/// type and track count.
#[derive(Clone, Debug)]
pub struct ChdRomfile {
    pub romfile: CommonRomfile,
    pub parent_romfile: Option<CommonRomfile>,
    pub chd_type: ChdType,
    pub size: u64,
    pub sha1: String,
    pub chd_sha1: String,
    pub track_count: usize,
}

/// Why a CHD cannot be taken as it is.
#[derive(Clone, Copy, Debug, PartialEq, Eq, Structural)]
pub enum ChdError {
    /// The given parent is not the CHD this one was made against.
    ParentMismatch,
    /// A CD image has no single data size or checksum to measure.
    CdNotMeasurable,
}

/// What a CHD is unpacked to in order to be measured or checked.
#[derive(Clone, Copy, Debug, PartialEq, Eq, Structural)]
pub enum ChdUnpack {
    /// Its CUE sheet and BIN files, checked one ROM per BIN.
    CueBin,
    Iso,
    Rdsk,
    Riff,
}

/// What a CHD of a type unpacks to.
pub open spec fn unpack_of(t: ChdType) -> ChdUnpack {
    match t {
        ChdType::Cd => ChdUnpack::CueBin,
        ChdType::Dvd => ChdUnpack::Iso,
        ChdType::Hd => ChdUnpack::Rdsk,
        ChdType::Ld => ChdUnpack::Riff,
    }
}

/// Where a size or checksum of a CHD's data comes from.
#[derive(Clone, Debug)]
pub enum Measure {
    /// What the report recorded.
    Recorded(u64, String),
    /// The data unpacked this way.
    Unpack(ChdUnpack),
}

/// The parent a CHD's report names is found among `candidates`: the first
/// other CHD whose own SHA-1 is the one named.
pub open spec fn parent_found(
    candidates: Seq<(Seq<char>, Seq<char>)>,
    own_path: Seq<char>,
    parent_sha1: Seq<char>,
    i: int,
) -> bool {
    &&& 0 <= i < candidates.len()
    &&& candidates[i].0 != own_path && candidates[i].1 == parent_sha1
    &&& forall|j: int| 0 <= j < i ==> !(candidates[j].0 != own_path && candidates[j].1 == parent_sha1)
}

impl ChdRomfile {
    /// The CHD at `romfile` as its report describes it, with its parent.
    pub fn from_info(romfile: CommonRomfile, parent_romfile: Option<CommonRomfile>, info: ChdInfo) -> (r: ChdRomfile)
        ensures
            r.romfile == romfile,
            r.parent_romfile == parent_romfile,
            r.chd_type == info.chd_type,
            r.size == info.size,
            r.sha1 == info.sha1,
            r.chd_sha1 == info.chd_sha1,
            r.track_count == info.track_count,
    {
        ChdRomfile {
            romfile,
            parent_romfile,
            chd_type: info.chd_type,
            size: info.size,
            sha1: info.sha1,
            chd_sha1: info.chd_sha1,
            track_count: info.track_count,
        }
    }

    /// The CHD at `romfile` made against `parent`, whose own SHA-1 is
    /// `parent_chd_sha1`: refused when the report names another parent.
    pub fn with_parent(
        romfile: CommonRomfile,
        parent: CommonRomfile,
        parent_chd_sha1: &str,
        info: ChdInfo,
    ) -> (r: Result<ChdRomfile, ChdError>)
        ensures
            match info.parent_sha1 {
                Some(p) => (p@ != parent_chd_sha1@) ==> r == Err::<ChdRomfile, ChdError>(ChdError::ParentMismatch),
                None => true,
            },
            (match info.parent_sha1 {
                Some(p) => p@ == parent_chd_sha1@,
                None => true,
            }) ==> (r matches Ok(c) && c.romfile == romfile && c.parent_romfile == Some(parent)
                && c.chd_type == info.chd_type && c.size == info.size && c.track_count == info.track_count),
    {
        let matches = match &info.parent_sha1 {
            Some(p) => crate::text::same(&chars_of(p.as_str()), &chars_of(parent_chd_sha1)),
            None => true,
        };
        if !matches {
            return Err(ChdError::ParentMismatch);
        }
        Ok(ChdRomfile::from_info(romfile, Some(parent), info))
    }

    /// The CHD just written from an image of `track_count` tracks.
    pub fn written(romfile: CommonRomfile, parent_romfile: Option<CommonRomfile>, chd_type: ChdType, track_count: usize) -> (r: ChdRomfile)
        ensures
            r.romfile == romfile,
            r.parent_romfile == parent_romfile,
            r.chd_type == chd_type,
            r.size == 0,
            r.sha1@.len() == 0,
            r.chd_sha1@.len() == 0,
            r.track_count == track_count,
    {
        let empty: Vec<char> = Vec::new();
        ChdRomfile {
            romfile,
            parent_romfile,
            chd_type,
            size: 0,
            sha1: string_of(&empty),
            chd_sha1: string_of(&empty),
            track_count,
        }
    }

    /// Where this CHD's data size comes from: the recorded one when known,
    /// else its data unpacked; a CD image has none.
    pub fn size_source(&self) -> (r: Result<Measure, ChdError>)
        ensures
            self.size > 0 ==> (r matches Ok(Measure::Recorded(n, _)) && n == self.size),
            self.size == 0 && self.chd_type == ChdType::Cd ==> r == Err::<Measure, ChdError>(ChdError::CdNotMeasurable),
            self.size == 0 && self.chd_type != ChdType::Cd ==> (r matches Ok(Measure::Unpack(u)) && u == unpack_of(self.chd_type)),
    {
        if self.size > 0 {
            return Ok(Measure::Recorded(self.size, string_of(&chars_of(self.sha1.as_str()))));
        }
        self.unpacked()
    }

    /// Where this CHD's data checksum comes from: the recorded SHA-1 when
    /// SHA-1 is asked for and it and the size are known, else its data
    /// unpacked; a CD image has none.
    pub fn hash_source(&self, algorithm: HashAlgorithm) -> (r: Result<Measure, ChdError>)
        ensures
            ({
                let recorded = algorithm == HashAlgorithm::Sha1 && self.sha1@.len() > 0 && self.size > 0;
                &&& recorded ==> (r matches Ok(Measure::Recorded(n, h)) && n == self.size && h@ == self.sha1@)
                &&& !recorded && self.chd_type == ChdType::Cd ==> r == Err::<Measure, ChdError>(ChdError::CdNotMeasurable)
                &&& !recorded && self.chd_type != ChdType::Cd ==> (r matches Ok(Measure::Unpack(u)) && u == unpack_of(self.chd_type))
            }),
    {
        if algorithm == HashAlgorithm::Sha1 && self.sha1.as_str().unicode_len() > 0 && self.size > 0 {
            return Ok(Measure::Recorded(self.size, string_of(&chars_of(self.sha1.as_str()))));
        }
        self.unpacked()
    }

    fn unpacked(&self) -> (r: Result<Measure, ChdError>)
        ensures
            self.chd_type == ChdType::Cd ==> r == Err::<Measure, ChdError>(ChdError::CdNotMeasurable),
            self.chd_type != ChdType::Cd ==> (r matches Ok(Measure::Unpack(u)) && u == unpack_of(self.chd_type)),
    {
        match self.chd_type {
            ChdType::Cd => Err(ChdError::CdNotMeasurable),
            ChdType::Dvd => Ok(Measure::Unpack(ChdUnpack::Iso)),
            ChdType::Hd => Ok(Measure::Unpack(ChdUnpack::Rdsk)),
            ChdType::Ld => Ok(Measure::Unpack(ChdUnpack::Riff)),
        }
    }

    /// What this CHD is unpacked to when checked.
    pub fn check_unpack(&self) -> (u: ChdUnpack)
        ensures
            u == unpack_of(self.chd_type),
    {
        match self.chd_type {
            ChdType::Cd => ChdUnpack::CueBin,
            ChdType::Dvd => ChdUnpack::Iso,
            ChdType::Hd => ChdUnpack::Rdsk,
            ChdType::Ld => ChdUnpack::Riff,
        }
    }

    /// Whether a CD image is unpacked to one BIN file per track.
    pub fn split_tracks(&self) -> (b: bool)
        ensures
            b == (self.track_count > 1),
    {
        self.track_count > 1
    }
}

/// The parent of the CHD at `own_path` among `candidates` (each a CHD's path
/// and own SHA-1): the first other one whose SHA-1 is `parent_sha1`.
pub fn find_parent(candidates: &Vec<(String, String)>, own_path: &str, parent_sha1: &str) -> (r: Option<usize>)
    ensures
        ({
            let c = candidates@.map_values(|p: (String, String)| (p.0@, p.1@));
            match r {
                Some(i) => parent_found(c, own_path@, parent_sha1@, i as int),
                None => forall|j: int| 0 <= j < c.len() ==> !(c[j].0 != own_path@ && c[j].1 == parent_sha1@),
            }
        }),
{
    let ghost c = candidates@.map_values(|p: (String, String)| (p.0@, p.1@));
    let own = chars_of(own_path);
    let sha = chars_of(parent_sha1);
    let mut i: usize = 0;
    while i < candidates.len()
        invariant
            i <= candidates@.len(),
            c == candidates@.map_values(|p: (String, String)| (p.0@, p.1@)),
            own@ == own_path@,
            sha@ == parent_sha1@,
            forall|j: int| 0 <= j < i ==> !(c[j].0 != own_path@ && c[j].1 == parent_sha1@),
        decreases candidates.len() - i,
    {
        let path = chars_of(candidates[i].0.as_str());
        let own_sha = chars_of(candidates[i].1.as_str());
        assert(c[i as int] == (candidates@[i as int].0@, candidates@[i as int].1@));
        if !crate::text::same(&path, &own) && crate::text::same(&own_sha, &sha) {
            return Some(i);
        }
        i += 1;
    }
    None
}

/// A LaserDisc image, as `chdman` writes it out of a CHD.
#[derive(Clone, Debug)]
pub struct RiffRomfile {
    pub romfile: CommonRomfile,
}

/// A raw hard-disk image, as `chdman` writes it out of a CHD.
#[derive(Clone, Debug)]
pub struct RdskRomfile {
    pub romfile: CommonRomfile,
}

/// The parent a CHD's report names, among `candidates`: the first other CHD
/// whose own SHA-1 is the one named, as a file of no known system.
pub open spec fn parent_among(
    candidates: Seq<(Seq<char>, Seq<char>)>,
    own_path: Seq<char>,
    parent_sha1: Option<Seq<char>>,
    found: Option<CommonRomfile>,
) -> bool {
    match parent_sha1 {
        None => found is None,
        Some(p) => match found {
            Some(f) => f.system_id is None && exists|i: int|
                parent_found(candidates, own_path, p, i) && f.path@ == (#[trigger] candidates[i]).0,
            None => forall|j: int|
                0 <= j < candidates.len() ==> !((#[trigger] candidates[j]).0 != own_path && candidates[j].1 == p),
        },
    }
}

impl CommonRomfile {
    /// This file as a LaserDisc image: refused unless its extension is
    /// `riff`, whatever its case.
    pub fn as_riff(self) -> (r: Result<RiffRomfile, RomfileError>)
        requires
            path_extension(self.path@) is Some,
        ensures
            has_extension(self.path@, RIFF_EXTENSION@) ==> (r matches Ok(f) && f.romfile == self),
            !has_extension(self.path@, RIFF_EXTENSION@) ==> r == Err::<RiffRomfile, RomfileError>(RomfileError::NotRiff),
    {
        if extension_is(self.path.as_str(), RIFF_EXTENSION) {
            Ok(RiffRomfile { romfile: self })
        } else {
            Err(RomfileError::NotRiff)
        }
    }

    /// This file as a raw hard-disk image: refused unless its extension is
    /// `rdsk`, whatever its case.
    pub fn as_rdsk(self) -> (r: Result<RdskRomfile, RomfileError>)
        requires
            path_extension(self.path@) is Some,
        ensures
            has_extension(self.path@, RDSK_EXTENSION@) ==> (r matches Ok(f) && f.romfile == self),
            !has_extension(self.path@, RDSK_EXTENSION@) ==> r == Err::<RdskRomfile, RomfileError>(RomfileError::NotRdsk),
    {
        if extension_is(self.path.as_str(), RDSK_EXTENSION) {
            Ok(RdskRomfile { romfile: self })
        } else {
            Err(RomfileError::NotRdsk)
        }
    }

    /// This file as a CHD that `info` (read from its report) describes:
    /// refused unless its extension is `chd`, whatever its case. Its parent,
    /// when the report names one, is looked for among `candidates`, the other
    /// CHDs beside it, each with its own SHA-1.
    pub fn as_chd(self, info: ChdInfo, candidates: &Vec<(String, String)>) -> (r: Result<ChdRomfile, RomfileError>)
        requires
            path_extension(self.path@) is Some,
        ensures
            !has_extension(self.path@, CHD_EXTENSION@) ==> r == Err::<ChdRomfile, RomfileError>(RomfileError::NotChd),
            has_extension(self.path@, CHD_EXTENSION@) ==> (r matches Ok(c) && c.romfile == self
                && c.chd_type == info.chd_type && c.size == info.size && c.sha1 == info.sha1
                && c.chd_sha1 == info.chd_sha1 && c.track_count == info.track_count
                && parent_among(
                    candidates@.map_values(|p: (String, String)| (p.0@, p.1@)),
                    self.path@,
                    crate::config::opt_text(info.parent_sha1),
                    c.parent_romfile,
                )),
    {
        if !extension_is(self.path.as_str(), CHD_EXTENSION) {
            return Err(RomfileError::NotChd);
        }
        let ghost cands = candidates@.map_values(|p: (String, String)| (p.0@, p.1@));
        let parent = match &info.parent_sha1 {
            None => None,
            Some(p) => match find_parent(candidates, self.path.as_str(), p.as_str()) {
                Some(i) => {
                    assert(cands[i as int].0 == candidates@[i as int].0@);
                    Some(CommonRomfile::from_path(candidates[i].0.as_str()))
                },
                None => None,
            },
        };
        Ok(ChdRomfile::from_info(self, parent, info))
    }
}

/// The BIN files a split CD image leaves in `directory`, tracks counted from
/// 1: each takes the name of its ROM when there is one.
pub fn named_tracks(bin_path: &str, directory: &str, track_count: usize, rom_names: &Vec<String>) -> (r: Vec<String>)
    requires
        track_count < usize::MAX,
    ensures
        r@.len() == track_count,
        forall|i: int|
            0 <= i < track_count ==> (#[trigger] r@[i])@ == if i < rom_names@.len() {
                join(directory@, rom_names@[i]@)
            } else {
                join(directory@, track_file_name(bin_path@, (i + 1) as nat))
            },
{
    let paths = track_paths(bin_path, directory, track_count);
    let dir = chars_of(directory);
    let mut r: Vec<String> = Vec::new();
    let mut i: usize = 0;
    while i < track_count
        invariant
            i <= track_count,
            paths@.len() == track_count,
            dir@ == directory@,
            forall|k: int| 0 <= k < track_count ==> (#[trigger] paths@[k])@ == join(directory@, track_file_name(bin_path@, (k + 1) as nat)),
            r@.len() == i,
            forall|k: int|
                0 <= k < i ==> (#[trigger] r@[k])@ == if k < rom_names@.len() {
                    join(directory@, rom_names@[k]@)
                } else {
                    join(directory@, track_file_name(bin_path@, (k + 1) as nat))
                },
        decreases track_count - i,
    {
        if i < rom_names.len() {
            r.push(string_of(&join_path(&dir, &chars_of(rom_names[i].as_str()))));
        } else {
            r.push(string_of(&chars_of(paths[i].as_str())));
        }
        i += 1;
    }
    r
}

} // verus!
