//! What `ctrtool` reports of a CIA file: its contents and their sizes, and
//! the files it saved when unpacking one.

use crate::config::{decimal, to_decimal};
use crate::paths::{join, join_path};
use crate::text::{
    chars_of, has_prefix, index_of, lemma_index_of_bound, lines, lines_of, parse_u64, parse_unsigned,
    starts_with, string_of, trim, trimmed, views, find_char_from,
};
use vstd::prelude::*;

verus! {

pub const CA_CERT_SIZE: usize = 0x400;
pub const CA_CERT_OFFSET: u64 = 0;
pub const TICKET_CERT_SIZE: usize = 0x300;
pub const TICKET_CERT_OFFSET: u64 = 0x400;
pub const TMD_CERT_SIZE: usize = 0x300;
pub const TMD_CERT_OFFSET: u64 = 0x700;

/// A file inside a CIA and its size.
#[derive(Clone, Debug)]
pub struct ArchiveInfo {
    pub path: String,
    pub size: u64,
}

/// `s` less every leading character in `set`.
pub open spec fn strip_leading(s: Seq<char>, set: Seq<char>) -> Seq<char>
    decreases s.len(),
{
    if s.len() > 0 && set.contains(s[0]) {
        strip_leading(s.drop_first(), set)
    } else {
        s
    }
}

/// `s` less every trailing `c`.
pub open spec fn strip_trailing(s: Seq<char>, c: char) -> Seq<char>
    decreases s.len(),
{
    if s.len() > 0 && s.last() == c {
        strip_trailing(s.drop_last(), c)
    } else {
        s
    }
}

/// `s.trim_start_matches(p)`: `s` less every leading repetition of `p`.
pub open spec fn strip_repeated(s: Seq<char>, p: Seq<char>) -> Seq<char>
    decreases s.len(),
{
    if p.len() > 0 && has_prefix(s, p) {
        strip_repeated(s.skip(p.len() as int), p)
    } else {
        s
    }
}

/// The characters a content line may be indented with.
pub open spec fn tree_chars() -> Seq<char> {
    seq![' ', '|', '\\', '-']
}

/// A hexadecimal field: trimmed, then less its `0x` prefixes.
pub open spec fn hex_field(s: Seq<char>) -> Seq<char> {
    strip_repeated(trim(s), "0x"@)
}

/// The number in a `TitleVersion` value: what follows its first `(`, less
/// trailing `)`.
pub open spec fn version_text(s: Seq<char>) -> Seq<char> {
    strip_trailing(s.skip(index_of(s, '(') + 1), ')')
}

/// What has been read of a report so far: the title version, the size of
/// the title metadata, a content id waiting for its size, the contents found,
/// and whether every field read so far could be read.
pub struct CiaScan {
    pub version: Option<u16>,
    pub tmd_size: u64,
    pub content_id: Option<Seq<char>>,
    pub contents: Seq<(Seq<char>, u64)>,
    pub readable: bool,
}

/// Reading one line of a report.
pub open spec fn scan_line(st: CiaScan, line: Seq<char>) -> CiaScan {
    let stripped = strip_leading(line, tree_chars());
    if has_prefix(line, "|- TitleVersion:  "@) {
        let rest = line.skip(18);
        let v = parse_unsigned(version_text(rest), 10);
        if index_of(rest, '(') < rest.len() && v is Some && v->0 <= u16::MAX {
            CiaScan { version: Some(v->0 as u16), ..st }
        } else {
            CiaScan { readable: false, ..st }
        }
    } else if has_prefix(line, "|- TitleMetaSize:"@) {
        match parse_unsigned(hex_field(line.skip(17)), 16) {
            Some(n) => CiaScan { tmd_size: n, ..st },
            None => CiaScan { readable: false, ..st },
        }
    } else if has_prefix(stripped, "ContentId:   0x"@) {
        CiaScan { content_id: Some(trim(stripped.skip(15))), ..st }
    } else if has_prefix(stripped, "Size:"@) {
        match st.content_id {
            Some(id) => match parse_unsigned(hex_field(stripped.skip(5)), 16) {
                Some(n) => CiaScan { content_id: None, contents: st.contents.push((id, n)), ..st },
                None => CiaScan { readable: false, ..st },
            },
            None => st,
        }
    } else {
        st
    }
}

/// Reading lines in order.
pub open spec fn scan_lines(st: CiaScan, ls: Seq<Seq<char>>) -> CiaScan
    decreases ls.len(),
{
    if ls.len() == 0 {
        st
    } else {
        scan_lines(scan_line(st, ls[0]), ls.drop_first())
    }
}

/// Reading a whole report.
pub open spec fn scan_report(out: Seq<char>) -> CiaScan {
    scan_lines(
        CiaScan { version: None, tmd_size: 0, content_id: None, contents: seq![], readable: true },
        lines_of(out),
    )
}

/// A report can be read: every field parses, there is a title version, and
/// the title metadata with its certificates has a size that fits.
pub open spec fn cia_report_readable(out: Seq<char>) -> bool {
    let st = scan_report(out);
    &&& st.readable
    &&& st.version is Some
    &&& st.tmd_size + TMD_CERT_SIZE + CA_CERT_SIZE <= u64::MAX
}

/// What a report lists: each content with its size, then the title metadata
/// (`tmd.<version>`) with the two certificates appended to it.
pub open spec fn cia_contents(out: Seq<char>) -> Seq<(Seq<char>, u64)> {
    let st = scan_report(out);
    st.contents.push(
        ("tmd."@ + decimal(st.version->0 as nat), (st.tmd_size + TMD_CERT_SIZE + CA_CERT_SIZE) as u64),
    )
}

/// The texts of a list of archive entries.
pub open spec fn infos(v: Seq<ArchiveInfo>) -> Seq<(Seq<char>, u64)> {
    v.map_values(|a: ArchiveInfo| (a.path@, a.size))
}

fn strip_leading_exec(s: &[char]) -> (r: usize)
    ensures
        r <= s@.len(),
        s@.skip(r as int) == strip_leading(s@, tree_chars()),
{
    let mut i: usize = 0;
    assert(s@.skip(0) =~= s@);
    while i < s.len() && (s[i] == ' ' || s[i] == '|' || s[i] == '\\' || s[i] == '-')
        invariant
            i <= s@.len(),
            strip_leading(s@.skip(i as int), tree_chars()) == strip_leading(s@, tree_chars()),
        decreases s.len() - i,
    {
        proof {
            let t = s@.skip(i as int);
            assert(tree_chars().contains(t[0])) by {
                assert(t[0] == s@[i as int]);
                if t[0] == ' ' { assert(tree_chars()[0] == ' '); }
                else if t[0] == '|' { assert(tree_chars()[1] == '|'); }
                else if t[0] == '\\' { assert(tree_chars()[2] == '\\'); }
                else { assert(tree_chars()[3] == '-'); }
            }
            assert(t.drop_first() =~= s@.skip(i + 1));
        }
        i += 1;
    }
    proof {
        let t = s@.skip(i as int);
        if t.len() > 0 {
            assert(t[0] == s@[i as int]);
            assert(!tree_chars().contains(t[0])) by {
                if tree_chars().contains(t[0]) {
                    let k = choose|k: int| 0 <= k < 4 && tree_chars()[k] == t[0];
                }
            }
        }
    }
    i
}

fn strip_repeated_0x(s: &[char]) -> (r: usize)
    ensures
        r <= s@.len(),
        s@.skip(r as int) == strip_repeated(s@, "0x"@),
{
    proof {
        reveal_strlit("0x");
    }
    let p = chars_of("0x");
    let mut i: usize = 0;
    assert(s@.skip(0) =~= s@);
    loop
        invariant
            i <= s@.len(),
            p@ == "0x"@,
            p@.len() == 2,
            strip_repeated(s@.skip(i as int), "0x"@) == strip_repeated(s@, "0x"@),
        decreases s.len() - i,
    {
        let rest = &s[i..s.len()];
        assert(rest@ == s@.skip(i as int));
        if starts_with(rest, &p) {
            assert(s@.skip(i as int).skip(2) =~= s@.skip(i + 2));
            i += 2;
        } else {
            return i;
        }
    }
}

fn parse_hex_field(s: &[char]) -> (r: Option<u64>)
    ensures
        r == parse_unsigned(hex_field(s@), 16),
{
    let t = trimmed(s);
    let k = strip_repeated_0x(&t);
    parse_u64(&t[k..t.len()], 16)
}

fn strip_trailing_paren(s: &[char]) -> (r: usize)
    ensures
        r <= s@.len(),
        s@.take(r as int) == strip_trailing(s@, ')'),
{
    let mut n: usize = s.len();
    assert(s@.take(n as int) =~= s@);
    while n > 0 && s[n - 1] == ')'
        invariant
            n <= s@.len(),
            strip_trailing(s@.take(n as int), ')') == strip_trailing(s@, ')'),
        decreases n,
    {
        assert(s@.take(n as int).drop_last() =~= s@.take(n - 1));
        n -= 1;
    }
    n
}

fn scan_one(
    version: &mut Option<u16>,
    tmd_size: &mut u64,
    content_id: &mut Option<Vec<char>>,
    contents: &mut Vec<ArchiveInfo>,
    line: &[char],
) -> (ok: bool)
    ensures
        ({
            let before = CiaScan {
                version: *old(version),
                tmd_size: *old(tmd_size),
                content_id: opt_chars(*old(content_id)),
                contents: infos(old(contents)@),
                readable: true,
            };
            let after = scan_line(before, line@);
            &&& ok == after.readable
            &&& ok ==> *final(version) == after.version && *final(tmd_size) == after.tmd_size
                && (opt_chars(*final(content_id))) == after.content_id
                && infos(final(contents)@) == after.contents
        }),
{
    proof {
        reveal_strlit("|- TitleVersion:  ");
        reveal_strlit("|- TitleMetaSize:");
        reveal_strlit("ContentId:   0x");
        reveal_strlit("Size:");
    }
    let k = strip_leading_exec(line);
    let stripped = &line[k..line.len()];
    assert(stripped@ == strip_leading(line@, tree_chars()));
    if starts_with(line, &chars_of("|- TitleVersion:  ")) {
        let rest = &line[18..line.len()];
        assert(rest@ == line@.skip(18));
        let open = find_char_from(rest, '(', 0);
        assert(rest@.skip(0) =~= rest@);
        if open >= rest.len() {
            return false;
        }
        let inner = &rest[open + 1..rest.len()];
        let e = strip_trailing_paren(inner);
        let digits = &inner[0..e];
        assert(digits@ == version_text(rest@));
        match parse_u64(digits, 10) {
            Some(v) => {
                if v > 65535 {
                    return false;
                }
                *version = Some(v as u16);
                true
            },
            None => false,
        }
    } else if starts_with(line, &chars_of("|- TitleMetaSize:")) {
        let rest = &line[17..line.len()];
        assert(rest@ == line@.skip(17));
        match parse_hex_field(rest) {
            Some(n) => {
                *tmd_size = n;
                true
            },
            None => false,
        }
    } else if starts_with(stripped, &chars_of("ContentId:   0x")) {
        let rest = &stripped[15..stripped.len()];
        assert(rest@ == stripped@.skip(15));
        *content_id = Some(trimmed(rest));
        true
    } else if starts_with(stripped, &chars_of("Size:")) {
        let rest = &stripped[5..stripped.len()];
        assert(rest@ == stripped@.skip(5));
        match content_id.take() {
            Some(id) => {
                match parse_hex_field(rest) {
                    Some(n) => {
                        let ghost before = infos(contents@);
                        contents.push(ArchiveInfo { path: string_of(&id), size: n });
                        assert(infos(contents@) =~= before.push((id@, n)));
                        true
                    },
                    None => false,
                }
            },
            None => true,
        }
    } else {
        true
    }
}

proof fn lemma_scan_unreadable(st: CiaScan, ls: Seq<Seq<char>>)
    requires
        !st.readable,
    ensures
        !scan_lines(st, ls).readable,
    decreases ls.len(),
{
    if ls.len() > 0 {
        lemma_scan_unreadable(scan_line(st, ls[0]), ls.drop_first());
    }
}

/// Whether `ctrtool -p -v` output can be read, so that
/// [`parse_cia_report`] can be called.
pub fn cia_report_is_readable(out: &str) -> (r: bool)
    ensures
        r == cia_report_readable(out@),
{
    match scan(out) {
        Some((version, tmd_size, _)) => tmd_size <= u64::MAX - 0x700,
        None => false,
    }
}

/// Read every line; `None` as soon as one cannot be read.
fn scan(out: &str) -> (r: Option<(u16, u64, Vec<ArchiveInfo>)>)
    ensures
        match r {
            Some((v, t, c)) => {
                let st = scan_report(out@);
                &&& st.readable && st.version == Some(v) && st.tmd_size == t
                &&& infos(c@) == st.contents
            },
            None => !(scan_report(out@).readable && scan_report(out@).version is Some),
        },
{
    let ls = lines(&chars_of(out));
    let mut version: Option<u16> = None;
    let mut tmd_size: u64 = 0;
    let mut content_id: Option<Vec<char>> = None;
    let mut contents: Vec<ArchiveInfo> = Vec::new();
    let mut i: usize = 0;
    let ghost all = views(ls@);
    assert(all.skip(0) =~= all);
    assert(infos(contents@) =~= Seq::<(Seq<char>, u64)>::empty());
    while i < ls.len()
        invariant
            i <= ls@.len(),
            all == views(ls@),
            all == lines_of(out@),
            scan_report(out@) == scan_lines(
                CiaScan {
                    version,
                    tmd_size,
                    content_id: opt_chars(content_id),
                    contents: infos(contents@),
                    readable: true,
                },
                all.skip(i as int),
            ),
        decreases ls.len() - i,
    {
        let ghost before = CiaScan {
            version,
            tmd_size,
            content_id: opt_chars(content_id),
            contents: infos(contents@),
            readable: true,
        };
        proof {
            assert(all.skip(i as int)[0] == ls@[i as int]@);
            assert(all.skip(i as int).drop_first() =~= all.skip(i + 1));
        }
        let ok = scan_one(&mut version, &mut tmd_size, &mut content_id, &mut contents, &ls[i]);
        if !ok {
            proof {
                lemma_scan_unreadable(scan_line(before, ls@[i as int]@), all.skip(i + 1));
            }
            return None;
        }
        i += 1;
    }
    assert(all.skip(i as int) =~= Seq::<Seq<char>>::empty());
    match version {
        Some(v) => Some((v, tmd_size, contents)),
        None => None,
    }
}

/// Read the output of `ctrtool -p -v`: each content with its size, then the
/// title metadata with its certificates.
pub fn parse_cia_report(out: &str) -> (r: Vec<ArchiveInfo>)
    requires
        cia_report_readable(out@),
    ensures
        infos(r@) == cia_contents(out@),
{
    match scan(out) {
        Some((version, tmd_size, contents)) => {
            let mut contents = contents;
            let mut name = chars_of("tmd.");
            crate::paths::append_chars(&mut name, &to_decimal(version as u64));
            let ghost before = infos(contents@);
            contents.push(ArchiveInfo { path: string_of(&name), size: tmd_size + 0x300 + 0x400 });
            assert(infos(contents@) =~= before.push((name@, (tmd_size + 0x300 + 0x400) as u64)));
            contents
        },
        None => {
            assert(false);
            Vec::new()
        },
    }
}

/// The prefix of the lines `ctrtool` logs for each content it saves.
pub open spec fn saved_prefix() -> Seq<char> {
    "[ctrtool::CiaProcess LOG] Saving content "@
}

/// The file a save line names: its text after the prefix, less the first
/// eight characters and the last three.
pub open spec fn saved_file(line: Seq<char>) -> Seq<char> {
    let rest = line.skip(saved_prefix().len() as int);
    rest.subrange(8, rest.len() - 3)
}

/// Every save line is long enough to name a file.
pub open spec fn save_lines_readable(err: Seq<char>) -> bool {
    forall|i: int|
        0 <= i < lines_of(err).len() && has_prefix(#[trigger] lines_of(err)[i], saved_prefix())
            ==> lines_of(err)[i].len() >= saved_prefix().len() + 11
}

/// The files named by the save lines, in order.
pub open spec fn saved_files(ls: Seq<Seq<char>>) -> Seq<Seq<char>>
    decreases ls.len(),
{
    if ls.len() == 0 {
        seq![]
    } else if has_prefix(ls.last(), saved_prefix()) {
        saved_files(ls.drop_last()).push(saved_file(ls.last()))
    } else {
        saved_files(ls.drop_last())
    }
}

/// The files `ctrtool` reports saving while unpacking into `directory`, in
/// the order it saved them (the log is ASCII, so its characters are its bytes).
pub fn saved_content_paths(err: &str, directory: &str) -> (r: Vec<String>)
    requires
        save_lines_readable(err@),
    ensures
        r@.len() == saved_files(lines_of(err@)).len(),
        forall|i: int| 0 <= i < r@.len() ==> (#[trigger] r@[i])@ == join(directory@, saved_files(lines_of(err@))[i]),
{
    let ls = lines(&chars_of(err));
    let prefix = chars_of("[ctrtool::CiaProcess LOG] Saving content ");
    let dir = chars_of(directory);
    let mut r: Vec<String> = Vec::new();
    let mut i: usize = 0;
    let ghost all = views(ls@);
    while i < ls.len()
        invariant
            i <= ls@.len(),
            all == views(ls@),
            all == lines_of(err@),
            prefix@ == saved_prefix(),
            dir@ == directory@,
            save_lines_readable(err@),
            r@.len() == saved_files(all.take(i as int)).len(),
            forall|j: int| 0 <= j < r@.len() ==> (#[trigger] r@[j])@ == join(directory@, saved_files(all.take(i as int))[j]),
        decreases ls.len() - i,
    {
        let line = &ls[i];
        proof {
            assert(all.take(i + 1).drop_last() =~= all.take(i as int));
            assert(all.take(i + 1).last() == line@);
            assert(all[i as int] == line@);
        }
        if starts_with(line, &prefix) {
            let n = line.len();
            let start = prefix.len() + 8;
            assert(n >= prefix@.len() + 11);
            let file = &line[start..n - 3];
            proof {
                let rest = line@.skip(saved_prefix().len() as int);
                assert(file@ =~= rest.subrange(8, rest.len() - 3));
            }
            r.push(string_of(&join_path(&dir, file)));
        }
        i += 1;
    }
    assert(all.take(ls@.len() as int) =~= all);
    r
}

/// The characters an optional buffer holds.
pub open spec fn opt_chars(o: Option<Vec<char>>) -> Option<Seq<char>> {
    match o {
        Some(c) => Some(c@),
        None => None,
    }
}

/// What `ctrtool -p` prints last for a title that is not homebrew, an error
/// that is expected.
pub const EXPECTED_NCCH_ERROR: &'static str = "[ctrtool::NcchProcess ERROR] NcchHeader is corrupted (Bad struct magic).\n";

/// The values of bytes.
pub open spec fn byte_codes(b: Seq<u8>) -> Seq<u32> {
    b.map_values(|x: u8| x as u32)
}

/// The code points of a text.
pub open spec fn char_codes(s: Seq<char>) -> Seq<u32> {
    s.map_values(|c: char| c as u32)
}

/// A run of `ctrtool` can be read when it succeeded or ended on the
/// expected error.
pub fn ctrtool_run_usable(success: bool, stdout: &[u8]) -> (r: bool)
    ensures
        r == (success || (EXPECTED_NCCH_ERROR@.len() <= stdout@.len() && byte_codes(
            stdout@.skip(stdout@.len() - EXPECTED_NCCH_ERROR@.len()),
        ) == char_codes(EXPECTED_NCCH_ERROR@))),
{
    if success {
        return true;
    }
    let e = chars_of(EXPECTED_NCCH_ERROR);
    let n = stdout.len();
    if e.len() > n {
        return false;
    }
    let start = n - e.len();
    let ghost tail = stdout@.skip(start as int);
    let mut i: usize = 0;
    while i < e.len()
        invariant
            i <= e@.len(),
            start + e@.len() == stdout@.len(),
            n == stdout@.len(),
            !success,
            e@ == EXPECTED_NCCH_ERROR@,
            tail == stdout@.skip(start as int),
            forall|k: int| 0 <= k < i ==> byte_codes(tail)[k] == char_codes(e@)[k],
        decreases e.len() - i,
    {
        assert(start + i < n);
        let b = stdout[start + i] as u32;
        let c = e[i] as u32;
        assert(byte_codes(tail)[i as int] == b && char_codes(e@)[i as int] == c);
        if b != c {
            assert(byte_codes(tail) != char_codes(e@));
            return false;
        }
        i += 1;
    }
    assert(byte_codes(tail) =~= char_codes(e@));
    true
}

} // verus!
