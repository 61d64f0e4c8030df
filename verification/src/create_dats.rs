//! DAT files made from a directory of files: the header and one game per
//! file, with the file's checksums.

use crate::paths::{append_chars, file_name, get_file_name, join, join_path, stem_of};
use crate::text::{chars_of, string_of};
use vstd::prelude::*;

verus! {

/// The lines a DAT file opens with.
pub const DOCTYPE: [&'static str; 2] = [
    "<?xml version=\"1.0\"?>",
    "<!DOCTYPE datafile PUBLIC \"-//Logiqx//DTD ROM Management Datafile//EN\" \"http://www.logiqx.com/Dats/datafile.dtd\">",
];

/// The header of a DAT file.
#[derive(Clone, Debug)]
pub struct DatHeader {
    pub name: String,
    pub description: String,
    pub version: String,
    pub date: String,
    pub author: String,
    pub url: Option<String>,
}

/// A ROM of a DAT file.
#[derive(Clone, Debug)]
pub struct DatRom {
    pub name: String,
    pub size: i64,
    pub crc: Option<String>,
    pub md5: Option<String>,
    pub sha1: Option<String>,
}

/// A game of a DAT file.
#[derive(Clone, Debug)]
pub struct DatGame {
    pub name: String,
    pub description: String,
    pub roms: Vec<DatRom>,
    pub isbios: bool,
    pub isdevice: bool,
    pub cloneof: Option<String>,
    pub romof: Option<String>,
    pub comment: Option<String>,
}

/// A given text, or `default`.
pub open spec fn given_or(v: Option<Seq<char>>, default: Seq<char>) -> Seq<char> {
    match v {
        Some(t) => t,
        None => default,
    }
}

fn text_or(v: Option<&str>, default: &[char]) -> (r: String)
    ensures
        r@ == given_or(
            match v {
                Some(t) => Some(t@),
                None => None,
            },
            default@,
        ),
{
    match v {
        Some(t) => string_of(&chars_of(t)),
        None => string_of(default),
    }
}

/// The view of an optional argument.
pub open spec fn opt_view(v: Option<&str>) -> Option<Seq<char>> {
    match v {
        Some(t) => Some(t@),
        None => None,
    }
}

/// The header of the DAT of `directory`, made `today` (as `YYYYMMDD`): the
/// name given or the directory's, the version given or today's date, the
/// description and author given or empty.
pub fn dat_header(
    directory: &str,
    name: Option<&str>,
    description: Option<&str>,
    version: Option<&str>,
    author: Option<&str>,
    url: Option<&str>,
    today: &str,
) -> (h: DatHeader)
    requires
        file_name(directory@).len() > 0,
    ensures
        h.name@ == given_or(opt_view(name), file_name(directory@)),
        h.description@ == given_or(opt_view(description), seq![]),
        h.version@ == given_or(opt_view(version), today@),
        h.date@ == today@,
        h.author@ == given_or(opt_view(author), seq![]),
        match h.url {
            Some(u) => url matches Some(v) && u@ == v@,
            None => url is None,
        },
{
    let empty: Vec<char> = Vec::new();
    DatHeader {
        name: text_or(name, &get_file_name(&chars_of(directory))),
        description: text_or(description, &empty),
        version: text_or(version, &chars_of(today)),
        date: string_of(&chars_of(today)),
        author: text_or(author, &empty),
        url: match url {
            Some(u) => Some(string_of(&chars_of(u))),
            None => None,
        },
    }
}

/// The game a file at `path` makes in a DAT: named after the file less its
/// extension, holding one ROM named after the file, of its size and with its
/// three checksums.
pub fn dat_game(path: &str, size: u64, crc: &str, md5: &str, sha1: &str) -> (g: DatGame)
    ensures
        g.name@ == stem_of(file_name(path@)),
        g.description@.len() == 0,
        g.roms@.len() == 1,
        g.roms@[0].name@ == file_name(path@),
        g.roms@[0].size == size as i64,
        g.roms@[0].crc matches Some(c) && c@ == crc@,
        g.roms@[0].md5 matches Some(m) && m@ == md5@,
        g.roms@[0].sha1 matches Some(s) && s@ == sha1@,
        !g.isbios && !g.isdevice,
        g.cloneof is None && g.romof is None && g.comment is None,
{
    let name = get_file_name(&chars_of(path));
    let stem = crate::paths::stem_exec(&name);
    let rom = DatRom {
        name: string_of(&name),
        size: size as i64,
        crc: Some(string_of(&chars_of(crc))),
        md5: Some(string_of(&chars_of(md5))),
        sha1: Some(string_of(&chars_of(sha1))),
    };
    let empty: Vec<char> = Vec::new();
    DatGame {
        name: string_of(&stem),
        description: string_of(&empty),
        roms: vec![rom],
        isbios: false,
        isdevice: false,
        cloneof: None,
        romof: None,
        comment: None,
    }
}

/// The name of the DAT file a header is written to: `<name> (<version>).dat`.
pub open spec fn dat_file_name_spec(name: Seq<char>, version: Seq<char>) -> Seq<char> {
    name + " ("@ + version + ").dat"@
}

/// Exec form of [`dat_file_name_spec`].
pub fn dat_file_name(name: &str, version: &str) -> (r: String)
    ensures
        r@ == dat_file_name_spec(name@, version@),
{
    let mut v = chars_of(name);
    append_chars(&mut v, &chars_of(" ("));
    append_chars(&mut v, &chars_of(version));
    append_chars(&mut v, &chars_of(").dat"));
    string_of(&v)
}

/// Where the DAT file of `header` is written in `directory`.
pub fn dat_path(directory: &str, header: &DatHeader) -> (r: String)
    ensures
        r@ == join(directory@, dat_file_name_spec(header.name@, header.version@)),
{
    let name = dat_file_name(header.name.as_str(), header.version.as_str());
    string_of(&join_path(&chars_of(directory), &chars_of(name.as_str())))
}

} // verus!
