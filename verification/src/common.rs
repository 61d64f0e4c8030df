//! Files of the collection: what kind of image a file is, where a game's
//! files are sorted to, and which games a set of files covers.

use crate::config::{subfolder_scheme_named, text_value, Settings, SubfolderScheme};
use crate::model::{Game, Rom, Romfile, System};
use crate::paths::{
    append_chars, file_name, get_extension, get_file_name, get_lower_extension, join, join_path,
    lower_extension, path_extension,
};
use crate::patterns::{regex_replace, regex_replacement};
use crate::text::{chars_of, ends_with, has_prefix, has_suffix, same, starts_with, string_of};
use vstd::prelude::*;

verus! {

pub const BIN_EXTENSION: &'static str = "bin";
pub const CHD_EXTENSION: &'static str = "chd";
pub const CIA_EXTENSION: &'static str = "cia";
pub const CSO_EXTENSION: &'static str = "cso";
pub const CUE_EXTENSION: &'static str = "cue";
pub const ISO_EXTENSION: &'static str = "iso";
pub const M3U_EXTENSION: &'static str = "m3u";
pub const NSP_EXTENSION: &'static str = "nsp";
pub const NSZ_EXTENSION: &'static str = "nsz";
pub const RDSK_EXTENSION: &'static str = "rdsk";
pub const RIFF_EXTENSION: &'static str = "riff";
pub const RVZ_EXTENSION: &'static str = "rvz";
pub const ZSO_EXTENSION: &'static str = "zso";

/// Extensions of archives.
pub const ARCHIVE_EXTENSIONS: [&'static str; 2] = ["7z", "zip"];

/// Extensions of files that hold a game in another form than its DAT's.
pub const NON_ORIGINAL_EXTENSIONS: [&'static str; 7] = ["7z", "chd", "cso", "nsz", "rvz", "zip", "zso"];

/// The texts of a table of words.
pub open spec fn word_texts(t: Seq<&'static str>) -> Seq<Seq<char>> {
    t.map_values(|s: &'static str| s@)
}

/// `e` is one of the words of `t`.
pub open spec fn is_one_of(t: Seq<&'static str>, e: Seq<char>) -> bool {
    word_texts(t).contains(e)
}

/// Exec form of [`is_one_of`].
pub fn one_of(t: &[&'static str], e: &[char]) -> (r: bool)
    ensures
        r == is_one_of(t@, e@),
{
    let mut i: usize = 0;
    while i < t.len()
        invariant
            i <= t@.len(),
            forall|j: int| 0 <= j < i ==> word_texts(t@)[j] != e@,
        decreases t.len() - i,
    {
        assert(word_texts(t@)[i as int] == t@[i as int]@);
        if same(&chars_of(t[i]), e) {
            return true;
        }
        i += 1;
    }
    assert(!word_texts(t@).contains(e@)) by {
        if word_texts(t@).contains(e@) {
            let k = choose|k: int| 0 <= k < word_texts(t@).len() && word_texts(t@)[k] == e@;
            assert(word_texts(t@)[k] != e@);
        }
    }
    false
}

/// Why a file was refused as an image of some kind.
#[derive(Clone, Copy, Debug, PartialEq, Eq, Structural)]
pub enum RomfileError {
    NotIso,
    NotCue,
    NotBin,
    NotRvz,
    NotChd,
    NotRiff,
    NotRdsk,
    /// A path that does not lie under the directory it was taken relative to.
    OutsideDirectory,
}

/// A file of the collection, and the system it belongs to when known.
#[derive(Clone, Debug)]
pub struct CommonRomfile {
    pub path: String,
    pub system_id: Option<i64>,
}

/// An ISO image.
#[derive(Clone, Debug)]
pub struct IsoRomfile {
    pub romfile: CommonRomfile,
}

/// A CUE sheet and the BIN files it lists.
#[derive(Clone, Debug)]
pub struct CueBinRomfile {
    pub cue_romfile: CommonRomfile,
    pub bin_romfiles: Vec<CommonRomfile>,
}

/// The lowercase extension of `p` is `ext` (a file without one has none).
pub open spec fn has_extension(p: Seq<char>, ext: Seq<char>) -> bool {
    lower_extension(p) == ext
}

/// Exec form of [`has_extension`].
pub fn extension_is(p: &str, ext: &str) -> (r: bool)
    ensures
        r == has_extension(p@, ext@),
{
    same(&get_lower_extension(&chars_of(p)), &chars_of(ext))
}

/// The texts of a vector of files' paths.
pub open spec fn paths_of(v: Seq<CommonRomfile>) -> Seq<Seq<char>> {
    v.map_values(|f: CommonRomfile| f.path@)
}

/// `path` relative to `directory`, taken component by component: `None` when
/// `path` does not lie under it.
pub open spec fn relative_to(path: Seq<char>, directory: Seq<char>) -> Option<Seq<char>> {
    if directory.len() > 0 && directory.last() == '/' {
        if has_prefix(path, directory) {
            Some(path.skip(directory.len() as int))
        } else {
            None
        }
    } else if path == directory {
        Some(Seq::<char>::empty())
    } else if has_prefix(path, directory + seq!['/']) {
        Some(path.skip(directory.len() as int + 1))
    } else {
        None
    }
}

impl CommonRomfile {
    /// The file at `path`, of no known system.
    pub fn from_path(path: &str) -> (r: CommonRomfile)
        ensures
            r.path@ == path@,
            r.system_id is None,
    {
        CommonRomfile { path: string_of(&chars_of(path)), system_id: None }
    }

    /// The same file, of `system_id`.
    pub fn with_system(self, system_id: Option<i64>) -> (r: CommonRomfile)
        ensures
            r.path == self.path,
            r.system_id == system_id,
    {
        CommonRomfile { path: self.path, system_id }
    }

    /// This file as an ISO image: refused unless its extension is `iso`,
    /// whatever its case.
    pub fn as_iso(self) -> (r: Result<IsoRomfile, RomfileError>)
        requires
            path_extension(self.path@) is Some,
        ensures
            has_extension(self.path@, ISO_EXTENSION@) ==> (r matches Ok(iso) && iso.romfile == self),
            !has_extension(self.path@, ISO_EXTENSION@) ==> r == Err::<IsoRomfile, RomfileError>(RomfileError::NotIso),
    {
        if extension_is(self.path.as_str(), ISO_EXTENSION) {
            Ok(IsoRomfile { romfile: self })
        } else {
            Err(RomfileError::NotIso)
        }
    }

    /// This file as a CUE sheet with `bin_romfiles`: refused unless its
    /// extension is `cue` and theirs all `bin`, whatever their case.
    pub fn as_cue_bin(self, bin_romfiles: Vec<CommonRomfile>) -> (r: Result<CueBinRomfile, RomfileError>)
        requires
            path_extension(self.path@) is Some,
            forall|i: int| 0 <= i < bin_romfiles@.len() ==> path_extension(#[trigger] bin_romfiles@[i].path@) is Some,
        ensures
            !has_extension(self.path@, CUE_EXTENSION@) ==> r == Err::<CueBinRomfile, RomfileError>(RomfileError::NotCue),
            has_extension(self.path@, CUE_EXTENSION@) && (exists|i: int|
                0 <= i < bin_romfiles@.len() && !has_extension(#[trigger] bin_romfiles@[i].path@, BIN_EXTENSION@))
                ==> r == Err::<CueBinRomfile, RomfileError>(RomfileError::NotBin),
            has_extension(self.path@, CUE_EXTENSION@) && (forall|i: int|
                0 <= i < bin_romfiles@.len() ==> has_extension(#[trigger] bin_romfiles@[i].path@, BIN_EXTENSION@))
                ==> (r matches Ok(c) && c.cue_romfile == self && c.bin_romfiles@ == bin_romfiles@),
    {
        if !extension_is(self.path.as_str(), CUE_EXTENSION) {
            return Err(RomfileError::NotCue);
        }
        let mut i: usize = 0;
        while i < bin_romfiles.len()
            invariant
                i <= bin_romfiles@.len(),
                has_extension(self.path@, CUE_EXTENSION@),
                forall|j: int| 0 <= j < i ==> has_extension(#[trigger] bin_romfiles@[j].path@, BIN_EXTENSION@),
            decreases bin_romfiles.len() - i,
        {
            if !extension_is(bin_romfiles[i].path.as_str(), BIN_EXTENSION) {
                return Err(RomfileError::NotBin);
            }
            i += 1;
        }
        Ok(CueBinRomfile { cue_romfile: self, bin_romfiles })
    }

    /// Where this file goes when copied into `directory`: its name there.
    pub fn copy_target(&self, directory: &str) -> (r: String)
        ensures
            r@ == join(directory@, file_name(self.path@)),
    {
        string_of(&join_path(&chars_of(directory), &get_file_name(&chars_of(self.path.as_str()))))
    }

    /// This file's path relative to `rom_directory`, as it is recorded in the
    /// database.
    pub fn relative_path(&self, rom_directory: &str) -> (r: Result<String, RomfileError>)
        ensures
            match relative_to(self.path@, rom_directory@) {
                Some(rel) => r matches Ok(s) && s@ == rel,
                None => r == Err::<String, RomfileError>(RomfileError::OutsideDirectory),
            },
    {
        let p = chars_of(self.path.as_str());
        let d = chars_of(rom_directory);
        if d.len() > 0 && d[d.len() - 1] == '/' {
            if starts_with(&p, &d) {
                Ok(string_of(&vstd::slice::slice_to_vec(&p[d.len()..p.len()])))
            } else {
                Err(RomfileError::OutsideDirectory)
            }
        } else if same(&p, &d) {
            Ok(string_of(&Vec::new()))
        } else {
            let mut ds = d.clone();
            ds.push('/');
            assert(ds@ =~= d@ + seq!['/']);
            if starts_with(&p, &ds) {
                Ok(string_of(&vstd::slice::slice_to_vec(&p[ds.len()..p.len()])))
            } else {
                Err(RomfileError::OutsideDirectory)
            }
        }
    }
}

/// The file a database row names, under `rom_directory`.
pub fn romfile_as_common(romfile: &Romfile, rom_directory: &str) -> (r: CommonRomfile)
    ensures
        r.path@ == join(rom_directory@, romfile.path@),
        r.system_id is None,
{
    CommonRomfile {
        path: string_of(&join_path(&chars_of(rom_directory), &chars_of(romfile.path.as_str()))),
        system_id: None,
    }
}

// === where a game's files are sorted to ===

/// An ASCII letter.
pub open spec fn is_ascii_letter(c: char) -> bool {
    ('a' <= c && c <= 'z') || ('A' <= c && c <= 'Z')
}

/// `c` in upper case when it is an ASCII lowercase letter.
pub open spec fn upper_char(c: char) -> char {
    if 'a' <= c && c <= 'z' {
        ((c as u32) - 32) as char
    } else {
        c
    }
}

/// The subfolder a game goes to under the alphabetical scheme: the first
/// letter of its name in upper case, or `#` for a name that does not begin
/// with an ASCII letter.
pub open spec fn alpha_subfolder(name: Seq<char>) -> Seq<char> {
    if name.len() > 0 && is_ascii_letter(name[0]) {
        seq![upper_char(name[0])]
    } else {
        "#"@
    }
}

/// Exec form of [`alpha_subfolder`].
pub fn compute_alpha_subfolder(name: &str) -> (r: String)
    ensures
        r@ == alpha_subfolder(name@),
{
    let n = chars_of(name);
    if n.len() > 0 && (('a' <= n[0] && n[0] <= 'z') || ('A' <= n[0] && n[0] <= 'Z')) {
        let c = n[0];
        let u = if 'a' <= c && c <= 'z' {
            ((c as u8) - 32) as char
        } else {
            c
        };
        let mut v: Vec<char> = Vec::new();
        v.push(u);
        assert(v@ =~= seq![upper_char(name@[0])]);
        string_of(&v)
    } else {
        string_of(&chars_of("#"))
    }
}

/// The directory a game's files are sorted under.
#[derive(Clone, Copy, Debug, PartialEq, Eq, Structural)]
pub enum SortedDirectory {
    /// The system's directory, for games of all regions.
    System,
    /// The directory of games kept for one region.
    OneRegion,
    /// The trash, for ignored games.
    Trash,
}

/// The directory a game of `sorting` (as stored) goes under.
pub open spec fn sorted_directory_of(sorting: i64) -> SortedDirectory {
    if sorting == 1 {
        SortedDirectory::OneRegion
    } else if sorting == 2 {
        SortedDirectory::Trash
    } else {
        SortedDirectory::System
    }
}

/// Exec form of [`sorted_directory_of`].
pub fn sorted_directory(sorting: i64) -> (d: SortedDirectory)
    ensures
        d == sorted_directory_of(sorting),
{
    if sorting == 1 {
        SortedDirectory::OneRegion
    } else if sorting == 2 {
        SortedDirectory::Trash
    } else {
        SortedDirectory::System
    }
}

/// The directory a game's playlist goes under: the one-region directory for
/// a game kept for one region, else the system's.
pub fn playlist_directory(sorting: i64) -> (d: SortedDirectory)
    ensures
        d == (if sorting == 1 {
            SortedDirectory::OneRegion
        } else {
            SortedDirectory::System
        }),
{
    if sorting == 1 {
        SortedDirectory::OneRegion
    } else {
        SortedDirectory::System
    }
}

/// The setting that holds the subfolder scheme for games of `sorting`.
pub open spec fn subfolder_key(sorting: i64) -> Option<Seq<char>> {
    if sorting == 1 {
        Some("REGIONS_ONE_SUBFOLDERS"@)
    } else if sorting == 0 {
        Some("REGIONS_ALL_SUBFOLDERS"@)
    } else {
        None
    }
}

/// The store holds a valid scheme for games of `sorting` in the system.
pub open spec fn scheme_readable(
    v: Seq<(Seq<char>, Option<Seq<char>>, Option<i64>)>,
    sorting: i64,
    system_id: i64,
) -> bool {
    match subfolder_key(sorting) {
        Some(k) => text_value(v, k, Some(system_id)) matches Some(t) && subfolder_scheme_named(t) is Some,
        None => true,
    }
}

/// The subfolder scheme in force: the one asked for, else the one configured
/// for the game's sorting, and none for ignored games.
pub open spec fn scheme_spec(
    explicit: Option<SubfolderScheme>,
    v: Seq<(Seq<char>, Option<Seq<char>>, Option<i64>)>,
    sorting: i64,
    system_id: i64,
) -> SubfolderScheme {
    match explicit {
        Some(s) => s,
        None => match subfolder_key(sorting) {
            Some(k) => subfolder_scheme_named(text_value(v, k, Some(system_id))->0)->0,
            None => SubfolderScheme::Flat,
        },
    }
}

/// Exec form of [`scheme_spec`].
pub fn subfolder_scheme(
    explicit: Option<SubfolderScheme>,
    settings: &Settings,
    sorting: i64,
    system_id: i64,
) -> (s: SubfolderScheme)
    requires
        explicit is None ==> scheme_readable(settings@, sorting, system_id),
    ensures
        s == scheme_spec(explicit, settings@, sorting, system_id),
{
    match explicit {
        Some(s) => s,
        None => {
            let value = if sorting == 1 {
                settings.get_setting("REGIONS_ONE_SUBFOLDERS", Some(system_id))
            } else if sorting == 0 {
                settings.get_setting("REGIONS_ALL_SUBFOLDERS", Some(system_id))
            } else {
                return SubfolderScheme::Flat;
            };
            match value {
                Some(Some(t)) => match SubfolderScheme::from_name(t.as_str()) {
                    Some(s) => s,
                    None => SubfolderScheme::Flat,
                },
                _ => SubfolderScheme::Flat,
            }
        },
    }
}

/// `stem`, a dot and `ext`.
pub open spec fn dotted(stem: Seq<char>, ext: Seq<char>) -> Seq<char> {
    stem + seq!['.'] + ext
}

fn dotted_exec(stem: &[char], ext: &[char]) -> (r: Vec<char>)
    ensures
        r@ == dotted(stem@, ext@),
{
    let mut r = vstd::slice::slice_to_vec(stem);
    r.push('.');
    append_chars(&mut r, ext);
    r
}

/// The name a ROM's file is sorted under: a file in another form than the
/// DAT's is named after the game (after the ROM for an arcade file that is
/// not an archive) with its own extension; otherwise the game's name with
/// the system's custom extension, or the ROM's own name.
pub open spec fn sorted_file_name(system: System, game: Game, rom: Rom, extension: Option<Seq<char>>) -> Seq<char> {
    let fallback = match system.custom_extension {
        Some(c) => dotted(game.name@, c@),
        None => rom.name@,
    };
    match extension {
        Some(e) => if is_one_of(NON_ORIGINAL_EXTENSIONS@, e) {
            if system.arcade && !is_one_of(ARCHIVE_EXTENSIONS@, e) {
                dotted(rom.name@, e)
            } else {
                dotted(game.name@, e)
            }
        } else {
            fallback
        },
        None => fallback,
    }
}

/// Where a ROM's file is sorted to under `directory`: in the letter subfolder
/// under the alphabetical scheme, then in a folder of the game's name for
/// arcade files that are not archives and for games kept in folders.
pub open spec fn sorted_path_spec(
    directory: Seq<char>,
    system: System,
    game: Game,
    rom: Rom,
    scheme: SubfolderScheme,
    extension: Option<Seq<char>>,
) -> Seq<char> {
    let with_letter = if scheme == SubfolderScheme::Alpha {
        join(directory, alpha_subfolder(game.name@))
    } else {
        directory
    };
    let archived = extension matches Some(e) && is_one_of(ARCHIVE_EXTENSIONS@, e);
    let with_game = if (system.arcade && !archived) || game.jbfolder {
        join(with_letter, game.name@)
    } else {
        with_letter
    };
    join(with_game, sorted_file_name(system, game, rom, extension))
}

/// An arcade set archived as 7z or zip is sorted straight into the
/// directory (under its letter when sorting alphabetically), named after the
/// game, with no folder of the game's name unless the game is kept in one;
/// an arcade CHD, not an archive, goes into the game's folder under the
/// ROM's name.
pub proof fn lemma_arcade_sorting(
    directory: Seq<char>,
    system: System,
    game: Game,
    rom: Rom,
    scheme: SubfolderScheme,
    e: Seq<char>,
)
    requires
        system.arcade,
        !game.jbfolder,
    ensures
        ({
            let letter = if scheme == SubfolderScheme::Alpha {
                join(directory, alpha_subfolder(game.name@))
            } else {
                directory
            };
            &&& (e == "7z"@ || e == "zip"@) ==> sorted_path_spec(directory, system, game, rom, scheme, Some(e)) == join(
                letter,
                game.name@ + seq!['.'] + e,
            )
            &&& e == "chd"@ ==> sorted_path_spec(directory, system, game, rom, scheme, Some(e)) == join(
                join(letter, game.name@),
                rom.name@ + seq!['.'] + e,
            )
        }),
{
    reveal_strlit("7z");
    reveal_strlit("zip");
    reveal_strlit("chd");
    reveal_strlit("cso");
    reveal_strlit("nsz");
    reveal_strlit("rvz");
    reveal_strlit("zso");
    let a = word_texts(ARCHIVE_EXTENSIONS@);
    let n = word_texts(NON_ORIGINAL_EXTENSIONS@);
    assert(ARCHIVE_EXTENSIONS@ =~= seq!["7z", "zip"]);
    assert(a =~= seq!["7z"@, "zip"@]);
    assert(NON_ORIGINAL_EXTENSIONS@ =~= seq!["7z", "chd", "cso", "nsz", "rvz", "zip", "zso"]);
    assert(n =~= seq!["7z"@, "chd"@, "cso"@, "nsz"@, "rvz"@, "zip"@, "zso"@]);
    if e == "7z"@ {
        assert(a[0] == e && n[0] == e);
    }
    if e == "zip"@ {
        assert(a[1] == e && n[5] == e);
    }
    if e == "chd"@ {
        assert(n[1] == e);
        assert(e[0] != a[0][0] && e[0] != a[1][0]);
        assert(!a.contains(e));
    }
}

impl CommonRomfile {
    /// Where this file, holding `rom` of `game`, is sorted to under
    /// `directory` (the one [`sorted_directory`] names for the game), with
    /// `extension` or else its own.
    pub fn get_sorted_path(
        &self,
        directory: &str,
        system: &System,
        game: &Game,
        rom: &Rom,
        scheme: SubfolderScheme,
        extension: Option<&str>,
    ) -> (r: String)
        ensures
            r@ == sorted_path_spec(
                directory@,
                *system,
                *game,
                *rom,
                scheme,
                match extension {
                    Some(e) => Some(e@),
                    None => path_extension(self.path@),
                },
            ),
    {
        let ext: Option<Vec<char>> = match extension {
            Some(e) => Some(chars_of(e)),
            None => get_extension(&chars_of(self.path.as_str())),
        };
        let game_name = chars_of(game.name.as_str());
        let mut path = chars_of(directory);
        if scheme == SubfolderScheme::Alpha {
            path = join_path(&path, &chars_of(compute_alpha_subfolder(game.name.as_str()).as_str()));
        }
        let archived = match &ext {
            Some(e) => one_of(&ARCHIVE_EXTENSIONS, e),
            None => false,
        };
        if (system.arcade && !archived) || game.jbfolder {
            path = join_path(&path, &game_name);
        }
        let fallback = match &system.custom_extension {
            Some(c) => dotted_exec(&game_name, &chars_of(c.as_str())),
            None => chars_of(rom.name.as_str()),
        };
        let name = match &ext {
            Some(e) => if one_of(&NON_ORIGINAL_EXTENSIONS, e) {
                if system.arcade && !one_of(&ARCHIVE_EXTENSIONS, e) {
                    dotted_exec(&chars_of(rom.name.as_str()), e)
                } else {
                    dotted_exec(&game_name, e)
                }
            } else {
                fallback
            },
            None => fallback,
        };
        string_of(&join_path(&path, &name))
    }
}

/// What marks the disc of a multi-disc game in its name.
pub const DISC_PATTERN: &'static str = " \\(Disc \\d+\\)";

/// Where a game's playlist goes under `directory`, given the game's name
/// with its disc mark taken out (`stem`).
pub open spec fn playlist_path_spec(directory: Seq<char>, name: Seq<char>, scheme: SubfolderScheme, stem: Seq<char>) -> Seq<char> {
    let with_letter = if scheme == SubfolderScheme::Alpha {
        join(directory, alpha_subfolder(name))
    } else {
        directory
    };
    join(with_letter, dotted(stem, M3U_EXTENSION@))
}

impl Game {
    /// Where this game's playlist goes under `directory` (the one
    /// [`playlist_directory`] names for it): the game's name less its disc
    /// mark, with the `m3u` extension. `None` only if the disc pattern does
    /// not compile.
    pub fn get_playlist_path(&self, directory: &str, scheme: SubfolderScheme) -> (r: Option<String>)
        ensures
            match regex_replacement(DISC_PATTERN@, self.name@, ""@) {
                Some(stem) => r matches Some(p) && p@ == playlist_path_spec(directory@, self.name@, scheme, stem),
                None => r is None,
            },
    {
        let stem = match regex_replace(DISC_PATTERN, self.name.as_str(), "") {
            Some(s) => s,
            None => return None,
        };
        let mut path = chars_of(directory);
        if scheme == SubfolderScheme::Alpha {
            path = join_path(&path, &chars_of(compute_alpha_subfolder(self.name.as_str()).as_str()));
        }
        let file = dotted_exec(&chars_of(stem.as_str()), &chars_of(M3U_EXTENSION));
        Some(string_of(&join_path(&path, &file)))
    }
}

// === games by the files that hold them ===

/// No two romfiles share an id.
pub open spec fn ids_unique(romfiles: Seq<Romfile>) -> bool {
    forall|i: int, j: int| 0 <= i < j < romfiles.len() ==> romfiles[i].id != romfiles[j].id
}

/// The romfile holding `rom` is among `romfiles`.
pub open spec fn rom_located(romfiles: Seq<Romfile>, rom: Rom) -> bool {
    rom.romfile_id is Some && exists|i: int| 0 <= i < romfiles.len() && romfiles[i].id == rom.romfile_id->0
}

/// Every ROM of every game has its romfile among `romfiles`.
pub open spec fn games_located(romfiles: Seq<Romfile>, games: Seq<(i64, Vec<Rom>)>) -> bool {
    forall|g: int, i: int| 0 <= g < games.len() && 0 <= i < games[g].1@.len() ==> rom_located(romfiles, #[trigger] games[g].1@[i])
}

/// Whether the romfiles have distinct ids and hold every ROM of `games`:
/// what the routing of a conversion needs of the rows it is given.
pub fn romfiles_consistent(games: &Vec<(i64, Vec<Rom>)>, romfiles: &Vec<Romfile>) -> (b: bool)
    ensures
        b == (ids_unique(romfiles@) && games_located(romfiles@, games@)),
{
    let mut i: usize = 0;
    while i < romfiles.len()
        invariant
            i <= romfiles@.len(),
            forall|a: int, b: int| 0 <= a < b < i ==> romfiles@[a].id != romfiles@[b].id,
        decreases romfiles.len() - i,
    {
        let mut j: usize = 0;
        while j < i
            invariant
                j <= i < romfiles@.len(),
                forall|a: int| 0 <= a < j ==> romfiles@[a].id != romfiles@[i as int].id,
            decreases i - j,
        {
            if romfiles[j].id == romfiles[i].id {
                return false;
            }
            j += 1;
        }
        i += 1;
    }
    let mut g: usize = 0;
    while g < games.len()
        invariant
            g <= games@.len(),
            ids_unique(romfiles@),
            forall|x: int, k: int| 0 <= x < g && 0 <= k < games@[x].1@.len() ==> rom_located(romfiles@, #[trigger] games@[x].1@[k]),
        decreases games.len() - g,
    {
        let roms = &games[g].1;
        let mut k: usize = 0;
        while k < roms.len()
            invariant
                g < games@.len(),
                roms@ == games@[g as int].1@,
                k <= roms@.len(),
                forall|x: int, m: int| 0 <= x < g && 0 <= m < games@[x].1@.len() ==> rom_located(romfiles@, #[trigger] games@[x].1@[m]),
                forall|m: int| 0 <= m < k ==> rom_located(romfiles@, #[trigger] games@[g as int].1@[m]),
            decreases roms.len() - k,
        {
            let found = match roms[k].romfile_id {
                None => false,
                Some(id) => {
                    let mut m: usize = 0;
                    let mut hit = false;
                    while m < romfiles.len()
                        invariant
                            m <= romfiles@.len(),
                            hit ==> exists|q: int| 0 <= q < romfiles@.len() && romfiles@[q].id == id,
                            !hit ==> forall|q: int| 0 <= q < m ==> romfiles@[q].id != id,
                        decreases romfiles.len() - m,
                    {
                        if romfiles[m].id == id {
                            hit = true;
                        }
                        m += 1;
                    }
                    hit
                },
            };
            if !found {
                assert(!rom_located(romfiles@, games@[g as int].1@[k as int]));
                return false;
            }
            k += 1;
        }
        g += 1;
    }
    true
}

/// The path of the romfile with id `id`.
pub open spec fn romfile_path(romfiles: Seq<Romfile>, id: i64) -> Seq<char> {
    romfiles[choose|i: int| 0 <= i < romfiles.len() && romfiles[i].id == id].path@
}

/// The path of the file holding `rom` ends with `ext`.
pub open spec fn rom_ends_with(romfiles: Seq<Romfile>, rom: Rom, ext: Seq<char>) -> bool {
    has_suffix(romfile_path(romfiles, rom.romfile_id->0), ext)
}

/// Some ROM of the game lies in a file ending with one of `exts`.
pub open spec fn game_has_any(romfiles: Seq<Romfile>, roms: Seq<Rom>, exts: Seq<Seq<char>>) -> bool {
    exists|i: int, j: int| 0 <= i < roms.len() && 0 <= j < exts.len() && rom_ends_with(romfiles, roms[i], exts[j])
}

/// `ext` ends the file of some ROM of the game.
pub open spec fn ext_covered(romfiles: Seq<Romfile>, roms: Seq<Rom>, ext: Seq<char>) -> bool {
    exists|i: int| 0 <= i < roms.len() && rom_ends_with(romfiles, roms[i], ext)
}

/// Each of `exts` ends the file of some ROM of the game.
pub open spec fn game_has_all(romfiles: Seq<Romfile>, roms: Seq<Rom>, exts: Seq<Seq<char>>) -> bool {
    forall|j: int| 0 <= j < exts.len() ==> ext_covered(romfiles, roms, #[trigger] exts[j])
}

/// The path of the romfile with id `id`.
fn find_romfile_path<'a>(romfiles: &'a Vec<Romfile>, id: i64) -> (r: &'a String)
    requires
        ids_unique(romfiles@),
        exists|i: int| 0 <= i < romfiles@.len() && romfiles@[i].id == id,
    ensures
        r@ == romfile_path(romfiles@, id),
{
    let mut k: usize = 0;
    while k < romfiles.len()
        invariant
            k <= romfiles@.len(),
            ids_unique(romfiles@),
            exists|i: int| 0 <= i < romfiles@.len() && romfiles@[i].id == id,
            forall|j: int| 0 <= j < k ==> romfiles@[j].id != id,
        decreases romfiles.len() - k,
    {
        if romfiles[k].id == id {
            let ghost c = choose|i: int| 0 <= i < romfiles@.len() && romfiles@[i].id == id;
            assert(c == k as int) by {
                if c < k {
                    assert(romfiles@[c].id != id);
                } else if c > k {
                    assert(romfiles@[k as int].id != romfiles@[c].id);
                }
            }
            return &romfiles[k].path;
        }
        k += 1;
    }
    let ghost c = choose|i: int| 0 <= i < romfiles@.len() && romfiles@[i].id == id;
    assert(romfiles@[c].id != id);
    &romfiles[0].path
}

/// Whether the romfile with id `id` has a path ending with `ext`.
pub(crate) fn romfile_ends_with(romfiles: &Vec<Romfile>, id: i64, ext: &[char]) -> (r: bool)
    requires
        ids_unique(romfiles@),
        exists|i: int| 0 <= i < romfiles@.len() && romfiles@[i].id == id,
    ensures
        r == has_suffix(romfile_path(romfiles@, id), ext@),
{
    ends_with(&chars_of(find_romfile_path(romfiles, id).as_str()), ext)
}

/// Whether the file of `rom` ends with `ext`.
fn rom_ends_with_exec(romfiles: &Vec<Romfile>, rom: &Rom, ext: &str) -> (r: bool)
    requires
        ids_unique(romfiles@),
        rom_located(romfiles@, *rom),
    ensures
        r == rom_ends_with(romfiles@, *rom, ext@),
{
    let id = match rom.romfile_id {
        Some(id) => id,
        None => 0,
    };
    ends_with(&chars_of(find_romfile_path(romfiles, id).as_str()), &chars_of(ext))
}

/// Exec form of [`game_has_any`].
fn game_has_any_exec(romfiles: &Vec<Romfile>, roms: &Vec<Rom>, exts: &[&'static str]) -> (r: bool)
    requires
        ids_unique(romfiles@),
        forall|i: int| 0 <= i < roms@.len() ==> rom_located(romfiles@, #[trigger] roms@[i]),
    ensures
        r == game_has_any(romfiles@, roms@, word_texts(exts@)),
{
    let ghost e = word_texts(exts@);
    let mut i: usize = 0;
    while i < roms.len()
        invariant
            i <= roms@.len(),
            e == word_texts(exts@),
            ids_unique(romfiles@),
            forall|k: int| 0 <= k < roms@.len() ==> rom_located(romfiles@, #[trigger] roms@[k]),
            forall|a: int, b: int| 0 <= a < i && 0 <= b < e.len() ==> !#[trigger] rom_ends_with(romfiles@, roms@[a], e[b]),
        decreases roms.len() - i,
    {
        let mut j: usize = 0;
        while j < exts.len()
            invariant
                i < roms@.len(),
                j <= exts@.len(),
                e == word_texts(exts@),
                ids_unique(romfiles@),
                rom_located(romfiles@, roms@[i as int]),
                forall|b: int| 0 <= b < j ==> !rom_ends_with(romfiles@, roms@[i as int], #[trigger] e[b]),
            decreases exts.len() - j,
        {
            assert(e[j as int] == exts@[j as int]@);
            if rom_ends_with_exec(romfiles, &roms[i], exts[j]) {
                assert(rom_ends_with(romfiles@, roms@[i as int], e[j as int]));
                return true;
            }
            j += 1;
        }
        i += 1;
    }
    false
}

/// Exec form of [`game_has_all`].
fn game_has_all_exec(romfiles: &Vec<Romfile>, roms: &Vec<Rom>, exts: &[&'static str]) -> (r: bool)
    requires
        ids_unique(romfiles@),
        forall|i: int| 0 <= i < roms@.len() ==> rom_located(romfiles@, #[trigger] roms@[i]),
    ensures
        r == game_has_all(romfiles@, roms@, word_texts(exts@)),
{
    let ghost e = word_texts(exts@);
    let mut j: usize = 0;
    while j < exts.len()
        invariant
            j <= exts@.len(),
            e == word_texts(exts@),
            ids_unique(romfiles@),
            forall|k: int| 0 <= k < roms@.len() ==> rom_located(romfiles@, #[trigger] roms@[k]),
            forall|b: int| 0 <= b < j ==> ext_covered(romfiles@, roms@, #[trigger] e[b]),
        decreases exts.len() - j,
    {
        assert(e[j as int] == exts@[j as int]@);
        let mut i: usize = 0;
        let mut found = false;
        while i < roms.len()
            invariant
                i <= roms@.len(),
                j < exts@.len(),
                e == word_texts(exts@),
                e[j as int] == exts@[j as int]@,
                ids_unique(romfiles@),
                forall|k: int| 0 <= k < roms@.len() ==> rom_located(romfiles@, #[trigger] roms@[k]),
                found ==> ext_covered(romfiles@, roms@, e[j as int]),
                !found ==> forall|a: int| 0 <= a < i ==> !rom_ends_with(romfiles@, #[trigger] roms@[a], e[j as int]),
            decreases roms.len() - i,
        {
            if !found && rom_ends_with_exec(romfiles, &roms[i], exts[j]) {
                found = true;
            }
            i += 1;
        }
        if !found {
            assert(!game_has_all(romfiles@, roms@, e)) by {
                if game_has_all(romfiles@, roms@, e) {
                    assert(ext_covered(romfiles@, roms@, e[j as int]));
                }
            }
            return false;
        }
        j += 1;
    }
    true
}

/// Split `games` into those `flags` marks and the rest, each in order.
pub(crate) fn split_by_flags(
    games: Vec<(i64, Vec<Rom>)>,
    flags: &Vec<bool>,
    Ghost(p): Ghost<spec_fn((i64, Vec<Rom>)) -> bool>,
) -> (r: (Vec<(i64, Vec<Rom>)>, Vec<(i64, Vec<Rom>)>))
    requires
        flags@.len() == games@.len(),
        forall|i: int| 0 <= i < games@.len() ==> flags@[i] == p(#[trigger] games@[i]),
    ensures
        r.0@ == games@.filter(p),
        r.1@ == games@.filter(|g: (i64, Vec<Rom>)| !p(g)),
{
    let ghost all = games@;
    let ghost q = |g: (i64, Vec<Rom>)| !p(g);
    let mut rest = games;
    let mut yes: Vec<(i64, Vec<Rom>)> = Vec::new();
    let mut no: Vec<(i64, Vec<Rom>)> = Vec::new();
    let mut k: usize = 0;
    proof {
        reveal(Seq::filter);
        assert(all.take(0) =~= Seq::<(i64, Vec<Rom>)>::empty());
        assert(rest@ =~= all.skip(0));
    }
    while k < flags.len()
        invariant
            k <= all.len(),
            flags@.len() == all.len(),
            forall|i: int| 0 <= i < all.len() ==> flags@[i] == p(#[trigger] all[i]),
            rest@ == all.skip(k as int),
            q == (|g: (i64, Vec<Rom>)| !p(g)),
            yes@ == all.take(k as int).filter(p),
            no@ == all.take(k as int).filter(q),
        decreases flags.len() - k,
    {
        let g = rest.remove(0);
        proof {
            reveal(Seq::filter);
            assert(g == all[k as int]);
            assert(all.take(k + 1).drop_last() =~= all.take(k as int));
            assert(all.take(k + 1).last() == all[k as int]);
        }
        assert(q(all[k as int]) == !p(all[k as int]));
        if flags[k] {
            yes.push(g);
        } else {
            no.push(g);
        }
        k += 1;
        proof {
            assert(rest@ =~= all.skip(k as int));
        }
    }
    proof {
        assert(all.take(k as int) =~= all);
    }
    (yes, no)
}

/// Split games into those some of whose ROMs lie in files ending with one of
/// `extensions`, and the rest, each in order.
pub fn partition_games_by_extensions(
    games: Vec<(i64, Vec<Rom>)>,
    romfiles: &Vec<Romfile>,
    extensions: &[&'static str],
) -> (r: (Vec<(i64, Vec<Rom>)>, Vec<(i64, Vec<Rom>)>))
    requires
        ids_unique(romfiles@),
        games_located(romfiles@, games@),
    ensures
        r.0@ == games@.filter(|g: (i64, Vec<Rom>)| game_has_any(romfiles@, g.1@, word_texts(extensions@))),
        r.1@ == games@.filter(|g: (i64, Vec<Rom>)| !game_has_any(romfiles@, g.1@, word_texts(extensions@))),
{
    let ghost p = |g: (i64, Vec<Rom>)| game_has_any(romfiles@, g.1@, word_texts(extensions@));
    let mut flags: Vec<bool> = Vec::new();
    let mut i: usize = 0;
    while i < games.len()
        invariant
            i <= games@.len(),
            flags@.len() == i,
            ids_unique(romfiles@),
            games_located(romfiles@, games@),
            p == (|g: (i64, Vec<Rom>)| game_has_any(romfiles@, g.1@, word_texts(extensions@))),
            forall|k: int| 0 <= k < i ==> flags@[k] == p(#[trigger] games@[k]),
        decreases games.len() - i,
    {
        assert forall|k: int| 0 <= k < games@[i as int].1@.len() implies rom_located(romfiles@, #[trigger] games@[i as int].1@[k]) by {
            assert(rom_located(romfiles@, games@[i as int].1@[k]));
        }
        let b = game_has_any_exec(romfiles, &games[i].1, extensions);
        assert(b == p(games@[i as int]));
        flags.push(b);
        i += 1;
    }
    let r = split_by_flags(games, &flags, Ghost(p));
    assert((|g: (i64, Vec<Rom>)| !p(g)) =~= (|g: (i64, Vec<Rom>)| !game_has_any(romfiles@, g.1@, word_texts(extensions@))));
    r
}

/// Split games into those whose ROMs' files between them end with each of
/// `extensions`, and the rest, each in order.
pub fn partition_games_by_all_extensions(
    games: Vec<(i64, Vec<Rom>)>,
    romfiles: &Vec<Romfile>,
    extensions: &[&'static str],
) -> (r: (Vec<(i64, Vec<Rom>)>, Vec<(i64, Vec<Rom>)>))
    requires
        ids_unique(romfiles@),
        games_located(romfiles@, games@),
    ensures
        r.0@ == games@.filter(|g: (i64, Vec<Rom>)| game_has_all(romfiles@, g.1@, word_texts(extensions@))),
        r.1@ == games@.filter(|g: (i64, Vec<Rom>)| !game_has_all(romfiles@, g.1@, word_texts(extensions@))),
{
    let ghost p = |g: (i64, Vec<Rom>)| game_has_all(romfiles@, g.1@, word_texts(extensions@));
    let mut flags: Vec<bool> = Vec::new();
    let mut i: usize = 0;
    while i < games.len()
        invariant
            i <= games@.len(),
            flags@.len() == i,
            ids_unique(romfiles@),
            games_located(romfiles@, games@),
            p == (|g: (i64, Vec<Rom>)| game_has_all(romfiles@, g.1@, word_texts(extensions@))),
            forall|k: int| 0 <= k < i ==> flags@[k] == p(#[trigger] games@[k]),
        decreases games.len() - i,
    {
        assert forall|k: int| 0 <= k < games@[i as int].1@.len() implies rom_located(romfiles@, #[trigger] games@[i as int].1@[k]) by {
            assert(rom_located(romfiles@, games@[i as int].1@[k]));
        }
        let b = game_has_all_exec(romfiles, &games[i].1, extensions);
        assert(b == p(games@[i as int]));
        flags.push(b);
        i += 1;
    }
    let r = split_by_flags(games, &flags, Ghost(p));
    assert((|g: (i64, Vec<Rom>)| !p(g)) =~= (|g: (i64, Vec<Rom>)| !game_has_all(romfiles@, g.1@, word_texts(extensions@))));
    r
}

// === laws ===

/// A path taken relative to a directory is found again by joining it to
/// that directory: what the database records of a file under the ROM
/// directory leads back to the file.
pub proof fn lemma_relative_path_rejoins(path: Seq<char>, directory: Seq<char>)
    requires
        directory.len() > 0,
        relative_to(path, directory) matches Some(rel) && rel.len() > 0 && rel[0] != '/',
    ensures
        join(directory, relative_to(path, directory)->0) == path,
{
    let rel = relative_to(path, directory)->0;
    if directory.last() == '/' {
        assert(path.take(directory.len() as int) == directory);
        assert(directory + rel =~= path);
    } else {
        let d = directory + seq!['/'];
        assert(path.take(d.len() as int) == d);
        assert(directory + seq!['/'] + rel =~= path);
    }
}

/// Every game lands in exactly one of the two parts a split makes: the
/// parts' sizes add up to the whole.
pub proof fn lemma_split_keeps_every_game(s: Seq<(i64, Vec<Rom>)>, p: spec_fn((i64, Vec<Rom>)) -> bool)
    ensures
        s.filter(p).len() + s.filter(|g: (i64, Vec<Rom>)| !p(g)).len() == s.len(),
    decreases s.len(),
{
    reveal(Seq::filter);
    let q = |g: (i64, Vec<Rom>)| !p(g);
    if s.len() > 0 {
        lemma_split_keeps_every_game(s.drop_last(), p);
        assert(q(s.last()) == !p(s.last()));
    }
}

} // verus!
