//! Converting games between formats: which formats a system accepts, how a
//! system's ROMs are grouped into games, which games each conversion takes
//! up and in what order, and the decisions taken for each game.

use crate::archive::{archive_type_name, ArchiveType};
use crate::chdman::{MIN_DREAMCAST_VERSION, MIN_SPLITBIN_VERSION};
use crate::common::{
    game_has_all, game_has_any, games_located, ids_unique, is_one_of, one_of, partition_games_by_all_extensions,
    partition_games_by_extensions, rom_located, romfile_path, split_by_flags, word_texts, CSO_EXTENSION,
    CUE_EXTENSION, ISO_EXTENSION, ZSO_EXTENSION,
};
use crate::model::{Rom, Romfile};
use crate::sort::lex_lt;
use crate::text::{chars_of, contains, ends_with, has_infix, has_suffix, same};
use vstd::prelude::*;

verus! {

/// Every format a conversion can target, by name.
pub const ALL_FORMATS: [&'static str; 8] = ["ORIGINAL", "7Z", "CHD", "CSO", "NSZ", "RVZ", "ZIP", "ZSO"];

/// The formats arcade systems can be converted to.
pub const ARCADE_FORMATS: [&'static str; 2] = ["ORIGINAL", "ZIP"];

// === which systems a conversion takes up ===

/// What a conversion does with a system.
#[derive(Clone, Copy, Debug, PartialEq, Eq, Structural)]
pub enum SystemVerdict {
    /// Its games are converted.
    Convert,
    /// Dreamcast games need a newer `chdman` to become CHDs.
    NeedsNewerChdman,
    /// Arcade systems only take the arcade formats.
    ArcadeUnsupported,
}

/// What a conversion to `format` does with a system named `name`, arcade or
/// not, given the `chdman` version (read only for CHDs of Dreamcast games).
pub open spec fn system_verdict_spec(format: Seq<char>, name: Seq<char>, arcade: bool, chdman_version: Seq<char>) -> SystemVerdict {
    if format == "CHD"@ && has_infix(name, "Dreamcast"@) && lex_lt(chdman_version, MIN_DREAMCAST_VERSION@) {
        SystemVerdict::NeedsNewerChdman
    } else if arcade && !is_one_of(ARCADE_FORMATS@, format) {
        SystemVerdict::ArcadeUnsupported
    } else {
        SystemVerdict::Convert
    }
}

/// Exec form of [`system_verdict_spec`].
pub fn system_verdict(format: &str, name: &str, arcade: bool, chdman_version: &str) -> (v: SystemVerdict)
    ensures
        v == system_verdict_spec(format@, name@, arcade, chdman_version@),
{
    let f = chars_of(format);
    if same(&f, &chars_of("CHD")) && contains(&chars_of(name), &chars_of("Dreamcast"))
        && crate::sort::less_than(&chars_of(chdman_version), &chars_of(MIN_DREAMCAST_VERSION)) {
        SystemVerdict::NeedsNewerChdman
    } else if arcade && !one_of(&ARCADE_FORMATS, &f) {
        SystemVerdict::ArcadeUnsupported
    } else {
        SystemVerdict::Convert
    }
}

// === ROMs grouped by game ===

/// The position of the group of `key`, or the number of groups.
pub open spec fn key_position(g: Seq<(i64, Seq<Rom>)>, key: i64) -> int
    decreases g.len(),
{
    if g.len() == 0 {
        0
    } else if g[0].0 == key {
        0
    } else {
        1 + key_position(g.drop_first(), key)
    }
}

proof fn lemma_key_position(g: Seq<(i64, Seq<Rom>)>, key: i64, n: int)
    requires
        0 <= n <= g.len(),
        forall|j: int| 0 <= j < n ==> (#[trigger] g[j]).0 != key,
        n == g.len() || g[n].0 == key,
    ensures
        key_position(g, key) == n,
    decreases n,
{
    if n > 0 {
        assert forall|j: int| 0 <= j < n - 1 implies (#[trigger] g.drop_first()[j]).0 != key by {
            assert(g.drop_first()[j] == g[j + 1]);
        }
        lemma_key_position(g.drop_first(), key, n - 1);
    }
}

/// ROMs grouped by game, the games in the order their first ROM comes and
/// each game's ROMs in order.
pub open spec fn grouped(roms: Seq<Rom>) -> Seq<(i64, Seq<Rom>)>
    decreases roms.len(),
{
    if roms.len() == 0 {
        seq![]
    } else {
        let g = grouped(roms.drop_last());
        let r = roms.last();
        let k = key_position(g, r.game_id);
        if k < g.len() {
            g.update(k, (r.game_id, g[k].1.push(r)))
        } else {
            g.push((r.game_id, seq![r]))
        }
    }
}

/// The view of grouped ROMs.
pub open spec fn groups_view(g: Seq<(i64, Vec<Rom>)>) -> Seq<(i64, Seq<Rom>)> {
    g.map_values(|e: (i64, Vec<Rom>)| (e.0, e.1@))
}

/// Group a system's ROMs by game, as they are converted.
pub fn group_roms_by_game(roms: Vec<Rom>) -> (r: Vec<(i64, Vec<Rom>)>)
    ensures
        groups_view(r@) == grouped(roms@),
{
    let ghost all = roms@;
    let mut rest = roms;
    let mut groups: Vec<(i64, Vec<Rom>)> = Vec::new();
    let mut i: usize = 0;
    let n = rest.len();
    proof {
        assert(all.take(0) =~= Seq::<Rom>::empty());
        assert(rest@ =~= all.skip(0));
        assert(groups_view(groups@) =~= Seq::<(i64, Seq<Rom>)>::empty());
    }
    while i < n
        invariant
            n == all.len(),
            i <= n,
            rest@ == all.skip(i as int),
            groups_view(groups@) == grouped(all.take(i as int)),
        decreases n - i,
    {
        let rom = rest.remove(0);
        let ghost g0 = groups_view(groups@);
        proof {
            assert(rom == all[i as int]);
            assert(all.take(i + 1).drop_last() =~= all.take(i as int));
            assert(all.take(i + 1).last() == all[i as int]);
        }
        let key = rom.game_id;
        let mut k: usize = 0;
        while k < groups.len() && groups[k].0 != key
            invariant
                k <= groups@.len(),
                g0 == groups_view(groups@),
                forall|j: int| 0 <= j < k ==> (#[trigger] g0[j]).0 != key,
            decreases groups.len() - k,
        {
            k += 1;
        }
        proof {
            lemma_key_position(g0, key, k as int);
        }
        if k < groups.len() {
            let mut e = groups.remove(k);
            let ghost before = e.1@;
            e.1.push(rom);
            groups.insert(k, e);
            assert(groups_view(groups@) =~= g0.update(k as int, (key, g0[k as int].1.push(rom))));
        } else {
            let mut v: Vec<Rom> = Vec::new();
            v.push(rom);
            groups.push((key, v));
            assert(groups_view(groups@) =~= g0.push((key, seq![rom])));
        }
        i += 1;
        proof {
            assert(rest@ =~= all.skip(i as int));
        }
    }
    assert(all.take(n as int) =~= all);
    groups
}

// === children before parents ===

/// Some ROM of the game lies in a CHD that has a parent.
pub open spec fn has_parented_romfile(romfiles: Seq<Romfile>, roms: Seq<Rom>) -> bool {
    exists|i: int| 0 <= i < roms.len() && parent_of(romfiles, roms[i].romfile_id->0) is Some
}

/// The parent of the romfile with id `id`.
pub open spec fn parent_of(romfiles: Seq<Romfile>, id: i64) -> Option<i64> {
    romfiles[choose|i: int| 0 <= i < romfiles.len() && romfiles[i].id == id].parent_id
}

fn parent_of_exec(romfiles: &Vec<Romfile>, id: i64) -> (r: Option<i64>)
    requires
        ids_unique(romfiles@),
        exists|i: int| 0 <= i < romfiles@.len() && romfiles@[i].id == id,
    ensures
        r == parent_of(romfiles@, id),
{
    let mut k: usize = 0;
    while k < romfiles.len()
        invariant
            k <= romfiles@.len(),
            ids_unique(romfiles@),
            exists|i: int| 0 <= i < romfiles@.len() && romfiles@[i].id == id,
            forall|j: int| 0 <= j < k ==> romfiles@[j].id != id,
        decreases romfiles.len() - k,
    {
        if romfiles[k].id == id {
            let ghost c = choose|i: int| 0 <= i < romfiles@.len() && romfiles@[i].id == id;
            assert(c == k as int) by {
                if c < k {
                    assert(romfiles@[c].id != id);
                } else if c > k {
                    assert(romfiles@[k as int].id != romfiles@[c].id);
                }
            }
            return romfiles[k].parent_id;
        }
        k += 1;
    }
    let ghost c = choose|i: int| 0 <= i < romfiles@.len() && romfiles@[i].id == id;
    assert(romfiles@[c].id != id);
    None
}

/// Order CHD games so that those whose CHDs have parents come first, each
/// part in its order: a child is converted before its parent.
pub fn children_first(
    games: Vec<(i64, Vec<Rom>)>,
    romfiles: &Vec<Romfile>,
) -> (r: Vec<(i64, Vec<Rom>)>)
    requires
        ids_unique(romfiles@),
        games_located(romfiles@, games@),
    ensures
        r@ == games@.filter(|g: (i64, Vec<Rom>)| has_parented_romfile(romfiles@, g.1@)) + games@.filter(
            |g: (i64, Vec<Rom>)| !has_parented_romfile(romfiles@, g.1@),
        ),
{
    let ghost p = |g: (i64, Vec<Rom>)| has_parented_romfile(romfiles@, g.1@);
    let mut flags: Vec<bool> = Vec::new();
    let mut i: usize = 0;
    while i < games.len()
        invariant
            i <= games@.len(),
            flags@.len() == i,
            ids_unique(romfiles@),
            games_located(romfiles@, games@),
            p == (|g: (i64, Vec<Rom>)| has_parented_romfile(romfiles@, g.1@)),
            forall|k: int| 0 <= k < i ==> flags@[k] == p(#[trigger] games@[k]),
        decreases games.len() - i,
    {
        let roms = &games[i].1;
        let mut found = false;
        let mut j: usize = 0;
        while j < roms.len()
            invariant
                i < games@.len(),
                roms@ == games@[i as int].1@,
                j <= roms@.len(),
                ids_unique(romfiles@),
                games_located(romfiles@, games@),
                found == exists|a: int| 0 <= a < j && parent_of(romfiles@, roms@[a].romfile_id->0) is Some,
            decreases roms.len() - j,
        {
            assert(rom_located(romfiles@, games@[i as int].1@[j as int]));
            let id = match roms[j].romfile_id {
                Some(id) => id,
                None => 0,
            };
            if parent_of_exec(romfiles, id).is_some() {
                found = true;
            }
            j += 1;
        }
        assert(found == p(games@[i as int]));
        flags.push(found);
        i += 1;
    }
    let (mut yes, mut no) = split_by_flags(games, &flags, Ghost(p));
    let ghost a = yes@;
    let ghost b = no@;
    yes.append(&mut no);
    assert((|g: (i64, Vec<Rom>)| !p(g)) =~= (|g: (i64, Vec<Rom>)| !has_parented_romfile(romfiles@, g.1@)));
    assert(yes@ =~= a + b);
    yes
}

// === which games each conversion takes up ===

/// The games of `s` some of whose ROMs lie in files ending with one of `exts`.
pub open spec fn with_any(romfiles: Seq<Romfile>, s: Seq<(i64, Vec<Rom>)>, exts: Seq<Seq<char>>) -> Seq<(i64, Vec<Rom>)> {
    s.filter(|g: (i64, Vec<Rom>)| game_has_any(romfiles, g.1@, exts))
}

/// The other games of `s`.
pub open spec fn without_any(romfiles: Seq<Romfile>, s: Seq<(i64, Vec<Rom>)>, exts: Seq<Seq<char>>) -> Seq<(i64, Vec<Rom>)> {
    s.filter(|g: (i64, Vec<Rom>)| !game_has_any(romfiles, g.1@, exts))
}

/// The games of `s` whose ROMs' files between them end with each of `exts`.
pub open spec fn with_all(romfiles: Seq<Romfile>, s: Seq<(i64, Vec<Rom>)>, exts: Seq<Seq<char>>) -> Seq<(i64, Vec<Rom>)> {
    s.filter(|g: (i64, Vec<Rom>)| game_has_all(romfiles, g.1@, exts))
}

/// The other games of `s`.
pub open spec fn without_all(romfiles: Seq<Romfile>, s: Seq<(i64, Vec<Rom>)>, exts: Seq<Seq<char>>) -> Seq<(i64, Vec<Rom>)> {
    s.filter(|g: (i64, Vec<Rom>)| !game_has_all(romfiles, g.1@, exts))
}

/// Games with a parented CHD first, then the others.
pub open spec fn ordered_children_first(romfiles: Seq<Romfile>, s: Seq<(i64, Vec<Rom>)>) -> Seq<(i64, Vec<Rom>)> {
    s.filter(|g: (i64, Vec<Rom>)| has_parented_romfile(romfiles, g.1@)) + s.filter(
        |g: (i64, Vec<Rom>)| !has_parented_romfile(romfiles, g.1@),
    )
}

/// A part of located games is located.
proof fn lemma_located_filter(romfiles: Seq<Romfile>, s: Seq<(i64, Vec<Rom>)>, p: spec_fn((i64, Vec<Rom>)) -> bool)
    requires
        games_located(romfiles, s),
    ensures
        games_located(romfiles, s.filter(p)),
{
    let f = s.filter(p);
    assert forall|g: int, i: int| 0 <= g < f.len() && 0 <= i < f[g].1@.len() implies rom_located(romfiles, #[trigger] f[g].1@[i]) by {
        assert(f.contains(f[g]));
        s.lemma_filter_contains_rev(p, f[g]);
        let j = choose|j: int| 0 <= j < s.len() && s[j] == f[g];
        assert(rom_located(romfiles, s[j].1@[i]));
    }
}

/// Split off the games of `extensions`, keeping both parts located.
fn peel(
    games: Vec<(i64, Vec<Rom>)>,
    romfiles: &Vec<Romfile>,
    extensions: &[&'static str],
) -> (r: (Vec<(i64, Vec<Rom>)>, Vec<(i64, Vec<Rom>)>))
    requires
        ids_unique(romfiles@),
        games_located(romfiles@, games@),
    ensures
        r.0@ == with_any(romfiles@, games@, word_texts(extensions@)),
        r.1@ == without_any(romfiles@, games@, word_texts(extensions@)),
        games_located(romfiles@, r.0@),
        games_located(romfiles@, r.1@),
{
    let ghost s = games@;
    let r = partition_games_by_extensions(games, romfiles, extensions);
    proof {
        lemma_located_filter(romfiles@, s, |g: (i64, Vec<Rom>)| game_has_any(romfiles@, g.1@, word_texts(extensions@)));
        lemma_located_filter(romfiles@, s, |g: (i64, Vec<Rom>)| !game_has_any(romfiles@, g.1@, word_texts(extensions@)));
    }
    r
}

/// The games a conversion to an archive takes up, by what holds them now:
/// CHDs (children first), CSOs, NSZs, RVZs, ZSOs, archives, and the others.
#[derive(Debug)]
pub struct ArchiveRoutes {
    pub chds: Vec<(i64, Vec<Rom>)>,
    pub csos: Vec<(i64, Vec<Rom>)>,
    pub nszs: Vec<(i64, Vec<Rom>)>,
    pub rvzs: Vec<(i64, Vec<Rom>)>,
    pub zsos: Vec<(i64, Vec<Rom>)>,
    pub archives: Vec<(i64, Vec<Rom>)>,
    pub others: Vec<(i64, Vec<Rom>)>,
}

/// Route games for a conversion to an archive: each kind of file is split
/// off in turn from what the earlier ones left.
pub fn route_to_archive(games: Vec<(i64, Vec<Rom>)>, romfiles: &Vec<Romfile>) -> (r: ArchiveRoutes)
    requires
        ids_unique(romfiles@),
        games_located(romfiles@, games@),
    ensures
        ({
            let f = romfiles@;
            let r1 = without_any(f, games@, seq!["chd"@]);
            let r2 = without_any(f, r1, seq!["cso"@]);
            let r3 = without_any(f, r2, seq!["nsz"@]);
            let r4 = without_any(f, r3, seq!["rvz"@]);
            let r5 = without_any(f, r4, seq!["zso"@]);
            &&& r.chds@ == ordered_children_first(f, with_any(f, games@, seq!["chd"@]))
            &&& r.csos@ == with_any(f, r1, seq!["cso"@])
            &&& r.nszs@ == with_any(f, r2, seq!["nsz"@])
            &&& r.rvzs@ == with_any(f, r3, seq!["rvz"@])
            &&& r.zsos@ == with_any(f, r4, seq!["zso"@])
            &&& r.archives@ == with_any(f, r5, seq!["7z"@, "zip"@])
            &&& r.others@ == without_any(f, r5, seq!["7z"@, "zip"@])
        }),
        games_located(romfiles@, r.archives@),
        games_located(romfiles@, r.others@),
{
    let chd = ["chd"];
    let cso = ["cso"];
    let nsz = ["nsz"];
    let rvz = ["rvz"];
    let zso = ["zso"];
    let archive = ["7z", "zip"];
    assert(word_texts(chd@) =~= seq!["chd"@]);
    assert(word_texts(cso@) =~= seq!["cso"@]);
    assert(word_texts(nsz@) =~= seq!["nsz"@]);
    assert(word_texts(rvz@) =~= seq!["rvz"@]);
    assert(word_texts(zso@) =~= seq!["zso"@]);
    assert(word_texts(archive@) =~= seq!["7z"@, "zip"@]);
    let (chds, rest) = peel(games, romfiles, &chd);
    let chds = children_first(chds, romfiles);
    let (csos, rest) = peel(rest, romfiles, &cso);
    let (nszs, rest) = peel(rest, romfiles, &nsz);
    let (rvzs, rest) = peel(rest, romfiles, &rvz);
    let (zsos, rest) = peel(rest, romfiles, &zso);
    let (archives, others) = peel(rest, romfiles, &archive);
    ArchiveRoutes { chds, csos, nszs, rvzs, zsos, archives, others }
}

/// Split off the games covering all of `extensions`, keeping both parts
/// located.
fn peel_all(
    games: Vec<(i64, Vec<Rom>)>,
    romfiles: &Vec<Romfile>,
    extensions: &[&'static str],
) -> (r: (Vec<(i64, Vec<Rom>)>, Vec<(i64, Vec<Rom>)>))
    requires
        ids_unique(romfiles@),
        games_located(romfiles@, games@),
    ensures
        r.0@ == with_all(romfiles@, games@, word_texts(extensions@)),
        r.1@ == without_all(romfiles@, games@, word_texts(extensions@)),
        games_located(romfiles@, r.0@),
        games_located(romfiles@, r.1@),
{
    let ghost s = games@;
    let r = partition_games_by_all_extensions(games, romfiles, extensions);
    proof {
        lemma_located_filter(romfiles@, s, |g: (i64, Vec<Rom>)| game_has_all(romfiles@, g.1@, word_texts(extensions@)));
        lemma_located_filter(romfiles@, s, |g: (i64, Vec<Rom>)| !game_has_all(romfiles@, g.1@, word_texts(extensions@)));
    }
    r
}

/// The games a conversion to CHD takes up: archives, CUE/BIN images, ISOs,
/// CSOs, ZSOs, CHDs (children first), and the others.
#[derive(Debug)]
pub struct ChdRoutes {
    pub archives: Vec<(i64, Vec<Rom>)>,
    pub cue_bins: Vec<(i64, Vec<Rom>)>,
    pub isos: Vec<(i64, Vec<Rom>)>,
    pub csos: Vec<(i64, Vec<Rom>)>,
    pub zsos: Vec<(i64, Vec<Rom>)>,
    pub chds: Vec<(i64, Vec<Rom>)>,
    pub others: Vec<(i64, Vec<Rom>)>,
}

/// Route games for a conversion to CHD; a CUE/BIN game needs files of both
/// kinds.
pub fn route_to_chd(games: Vec<(i64, Vec<Rom>)>, romfiles: &Vec<Romfile>) -> (r: ChdRoutes)
    requires
        ids_unique(romfiles@),
        games_located(romfiles@, games@),
    ensures
        ({
            let f = romfiles@;
            let r1 = without_any(f, games@, seq!["zip"@, "7z"@]);
            let r2 = without_all(f, r1, seq!["cue"@, "bin"@]);
            let r3 = without_any(f, r2, seq!["iso"@]);
            let r4 = without_any(f, r3, seq!["cso"@]);
            let r5 = without_any(f, r4, seq!["zso"@]);
            &&& r.archives@ == with_any(f, games@, seq!["zip"@, "7z"@])
            &&& r.cue_bins@ == with_all(f, r1, seq!["cue"@, "bin"@])
            &&& r.isos@ == with_any(f, r2, seq!["iso"@])
            &&& r.csos@ == with_any(f, r3, seq!["cso"@])
            &&& r.zsos@ == with_any(f, r4, seq!["zso"@])
            &&& r.chds@ == ordered_children_first(f, with_any(f, r5, seq!["chd"@]))
            &&& r.others@ == without_any(f, r5, seq!["chd"@])
        }),
{
    let archive = ["zip", "7z"];
    let cue_bin = ["cue", "bin"];
    let iso = ["iso"];
    let cso = ["cso"];
    let zso = ["zso"];
    let chd = ["chd"];
    assert(word_texts(archive@) =~= seq!["zip"@, "7z"@]);
    assert(word_texts(cue_bin@) =~= seq!["cue"@, "bin"@]);
    assert(word_texts(iso@) =~= seq!["iso"@]);
    assert(word_texts(cso@) =~= seq!["cso"@]);
    assert(word_texts(zso@) =~= seq!["zso"@]);
    assert(word_texts(chd@) =~= seq!["chd"@]);
    let (archives, rest) = peel(games, romfiles, &archive);
    let (cue_bins, rest) = peel_all(rest, romfiles, &cue_bin);
    let (isos, rest) = peel(rest, romfiles, &iso);
    let (csos, rest) = peel(rest, romfiles, &cso);
    let (zsos, rest) = peel(rest, romfiles, &zso);
    let (chds, others) = peel(rest, romfiles, &chd);
    let chds = children_first(chds, romfiles);
    ChdRoutes { archives, cue_bins, isos, csos, zsos, chds, others }
}

/// The two compressed ISO formats `maxcso` writes.
#[derive(Clone, Copy, Debug, PartialEq, Eq, Structural)]
pub enum XsoType {
    Cso,
    Zso,
}

/// The extension of a compressed ISO format.
pub open spec fn xso_extension(t: XsoType) -> Seq<char> {
    match t {
        XsoType::Cso => CSO_EXTENSION@,
        XsoType::Zso => ZSO_EXTENSION@,
    }
}

/// The other compressed ISO format.
pub open spec fn opposite_of(t: XsoType) -> XsoType {
    match t {
        XsoType::Cso => XsoType::Zso,
        XsoType::Zso => XsoType::Cso,
    }
}

impl XsoType {
    /// The extension of this format.
    pub fn extension(self) -> (s: &'static str)
        ensures
            s@ == xso_extension(self),
    {
        match self {
            XsoType::Cso => CSO_EXTENSION,
            XsoType::Zso => ZSO_EXTENSION,
        }
    }

    /// The other format.
    pub fn opposite(self) -> (t: XsoType)
        ensures
            t == opposite_of(self),
    {
        match self {
            XsoType::Cso => XsoType::Zso,
            XsoType::Zso => XsoType::Cso,
        }
    }
}

/// The games a conversion to a compressed ISO takes up: archives, ISOs, CHDs
/// (children first), files already of the format, and files of the other
/// one; the rest are left alone.
#[derive(Debug)]
pub struct XsoRoutes {
    pub archives: Vec<(i64, Vec<Rom>)>,
    pub isos: Vec<(i64, Vec<Rom>)>,
    pub chds: Vec<(i64, Vec<Rom>)>,
    pub same: Vec<(i64, Vec<Rom>)>,
    pub opposite: Vec<(i64, Vec<Rom>)>,
}

/// Route games for a conversion to the compressed ISO format `xso_type`.
pub fn route_to_xso(games: Vec<(i64, Vec<Rom>)>, romfiles: &Vec<Romfile>, xso_type: XsoType) -> (r: XsoRoutes)
    requires
        ids_unique(romfiles@),
        games_located(romfiles@, games@),
    ensures
        ({
            let f = romfiles@;
            let r1 = without_any(f, games@, seq!["zip"@, "7z"@]);
            let r2 = without_any(f, r1, seq!["iso"@]);
            let r3 = without_any(f, r2, seq!["chd"@]);
            let r4 = without_any(f, r3, seq![xso_extension(xso_type)]);
            &&& r.archives@ == with_any(f, games@, seq!["zip"@, "7z"@])
            &&& r.isos@ == with_any(f, r1, seq!["iso"@])
            &&& r.chds@ == ordered_children_first(f, with_any(f, r2, seq!["chd"@]))
            &&& r.same@ == with_any(f, r3, seq![xso_extension(xso_type)])
            &&& r.opposite@ == with_any(f, r4, seq![xso_extension(opposite_of(xso_type))])
        }),
{
    let archive = ["zip", "7z"];
    let iso = ["iso"];
    let chd = ["chd"];
    let same_ext = [xso_type.extension()];
    let other_ext = [xso_type.opposite().extension()];
    assert(word_texts(archive@) =~= seq!["zip"@, "7z"@]);
    assert(word_texts(iso@) =~= seq!["iso"@]);
    assert(word_texts(chd@) =~= seq!["chd"@]);
    assert(word_texts(same_ext@) =~= seq![xso_extension(xso_type)]);
    assert(word_texts(other_ext@) =~= seq![xso_extension(opposite_of(xso_type))]);
    let (archives, rest) = peel(games, romfiles, &archive);
    let (isos, rest) = peel(rest, romfiles, &iso);
    let (chds, rest) = peel(rest, romfiles, &chd);
    let chds = children_first(chds, romfiles);
    let (same, rest) = peel(rest, romfiles, &same_ext);
    let (opposite, _others) = peel(rest, romfiles, &other_ext);
    XsoRoutes { archives, isos, chds, same, opposite }
}

/// The games a conversion to NSZ takes up: archives, NSPs and NSZs.
#[derive(Debug)]
pub struct NszRoutes {
    pub archives: Vec<(i64, Vec<Rom>)>,
    pub nsps: Vec<(i64, Vec<Rom>)>,
    pub nszs: Vec<(i64, Vec<Rom>)>,
}

/// Route games for a conversion to NSZ.
pub fn route_to_nsz(games: Vec<(i64, Vec<Rom>)>, romfiles: &Vec<Romfile>) -> (r: NszRoutes)
    requires
        ids_unique(romfiles@),
        games_located(romfiles@, games@),
    ensures
        ({
            let f = romfiles@;
            let r1 = without_any(f, games@, seq!["zip"@, "7z"@]);
            let r2 = without_any(f, r1, seq!["nsp"@]);
            &&& r.archives@ == with_any(f, games@, seq!["zip"@, "7z"@])
            &&& r.nsps@ == with_any(f, r1, seq!["nsp"@])
            &&& r.nszs@ == with_any(f, r2, seq!["nsz"@])
        }),
{
    let archive = ["zip", "7z"];
    let nsp = ["nsp"];
    let nsz = ["nsz"];
    assert(word_texts(archive@) =~= seq!["zip"@, "7z"@]);
    assert(word_texts(nsp@) =~= seq!["nsp"@]);
    assert(word_texts(nsz@) =~= seq!["nsz"@]);
    let (archives, rest) = peel(games, romfiles, &archive);
    let (nsps, rest) = peel(rest, romfiles, &nsp);
    let (nszs, _others) = peel(rest, romfiles, &nsz);
    NszRoutes { archives, nsps, nszs }
}

/// The games a conversion to RVZ takes up: archives, ISOs and RVZs.
#[derive(Debug)]
pub struct RvzRoutes {
    pub archives: Vec<(i64, Vec<Rom>)>,
    pub isos: Vec<(i64, Vec<Rom>)>,
    pub rvzs: Vec<(i64, Vec<Rom>)>,
}

/// Route games for a conversion to RVZ.
pub fn route_to_rvz(games: Vec<(i64, Vec<Rom>)>, romfiles: &Vec<Romfile>) -> (r: RvzRoutes)
    requires
        ids_unique(romfiles@),
        games_located(romfiles@, games@),
    ensures
        ({
            let f = romfiles@;
            let r1 = without_any(f, games@, seq!["zip"@, "7z"@]);
            let r2 = without_any(f, r1, seq!["iso"@]);
            &&& r.archives@ == with_any(f, games@, seq!["zip"@, "7z"@])
            &&& r.isos@ == with_any(f, r1, seq!["iso"@])
            &&& r.rvzs@ == with_any(f, r2, seq!["rvz"@])
        }),
{
    let archive = ["zip", "7z"];
    let iso = ["iso"];
    let rvz = ["rvz"];
    assert(word_texts(archive@) =~= seq!["zip"@, "7z"@]);
    assert(word_texts(iso@) =~= seq!["iso"@]);
    assert(word_texts(rvz@) =~= seq!["rvz"@]);
    let (archives, rest) = peel(games, romfiles, &archive);
    let (isos, rest) = peel(rest, romfiles, &iso);
    let (rvzs, _others) = peel(rest, romfiles, &rvz);
    RvzRoutes { archives, isos, rvzs }
}

/// The games a conversion back to the original files takes up: archives,
/// CHDs (children first), CSOs, NSZs, RVZs and ZSOs; originals are left
/// alone.
#[derive(Debug)]
pub struct OriginalRoutes {
    pub archives: Vec<(i64, Vec<Rom>)>,
    pub chds: Vec<(i64, Vec<Rom>)>,
    pub csos: Vec<(i64, Vec<Rom>)>,
    pub nszs: Vec<(i64, Vec<Rom>)>,
    pub rvzs: Vec<(i64, Vec<Rom>)>,
    pub zsos: Vec<(i64, Vec<Rom>)>,
}

/// Route games for a conversion back to the original files.
pub fn route_to_original(games: Vec<(i64, Vec<Rom>)>, romfiles: &Vec<Romfile>) -> (r: OriginalRoutes)
    requires
        ids_unique(romfiles@),
        games_located(romfiles@, games@),
    ensures
        ({
            let f = romfiles@;
            let r1 = without_any(f, games@, seq!["zip"@, "7z"@]);
            let r2 = without_any(f, r1, seq!["chd"@]);
            let r3 = without_any(f, r2, seq!["cso"@]);
            let r4 = without_any(f, r3, seq!["nsz"@]);
            let r5 = without_any(f, r4, seq!["rvz"@]);
            &&& r.archives@ == with_any(f, games@, seq!["zip"@, "7z"@])
            &&& r.chds@ == ordered_children_first(f, with_any(f, r1, seq!["chd"@]))
            &&& r.csos@ == with_any(f, r2, seq!["cso"@])
            &&& r.nszs@ == with_any(f, r3, seq!["nsz"@])
            &&& r.rvzs@ == with_any(f, r4, seq!["rvz"@])
            &&& r.zsos@ == with_any(f, r5, seq!["zso"@])
        }),
{
    let archive = ["zip", "7z"];
    let chd = ["chd"];
    let cso = ["cso"];
    let nsz = ["nsz"];
    let rvz = ["rvz"];
    let zso = ["zso"];
    assert(word_texts(archive@) =~= seq!["zip"@, "7z"@]);
    assert(word_texts(chd@) =~= seq!["chd"@]);
    assert(word_texts(cso@) =~= seq!["cso"@]);
    assert(word_texts(nsz@) =~= seq!["nsz"@]);
    assert(word_texts(rvz@) =~= seq!["rvz"@]);
    assert(word_texts(zso@) =~= seq!["zso"@]);
    let (archives, rest) = peel(games, romfiles, &archive);
    let (chds, rest) = peel(rest, romfiles, &chd);
    let chds = children_first(chds, romfiles);
    let (csos, rest) = peel(rest, romfiles, &cso);
    let (nszs, rest) = peel(rest, romfiles, &nsz);
    let (rvzs, rest) = peel(rest, romfiles, &rvz);
    let (zsos, _originals) = peel(rest, romfiles, &zso);
    OriginalRoutes { archives, chds, csos, nszs, rvzs, zsos }
}

// === decisions taken for one game ===

/// The game holds a disk of an arcade set, whose CHD is left as it is.
pub open spec fn holds_disk(roms: Seq<Rom>) -> bool {
    exists|i: int| 0 <= i < roms.len() && roms[i].disk
}

/// Whether a CHD game is an arcade disk, left untouched.
pub fn is_arcade_chd(roms: &Vec<Rom>) -> (r: bool)
    ensures
        r == holds_disk(roms@),
{
    let mut i: usize = 0;
    while i < roms.len()
        invariant
            i <= roms@.len(),
            forall|j: int| 0 <= j < i ==> !roms@[j].disk,
        decreases roms.len() - i,
    {
        if roms[i].disk {
            return true;
        }
        i += 1;
    }
    false
}

/// The positions of the ROMs whose names end (or not, by `cue`) with `cue`.
pub open spec fn cue_positions(roms: Seq<Rom>, cue: bool) -> Seq<usize>
    decreases roms.len(),
{
    if roms.len() == 0 {
        seq![]
    } else {
        let rest = cue_positions(roms.drop_last(), cue);
        if has_suffix(roms.last().name@, CUE_EXTENSION@) == cue {
            rest.push((roms.len() - 1) as usize)
        } else {
            rest
        }
    }
}

/// Split a game's ROMs into its CUE sheets and its other files, by position,
/// each in order.
pub fn split_cue_bin(roms: &Vec<Rom>) -> (r: (Vec<usize>, Vec<usize>))
    ensures
        r.0@ == cue_positions(roms@, true),
        r.1@ == cue_positions(roms@, false),
{
    let mut cues: Vec<usize> = Vec::new();
    let mut bins: Vec<usize> = Vec::new();
    let mut i: usize = 0;
    assert(roms@.take(0) =~= Seq::<Rom>::empty());
    while i < roms.len()
        invariant
            i <= roms@.len(),
            cues@ == cue_positions(roms@.take(i as int), true),
            bins@ == cue_positions(roms@.take(i as int), false),
        decreases roms.len() - i,
    {
        proof {
            assert(roms@.take(i + 1).drop_last() =~= roms@.take(i as int));
            assert(roms@.take(i + 1).last() == roms@[i as int]);
        }
        if ends_with(&chars_of(roms[i].name.as_str()), &chars_of(CUE_EXTENSION)) {
            cues.push(i);
        } else {
            bins.push(i);
        }
        i += 1;
    }
    assert(roms@.take(i as int) =~= roms@);
    (cues, bins)
}

/// A CD image of several tracks needs a `chdman` recent enough to split
/// them into files.
pub fn needs_newer_chdman_for_split(track_count: usize, chdman_version: &str) -> (r: bool)
    ensures
        r == (track_count > 1 && lex_lt(chdman_version@, MIN_SPLITBIN_VERSION@)),
{
    track_count > 1 && crate::sort::less_than(&chars_of(chdman_version), &chars_of(MIN_SPLITBIN_VERSION))
}

/// What a conversion to an archive does with a game already in an archive.
#[derive(Clone, Copy, Debug, PartialEq, Eq, Structural)]
pub enum ArchiveAction {
    /// Of the other type: each file is moved into a new archive beside the
    /// old one, which is then deleted.
    Convert,
    /// Of the same type, recompression asked: each file is packed anew in the
    /// scratch directory, and the new archive takes the old one's place.
    Recompress,
    /// Of the same type: nothing to do.
    Nothing,
}

/// What is done with a game in an archive of `source`, converted to `target`.
pub fn archive_action(source: ArchiveType, target: ArchiveType, recompress: bool) -> (a: ArchiveAction)
    ensures
        a == (if source != target {
            ArchiveAction::Convert
        } else if recompress {
            ArchiveAction::Recompress
        } else {
            ArchiveAction::Nothing
        }),
{
    if source != target {
        ArchiveAction::Convert
    } else if recompress {
        ArchiveAction::Recompress
    } else {
        ArchiveAction::Nothing
    }
}

/// How a game of original files is packed into an archive.
#[derive(Clone, Copy, Debug, PartialEq, Eq, Structural)]
pub enum PackPlan {
    /// A single ROM of a system that is not arcade: its file becomes an
    /// archive beside it.
    Single,
    /// Every file not yet in an archive of the target type goes into one
    /// archive named after the game.
    Multiple,
}

/// How a game of `rom_count` original files is packed.
pub fn pack_plan(rom_count: usize, arcade: bool) -> (p: PackPlan)
    ensures
        p == (if rom_count == 1 && !arcade {
            PackPlan::Single
        } else {
            PackPlan::Multiple
        }),
{
    if rom_count == 1 && !arcade {
        PackPlan::Single
    } else {
        PackPlan::Multiple
    }
}

/// The positions of the ROMs whose files are not already archives of the
/// target type.
pub open spec fn unarchived_positions(romfiles: Seq<Romfile>, roms: Seq<Rom>, ext: Seq<char>) -> Seq<usize>
    decreases roms.len(),
{
    if roms.len() == 0 {
        seq![]
    } else {
        let rest = unarchived_positions(romfiles, roms.drop_last(), ext);
        if !has_suffix(romfile_path(romfiles, roms.last().romfile_id->0), ext) {
            rest.push((roms.len() - 1) as usize)
        } else {
            rest
        }
    }
}

/// The ROMs of a game that still have to go into its archive of
/// `archive_type`, by position and in order.
pub fn unarchived_roms(roms: &Vec<Rom>, romfiles: &Vec<Romfile>, archive_type: ArchiveType) -> (r: Vec<usize>)
    requires
        ids_unique(romfiles@),
        forall|i: int| 0 <= i < roms@.len() ==> rom_located(romfiles@, #[trigger] roms@[i]),
    ensures
        r@ == unarchived_positions(romfiles@, roms@, archive_type_name(archive_type)),
{
    let ext = chars_of(archive_type.as_str());
    let mut r: Vec<usize> = Vec::new();
    let mut i: usize = 0;
    assert(roms@.take(0) =~= Seq::<Rom>::empty());
    while i < roms.len()
        invariant
            i <= roms@.len(),
            ext@ == archive_type_name(archive_type),
            ids_unique(romfiles@),
            forall|k: int| 0 <= k < roms@.len() ==> rom_located(romfiles@, #[trigger] roms@[k]),
            r@ == unarchived_positions(romfiles@, roms@.take(i as int), ext@),
        decreases roms.len() - i,
    {
        proof {
            assert(roms@.take(i + 1).drop_last() =~= roms@.take(i as int));
            assert(roms@.take(i + 1).last() == roms@[i as int]);
            assert(rom_located(romfiles@, roms@[i as int]));
        }
        let id = match roms[i].romfile_id {
            Some(id) => id,
            None => 0,
        };
        if !crate::common::romfile_ends_with(romfiles, id, &ext) {
            r.push(i);
        }
        i += 1;
    }
    assert(roms@.take(i as int) =~= roms@);
    r
}

/// The directory above `p` (`Path::parent`): `/` for a path right under the
/// root, nothing for a bare name; trailing separators and `.` components are
/// set aside on both sides of the last component.
pub open spec fn parent_dir(p: Seq<char>) -> Seq<char> {
    let t = crate::paths::trim_end(p);
    let i = crate::text::last_index_of(t, '/');
    if i == 0 {
        seq!['/']
    } else if i < 0 {
        seq![]
    } else {
        crate::paths::trim_end(t.take(i))
    }
}

/// Exec form of [`parent_dir`].
pub fn parent_directory(p: &str) -> (r: String)
    ensures
        r@ == parent_dir(p@),
{
    let c = chars_of(p);
    let (start, _end) = crate::paths::name_span(&c);
    if start == 1 {
        let mut v: Vec<char> = Vec::new();
        v.push('/');
        crate::text::string_of(&v)
    } else if start == 0 {
        crate::text::string_of(&Vec::new())
    } else {
        let above = &c[0..start - 1];
        let n = crate::paths::trimmed_len(above);
        proof {
            assert(above@ =~= crate::paths::trim_end(c@).take(start - 1));
        }
        crate::text::string_of(&vstd::slice::slice_to_vec(&above[0..n]))
    }
}

/// Where a game's archive is written: beside its files, or above their
/// folder for arcade games, whose files sit in a folder of the game's name.
pub fn archive_destination(directory: &str, arcade: bool) -> (r: String)
    ensures
        r@ == (if arcade {
            parent_dir(directory@)
        } else {
            directory@
        }),
{
    if arcade {
        parent_directory(directory)
    } else {
        crate::text::string_of(&chars_of(directory))
    }
}

/// A game in an archive becomes a compressed ISO only when the archive holds
/// a single ISO image.
pub fn xso_archive_eligible(roms: &Vec<Rom>) -> (r: bool)
    ensures
        r == (roms@.len() == 1 && has_suffix(roms@[0].name@, ISO_EXTENSION@)),
{
    roms.len() == 1 && ends_with(&chars_of(roms[0].name.as_str()), &chars_of(ISO_EXTENSION))
}

/// Where the parent CHD of a game is taken from.
#[derive(Clone, Copy, Debug, PartialEq, Eq, Structural)]
pub enum ParentSource {
    /// The user is asked.
    Prompt,
    /// The parent game's CHD in the database.
    Database,
    /// No parent is used.
    NoParent,
}

/// Where the parent CHD comes from: asking wins over the setting.
pub fn parent_source(prompt: bool, parents: bool) -> (s: ParentSource)
    ensures
        s == (if prompt {
            ParentSource::Prompt
        } else if parents {
            ParentSource::Database
        } else {
            ParentSource::NoParent
        }),
{
    if prompt {
        ParentSource::Prompt
    } else if parents {
        ParentSource::Database
    } else {
        ParentSource::NoParent
    }
}

/// One step of recording a finished conversion.
#[derive(Clone, Copy, Debug, PartialEq, Eq, Structural)]
pub enum PersistStep {
    /// Delete the converted file: its check failed.
    DeleteTarget,
    /// Report the sizes before and after.
    PrintDiff,
    /// Delete the source file.
    DeleteSource,
    /// Give the converted file the source's path.
    RenameTargetToSource,
    /// Record the converted file in the database in the source's place.
    UpdateRecord,
}

/// The steps that record a conversion whose check `passed` (or was not
/// asked for): a failed one only deletes what it wrote; otherwise the diff
/// when asked, then either the source is deleted and the new file takes its
/// path, or the new file is recorded and the source deleted.
pub open spec fn persist_steps(passed: bool, diff: bool, rename_to_source: bool) -> Seq<PersistStep> {
    if !passed {
        seq![PersistStep::DeleteTarget]
    } else {
        (if diff {
            seq![PersistStep::PrintDiff]
        } else {
            seq![]
        }) + if rename_to_source {
            seq![PersistStep::DeleteSource, PersistStep::RenameTargetToSource, PersistStep::UpdateRecord]
        } else {
            seq![PersistStep::UpdateRecord, PersistStep::DeleteSource]
        }
    }
}

/// Exec form of [`persist_steps`].
pub fn persist_plan(passed: bool, diff: bool, rename_to_source: bool) -> (r: Vec<PersistStep>)
    ensures
        r@ == persist_steps(passed, diff, rename_to_source),
{
    if !passed {
        return vec![PersistStep::DeleteTarget];
    }
    let mut r: Vec<PersistStep> = Vec::new();
    if diff {
        r.push(PersistStep::PrintDiff);
    }
    let ghost head = r@;
    if rename_to_source {
        r.push(PersistStep::DeleteSource);
        r.push(PersistStep::RenameTargetToSource);
        r.push(PersistStep::UpdateRecord);
    } else {
        r.push(PersistStep::UpdateRecord);
        r.push(PersistStep::DeleteSource);
    }
    assert(r@ =~= persist_steps(passed, diff, rename_to_source));
    r
}

/// What a single file unpacked from an archive becomes as a CHD, by its
/// extension.
#[derive(Clone, Copy, Debug, PartialEq, Eq, Structural)]
pub enum ChdSource {
    /// An ISO image, packed with the CD settings.
    Iso,
    /// A hard disk image, packed with the hard disk settings.
    Rdsk,
    /// A LaserDisc image, packed with the LaserDisc settings.
    Riff,
}

/// The kind of image a file unpacked from an archive is, if one a CHD is
/// made from.
pub fn chd_source(extension: &str) -> (r: Option<ChdSource>)
    ensures
        r == (if extension@ == ISO_EXTENSION@ {
            Some(ChdSource::Iso)
        } else if extension@ == crate::common::RDSK_EXTENSION@ {
            Some(ChdSource::Rdsk)
        } else if extension@ == crate::common::RIFF_EXTENSION@ {
            Some(ChdSource::Riff)
        } else {
            None
        }),
{
    let e = chars_of(extension);
    if same(&e, &chars_of(ISO_EXTENSION)) {
        Some(ChdSource::Iso)
    } else if same(&e, &chars_of(crate::common::RDSK_EXTENSION)) {
        Some(ChdSource::Rdsk)
    } else if same(&e, &chars_of(crate::common::RIFF_EXTENSION)) {
        Some(ChdSource::Riff)
    } else {
        None
    }
}

// === the tool a format needs ===

/// An outside program a conversion runs.
#[derive(Clone, Copy, Debug, PartialEq, Eq, Structural)]
pub enum Tool {
    Sevenzip,
    Chdman,
    Maxcso,
    Nsz,
    DolphinTool,
}

/// Why a conversion cannot start, or cannot go on with a game.
#[derive(Clone, Copy, Debug, PartialEq, Eq, Structural)]
pub enum ConvertError {
    /// The format is none of the known ones.
    UnsupportedFormat,
    /// A game's files that should be one archive or one CHD are several.
    MultipleFiles,
}

/// The program a conversion to `format` needs, if any; `None` inside for
/// the original files.
pub open spec fn required_tool_spec(format: Seq<char>) -> Result<Option<Tool>, ConvertError> {
    if format == "7Z"@ || format == "ZIP"@ {
        Ok(Some(Tool::Sevenzip))
    } else if format == "CHD"@ {
        Ok(Some(Tool::Chdman))
    } else if format == "CSO"@ || format == "ZSO"@ {
        Ok(Some(Tool::Maxcso))
    } else if format == "NSZ"@ {
        Ok(Some(Tool::Nsz))
    } else if format == "RVZ"@ {
        Ok(Some(Tool::DolphinTool))
    } else if format == "ORIGINAL"@ {
        Ok(None)
    } else {
        Err(ConvertError::UnsupportedFormat)
    }
}

/// Exec form of [`required_tool_spec`].
pub fn required_tool(format: &str) -> (r: Result<Option<Tool>, ConvertError>)
    ensures
        r == required_tool_spec(format@),
{
    let f = chars_of(format);
    if same(&f, &chars_of("7Z")) || same(&f, &chars_of("ZIP")) {
        Ok(Some(Tool::Sevenzip))
    } else if same(&f, &chars_of("CHD")) {
        Ok(Some(Tool::Chdman))
    } else if same(&f, &chars_of("CSO")) || same(&f, &chars_of("ZSO")) {
        Ok(Some(Tool::Maxcso))
    } else if same(&f, &chars_of("NSZ")) {
        Ok(Some(Tool::Nsz))
    } else if same(&f, &chars_of("RVZ")) {
        Ok(Some(Tool::DolphinTool))
    } else if same(&f, &chars_of("ORIGINAL")) {
        Ok(None)
    } else {
        Err(ConvertError::UnsupportedFormat)
    }
}

// === laws ===

/// How many ROMs a grouping holds.
pub open spec fn total_roms(g: Seq<(i64, Seq<Rom>)>) -> nat
    decreases g.len(),
{
    if g.len() == 0 {
        0
    } else {
        total_roms(g.drop_last()) + g.last().1.len()
    }
}

proof fn lemma_key_position_found(g: Seq<(i64, Seq<Rom>)>, key: i64)
    ensures
        0 <= key_position(g, key) <= g.len(),
        key_position(g, key) < g.len() ==> g[key_position(g, key)].0 == key,
        key_position(g, key) == g.len() ==> forall|j: int| 0 <= j < g.len() ==> (#[trigger] g[j]).0 != key,
    decreases g.len(),
{
    if g.len() > 0 && g[0].0 != key {
        lemma_key_position_found(g.drop_first(), key);
        assert forall|j: int| 1 <= j < g.len() implies g[j] == g.drop_first()[j - 1] by {}
    }
}

proof fn lemma_total_push(g: Seq<(i64, Seq<Rom>)>, e: (i64, Seq<Rom>))
    ensures
        total_roms(g.push(e)) == total_roms(g) + e.1.len(),
{
    assert(g.push(e).drop_last() =~= g);
}

proof fn lemma_total_update(g: Seq<(i64, Seq<Rom>)>, k: int, e: (i64, Seq<Rom>))
    requires
        0 <= k < g.len(),
    ensures
        total_roms(g.update(k, e)) + g[k].1.len() == total_roms(g) + e.1.len(),
    decreases g.len(),
{
    let u = g.update(k, e);
    if k == g.len() - 1 {
        assert(u.drop_last() =~= g.drop_last());
    } else {
        assert(u.drop_last() =~= g.drop_last().update(k, e));
        lemma_total_update(g.drop_last(), k, e);
    }
}

/// Grouping ROMs by game gives one group per game, holding only that game's
/// ROMs, and loses no ROM.
pub proof fn lemma_grouping_by_game(roms: Seq<Rom>)
    ensures
        forall|i: int, j: int| 0 <= i < j < grouped(roms).len() ==> grouped(roms)[i].0 != grouped(roms)[j].0,
        forall|i: int, k: int|
            0 <= i < grouped(roms).len() && 0 <= k < grouped(roms)[i].1.len() ==> (#[trigger] grouped(roms)[i].1[k]).game_id
                == grouped(roms)[i].0,
        total_roms(grouped(roms)) == roms.len(),
    decreases roms.len(),
{
    if roms.len() > 0 {
        let rest = roms.drop_last();
        lemma_grouping_by_game(rest);
        let g = grouped(rest);
        let r = roms.last();
        let key = r.game_id;
        lemma_key_position_found(g, key);
        let k = key_position(g, key);
        if k < g.len() {
            let e = (key, g[k].1.push(r));
            let u = g.update(k, e);
            assert(grouped(roms) == u);
            lemma_total_update(g, k, e);
            assert forall|i: int, j: int| 0 <= i < j < u.len() implies u[i].0 != u[j].0 by {
                if i == k {
                    assert(u[i].0 == g[k].0);
                } else if j == k {
                    assert(u[j].0 == g[k].0);
                }
            }
            assert forall|i: int, m: int| 0 <= i < u.len() && 0 <= m < u[i].1.len() implies (#[trigger] u[i].1[m]).game_id
                == u[i].0 by {
                if i == k {
                    if m < g[k].1.len() {
                        assert(u[i].1[m] == g[k].1[m]);
                    }
                }
            }
        } else {
            let u = g.push((key, seq![r]));
            assert(grouped(roms) == u);
            lemma_total_push(g, (key, seq![r]));
            assert forall|i: int, j: int| 0 <= i < j < u.len() implies u[i].0 != u[j].0 by {
                if j == g.len() {
                    assert(g[i].0 != key);
                }
            }
            assert forall|i: int, m: int| 0 <= i < u.len() && 0 <= m < u[i].1.len() implies (#[trigger] u[i].1[m]).game_id
                == u[i].0 by {
                if i < g.len() {
                    assert(u[i] == g[i]);
                }
            }
        }
    }
}

// === a game's single archive or CHD ===

/// All the ids are the same one.
pub open spec fn all_same(ids: Seq<i64>) -> bool {
    forall|i: int| 0 <= i < ids.len() ==> #[trigger] ids[i] == ids[0]
}

/// The one file a game's ROMs (those in archives, or in a CHD) lie in:
/// refused when they lie in several.
pub fn single_file(ids: &Vec<i64>) -> (r: Result<i64, ConvertError>)
    requires
        ids@.len() > 0,
    ensures
        all_same(ids@) ==> r == Ok::<i64, ConvertError>(ids@[0]),
        !all_same(ids@) ==> r == Err::<i64, ConvertError>(ConvertError::MultipleFiles),
{
    let first = ids[0];
    let mut i: usize = 1;
    while i < ids.len()
        invariant
            1 <= i <= ids@.len(),
            first == ids@[0],
            forall|k: int| 0 <= k < i ==> ids@[k] == first,
        decreases ids.len() - i,
    {
        if ids[i] != first {
            return Err(ConvertError::MultipleFiles);
        }
        i += 1;
    }
    Ok(first)
}

/// Where the files of an archive are extracted when a game goes back to
/// its original files: beside the archive, or for arcade games in a folder
/// named after it.
pub open spec fn extraction_directory_spec(archive_path: Seq<char>, arcade: bool) -> Seq<char> {
    if arcade {
        crate::paths::join(parent_dir(archive_path), crate::paths::stem_of(crate::paths::file_name(archive_path)))
    } else {
        parent_dir(archive_path)
    }
}

/// Exec form of [`extraction_directory_spec`].
pub fn extraction_directory(archive_path: &str, arcade: bool) -> (r: String)
    ensures
        r@ == extraction_directory_spec(archive_path@, arcade),
{
    let parent = parent_directory(archive_path);
    if arcade {
        let name = crate::paths::get_file_name(&chars_of(archive_path));
        let stem = crate::paths::stem_exec(&name);
        crate::text::string_of(&crate::paths::join_path(&chars_of(parent.as_str()), &stem))
    } else {
        parent
    }
}

/// The file of an archive a ROM is taken from: the first whose path is the
/// ROM's name.
pub fn entry_for_rom(paths: &Vec<String>, rom_name: &str) -> (r: usize)
    requires
        exists|i: int| 0 <= i < paths@.len() && paths@[i]@ == rom_name@,
    ensures
        r < paths@.len(),
        paths@[r as int]@ == rom_name@,
        forall|j: int| 0 <= j < r ==> paths@[j]@ != rom_name@,
{
    let name = chars_of(rom_name);
    let mut i: usize = 0;
    while i < paths.len()
        invariant
            i <= paths@.len(),
            name@ == rom_name@,
            exists|k: int| 0 <= k < paths@.len() && paths@[k]@ == rom_name@,
            forall|j: int| 0 <= j < i ==> paths@[j]@ != rom_name@,
        decreases paths.len() - i,
    {
        if same(&chars_of(paths[i].as_str()), &name) {
            return i;
        }
        i += 1;
    }
    let ghost w = choose|k: int| 0 <= k < paths@.len() && paths@[k]@ == rom_name@;
    assert(paths@[w]@ != rom_name@);
    0
}

} // verus!
