//! Settings: their kinds, the values they accept, and how they are stored,
//! read back and edited, globally or for one system.

use crate::sort::{sort_strings, text_order, texts};
use crate::text::{chars_of, index_of, lemma_index_of_bound, find_char_from, same, string_of, parse_u64};
use crate::archive::{SEVENZIP_COMPRESSION_LEVEL_RANGE, ZIP_COMPRESSION_LEVEL_RANGE};
use crate::chdman::CHD_HUNK_SIZE_RANGE;
use crate::dolphin::{RVZ_BLOCK_SIZE_RANGE, RVZ_COMPRESSION_LEVEL_RANGE};
use vstd::prelude::*;

verus! {

#[derive(Clone, Copy, Debug, PartialEq, Eq, Structural)]
pub enum HashAlgorithm {
    Crc,
    Md5,
    Sha1,
}

#[derive(Clone, Copy, Debug, PartialEq, Eq, Structural)]
pub enum SubfolderScheme {
    /// Stored as `none`.
    Flat,
    Alpha,
}

#[derive(Clone, Copy, Debug, PartialEq, Eq, Structural)]
pub enum PreferredVersion {
    /// Stored as `none`.
    NoPreference,
    New,
    Old,
}

#[derive(Clone, Copy, Debug, PartialEq, Eq, Structural)]
pub enum PreferredRegion {
    /// Stored as `none`.
    NoPreference,
    Broad,
    Narrow,
}

#[derive(Clone, Copy, Debug, PartialEq, Eq, Structural)]
pub enum ArcadeRomType {
    Bios,
    Clone,
    Parent,
}

pub const HASH_ALGORITHM_VARIANTS: [&'static str; 3] = ["crc", "md5", "sha1"];
pub const SUBFOLDER_SCHEME_VARIANTS: [&'static str; 2] = ["none", "alpha"];
pub const PREFERRED_VERSION_VARIANTS: [&'static str; 3] = ["none", "new", "old"];
pub const PREFERRED_REGION_VARIANTS: [&'static str; 3] = ["none", "broad", "narrow"];
pub const ARCADE_ROM_TYPE_VARIANTS: [&'static str; 3] = ["bios", "clone", "parent"];
pub const RVZ_COMPRESSION_VARIANTS: [&'static str; 5] = ["none", "zstd", "bzip2", "lzma", "lzma2"];
pub const CHD_CD_COMPRESSION_VARIANTS: [&'static str; 5] = ["none", "cdfl", "cdlz", "cdzl", "cdzs"];
pub const CHD_DVD_COMPRESSION_VARIANTS: [&'static str; 6] = ["none", "flac", "huff", "lzma", "zlib", "zstd"];
pub const CHD_HD_COMPRESSION_VARIANTS: [&'static str; 6] = ["none", "flac", "huff", "lzma", "zlib", "zstd"];
pub const CHD_LD_COMPRESSION_VARIANTS: [&'static str; 2] = ["none", "avhu"];

pub const BOOLEANS: [&'static str; 6] = [
    "CHD_PARENTS",
    "GROUP_SUBSYSTEMS",
    "PREFER_PARENTS",
    "REGIONS_ONE_STRICT",
    "RVZ_SCRUB",
    "SEVENZIP_SOLID_COMPRESSION",
];

pub const LISTS: [&'static str; 6] = [
    "DISCARD_FLAGS",
    "DISCARD_RELEASES",
    "LANGUAGES",
    "PREFER_FLAGS",
    "REGIONS_ALL",
    "REGIONS_ONE",
];

pub const PATHS: [&'static str; 2] = ["ROM_DIRECTORY", "TMP_DIRECTORY"];

pub const NULLABLES: [&'static str; 14] = [
    "CHD_CD_HUNK_SIZE",
    "CHD_CD_COMPRESSION_ALGORITHMS",
    "CHD_DVD_HUNK_SIZE",
    "CHD_DVD_COMPRESSION_ALGORITHMS",
    "DISCARD_FLAGS",
    "DISCARD_RELEASES",
    "LANGUAGES",
    "PREFER_FLAGS",
    "REGIONS_ALL",
    "REGIONS_ALL_ARCADE",
    "REGIONS_ONE",
    "REGIONS_ONE_ARCADE",
    "SEVENZIP_COMPRESSION_LEVEL",
    "ZIP_COMPRESSION_LEVEL",
];

/// Lists whose order is their meaning: added entries go last instead of the
/// list being sorted.
pub const SORTED_LISTS: [&'static str; 3] = [
    "CHD_CD_COMPRESSION_ALGORITHMS",
    "CHD_DVD_COMPRESSION_ALGORITHMS",
    "REGIONS_ONE",
];

/// Keys of settings holding one of a few words.
pub const CHOICE_KEYS: [&'static str; 5] = [
    "PREFER_REGIONS",
    "PREFER_VERSIONS",
    "REGIONS_ALL_SUBFOLDERS",
    "REGIONS_ONE_SUBFOLDERS",
    "RVZ_COMPRESSION_ALGORITHM",
];

/// Keys of settings holding a list of a few words.
pub const CHOICE_LIST_KEYS: [&'static str; 6] = [
    "CHD_CD_COMPRESSION_ALGORITHMS",
    "CHD_DVD_COMPRESSION_ALGORITHMS",
    "CHD_HD_COMPRESSION_ALGORITHMS",
    "CHD_LD_COMPRESSION_ALGORITHMS",
    "REGIONS_ALL_ARCADE",
    "REGIONS_ONE_ARCADE",
];

/// Keys of settings holding a number within a range.
pub const INTEGER_KEYS: [&'static str; 8] = [
    "CHD_CD_HUNK_SIZE",
    "CHD_DVD_HUNK_SIZE",
    "CHD_HD_HUNK_SIZE",
    "CHD_LD_HUNK_SIZE",
    "RVZ_BLOCK_SIZE",
    "RVZ_COMPRESSION_LEVEL",
    "SEVENZIP_COMPRESSION_LEVEL",
    "ZIP_COMPRESSION_LEVEL",
];


/// What separates the entries of a list setting's value.
pub const LIST_SEPARATOR: char = '|';

/// The texts of a table of words.
pub open spec fn words(t: Seq<&'static str>) -> Seq<Seq<char>> {
    t.map_values(|s: &'static str| s@)
}

/// `key` is one of the words of `t`.
pub open spec fn listed(t: Seq<&'static str>, key: Seq<char>) -> bool {
    words(t).contains(key)
}

/// Whether `key` is one of the words of `t`.
pub fn is_listed(t: &[&'static str], key: &[char]) -> (r: bool)
    ensures
        r == listed(t@, key@),
{
    let mut i: usize = 0;
    while i < t.len()
        invariant
            i <= t@.len(),
            forall|j: int| 0 <= j < i ==> words(t@)[j] != key@,
        decreases t.len() - i,
    {
        if same(&chars_of(t[i]), key) {
            assert(words(t@)[i as int] == key@);
            return true;
        }
        i += 1;
    }
    false
}

/// The words a choice setting accepts.
pub open spec fn choices_of(key: Seq<char>) -> Option<Seq<&'static str>> {
    if key == "PREFER_REGIONS"@ {
        Some(PREFERRED_REGION_VARIANTS@)
    } else if key == "PREFER_VERSIONS"@ {
        Some(PREFERRED_VERSION_VARIANTS@)
    } else if key == "REGIONS_ALL_SUBFOLDERS"@ || key == "REGIONS_ONE_SUBFOLDERS"@ {
        Some(SUBFOLDER_SCHEME_VARIANTS@)
    } else if key == "RVZ_COMPRESSION_ALGORITHM"@ {
        Some(RVZ_COMPRESSION_VARIANTS@)
    } else {
        None
    }
}

/// Exec form of [`choices_of`].
pub fn choices_for(key: &[char]) -> (r: Option<&'static [&'static str]>)
    ensures
        match r {
            Some(c) => choices_of(key@) == Some(c@),
            None => choices_of(key@) is None,
        },
{
    if same(key, &chars_of("PREFER_REGIONS")) {
        Some(PREFERRED_REGION_VARIANTS.as_slice())
    } else if same(key, &chars_of("PREFER_VERSIONS")) {
        Some(PREFERRED_VERSION_VARIANTS.as_slice())
    } else if same(key, &chars_of("REGIONS_ALL_SUBFOLDERS")) || same(key, &chars_of("REGIONS_ONE_SUBFOLDERS")) {
        Some(SUBFOLDER_SCHEME_VARIANTS.as_slice())
    } else if same(key, &chars_of("RVZ_COMPRESSION_ALGORITHM")) {
        Some(RVZ_COMPRESSION_VARIANTS.as_slice())
    } else {
        None
    }
}

/// The words a choice-list setting accepts.
pub open spec fn list_choices_of(key: Seq<char>) -> Option<Seq<&'static str>> {
    if key == "CHD_CD_COMPRESSION_ALGORITHMS"@ {
        Some(CHD_CD_COMPRESSION_VARIANTS@)
    } else if key == "CHD_DVD_COMPRESSION_ALGORITHMS"@ {
        Some(CHD_DVD_COMPRESSION_VARIANTS@)
    } else if key == "CHD_HD_COMPRESSION_ALGORITHMS"@ {
        Some(CHD_HD_COMPRESSION_VARIANTS@)
    } else if key == "CHD_LD_COMPRESSION_ALGORITHMS"@ {
        Some(CHD_LD_COMPRESSION_VARIANTS@)
    } else if key == "REGIONS_ALL_ARCADE"@ || key == "REGIONS_ONE_ARCADE"@ {
        Some(ARCADE_ROM_TYPE_VARIANTS@)
    } else {
        None
    }
}

/// Exec form of [`list_choices_of`].
pub fn list_choices_for(key: &[char]) -> (r: Option<&'static [&'static str]>)
    ensures
        match r {
            Some(c) => list_choices_of(key@) == Some(c@),
            None => list_choices_of(key@) is None,
        },
{
    if same(key, &chars_of("CHD_CD_COMPRESSION_ALGORITHMS")) {
        Some(CHD_CD_COMPRESSION_VARIANTS.as_slice())
    } else if same(key, &chars_of("CHD_DVD_COMPRESSION_ALGORITHMS")) {
        Some(CHD_DVD_COMPRESSION_VARIANTS.as_slice())
    } else if same(key, &chars_of("CHD_HD_COMPRESSION_ALGORITHMS")) {
        Some(CHD_HD_COMPRESSION_VARIANTS.as_slice())
    } else if same(key, &chars_of("CHD_LD_COMPRESSION_ALGORITHMS")) {
        Some(CHD_LD_COMPRESSION_VARIANTS.as_slice())
    } else if same(key, &chars_of("REGIONS_ALL_ARCADE")) || same(key, &chars_of("REGIONS_ONE_ARCADE")) {
        Some(ARCADE_ROM_TYPE_VARIANTS.as_slice())
    } else {
        None
    }
}

/// The inclusive range an integer setting accepts.
pub open spec fn range_of(key: Seq<char>) -> Option<(usize, usize)> {
    if key == "CHD_CD_HUNK_SIZE"@ || key == "CHD_DVD_HUNK_SIZE"@ || key == "CHD_HD_HUNK_SIZE"@
        || key == "CHD_LD_HUNK_SIZE"@ {
        Some((16, 1048576))
    } else if key == "RVZ_BLOCK_SIZE"@ {
        Some((32, 2048))
    } else if key == "RVZ_COMPRESSION_LEVEL"@ {
        Some((1, 22))
    } else if key == "SEVENZIP_COMPRESSION_LEVEL"@ || key == "ZIP_COMPRESSION_LEVEL"@ {
        Some((1, 9))
    } else {
        None
    }
}

/// Exec form of [`range_of`].
pub fn range_for(key: &[char]) -> (r: Option<(usize, usize)>)
    ensures
        r == range_of(key@),
{
    if same(key, &chars_of("CHD_CD_HUNK_SIZE")) || same(key, &chars_of("CHD_DVD_HUNK_SIZE"))
        || same(key, &chars_of("CHD_HD_HUNK_SIZE")) || same(key, &chars_of("CHD_LD_HUNK_SIZE")) {
        Some((CHD_HUNK_SIZE_RANGE[0], CHD_HUNK_SIZE_RANGE[1]))
    } else if same(key, &chars_of("RVZ_BLOCK_SIZE")) {
        Some((RVZ_BLOCK_SIZE_RANGE[0], RVZ_BLOCK_SIZE_RANGE[1]))
    } else if same(key, &chars_of("RVZ_COMPRESSION_LEVEL")) {
        Some((RVZ_COMPRESSION_LEVEL_RANGE[0], RVZ_COMPRESSION_LEVEL_RANGE[1]))
    } else if same(key, &chars_of("SEVENZIP_COMPRESSION_LEVEL")) || same(key, &chars_of("ZIP_COMPRESSION_LEVEL")) {
        Some((SEVENZIP_COMPRESSION_LEVEL_RANGE[0], SEVENZIP_COMPRESSION_LEVEL_RANGE[1]))
    } else {
        None
    }
}

// === list values ===

/// `value.split('|')`: the pieces between separators; text with no separator
/// is one piece, the empty text included.
pub open spec fn split_list_spec(s: Seq<char>) -> Seq<Seq<char>>
    decreases s.len(),
{
    let i = index_of(s, LIST_SEPARATOR);
    proof {
        lemma_index_of_bound(s, LIST_SEPARATOR);
    }
    if i < s.len() {
        seq![s.take(i)] + split_list_spec(s.skip(i + 1))
    } else {
        seq![s]
    }
}

/// `list.join("|")`.
pub open spec fn join_list_spec(l: Seq<Seq<char>>) -> Seq<char>
    decreases l.len(),
{
    if l.len() == 0 {
        seq![]
    } else if l.len() == 1 {
        l[0]
    } else {
        l[0] + seq![LIST_SEPARATOR] + join_list_spec(l.drop_first())
    }
}

/// The entries of a list setting's stored value: none when it is null.
pub open spec fn list_of_value(value: Option<Seq<char>>) -> Seq<Seq<char>> {
    match value {
        Some(v) => split_list_spec(v),
        None => seq![],
    }
}

/// The value a list setting is stored as: null when the list is empty.
pub open spec fn value_of_list(l: Seq<Seq<char>>) -> Option<Seq<char>> {
    if l.len() == 0 {
        None
    } else {
        Some(join_list_spec(l))
    }
}

/// Exec form of [`split_list_spec`].
pub fn split_list(s: &[char]) -> (r: Vec<String>)
    ensures
        texts(r@) == split_list_spec(s@),
{
    let mut r: Vec<String> = Vec::new();
    let mut start: usize = 0;
    let ghost done: Seq<Seq<char>> = seq![];
    assert(s@.skip(0) =~= s@);
    loop
        invariant
            start <= s@.len(),
            done + split_list_spec(s@.skip(start as int)) == split_list_spec(s@),
            texts(r@) == done,
        decreases s.len() - start,
    {
        let ghost rest = s@.skip(start as int);
        let end = find_char_from(s, LIST_SEPARATOR, start);
        proof {
            lemma_index_of_bound(rest, LIST_SEPARATOR);
        }
        let piece = string_of(&s[start..end]);
        proof {
            assert(rest.take(end - start) =~= s@.subrange(start as int, end as int));
        }
        if end < s.len() {
            proof {
                assert(rest.skip(end - start + 1) =~= s@.skip(end + 1));
                assert(split_list_spec(rest) == seq![rest.take(end - start)] + split_list_spec(rest.skip(end - start + 1)));
                done = done.push(piece@);
                assert(done + split_list_spec(s@.skip(end + 1)) =~= done.drop_last() + split_list_spec(rest));
            }
            r.push(piece);
            assert(texts(r@) =~= done);
            start = end + 1;
        } else {
            proof {
                assert(rest =~= s@.subrange(start as int, end as int));
                assert(split_list_spec(rest) == seq![rest]);
                done = done.push(piece@);
            }
            r.push(piece);
            assert(texts(r@) =~= done);
            assert(done =~= split_list_spec(s@));
            return r;
        }
    }
}

/// Exec form of [`join_list_spec`].
pub fn join_list(l: &Vec<String>) -> (r: Vec<char>)
    ensures
        r@ == join_list_spec(texts(l@)),
{
    let mut r: Vec<char> = Vec::new();
    let n = l.len();
    if n == 0 {
        return r;
    }
    let mut i: usize = n;
    // Built from the back: join(l[i..]) is known at each step.
    r = chars_of(l[n - 1].as_str());
    i = n - 1;
    proof {
        assert(texts(l@).skip(n - 1) =~= seq![l@[n - 1]@]);
    }
    while i > 0
        invariant
            i < n,
            n == l@.len(),
            r@ == join_list_spec(texts(l@).skip(i as int)),
        decreases i,
    {
        let mut piece = chars_of(l[i - 1].as_str());
        piece.push(LIST_SEPARATOR);
        crate::paths::append_chars(&mut piece, &r);
        proof {
            let t = texts(l@).skip(i - 1);
            assert(t.drop_first() =~= texts(l@).skip(i as int));
            assert(t[0] == l@[i - 1]@);
        }
        r = piece;
        i -= 1;
    }
    assert(texts(l@).skip(0) =~= texts(l@));
    r
}

/// Splitting what joining gave back returns the list, so long as no entry
/// holds the separator.
pub proof fn lemma_split_join(l: Seq<Seq<char>>)
    requires
        l.len() > 0,
        forall|i: int, j: int| 0 <= i < l.len() && 0 <= j < l[i].len() ==> l[i][j] != LIST_SEPARATOR,
    ensures
        split_list_spec(join_list_spec(l)) == l,
    decreases l.len(),
{
    let s = join_list_spec(l);
    crate::text::lemma_index_of(l[0], LIST_SEPARATOR, l[0].len() as int);
    if l.len() == 1 {
        lemma_index_of_bound(s, LIST_SEPARATOR);
        assert(split_list_spec(s) == seq![s]);
        assert(seq![s] =~= l);
    } else {
        let rest = l.drop_first();
        lemma_split_join(rest);
        assert forall|j: int| 0 <= j < l[0].len() implies s[j] != LIST_SEPARATOR by {
            assert(s[j] == l[0][j]);
        }
        assert(s[l[0].len() as int] == LIST_SEPARATOR);
        crate::text::lemma_index_of(s, LIST_SEPARATOR, l[0].len() as int);
        assert(s.take(l[0].len() as int) =~= l[0]);
        assert(s.skip(l[0].len() as int + 1) =~= join_list_spec(rest));
        assert(seq![l[0]] + rest =~= l);
    }
}


// === numbers ===

/// The decimal digits of `n`, most significant first, without padding.
pub open spec fn decimal(n: nat) -> Seq<char>
    decreases n,
{
    if n < 10 {
        seq![crate::hex::hex_digit(n)]
    } else {
        decimal(n / 10).push(crate::hex::hex_digit(n % 10))
    }
}

/// `n.to_string()`.
pub fn to_decimal(n: u64) -> (r: Vec<char>)
    ensures
        r@ == decimal(n as nat),
    decreases n,
{
    if n < 10 {
        let mut r: Vec<char> = Vec::new();
        r.push(crate::hex::hex_char(n as u8));
        r
    } else {
        let mut r = to_decimal(n / 10);
        r.push(crate::hex::hex_char((n % 10) as u8));
        r
    }
}

// === the store ===

/// A stored setting: global when `system_id` is null, else for that system.
#[derive(Clone, Debug)]
pub struct Setting {
    pub key: String,
    pub value: Option<String>,
    pub system_id: Option<i64>,
}

/// The text of an optional string.
pub open spec fn opt_text(o: Option<String>) -> Option<Seq<char>> {
    match o {
        Some(s) => Some(s@),
        None => None,
    }
}

/// What a stored setting says: its key, its value and whose it is.
pub open spec fn entry_of(s: Setting) -> (Seq<char>, Option<Seq<char>>, Option<i64>) {
    (s.key@, opt_text(s.value), s.system_id)
}

/// The settings table: at most one row per key and owner.
pub struct Settings {
    rows: Vec<Setting>,
}

impl View for Settings {
    type V = Seq<(Seq<char>, Option<Seq<char>>, Option<i64>)>;

    closed spec fn view(&self) -> Self::V {
        self.rows@.map_values(|s: Setting| entry_of(s))
    }
}

/// Position of the row for `key` owned by `system`, or the table's length.
pub open spec fn position(
    v: Seq<(Seq<char>, Option<Seq<char>>, Option<i64>)>,
    key: Seq<char>,
    system: Option<i64>,
) -> int
    decreases v.len(),
{
    if v.len() == 0 {
        0
    } else if v[0].0 == key && v[0].2 == system {
        0
    } else {
        1 + position(v.drop_first(), key, system)
    }
}

/// The value stored for `key` owned by `system`, if there is such a row.
pub open spec fn stored(
    v: Seq<(Seq<char>, Option<Seq<char>>, Option<i64>)>,
    key: Seq<char>,
    system: Option<i64>,
) -> Option<Option<Seq<char>>> {
    let i = position(v, key, system);
    if 0 <= i < v.len() {
        Some(v[i].1)
    } else {
        None
    }
}

/// The value that holds for `key` in `system`: the system's own row if it
/// has one, else the global row.
pub open spec fn effective(
    v: Seq<(Seq<char>, Option<Seq<char>>, Option<i64>)>,
    key: Seq<char>,
    system: Option<i64>,
) -> Option<Option<Seq<char>>> {
    match system {
        Some(id) => if stored(v, key, Some(id)) is Some {
            stored(v, key, Some(id))
        } else {
            stored(v, key, None)
        },
        None => stored(v, key, None),
    }
}

/// The table after storing `value` for `key` owned by `system`: the row is
/// changed if there is one, else added at the end.
pub open spec fn upsert(
    v: Seq<(Seq<char>, Option<Seq<char>>, Option<i64>)>,
    key: Seq<char>,
    value: Option<Seq<char>>,
    system: Option<i64>,
) -> Seq<(Seq<char>, Option<Seq<char>>, Option<i64>)> {
    let i = position(v, key, system);
    if 0 <= i < v.len() {
        v.update(i, (key, value, system))
    } else {
        v.push((key, value, system))
    }
}

/// No two rows share a key and an owner.
pub open spec fn unique(v: Seq<(Seq<char>, Option<Seq<char>>, Option<i64>)>) -> bool {
    forall|i: int, j: int|
        0 <= i < j < v.len() ==> !(#[trigger] v[i].0 == #[trigger] v[j].0 && v[i].2 == v[j].2)
}

pub proof fn lemma_position(
    v: Seq<(Seq<char>, Option<Seq<char>>, Option<i64>)>,
    key: Seq<char>,
    system: Option<i64>,
)
    ensures
        0 <= position(v, key, system) <= v.len(),
        position(v, key, system) < v.len() ==> v[position(v, key, system)].0 == key && v[position(
            v,
            key,
            system,
        )].2 == system,
        forall|j: int|
            0 <= j < position(v, key, system) ==> !(#[trigger] v[j].0 == key && v[j].2 == system),
    decreases v.len(),
{
    if v.len() > 0 && !(v[0].0 == key && v[0].2 == system) {
        lemma_position(v.drop_first(), key, system);
        assert forall|j: int|
            0 <= j < position(v, key, system) implies !(#[trigger] v[j].0 == key && v[j].2
            == system) by {
            if j > 0 {
                assert(v[j] == v.drop_first()[j - 1]);
            }
        }
    }
}

proof fn lemma_position_is(
    v: Seq<(Seq<char>, Option<Seq<char>>, Option<i64>)>,
    key: Seq<char>,
    system: Option<i64>,
    n: int,
)
    requires
        0 <= n <= v.len(),
        forall|j: int| 0 <= j < n ==> !(#[trigger] v[j].0 == key && v[j].2 == system),
        n == v.len() || (v[n].0 == key && v[n].2 == system),
    ensures
        position(v, key, system) == n,
    decreases n,
{
    if n > 0 {
        assert forall|j: int| 0 <= j < n - 1 implies !(#[trigger] v.drop_first()[j].0 == key
            && v.drop_first()[j].2 == system) by {
            assert(v.drop_first()[j] == v[j + 1]);
        }
        lemma_position_is(v.drop_first(), key, system, n - 1);
    }
}

/// Storing a value keeps every key and owner on one row.
pub proof fn lemma_upsert_unique(
    v: Seq<(Seq<char>, Option<Seq<char>>, Option<i64>)>,
    key: Seq<char>,
    value: Option<Seq<char>>,
    system: Option<i64>,
)
    requires
        unique(v),
    ensures
        unique(upsert(v, key, value, system)),
{
    lemma_position(v, key, system);
}

/// What was stored for `key` and `system` is what holds for them afterwards,
/// and no other key or owner sees a change.
pub proof fn lemma_read_after_store(
    v: Seq<(Seq<char>, Option<Seq<char>>, Option<i64>)>,
    key: Seq<char>,
    value: Option<Seq<char>>,
    system: Option<i64>,
    other_key: Seq<char>,
    other_system: Option<i64>,
)
    requires
        unique(v),
    ensures
        stored(upsert(v, key, value, system), key, system) == Some(value),
        effective(upsert(v, key, value, system), key, system) == Some(value),
        !(other_key == key && other_system == system) ==> stored(
            upsert(v, key, value, system),
            other_key,
            other_system,
        ) == stored(v, other_key, other_system),
{
    let w = upsert(v, key, value, system);
    lemma_position(v, key, system);
    lemma_upsert_unique(v, key, value, system);
    let i = position(v, key, system);
    lemma_position_is(w, key, system, i);
    if !(other_key == key && other_system == system) {
        lemma_position(v, other_key, other_system);
        let k = position(v, other_key, other_system);
        assert forall|j: int| 0 <= j < k implies !(#[trigger] w[j].0 == other_key && w[j].2
            == other_system) by {
            if j == i {
            } else {
                assert(w[j] == v[j]);
            }
        }
        if k < v.len() {
            assert(k != i);
            lemma_position_is(w, other_key, other_system, k);
        } else {
            assert forall|j: int| 0 <= j < w.len() implies !(#[trigger] w[j].0 == other_key
                && w[j].2 == other_system) by {
                if j < v.len() && j != i {
                    assert(w[j] == v[j]);
                }
            }
            lemma_position_is(w, other_key, other_system, w.len() as int);
        }
    }
}

/// A system's own value overrides the global one for that system only: after
/// storing `global` globally and `own` for `id`, the system reads `own` and
/// the global reading stays `global`.
pub proof fn lemma_system_overrides_global(
    v: Seq<(Seq<char>, Option<Seq<char>>, Option<i64>)>,
    key: Seq<char>,
    global: Option<Seq<char>>,
    own: Option<Seq<char>>,
    id: i64,
)
    requires
        unique(v),
    ensures
        ({
            let w = upsert(upsert(v, key, global, None), key, own, Some(id));
            &&& effective(w, key, Some(id)) == Some(own)
            &&& effective(w, key, None) == Some(global)
        }),
{
    let u = upsert(v, key, global, None);
    lemma_read_after_store(v, key, global, None, key, Some(id));
    lemma_upsert_unique(v, key, global, None);
    lemma_read_after_store(u, key, own, Some(id), key, None);
}

/// A system without a row of its own for `key` reads the global value.
pub proof fn lemma_system_falls_back(
    v: Seq<(Seq<char>, Option<Seq<char>>, Option<i64>)>,
    key: Seq<char>,
    id: i64,
)
    requires
        stored(v, key, Some(id)) is None,
    ensures
        effective(v, key, Some(id)) == stored(v, key, None),
{
}

impl Settings {
    /// The table is well formed: one row per key and owner.
    pub closed spec fn wf(&self) -> bool {
        unique(self@)
    }

    /// An empty table.
    pub fn new() -> (s: Self)
        ensures
            s.wf(),
            s@ == Seq::<(Seq<char>, Option<Seq<char>>, Option<i64>)>::empty(),
    {
        let s = Settings { rows: Vec::new() };
        assert(s@ =~= Seq::<(Seq<char>, Option<Seq<char>>, Option<i64>)>::empty());
        s
    }

    /// The rows, in order.
    pub fn rows(&self) -> (r: &Vec<Setting>)
        ensures
            r@.map_values(|s: Setting| entry_of(s)) == self@,
    {
        &self.rows
    }

    /// Position of the row for `key` owned by `system`, if there is one
    /// (`find_setting_by_key`).
    pub fn find(&self, key: &str, system_id: Option<i64>) -> (r: Option<usize>)
        ensures
            match r {
                Some(i) => i == position(self@, key@, system_id) && i < self@.len(),
                None => position(self@, key@, system_id) == self@.len(),
            },
    {
        let k = chars_of(key);
        let mut i: usize = 0;
        while i < self.rows.len()
            invariant
                i <= self.rows@.len(),
                k@ == key@,
                self@ == self.rows@.map_values(|s: Setting| entry_of(s)),
                forall|j: int| 0 <= j < i ==> !(#[trigger] self@[j].0 == key@ && self@[j].2 == system_id),
            decreases self.rows.len() - i,
        {
            let row = &self.rows[i];
            assert(self@[i as int] == entry_of(self.rows@[i as int]));
            if row.system_id == system_id && same(&chars_of(row.key.as_str()), &k) {
                proof {
                    lemma_position_is(self@, key@, system_id, i as int);
                }
                return Some(i);
            }
            i += 1;
        }
        proof {
            lemma_position_is(self@, key@, system_id, self@.len() as int);
        }
        None
    }

    /// The value stored for `key` owned by `system`, if there is such a row.
    pub fn stored_value(&self, key: &str, system_id: Option<i64>) -> (r: Option<Option<String>>)
        ensures
            match r {
                Some(v) => stored(self@, key@, system_id) == Some(opt_text(v)),
                None => stored(self@, key@, system_id) is None,
            },
    {
        match self.find(key, system_id) {
            Some(i) => {
                assert(self@[i as int] == entry_of(self.rows@[i as int]));
                Some(self.rows[i].value.clone())
            },
            None => None,
        }
    }

    /// The setting that holds for `key` in `system_id`: the system's own row,
    /// else the global row (`get_setting`).
    pub fn get_setting(&self, key: &str, system_id: Option<i64>) -> (r: Option<Option<String>>)
        ensures
            match r {
                Some(v) => effective(self@, key@, system_id) == Some(opt_text(v)),
                None => effective(self@, key@, system_id) is None,
            },
    {
        if let Some(id) = system_id {
            if let Some(v) = self.stored_value(key, Some(id)) {
                return Some(v);
            }
        }
        self.stored_value(key, None)
    }

    /// Store `value` for `key` owned by `system_id`, changing its row or
    /// adding one.
    pub fn store(&mut self, key: &str, value: Option<String>, system_id: Option<i64>)
        requires
            old(self).wf(),
        ensures
            final(self).wf(),
            final(self)@ == upsert(old(self)@, key@, opt_text(value), system_id),
    {
        proof {
            lemma_upsert_unique(self@, key@, opt_text(value), system_id);
            lemma_position(self@, key@, system_id);
        }
        let row = Setting { key: string_of(&chars_of(key)), value, system_id };
        match self.find(key, system_id) {
            Some(i) => {
                self.rows.set(i, row);
            },
            None => {
                self.rows.push(row);
            },
        }
        assert(self@ =~= upsert(old(self)@, key@, opt_text(value), system_id));
    }
}


/// The entries of the list that holds for `key` in `system`.
pub open spec fn current_list(
    v: Seq<(Seq<char>, Option<Seq<char>>, Option<i64>)>,
    key: Seq<char>,
    system: Option<i64>,
) -> Seq<Seq<char>> {
    match effective(v, key, system) {
        Some(value) => list_of_value(value),
        None => seq![],
    }
}

/// The list after `value` is added: at the end for lists whose order
/// matters, else sorted in.
pub open spec fn list_with(key: Seq<char>, l: Seq<Seq<char>>, value: Seq<char>) -> Seq<Seq<char>> {
    if listed(SORTED_LISTS@, key) {
        l.push(value)
    } else {
        l.push(value).sort_by(text_order())
    }
}

/// What became of a request to add to a list.
#[derive(Clone, Debug)]
pub enum AddOutcome {
    Added,
    /// The value was in the list already; nothing changed.
    AlreadyInList,
    /// The value is none of the words the list accepts (given); nothing changed.
    InvalidChoice(Vec<String>),
    /// The key names no list setting; nothing changed.
    NotAList,
}

/// What became of a request to remove from a list.
#[derive(Clone, Copy, Debug, PartialEq, Eq, Structural)]
pub enum RemoveOutcome {
    Removed,
    /// The value was not in the list; nothing changed.
    NotInList,
    /// The key names no list setting; nothing changed.
    NotAList,
}

/// What became of a request to set a setting.
#[derive(Clone, Debug)]
pub enum SetOutcome {
    /// The value was stored.
    Stored,
    /// The key names a directory: the caller resolves the value to a
    /// canonical path, creates it and stores it with `set_directory`.
    Directory,
    /// The value is none of the words the setting accepts (given); nothing changed.
    InvalidChoice(Vec<String>),
    /// The number is outside the setting's range (given); nothing changed.
    OutOfRange(usize, usize),
    /// Lists are edited with add and remove; nothing changed.
    ListNotSettable,
    /// No setting has this key; nothing changed.
    UnknownKey,
}

/// Why a value could not be read as the setting's type.
#[derive(Clone, Copy, Debug, PartialEq, Eq, Structural)]
pub enum SetError {
    NotABool,
    NotAnInteger,
}

/// What became of a request to clear a setting.
#[derive(Clone, Copy, Debug, PartialEq, Eq, Structural)]
pub enum UnsetOutcome {
    /// The row's value is now null.
    Cleared,
    /// There was no row to clear.
    Absent,
    /// The setting cannot be null; nothing changed.
    NotNullable,
}

/// The first position of `value` in `l`.
pub open spec fn first_index(l: Seq<Seq<char>>, value: Seq<char>) -> int
    decreases l.len(),
{
    if l.len() == 0 {
        0
    } else if l[0] == value {
        0
    } else {
        1 + first_index(l.drop_first(), value)
    }
}

proof fn lemma_first_index(l: Seq<Seq<char>>, value: Seq<char>)
    ensures
        0 <= first_index(l, value) <= l.len(),
        l.contains(value) ==> first_index(l, value) < l.len() && l[first_index(l, value)] == value,
        !l.contains(value) ==> first_index(l, value) == l.len(),
        forall|j: int| 0 <= j < first_index(l, value) ==> l[j] != value,
    decreases l.len(),
{
    if l.len() > 0 && l[0] != value {
        lemma_first_index(l.drop_first(), value);
        if l.contains(value) {
            let k = choose|k: int| 0 <= k < l.len() && l[k] == value;
            assert(l.drop_first()[k - 1] == value);
        }
        if l.drop_first().contains(value) {
            let k = choose|k: int| 0 <= k < l.drop_first().len() && l.drop_first()[k] == value;
            assert(l[k + 1] == value);
        }
        assert forall|j: int| 0 <= j < first_index(l, value) implies l[j] != value by {
            if j > 0 {
                assert(l[j] == l.drop_first()[j - 1]);
            }
        }
    } else if l.len() > 0 {
        assert(l.contains(value));
    }
}

proof fn lemma_first_index_is(l: Seq<Seq<char>>, value: Seq<char>, n: int)
    requires
        0 <= n < l.len(),
        l[n] == value,
        forall|j: int| 0 <= j < n ==> l[j] != value,
    ensures
        first_index(l, value) == n,
    decreases n,
{
    if n > 0 {
        assert forall|j: int| 0 <= j < n - 1 implies l.drop_first()[j] != value by {
            assert(l.drop_first()[j] == l[j + 1]);
        }
        lemma_first_index_is(l.drop_first(), value, n - 1);
    }
}

/// Position of `value` among `l`'s texts, if it is there.
fn find_text(l: &Vec<String>, value: &[char]) -> (r: Option<usize>)
    ensures
        match r {
            Some(i) => i == first_index(texts(l@), value@) && texts(l@).contains(value@) && i < l@.len(),
            None => !texts(l@).contains(value@),
        },
{
    proof {
        lemma_first_index(texts(l@), value@);
    }
    let mut i: usize = 0;
    while i < l.len()
        invariant
            i <= l@.len(),
            forall|j: int| 0 <= j < i ==> texts(l@)[j] != value@,
            0 <= first_index(texts(l@), value@) <= texts(l@).len(),
            texts(l@).contains(value@) ==> first_index(texts(l@), value@) < texts(l@).len()
                && texts(l@)[first_index(texts(l@), value@)] == value@,
            forall|j: int| 0 <= j < first_index(texts(l@), value@) ==> texts(l@)[j] != value@,
        decreases l.len() - i,
    {
        if same(&chars_of(l[i].as_str()), value) {
            assert(texts(l@)[i as int] == value@);
            return Some(i);
        }
        i += 1;
    }
    None
}

impl Settings {
    /// `get_bool`: the boolean that holds for `key` in `system_id`.
    pub fn get_bool(&self, key: &str, system_id: Option<i64>) -> (b: bool)
        requires
            effective(self@, key@, system_id) == Some(Some("true"@)) || effective(
                self@,
                key@,
                system_id,
            ) == Some(Some("false"@)),
        ensures
            b == (effective(self@, key@, system_id) == Some(Some("true"@))),
    {
        match self.get_setting(key, system_id) {
            Some(Some(v)) => same(&chars_of(v.as_str()), &chars_of("true")),
            _ => false,
        }
    }

    /// `set_bool`: store `true` or `false` for `key` owned by `system_id`.
    pub fn set_bool(&mut self, key: &str, value: bool, system_id: Option<i64>)
        requires
            old(self).wf(),
        ensures
            final(self).wf(),
            final(self)@ == upsert(
                old(self)@,
                key@,
                Some(if value {
                    "true"@
                } else {
                    "false"@
                }),
                system_id,
            ),
    {
        let text = if value {
            string_of(&chars_of("true"))
        } else {
            string_of(&chars_of("false"))
        };
        self.store(key, Some(text), system_id);
    }

    /// `get_integer`: the number that holds for `key` in `system_id`, if it
    /// is not null.
    pub fn get_integer(&self, key: &str, system_id: Option<i64>) -> (r: Option<usize>)
        requires
            effective(self@, key@, system_id) is Some,
            effective(self@, key@, system_id)->0 matches Some(v) ==> (crate::text::parse_unsigned(v, 10) matches Some(n) && n <= usize::MAX),
        ensures
            match effective(self@, key@, system_id)->0 {
                Some(v) => r == Some(crate::text::parse_unsigned(v, 10)->0 as usize),
                None => r is None,
            },
    {
        match self.get_setting(key, system_id) {
            Some(Some(v)) => {
                let n = parse_u64(&chars_of(v.as_str()), 10);
                match n {
                    Some(n) => Some(n as usize),
                    None => None,
                }
            },
            _ => None,
        }
    }

    /// `set_integer`: store `value` in decimal for `key` owned by `system_id`.
    pub fn set_integer(&mut self, key: &str, value: usize, system_id: Option<i64>)
        requires
            old(self).wf(),
        ensures
            final(self).wf(),
            final(self)@ == upsert(old(self)@, key@, Some(decimal(value as nat)), system_id),
    {
        let text = string_of(&to_decimal(value as u64));
        self.store(key, Some(text), system_id);
    }

    /// `get_string`: the text that holds for `key` in `system_id`, if not null.
    pub fn get_string(&self, key: &str, system_id: Option<i64>) -> (r: Option<String>)
        requires
            effective(self@, key@, system_id) is Some,
        ensures
            Some(opt_text(r)) == effective(self@, key@, system_id),
    {
        match self.get_setting(key, system_id) {
            Some(v) => v,
            None => None,
        }
    }

    /// `set_string`: store `value` for `key` owned by `system_id`.
    pub fn set_string(&mut self, key: &str, value: &str, system_id: Option<i64>)
        requires
            old(self).wf(),
        ensures
            final(self).wf(),
            final(self)@ == upsert(old(self)@, key@, Some(value@), system_id),
    {
        self.store(key, Some(string_of(&chars_of(value))), system_id);
    }

    /// The stored text of a directory setting, before it is resolved on disk
    /// (`get_directory` resolves it and forgets it if that fails).
    pub fn get_directory(&self, key: &str, system_id: Option<i64>) -> (r: Option<String>)
        requires
            effective(self@, key@, system_id) matches Some(v) ==> v is Some,
        ensures
            match effective(self@, key@, system_id) {
                Some(v) => opt_text(r) == v,
                None => r is None,
            },
    {
        match self.get_setting(key, system_id) {
            Some(v) => v,
            None => None,
        }
    }

    /// `set_directory`: store a (resolved) directory for `key` owned by `system_id`.
    pub fn set_directory(&mut self, key: &str, path: &str, system_id: Option<i64>)
        requires
            old(self).wf(),
        ensures
            final(self).wf(),
            final(self)@ == upsert(old(self)@, key@, Some(path@), system_id),
    {
        self.set_string(key, path, system_id);
    }

    /// `get_list`: the entries of the list that holds for `key` in `system_id`.
    pub fn get_list(&self, key: &str, system_id: Option<i64>) -> (r: Vec<String>)
        ensures
            texts(r@) == current_list(self@, key@, system_id),
    {
        match self.get_setting(key, system_id) {
            Some(Some(v)) => split_list(&chars_of(v.as_str())),
            _ => {
                let r: Vec<String> = Vec::new();
                assert(texts(r@) =~= Seq::<Seq<char>>::empty());
                r
            },
        }
    }

    /// `set_list`: store `list` for `key` owned by `system_id`, joined by
    /// `|`, or null when it is empty.
    pub fn set_list(&mut self, key: &str, list: &Vec<String>, system_id: Option<i64>)
        requires
            old(self).wf(),
        ensures
            final(self).wf(),
            final(self)@ == upsert(old(self)@, key@, value_of_list(texts(list@)), system_id),
    {
        if list.len() == 0 {
            self.store(key, None, system_id);
        } else {
            let joined = string_of(&join_list(list));
            self.store(key, Some(joined), system_id);
        }
    }

    /// Add `value` to the list, kept sorted unless its order matters.
    fn add_value(&mut self, key: &str, value: &str, system_id: Option<i64>) -> (added: bool)
        requires
            old(self).wf(),
        ensures
            final(self).wf(),
            added == !current_list(old(self)@, key@, system_id).contains(value@),
            added ==> final(self)@ == upsert(
                old(self)@,
                key@,
                value_of_list(list_with(key@, current_list(old(self)@, key@, system_id), value@)),
                system_id,
            ),
            !added ==> final(self)@ == old(self)@,
    {
        let mut list = self.get_list(key, system_id);
        let v = chars_of(value);
        if find_text(&list, &v).is_some() {
            return false;
        }
        let ghost before = texts(list@);
        list.push(string_of(&v));
        assert(texts(list@) =~= before.push(value@));
        let list = if is_listed(&SORTED_LISTS, &chars_of(key)) {
            list
        } else {
            sort_strings(list)
        };
        self.set_list(key, &list, system_id);
        true
    }

    /// `add_to_list`: add `value` to a list setting, unless it is there
    /// already or is not one of the words a choice list accepts.
    pub fn add_to_list(&mut self, key: &str, value: &str, system_id: Option<i64>) -> (r: AddOutcome)
        requires
            old(self).wf(),
        ensures
            final(self).wf(),
            match r {
                AddOutcome::Added => (listed(LISTS@, key@) || (list_choices_of(key@) matches Some(c)
                    && words(c).contains(value@))) && !current_list(old(self)@, key@, system_id).contains(value@)
                    && final(self)@ == upsert(
                    old(self)@,
                    key@,
                    value_of_list(list_with(key@, current_list(old(self)@, key@, system_id), value@)),
                    system_id,
                ),
                AddOutcome::AlreadyInList => (listed(LISTS@, key@) || (list_choices_of(key@) matches Some(c)
                    && words(c).contains(value@))) && current_list(old(self)@, key@, system_id).contains(value@)
                    && final(self)@ == old(self)@,
                AddOutcome::InvalidChoice(c) => !listed(LISTS@, key@) && final(self)@ == old(self)@
                    && (list_choices_of(key@) matches Some(cs) && texts(c@) == words(cs)
                    && !words(cs).contains(value@)),
                AddOutcome::NotAList => !listed(LISTS@, key@) && list_choices_of(key@) is None
                    && final(self)@ == old(self)@,
            },
            (r is Added || r is AlreadyInList) ==> final(self)@ == table_after_add(old(self)@, key@, value@, system_id),
    {
        let k = chars_of(key);
        if is_listed(&LISTS, &k) {
            if self.add_value(key, value, system_id) {
                AddOutcome::Added
            } else {
                AddOutcome::AlreadyInList
            }
        } else {
            match list_choices_for(&k) {
                Some(choices) => {
                    if is_listed(choices, &chars_of(value)) {
                        if self.add_value(key, value, system_id) {
                            AddOutcome::Added
                        } else {
                            AddOutcome::AlreadyInList
                        }
                    } else {
                        AddOutcome::InvalidChoice(words_vec(choices))
                    }
                },
                None => AddOutcome::NotAList,
            }
        }
    }

    /// `remove_from_list`: take the first `value` out of a list setting.
    pub fn remove_from_list(&mut self, key: &str, value: &str, system_id: Option<i64>) -> (r: RemoveOutcome)
        requires
            old(self).wf(),
        ensures
            final(self).wf(),
            r == RemoveOutcome::Removed ==> (listed(LISTS@, key@) || list_choices_of(key@) is Some)
                && current_list(old(self)@, key@, system_id).contains(value@)
                && final(self)@ == upsert(
                old(self)@,
                key@,
                value_of_list(current_list(old(self)@, key@, system_id).remove(
                    first_index(current_list(old(self)@, key@, system_id), value@),
                )),
                system_id,
            ),
            r == RemoveOutcome::NotInList ==> (listed(LISTS@, key@) || list_choices_of(key@) is Some)
                && !current_list(old(self)@, key@, system_id).contains(value@)
                && final(self)@ == old(self)@,
            r == RemoveOutcome::NotAList ==> !listed(LISTS@, key@) && list_choices_of(key@) is None
                && final(self)@ == old(self)@,
    {
        let k = chars_of(key);
        if is_listed(&LISTS, &k) || list_choices_for(&k).is_some() {
            let mut list = self.get_list(key, system_id);
            match find_text(&list, &chars_of(value)) {
                Some(i) => {
                    let ghost before = texts(list@);
                    list.remove(i);
                    assert(texts(list@) =~= before.remove(i as int));
                    self.set_list(key, &list, system_id);
                    RemoveOutcome::Removed
                },
                None => RemoveOutcome::NotInList,
            }
        } else {
            RemoveOutcome::NotAList
        }
    }

    /// `unset_setting`: make a nullable setting's own row null.
    pub fn unset_setting(&mut self, key: &str, system_id: Option<i64>) -> (r: UnsetOutcome)
        requires
            old(self).wf(),
        ensures
            final(self).wf(),
            r == UnsetOutcome::Cleared ==> listed(NULLABLES@, key@) && stored(old(self)@, key@, system_id) is Some
                && final(self)@ == upsert(old(self)@, key@, None, system_id),
            r == UnsetOutcome::Absent ==> listed(NULLABLES@, key@) && stored(old(self)@, key@, system_id) is None
                && final(self)@ == old(self)@,
            r == UnsetOutcome::NotNullable ==> !listed(NULLABLES@, key@) && final(self)@ == old(self)@,
    {
        if is_listed(&NULLABLES, &chars_of(key)) {
            if self.find(key, system_id).is_some() {
                self.store(key, None, system_id);
                UnsetOutcome::Cleared
            } else {
                UnsetOutcome::Absent
            }
        } else {
            UnsetOutcome::NotNullable
        }
    }
}

/// The words of a table, as strings.
pub fn words_vec(t: &[&'static str]) -> (r: Vec<String>)
    ensures
        texts(r@) == words(t@),
{
    let mut r: Vec<String> = Vec::new();
    let mut i: usize = 0;
    while i < t.len()
        invariant
            i <= t@.len(),
            texts(r@) == words(t@).take(i as int),
        decreases t.len() - i,
    {
        let w = string_of(&chars_of(t[i]));
        let ghost before = texts(r@);
        assert(w@ == words(t@)[i as int]);
        r.push(w);
        assert(texts(r@) =~= before.push(w@));
        i += 1;
        assert(texts(r@) =~= words(t@).take(i as int));
    }
    assert(words(t@).take(t@.len() as int) =~= words(t@));
    r
}


/// The kind of a setting, in the order `set_setting` tells them apart.
#[derive(Clone, Copy, Debug, PartialEq, Eq, Structural)]
pub enum SettingKind {
    Directory,
    Boolean,
    Choice,
    Integer,
    List,
    Unknown,
}

/// The kind of setting `key` names.
pub open spec fn kind_of(key: Seq<char>) -> SettingKind {
    if listed(PATHS@, key) {
        SettingKind::Directory
    } else if listed(BOOLEANS@, key) {
        SettingKind::Boolean
    } else if choices_of(key) is Some {
        SettingKind::Choice
    } else if range_of(key) is Some {
        SettingKind::Integer
    } else if listed(LISTS@, key) {
        SettingKind::List
    } else {
        SettingKind::Unknown
    }
}

/// Exec form of [`kind_of`].
pub fn setting_kind(key: &[char]) -> (k: SettingKind)
    ensures
        k == kind_of(key@),
{
    if is_listed(&PATHS, key) {
        SettingKind::Directory
    } else if is_listed(&BOOLEANS, key) {
        SettingKind::Boolean
    } else if choices_for(key).is_some() {
        SettingKind::Choice
    } else if range_for(key).is_some() {
        SettingKind::Integer
    } else if is_listed(&LISTS, key) {
        SettingKind::List
    } else {
        SettingKind::Unknown
    }
}

/// The least number an integer setting accepts.
pub open spec fn range_low(key: Seq<char>) -> usize {
    match range_of(key) {
        Some(r) => r.0,
        None => 0,
    }
}

/// The greatest number an integer setting accepts.
pub open spec fn range_high(key: Seq<char>) -> usize {
    match range_of(key) {
        Some(r) => r.1,
        None => 0,
    }
}

/// What `usize::from_str` makes of `value`.
pub open spec fn parse_usize(value: Seq<char>) -> Option<usize> {
    match crate::text::parse_unsigned(value, 10) {
        Some(n) => if n <= usize::MAX {
            Some(n as usize)
        } else {
            None
        },
        None => None,
    }
}

impl Settings {
    /// `set_setting`: check `value` against what `key` accepts and store it.
    pub fn set_setting(&mut self, key: &str, value: &str, system_id: Option<i64>) -> (r: Result<SetOutcome, SetError>)
        requires
            old(self).wf(),
        ensures
            final(self).wf(),
            match kind_of(key@) {
                SettingKind::Directory => r matches Ok(SetOutcome::Directory) && final(self)@ == old(self)@,
                SettingKind::Boolean => if value@ == "true"@ || value@ == "false"@ {
                    r matches Ok(SetOutcome::Stored) && final(self)@ == upsert(old(self)@, key@, Some(value@), system_id)
                } else {
                    r == Err::<SetOutcome, SetError>(SetError::NotABool) && final(self)@ == old(self)@
                },
                SettingKind::Choice => if words(choices_of(key@)->0).contains(value@) {
                    r matches Ok(SetOutcome::Stored) && final(self)@ == upsert(old(self)@, key@, Some(value@), system_id)
                } else {
                    final(self)@ == old(self)@ && (r matches Ok(SetOutcome::InvalidChoice(c)) && texts(c@) == words(choices_of(key@)->0))
                },
                SettingKind::Integer => match parse_usize(value@) {
                    Some(n) => if range_low(key@) <= n <= range_high(key@) {
                        r matches Ok(SetOutcome::Stored) && final(self)@ == upsert(old(self)@, key@, Some(decimal(n as nat)), system_id)
                    } else {
                        final(self)@ == old(self)@ && (r matches Ok(SetOutcome::OutOfRange(lo, hi)) && lo == range_low(key@) && hi == range_high(key@))
                    },
                    None => r == Err::<SetOutcome, SetError>(SetError::NotAnInteger) && final(self)@ == old(self)@,
                },
                SettingKind::List => r matches Ok(SetOutcome::ListNotSettable) && final(self)@ == old(self)@,
                SettingKind::Unknown => r matches Ok(SetOutcome::UnknownKey) && final(self)@ == old(self)@,
            },
    {
        let k = chars_of(key);
        let v = chars_of(value);
        match setting_kind(&k) {
            SettingKind::Directory => Ok(SetOutcome::Directory),
            SettingKind::Boolean => {
                if same(&v, &chars_of("true")) || same(&v, &chars_of("false")) {
                    self.set_string(key, value, system_id);
                    Ok(SetOutcome::Stored)
                } else {
                    Err(SetError::NotABool)
                }
            },
            SettingKind::Choice => {
                let choices = choices_for(&k).unwrap();
                if is_listed(choices, &v) {
                    self.set_string(key, value, system_id);
                    Ok(SetOutcome::Stored)
                } else {
                    Ok(SetOutcome::InvalidChoice(words_vec(choices)))
                }
            },
            SettingKind::Integer => {
                let (lo, hi) = range_for(&k).unwrap();
                match parse_u64(&v, 10) {
                    Some(n) => {
                        if n > usize::MAX as u64 {
                            return Err(SetError::NotAnInteger);
                        }
                        let n = n as usize;
                        if lo <= n && n <= hi {
                            self.set_integer(key, n, system_id);
                            Ok(SetOutcome::Stored)
                        } else {
                            Ok(SetOutcome::OutOfRange(lo, hi))
                        }
                    },
                    None => Err(SetError::NotAnInteger),
                }
            },
            SettingKind::List => Ok(SetOutcome::ListNotSettable),
            SettingKind::Unknown => Ok(SetOutcome::UnknownKey),
        }
    }
}


/// The texts of a listing of settings.
pub open spec fn listing(v: Seq<(String, Option<String>)>) -> Seq<(Seq<char>, Option<Seq<char>>)> {
    v.map_values(|p: (String, Option<String>)| (p.0@, opt_text(p.1)))
}

/// The global rows, as keys and values, in table order.
pub open spec fn global_listing(
    v: Seq<(Seq<char>, Option<Seq<char>>, Option<i64>)>,
) -> Seq<(Seq<char>, Option<Seq<char>>)>
    decreases v.len(),
{
    if v.len() == 0 {
        seq![]
    } else if v.last().2 is None {
        global_listing(v.drop_last()).push((v.last().0, v.last().1))
    } else {
        global_listing(v.drop_last())
    }
}

/// Some row for `key` is global or belongs to system `id`.
pub open spec fn in_scope(
    v: Seq<(Seq<char>, Option<Seq<char>>, Option<i64>)>,
    key: Seq<char>,
    id: i64,
) -> bool {
    exists|j: int| 0 <= j < v.len() && v[j].0 == key && (v[j].2 is None || v[j].2 == Some(id))
}

proof fn lemma_in_scope_step(
    v: Seq<(Seq<char>, Option<Seq<char>>, Option<i64>)>,
    i: int,
    id: i64,
)
    requires
        0 <= i < v.len(),
    ensures
        forall|k: Seq<char>| #[trigger] in_scope(v.take(i + 1), k, id) <==> (in_scope(v.take(i), k, id) || (k
            == v[i].0 && (v[i].2 is None || v[i].2 == Some(id)))),
{
    let t = v.take(i);
    let t1 = v.take(i + 1);
    assert forall|k: Seq<char>| #[trigger] in_scope(t1, k, id) <==> (in_scope(t, k, id) || (k == v[i].0 && (
        v[i].2 is None || v[i].2 == Some(id)))) by {
        if in_scope(t1, k, id) {
            let j = choose|j: int| 0 <= j < t1.len() && t1[j].0 == k && (t1[j].2 is None || t1[j].2 == Some(id));
            if j < i {
                assert(t[j] == t1[j]);
            }
        }
        if in_scope(t, k, id) {
            let j = choose|j: int| 0 <= j < t.len() && t[j].0 == k && (t[j].2 is None || t[j].2 == Some(id));
            assert(t1[j] == t[j]);
        }
        if k == v[i].0 && (v[i].2 is None || v[i].2 == Some(id)) {
            assert(t1[i] == v[i]);
        }
    }
}

proof fn lemma_in_scope_effective(
    v: Seq<(Seq<char>, Option<Seq<char>>, Option<i64>)>,
    key: Seq<char>,
    id: i64,
)
    requires
        in_scope(v, key, id),
    ensures
        effective(v, key, Some(id)) is Some,
{
    let j = choose|j: int| 0 <= j < v.len() && v[j].0 == key && (v[j].2 is None || v[j].2 == Some(id));
    lemma_position(v, key, Some(id));
    lemma_position(v, key, None);
    if v[j].2 is None {
        assert(position(v, key, None) <= j);
    } else {
        assert(position(v, key, Some(id)) <= j);
    }
}

impl Settings {
    /// `list_settings`: with no system, the global settings in table order;
    /// for a system, every key that is global or its own, once, sorted, with
    /// the value that holds for the system.
    pub fn list_settings(&self, system_id: Option<i64>) -> (r: Vec<(String, Option<String>)>)
        ensures
            system_id is None ==> listing(r@) == global_listing(self@),
            system_id matches Some(id) ==> {
                let keys = listing(r@).map_values(|p: (Seq<char>, Option<Seq<char>>)| p.0);
                &&& vstd::relations::sorted_by(keys, text_order())
                &&& keys.no_duplicates()
                &&& forall|k: Seq<char>| keys.contains(k) <==> in_scope(self@, k, id)
                &&& forall|i: int| 0 <= i < r@.len() ==> effective(self@, keys[i], Some(id)) == Some(
                    #[trigger] listing(r@)[i].1,
                )
            },
    {
        let mut r: Vec<(String, Option<String>)> = Vec::new();
        match system_id {
            None => {
                let mut i: usize = 0;
                while i < self.rows.len()
                    invariant
                        i <= self.rows@.len(),
                        self@ == self.rows@.map_values(|s: Setting| entry_of(s)),
                        listing(r@) == global_listing(self@.take(i as int)),
                    decreases self.rows.len() - i,
                {
                    let row = &self.rows[i];
                    proof {
                        assert(self@.take(i + 1).drop_last() =~= self@.take(i as int));
                        assert(self@.take(i + 1).last() == entry_of(self.rows@[i as int]));
                    }
                    if row.system_id.is_none() {
                        let ghost before = listing(r@);
                        r.push((row.key.clone(), row.value.clone()));
                        assert(listing(r@) =~= before.push((row.key@, opt_text(row.value))));
                    }
                    i += 1;
                }
                assert(self@.take(self@.len() as int) =~= self@);
                r
            },
            Some(id) => {
                let mut keys: Vec<String> = Vec::new();
                let mut i: usize = 0;
                while i < self.rows.len()
                    invariant
                        i <= self.rows@.len(),
                        self@ == self.rows@.map_values(|s: Setting| entry_of(s)),
                        texts(keys@).no_duplicates(),
                        forall|k: Seq<char>| texts(keys@).contains(k) <==> in_scope(self@.take(i as int), k, id),
                    decreases self.rows.len() - i,
                {
                    let row = &self.rows[i];
                    let ghost t = self@.take(i as int);
                    let ghost t1 = self@.take(i + 1);
                    let ghost keys_before = texts(keys@);
                    assert(forall|x: Seq<char>| keys_before.contains(x) <==> in_scope(t, x, id));
                    proof {
                        assert(t1[i as int] == entry_of(self.rows@[i as int]));
                        lemma_in_scope_step(self@, i as int, id);
                    }
                    if row.system_id.is_none() || row.system_id == Some(id) {
                        let k = chars_of(row.key.as_str());
                        if find_text(&keys, &k).is_none() {
                            let ghost before = texts(keys@);
                            keys.push(string_of(&k));
                            proof {
                                assert(texts(keys@) =~= before.push(k@));
                                assert forall|a: int, b: int| 0 <= a < texts(keys@).len() && 0 <= b < texts(keys@).len() && a != b
                                    implies texts(keys@)[a] != texts(keys@)[b] by {
                                    if a < before.len() && b < before.len() {
                                        assert(texts(keys@)[a] == before[a]);
                                        assert(texts(keys@)[b] == before[b]);
                                    } else if a < before.len() {
                                        assert(before.contains(before[a]));
                                    } else if b < before.len() {
                                        assert(before.contains(before[b]));
                                    }
                                }
                                assert forall|x: Seq<char>| texts(keys@).contains(x) <==> (before.contains(x) || x == k@) by {
                                    if texts(keys@).contains(x) {
                                        let m = choose|m: int| 0 <= m < texts(keys@).len() && texts(keys@)[m] == x;
                                        if m < before.len() {
                                            assert(before[m] == x);
                                        }
                                    }
                                    if before.contains(x) {
                                        let m = choose|m: int| 0 <= m < before.len() && before[m] == x;
                                        assert(texts(keys@)[m] == x);
                                    }
                                    if x == k@ {
                                        assert(texts(keys@)[before.len() as int] == x);
                                    }
                                }
                            }
                        }
                    }
                    proof {
                        let in_row = self@[i as int].2 is None || self@[i as int].2 == Some(id);
                        assert forall|x: Seq<char>| texts(keys@).contains(x) <==> (keys_before.contains(x) || (in_row && x == self@[i as int].0)) by {}
                        assert forall|x: Seq<char>| texts(keys@).contains(x) <==> in_scope(t1, x, id) by {
                            assert(in_scope(t1, x, id) <==> (in_scope(t, x, id) || (x == self@[i as int].0 && in_row)));
                            assert(keys_before.contains(x) <==> in_scope(t, x, id));
                        }
                    }
                    i += 1;
                }
                assert(self@.take(self@.len() as int) =~= self@);
                let ghost unsorted = texts(keys@);
                let sorted = sort_strings(keys);
                proof {
                    crate::sort::lemma_text_order_total();
                    unsorted.lemma_sort_by_ensures(text_order());
                    unsorted.lemma_multiset_has_no_duplicates();
                    let ss = texts(sorted@);
                    assert forall|x: Seq<char>| ss.to_multiset().contains(x) implies ss.to_multiset().count(x) == 1 by {}
                    ss.lemma_multiset_has_no_duplicates_conv();
                    assert forall|k: Seq<char>| ss.contains(k) <==> unsorted.contains(k) by {
                        vstd::seq_lib::to_multiset_contains(ss, k);
                        vstd::seq_lib::to_multiset_contains(unsorted, k);
                    }
                }
                let mut j: usize = 0;
                while j < sorted.len()
                    invariant
                        j <= sorted@.len(),
                        r@.len() == j,
                        forall|k: Seq<char>| texts(sorted@).contains(k) ==> in_scope(self@, k, id),
                        forall|m: int| 0 <= m < j ==> (#[trigger] listing(r@)[m]).0 == texts(sorted@)[m],
                        forall|m: int| 0 <= m < j ==> effective(self@, texts(sorted@)[m], Some(id)) == Some(
                            #[trigger] listing(r@)[m].1,
                        ),
                    decreases sorted.len() - j,
                {
                    let key = sorted[j].as_str();
                    proof {
                        assert(texts(sorted@)[j as int] == sorted@[j as int]@);
                        assert(texts(sorted@).contains(sorted@[j as int]@));
                        lemma_in_scope_effective(self@, key@, id);
                    }
                    let value = match self.get_setting(key, Some(id)) {
                        Some(v) => v,
                        None => None,
                    };
                    let ghost before = listing(r@);
                    r.push((string_of(&chars_of(key)), value));
                    assert(listing(r@) =~= before.push((key@, opt_text(value))));
                    j += 1;
                }
                proof {
                    let keys_out = listing(r@).map_values(|p: (Seq<char>, Option<Seq<char>>)| p.0);
                    assert(keys_out =~= texts(sorted@));
                }
                r
            },
        }
    }
}

/// Storing a list and reading it back gives the list, so long as no entry
/// holds the separator.
pub proof fn lemma_list_round_trip(
    v: Seq<(Seq<char>, Option<Seq<char>>, Option<i64>)>,
    key: Seq<char>,
    list: Seq<Seq<char>>,
    system: Option<i64>,
)
    requires
        unique(v),
        forall|i: int, j: int| 0 <= i < list.len() && 0 <= j < list[i].len() ==> list[i][j] != LIST_SEPARATOR,
    ensures
        current_list(upsert(v, key, value_of_list(list), system), key, system) == list,
{
    lemma_read_after_store(v, key, value_of_list(list), system, key, system);
    if list.len() > 0 {
        lemma_split_join(list);
    } else {
        assert(list =~= Seq::<Seq<char>>::empty());
    }
}

/// A value added to a list is in it when the list is read back, and nothing
/// else is lost, so long as no entry holds the separator.
pub proof fn lemma_added_value_is_listed(
    v: Seq<(Seq<char>, Option<Seq<char>>, Option<i64>)>,
    key: Seq<char>,
    value: Seq<char>,
    system: Option<i64>,
)
    requires
        unique(v),
        forall|i: int, j: int|
            0 <= i < current_list(v, key, system).len() && 0 <= j < current_list(v, key, system)[i].len()
                ==> current_list(v, key, system)[i][j] != LIST_SEPARATOR,
        forall|j: int| 0 <= j < value.len() ==> value[j] != LIST_SEPARATOR,
    ensures
        ({
            let l = current_list(v, key, system);
            let after = current_list(upsert(v, key, value_of_list(list_with(key, l, value)), system), key, system);
            &&& after.contains(value)
            &&& forall|x: Seq<char>| l.contains(x) ==> after.contains(x)
            &&& after.len() == l.len() + 1
        }),
{
    let l = current_list(v, key, system);
    let pushed = l.push(value);
    let w = list_with(key, l, value);
    assert(pushed[l.len() as int] == value);
    assert forall|x: Seq<char>| l.contains(x) implies pushed.contains(x) by {
        let k = choose|k: int| 0 <= k < l.len() && l[k] == x;
        assert(pushed[k] == x);
    }
    if !listed(SORTED_LISTS@, key) {
        crate::sort::lemma_text_order_total();
        pushed.lemma_sort_by_ensures(text_order());
        assert forall|x: Seq<char>| pushed.contains(x) implies w.contains(x) by {
            vstd::seq_lib::to_multiset_contains(pushed, x);
            vstd::seq_lib::to_multiset_contains(w, x);
        }
        vstd::seq_lib::to_multiset_len(pushed);
        vstd::seq_lib::to_multiset_len(w);
    }
    assert forall|i: int, j: int| 0 <= i < w.len() && 0 <= j < w[i].len() implies w[i][j] != LIST_SEPARATOR by {
        if listed(SORTED_LISTS@, key) {
            if i < l.len() {
                assert(w[i] == l[i]);
            }
        } else {
            assert(w.contains(w[i]));
            vstd::seq_lib::to_multiset_contains(w, w[i]);
            vstd::seq_lib::to_multiset_contains(pushed, w[i]);
            let k = choose|k: int| 0 <= k < pushed.len() && pushed[k] == w[i];
            if k < l.len() {
                assert(pushed[k] == l[k]);
            }
        }
    }
    lemma_list_round_trip(v, key, w, system);
}

/// The table after `value` is added to the list `key` read at `system`:
/// unchanged when the list holds it already.
pub open spec fn table_after_add(
    v: Seq<(Seq<char>, Option<Seq<char>>, Option<i64>)>,
    key: Seq<char>,
    value: Seq<char>,
    system: Option<i64>,
) -> Seq<(Seq<char>, Option<Seq<char>>, Option<i64>)> {
    if current_list(v, key, system).contains(value) {
        v
    } else {
        upsert(v, key, value_of_list(list_with(key, current_list(v, key, system), value)), system)
    }
}

/// Adding the same value to a list twice changes nothing the second time:
/// after one add the list holds the value, and a second add leaves the table
/// as the first left it, so long as no entry holds the separator.
pub proof fn lemma_add_is_idempotent(
    v: Seq<(Seq<char>, Option<Seq<char>>, Option<i64>)>,
    key: Seq<char>,
    value: Seq<char>,
    system: Option<i64>,
)
    requires
        unique(v),
        forall|i: int, j: int|
            0 <= i < current_list(v, key, system).len() && 0 <= j < current_list(v, key, system)[i].len()
                ==> current_list(v, key, system)[i][j] != LIST_SEPARATOR,
        forall|j: int| 0 <= j < value.len() ==> value[j] != LIST_SEPARATOR,
    ensures
        current_list(table_after_add(v, key, value, system), key, system).contains(value),
        table_after_add(table_after_add(v, key, value, system), key, value, system) == table_after_add(
            v,
            key,
            value,
            system,
        ),
{
    if !current_list(v, key, system).contains(value) {
        lemma_added_value_is_listed(v, key, value, system);
    }
}

/// In a list whose order matters, removing a value that was just added gives
/// back the list as it was, so long as the value was not there before and no
/// entry holds the separator.
pub proof fn lemma_remove_undoes_add(
    v: Seq<(Seq<char>, Option<Seq<char>>, Option<i64>)>,
    key: Seq<char>,
    value: Seq<char>,
    system: Option<i64>,
)
    requires
        unique(v),
        listed(SORTED_LISTS@, key),
        !current_list(v, key, system).contains(value),
        forall|i: int, j: int|
            0 <= i < current_list(v, key, system).len() && 0 <= j < current_list(v, key, system)[i].len()
                ==> current_list(v, key, system)[i][j] != LIST_SEPARATOR,
        forall|j: int| 0 <= j < value.len() ==> value[j] != LIST_SEPARATOR,
    ensures
        ({
            let l = current_list(v, key, system);
            let after = current_list(upsert(v, key, value_of_list(list_with(key, l, value)), system), key, system);
            after.remove(first_index(after, value)) == l
        }),
{
    let l = current_list(v, key, system);
    let w = l.push(value);
    assert forall|i: int, j: int| 0 <= i < w.len() && 0 <= j < w[i].len() implies w[i][j] != LIST_SEPARATOR by {
        if i < l.len() {
            assert(w[i] == l[i]);
        }
    }
    lemma_list_round_trip(v, key, w, system);
    lemma_first_index(w, value);
    assert forall|j: int| 0 <= j < l.len() implies w[j] != value by {
        assert(w[j] == l[j]);
        assert(l.contains(l[j]));
    }
    assert(w[l.len() as int] == value);
    lemma_first_index_is(w, value, l.len() as int);
    assert(w.remove(l.len() as int) =~= l);
}

// === names of the choices ===

/// The word a hash algorithm is written as.
pub open spec fn hash_algorithm_name(a: HashAlgorithm) -> Seq<char> {
    match a {
        HashAlgorithm::Crc => "crc"@,
        HashAlgorithm::Md5 => "md5"@,
        HashAlgorithm::Sha1 => "sha1"@,
    }
}

impl HashAlgorithm {
    /// The lowercase word this algorithm is written as.
    pub fn as_str(self) -> (s: &'static str)
        ensures
            s@ == hash_algorithm_name(self),
    {
        match self {
            HashAlgorithm::Crc => "crc",
            HashAlgorithm::Md5 => "md5",
            HashAlgorithm::Sha1 => "sha1",
        }
    }
}

/// The word a subfolder scheme is stored as.
pub open spec fn subfolder_scheme_name(s: SubfolderScheme) -> Seq<char> {
    match s {
        SubfolderScheme::Flat => "none"@,
        SubfolderScheme::Alpha => "alpha"@,
    }
}

/// The subfolder scheme stored as `name`, if any.
pub open spec fn subfolder_scheme_named(name: Seq<char>) -> Option<SubfolderScheme> {
    if name == "none"@ {
        Some(SubfolderScheme::Flat)
    } else if name == "alpha"@ {
        Some(SubfolderScheme::Alpha)
    } else {
        None
    }
}

impl SubfolderScheme {
    /// The word this scheme is stored as.
    pub fn as_str(self) -> (s: &'static str)
        ensures
            s@ == subfolder_scheme_name(self),
    {
        match self {
            SubfolderScheme::Flat => "none",
            SubfolderScheme::Alpha => "alpha",
        }
    }

    /// The scheme stored as `name`, if any.
    pub fn from_name(name: &str) -> (r: Option<SubfolderScheme>)
        ensures
            r == subfolder_scheme_named(name@),
    {
        let n = chars_of(name);
        if same(&n, &chars_of("none")) {
            Some(SubfolderScheme::Flat)
        } else if same(&n, &chars_of("alpha")) {
            Some(SubfolderScheme::Alpha)
        } else {
            None
        }
    }
}

/// The word a version preference is stored as.
pub open spec fn preferred_version_name(p: PreferredVersion) -> Seq<char> {
    match p {
        PreferredVersion::NoPreference => "none"@,
        PreferredVersion::New => "new"@,
        PreferredVersion::Old => "old"@,
    }
}

impl PreferredVersion {
    /// The word this preference is stored as.
    pub fn as_str(self) -> (s: &'static str)
        ensures
            s@ == preferred_version_name(self),
    {
        match self {
            PreferredVersion::NoPreference => "none",
            PreferredVersion::New => "new",
            PreferredVersion::Old => "old",
        }
    }
}

/// The word a region preference is stored as.
pub open spec fn preferred_region_name(p: PreferredRegion) -> Seq<char> {
    match p {
        PreferredRegion::NoPreference => "none"@,
        PreferredRegion::Broad => "broad"@,
        PreferredRegion::Narrow => "narrow"@,
    }
}

impl PreferredRegion {
    /// The word this preference is stored as.
    pub fn as_str(self) -> (s: &'static str)
        ensures
            s@ == preferred_region_name(self),
    {
        match self {
            PreferredRegion::NoPreference => "none",
            PreferredRegion::Broad => "broad",
            PreferredRegion::Narrow => "narrow",
        }
    }
}

/// The word an arcade ROM type is written as.
pub open spec fn arcade_rom_type_name(t: ArcadeRomType) -> Seq<char> {
    match t {
        ArcadeRomType::Bios => "bios"@,
        ArcadeRomType::Clone => "clone"@,
        ArcadeRomType::Parent => "parent"@,
    }
}

impl ArcadeRomType {
    /// The word this type is written as.
    pub fn as_str(self) -> (s: &'static str)
        ensures
            s@ == arcade_rom_type_name(self),
    {
        match self {
            ArcadeRomType::Bios => "bios",
            ArcadeRomType::Clone => "clone",
            ArcadeRomType::Parent => "parent",
        }
    }
}

// === typed readings of a store ===

/// `key` has a setting in `system`'s scope whose value, if not null, is a
/// number that fits a `usize`: what reading it as a number needs.
pub open spec fn integer_readable(
    v: Seq<(Seq<char>, Option<Seq<char>>, Option<i64>)>,
    key: Seq<char>,
    system: Option<i64>,
) -> bool {
    &&& effective(v, key, system) is Some
    &&& effective(v, key, system)->0 matches Some(t) ==> (crate::text::parse_unsigned(t, 10) matches Some(n)
        && n <= usize::MAX)
}

/// The number `key` holds in `system`'s scope, `None` when it is null.
pub open spec fn integer_value(
    v: Seq<(Seq<char>, Option<Seq<char>>, Option<i64>)>,
    key: Seq<char>,
    system: Option<i64>,
) -> Option<usize> {
    match effective(v, key, system) {
        Some(Some(t)) => Some(crate::text::parse_unsigned(t, 10)->0 as usize),
        _ => None,
    }
}

/// The text `key` holds in `system`'s scope, `None` when it is null or unset.
pub open spec fn text_value(
    v: Seq<(Seq<char>, Option<Seq<char>>, Option<i64>)>,
    key: Seq<char>,
    system: Option<i64>,
) -> Option<Seq<char>> {
    match effective(v, key, system) {
        Some(Some(t)) => Some(t),
        _ => None,
    }
}

impl Settings {
    /// The ROM or scratch directory in use: `resolved`, the stored directory
    /// as it resolves on disk, when it does; otherwise `default` (from the
    /// environment or the home directory), which is then stored globally.
    pub fn resolve_directory(&mut self, key: &str, resolved: Option<String>, default: &str) -> (r: String)
        requires
            old(self).wf(),
        ensures
            final(self).wf(),
            match resolved {
                Some(p) => r@ == p@ && final(self)@ == old(self)@,
                None => r@ == default@ && final(self)@ == upsert(old(self)@, key@, Some(default@), None),
            },
    {
        match resolved {
            Some(p) => p,
            None => {
                self.set_directory(key, default, None);
                string_of(&chars_of(default))
            },
        }
    }
}

/// The line a setting is printed as: `KEY = value`, nothing after the sign
/// for a null value.
pub open spec fn setting_line_spec(key: Seq<char>, value: Option<Seq<char>>) -> Seq<char> {
    key + " = "@ + match value {
        Some(v) => v,
        None => Seq::<char>::empty(),
    }
}

/// Exec form of [`setting_line_spec`].
pub fn setting_line(key: &str, value: &Option<String>) -> (r: String)
    ensures
        r@ == setting_line_spec(key@, opt_text(*value)),
{
    let mut v = chars_of(key);
    crate::paths::append_chars(&mut v, &chars_of(" = "));
    if let Some(t) = value {
        crate::paths::append_chars(&mut v, &chars_of(t.as_str()));
    }
    assert(v@ =~= setting_line_spec(key@, opt_text(*value)));
    string_of(&v)
}

} // verus!
