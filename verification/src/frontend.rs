//! What the browser front end shows: the records it receives, how games are
//! filtered, how rows and statuses are styled, and how the settings form is
//! filled from the stored settings.

use crate::config::{split_list as split_chars, split_list_spec};
use crate::sort::{lemma_lt_irreflexive, lemma_lt_total, lemma_lt_transitive, less_than, lex_lt, texts};
use crate::text::{chars_of, contains, has_infix, same, string_of};
use vstd::prelude::*;

verus! {

#[derive(Clone, Debug)]
pub struct System {
    pub id: i64,
    pub name: String,
    pub description: String,
    pub completion: i64,
    pub merging: i64,
    pub arcade: bool,
}

#[derive(Clone, Debug)]
pub struct Game {
    pub id: i64,
    pub name: String,
    /// Null when it would only repeat `name`.
    pub description: Option<String>,
    pub completion: i64,
    pub sorting: i64,
    /// `name` in lower case, filled in once when the games arrive.
    pub name_lower: String,
}

#[derive(Clone, Debug)]
pub struct Romfile {
    pub id: i64,
    pub path: String,
    pub size: i64,
}

#[derive(Clone, Debug)]
pub struct Rom {
    pub id: i64,
    pub name: String,
    pub size: i64,
    pub romfile: Option<Romfile>,
    pub ignored: bool,
}

#[derive(Clone, Debug)]
pub struct Setting {
    pub key: String,
    pub value: Option<String>,
}

#[derive(Clone, Debug)]
pub struct Dependency {
    pub name: String,
    pub version: Option<String>,
}

#[derive(Clone, Debug)]
pub struct Info {
    pub version: String,
    pub dependencies: Vec<Dependency>,
    pub system_count: i64,
    pub game_count: i64,
    pub rom_count: i64,
}

/// The four aggregate sizes reported for a system.
#[derive(Clone, Copy, Debug, Default, PartialEq, Eq, Structural)]
pub struct Sizes {
    pub total_original_size: i64,
    pub one_region_original_size: i64,
    pub total_actual_size: i64,
    pub one_region_actual_size: i64,
}

/// A notification of the bell's history.
#[derive(Clone, Debug)]
pub struct Notification {
    pub id: u64,
    pub message: String,
    pub kind: NotificationKind,
    /// When it arrived, ISO 8601.
    pub time: String,
}

#[derive(Clone, Copy, Debug, PartialEq, Eq, Structural)]
pub enum NotificationKind {
    Info,
    Success,
    Warning,
    Error,
}

/// The colour variant that carries a kind's meaning.
pub open spec fn variant_of(k: NotificationKind) -> Seq<char> {
    match k {
        NotificationKind::Info => "brand"@,
        NotificationKind::Success => "success"@,
        NotificationKind::Warning => "warning"@,
        NotificationKind::Error => "danger"@,
    }
}

/// The icon that goes with a kind.
pub open spec fn icon_of(k: NotificationKind) -> Seq<char> {
    match k {
        NotificationKind::Info => "circle-info"@,
        NotificationKind::Success => "circle-check"@,
        NotificationKind::Warning => "triangle-exclamation"@,
        NotificationKind::Error => "circle-exclamation"@,
    }
}

impl NotificationKind {
    /// The colour variant that carries this meaning.
    pub fn variant(self) -> (s: &'static str)
        ensures
            s@ == variant_of(self),
    {
        match self {
            NotificationKind::Info => "brand",
            NotificationKind::Success => "success",
            NotificationKind::Warning => "warning",
            NotificationKind::Error => "danger",
        }
    }

    /// The icon that goes with this kind.
    pub fn icon(self) -> (s: &'static str)
        ensures
            s@ == icon_of(self),
    {
        match self {
            NotificationKind::Info => "circle-info",
            NotificationKind::Success => "circle-check",
            NotificationKind::Warning => "triangle-exclamation",
            NotificationKind::Error => "circle-exclamation",
        }
    }
}

/// The newest notification goes first in the history.
pub fn prepend_notification(list: &mut Vec<Notification>, notification: Notification)
    ensures
        final(list)@ == seq![notification] + old(list)@,
{
    list.insert(0, notification);
    assert(list@ =~= seq![notification] + old(list)@);
}

// === lower case ===

/// What `str::to_lowercase` makes of a text.
pub uninterp spec fn lowercase_of(s: Seq<char>) -> Seq<char>;

/// `str::to_lowercase`: the text with every character mapped to its
/// lowercase form as Unicode defines it.
#[verifier::external_body]
fn to_lowercase(s: &str) -> (r: String)
    ensures
        r@ == lowercase_of(s@),
{
    s.to_lowercase()
}

impl Game {
    /// This game with its lowercase name filled in.
    pub fn with_name_lower(self) -> (r: Game)
        ensures
            r.id == self.id,
            r.name == self.name,
            r.description == self.description,
            r.completion == self.completion,
            r.sorting == self.sorting,
            r.name_lower@ == lowercase_of(self.name@),
    {
        let lower = to_lowercase(self.name.as_str());
        Game { name_lower: lower, ..self }
    }
}

// === filtering games ===

/// Which games the list shows: by completion (2 complete, 1 incomplete,
/// 0 wanted), ignored ones (sorting 2), only those kept for one region
/// (sorting 1), and those whose lowercase name contains `needle`.
#[derive(Clone, Debug)]
pub struct GameFilter {
    pub complete: bool,
    pub incomplete: bool,
    pub wanted: bool,
    pub ignored: bool,
    pub one_region: bool,
    pub needle: String,
}

/// The filter keeps the game.
pub open spec fn keeps(f: GameFilter, game: Game) -> bool {
    &&& !(!f.complete && game.completion == 2)
    &&& !(!f.incomplete && game.completion == 1)
    &&& !(!f.wanted && game.completion == 0)
    &&& !(!f.ignored && game.sorting == 2)
    &&& !(f.one_region && game.sorting != 1)
    &&& !(f.needle@.len() > 0 && !has_infix(game.name_lower@, f.needle@))
}

impl GameFilter {
    /// The filter of the current switches and name, the name matched in
    /// lower case.
    pub fn new(complete: bool, incomplete: bool, wanted: bool, ignored: bool, one_region: bool, name: &str) -> (f: GameFilter)
        ensures
            f.complete == complete,
            f.incomplete == incomplete,
            f.wanted == wanted,
            f.ignored == ignored,
            f.one_region == one_region,
            f.needle@ == lowercase_of(name@),
    {
        GameFilter { complete, incomplete, wanted, ignored, one_region, needle: to_lowercase(name) }
    }

    /// Whether the list shows `game`.
    pub fn keep(&self, game: &Game) -> (r: bool)
        ensures
            r == keeps(*self, *game),
    {
        if !self.complete && game.completion == 2 {
            return false;
        }
        if !self.incomplete && game.completion == 1 {
            return false;
        }
        if !self.wanted && game.completion == 0 {
            return false;
        }
        if !self.ignored && game.sorting == 2 {
            return false;
        }
        if self.one_region && game.sorting != 1 {
            return false;
        }
        let needle = chars_of(self.needle.as_str());
        if needle.len() > 0 && !contains(&chars_of(game.name_lower.as_str()), &needle) {
            return false;
        }
        true
    }
}

/// The positions of the games the filter keeps, in order.
pub open spec fn kept_positions(f: GameFilter, games: Seq<Game>) -> Seq<usize>
    decreases games.len(),
{
    if games.len() == 0 {
        seq![]
    } else {
        let rest = kept_positions(f, games.drop_last());
        if keeps(f, games.last()) {
            rest.push((games.len() - 1) as usize)
        } else {
            rest
        }
    }
}

/// The positions in `games` of those `filter` keeps, in order.
pub fn filter_games(filter: &GameFilter, games: &Vec<Game>) -> (r: Vec<usize>)
    ensures
        r@ == kept_positions(*filter, games@),
{
    let mut r: Vec<usize> = Vec::new();
    let mut i: usize = 0;
    assert(games@.take(0) =~= Seq::<Game>::empty());
    while i < games.len()
        invariant
            i <= games@.len(),
            r@ == kept_positions(*filter, games@.take(i as int)),
        decreases games.len() - i,
    {
        proof {
            assert(games@.take(i + 1).drop_last() =~= games@.take(i as int));
            assert(games@.take(i + 1).last() == games@[i as int]);
        }
        if filter.keep(&games[i]) {
            r.push(i);
        }
        i += 1;
    }
    assert(games@.take(i as int) =~= games@);
    r
}

// === choosing DATs to download ===

/// The DAT `name` is shown under the search text `filter`: always when the
/// lowercase filter is empty, else when the lowercase name contains it.
pub open spec fn dat_shown(name: Seq<char>, filter: Seq<char>) -> bool {
    lowercase_of(filter).len() == 0 || has_infix(lowercase_of(name), lowercase_of(filter))
}

/// The positions of the DATs shown under `filter`, in order.
pub open spec fn shown_positions(names: Seq<Seq<char>>, filter: Seq<char>) -> Seq<usize>
    decreases names.len(),
{
    if names.len() == 0 {
        seq![]
    } else {
        let rest = shown_positions(names.drop_last(), filter);
        if dat_shown(names.last(), filter) {
            rest.push((names.len() - 1) as usize)
        } else {
            rest
        }
    }
}

/// The positions in `names` of the DATs the search text `filter` shows, in
/// order: those whose lowercase name contains the lowercase filter, or all
/// when that is empty.
pub fn visible_dats(names: &Vec<String>, filter: &str) -> (r: Vec<usize>)
    ensures
        r@ == shown_positions(texts(names@), filter@),
{
    let needle = chars_of(to_lowercase(filter).as_str());
    let mut r: Vec<usize> = Vec::new();
    let mut i: usize = 0;
    assert(texts(names@).take(0) =~= Seq::<Seq<char>>::empty());
    while i < names.len()
        invariant
            i <= names@.len(),
            needle@ == lowercase_of(filter@),
            r@ == shown_positions(texts(names@).take(i as int), filter@),
        decreases names.len() - i,
    {
        proof {
            assert(texts(names@).take(i + 1).drop_last() =~= texts(names@).take(i as int));
            assert(texts(names@).take(i + 1).last() == names@[i as int]@);
        }
        let shown = needle.len() == 0 || contains(&chars_of(to_lowercase(names[i].as_str()).as_str()), &needle);
        if shown {
            r.push(i);
        }
        i += 1;
    }
    assert(texts(names@).take(i as int) =~= texts(names@));
    r
}

/// Position of `value` in `l`, if it is there.
fn position_of(l: &Vec<String>, value: &[char]) -> (r: Option<usize>)
    ensures
        match r {
            Some(i) => i < l@.len() && texts(l@)[i as int] == value@,
            None => !texts(l@).contains(value@),
        },
{
    let mut i: usize = 0;
    while i < l.len()
        invariant
            i <= l@.len(),
            forall|j: int| 0 <= j < i ==> texts(l@)[j] != value@,
        decreases l.len() - i,
    {
        assert(texts(l@)[i as int] == l@[i as int]@);
        if same(&chars_of(l[i].as_str()), value) {
            return Some(i);
        }
        i += 1;
    }
    proof {
        if texts(l@).contains(value@) {
            let k = choose|k: int| 0 <= k < texts(l@).len() && texts(l@)[k] == value@;
            assert(texts(l@)[k] != value@);
        }
    }
    None
}

/// The DATs picked for download, each once.
pub struct DatSelection {
    names: Vec<String>,
}

impl View for DatSelection {
    type V = Set<Seq<char>>;

    closed spec fn view(&self) -> Set<Seq<char>> {
        texts(self.names@).to_set()
    }
}

/// Removing the one place of `x` from a list without repeats removes `x`
/// from its set and keeps it without repeats.
proof fn lemma_remove_unique(s: Seq<Seq<char>>, i: int)
    requires
        s.no_duplicates(),
        0 <= i < s.len(),
    ensures
        s.remove(i).no_duplicates(),
        s.remove(i).to_set() == s.to_set().remove(s[i]),
{
    let t = s.remove(i);
    assert forall|a: int, b: int| 0 <= a < t.len() && 0 <= b < t.len() && a != b implies t[a] != t[b] by {
        let a1 = if a < i { a } else { a + 1 };
        let b1 = if b < i { b } else { b + 1 };
        assert(t[a] == s[a1] && t[b] == s[b1]);
    }
    assert forall|x: Seq<char>| t.to_set().contains(x) <==> s.to_set().remove(s[i]).contains(x) by {
        if t.contains(x) {
            let a = choose|a: int| 0 <= a < t.len() && t[a] == x;
            let a1 = if a < i { a } else { a + 1 };
            assert(s[a1] == x);
        }
        if s.contains(x) && x != s[i] {
            let a = choose|a: int| 0 <= a < s.len() && s[a] == x;
            if a < i {
                assert(t[a] == x);
            } else {
                assert(a != i);
                assert(t[a - 1] == x);
            }
        }
    }
    assert(t.to_set() =~= s.to_set().remove(s[i]));
}

/// Pushing a new `x` onto a list without repeats adds it to its set and
/// keeps it without repeats.
proof fn lemma_push_new(s: Seq<Seq<char>>, x: Seq<char>)
    requires
        s.no_duplicates(),
        !s.contains(x),
    ensures
        s.push(x).no_duplicates(),
        s.push(x).to_set() == s.to_set().insert(x),
{
    let t = s.push(x);
    assert forall|a: int, b: int| 0 <= a < t.len() && 0 <= b < t.len() && a != b implies t[a] != t[b] by {
        if a < s.len() && b < s.len() {
            assert(t[a] == s[a] && t[b] == s[b]);
        } else if a < s.len() {
            assert(t[a] == s[a]);
            assert(s.contains(s[a]));
        } else if b < s.len() {
            assert(t[b] == s[b]);
            assert(s.contains(s[b]));
        }
    }
    assert forall|y: Seq<char>| t.to_set().contains(y) <==> s.to_set().insert(x).contains(y) by {
        if t.contains(y) {
            let a = choose|a: int| 0 <= a < t.len() && t[a] == y;
            if a < s.len() {
                assert(s[a] == y);
            }
        }
        if s.contains(y) {
            let a = choose|a: int| 0 <= a < s.len() && s[a] == y;
            assert(t[a] == y);
        }
        if y == x {
            assert(t[s.len() as int] == y);
        }
    }
    assert(t.to_set() =~= s.to_set().insert(x));
}

impl DatSelection {
    /// Each DAT is held once.
    pub closed spec fn wf(&self) -> bool {
        texts(self.names@).no_duplicates()
    }

    /// Nothing picked.
    pub fn new() -> (s: Self)
        ensures
            s.wf(),
            s@ == Set::<Seq<char>>::empty(),
    {
        let s = DatSelection { names: Vec::new() };
        assert(texts(s.names@).to_set() =~= Set::<Seq<char>>::empty());
        s
    }

    /// How many DATs are picked.
    pub fn len(&self) -> (n: usize)
        requires
            self.wf(),
        ensures
            n == self@.len(),
    {
        proof {
            texts(self.names@).unique_seq_to_set();
        }
        self.names.len()
    }

    /// Whether `name` is picked.
    pub fn contains(&self, name: &str) -> (b: bool)
        ensures
            b == self@.contains(name@),
    {
        position_of(&self.names, &chars_of(name)).is_some()
    }

    /// Pick `name`, or drop it when it is picked already.
    pub fn toggle(&mut self, name: &str)
        requires
            old(self).wf(),
        ensures
            final(self).wf(),
            final(self)@ == if old(self)@.contains(name@) {
                old(self)@.remove(name@)
            } else {
                old(self)@.insert(name@)
            },
    {
        let n = chars_of(name);
        match position_of(&self.names, &n) {
            Some(i) => {
                proof {
                    lemma_remove_unique(texts(self.names@), i as int);
                    assert(texts(self.names@).contains(name@));
                }
                let ghost before = self.names@;
                self.names.remove(i);
                assert(texts(self.names@) =~= texts(before).remove(i as int));
            },
            None => {
                proof {
                    lemma_push_new(texts(self.names@), name@);
                }
                let ghost before = self.names@;
                self.names.push(string_of(&n));
                assert(texts(self.names@) =~= texts(before).push(name@));
            },
        }
    }

    /// Whether some DATs are shown and every one shown is picked (the
    /// "select all" switch reads "clear" then).
    pub fn all_picked(&self, shown: &Vec<String>) -> (b: bool)
        ensures
            b == (shown@.len() > 0 && texts(shown@).to_set().subset_of(self@)),
    {
        if shown.len() == 0 {
            return false;
        }
        self.picks_all(shown)
    }

    /// Every one of `shown` is picked.
    fn picks_all(&self, shown: &Vec<String>) -> (b: bool)
        ensures
            b == texts(shown@).to_set().subset_of(self@),
    {
        let mut i: usize = 0;
        while i < shown.len()
            invariant
                i <= shown@.len(),
                forall|j: int| 0 <= j < i ==> self@.contains(#[trigger] texts(shown@)[j]),
            decreases shown.len() - i,
        {
            assert(texts(shown@)[i as int] == shown@[i as int]@);
            if !self.contains(shown[i].as_str()) {
                assert(texts(shown@).to_set().contains(texts(shown@)[i as int]));
                return false;
            }
            i += 1;
        }
        assert forall|x: Seq<char>| texts(shown@).to_set().contains(x) implies self@.contains(x) by {
            let k = choose|k: int| 0 <= k < texts(shown@).len() && texts(shown@)[k] == x;
        }
        true
    }

    /// "Select all" over the DATs `shown`: drop them all when all are picked,
    /// else pick them all; the others stay as they are.
    pub fn toggle_all(&mut self, shown: &Vec<String>)
        requires
            old(self).wf(),
        ensures
            final(self).wf(),
            final(self)@ == if texts(shown@).to_set().subset_of(old(self)@) {
                old(self)@.difference(texts(shown@).to_set())
            } else {
                old(self)@.union(texts(shown@).to_set())
            },
    {
        let ghost sh = texts(shown@).to_set();
        if self.picks_all(shown) {
            let mut kept: Vec<String> = Vec::new();
            let mut j: usize = 0;
            assert(texts(kept@).to_set() =~= texts(self.names@).take(0).to_set().difference(sh));
            while j < self.names.len()
                invariant
                    j <= self.names@.len(),
                    texts(self.names@).no_duplicates(),
                    sh == texts(shown@).to_set(),
                    texts(kept@).no_duplicates(),
                    texts(kept@).to_set() == texts(self.names@).take(j as int).to_set().difference(sh),
                decreases self.names.len() - j,
            {
                let ghost t = texts(self.names@);
                let ghost x = t[j as int];
                assert(x == self.names@[j as int]@);
                proof {
                    assert(t.take(j + 1) =~= t.take(j as int).push(x));
                    assert(!t.take(j as int).contains(x)) by {
                        if t.take(j as int).contains(x) {
                            let k = choose|k: int| 0 <= k < j && t.take(j as int)[k] == x;
                            assert(t[k] == x);
                        }
                    }
                    lemma_push_new(t.take(j as int), x);
                }
                if position_of(shown, &chars_of(self.names[j].as_str())).is_none() {
                    proof {
                        assert(!sh.contains(x));
                        assert(!texts(kept@).contains(x)) by {
                            if texts(kept@).contains(x) {
                                assert(texts(kept@).to_set().contains(x));
                            }
                        }
                        lemma_push_new(texts(kept@), x);
                    }
                    let ghost before = kept@;
                    kept.push(string_of(&chars_of(self.names[j].as_str())));
                    assert(texts(kept@) =~= texts(before).push(x));
                    assert(texts(kept@).to_set() =~= t.take(j + 1).to_set().difference(sh));
                } else {
                    proof {
                        assert(sh.contains(x)) by {
                            let p = choose|p: int| 0 <= p < texts(shown@).len() && texts(shown@)[p] == x;
                            assert(texts(shown@).contains(x));
                        }
                    }
                    assert(texts(kept@).to_set() =~= t.take(j + 1).to_set().difference(sh));
                }
                j += 1;
            }
            assert(texts(self.names@).take(j as int) =~= texts(self.names@));
            self.names = kept;
        } else {
            let mut k: usize = 0;
            assert(texts(shown@).take(0).to_set() =~= Set::<Seq<char>>::empty());
            assert(texts(self.names@).to_set() =~= old(self)@.union(texts(shown@).take(0).to_set()));
            while k < shown.len()
                invariant
                    k <= shown@.len(),
                    texts(self.names@).no_duplicates(),
                    texts(self.names@).to_set() == old(self)@.union(texts(shown@).take(k as int).to_set()),
                decreases shown.len() - k,
            {
                let ghost x = texts(shown@)[k as int];
                assert(x == shown@[k as int]@);
                assert(texts(shown@).take(k + 1) =~= texts(shown@).take(k as int).push(x));
                proof {
                    lemma_push_new_set(texts(shown@).take(k as int), x);
                }
                let c = chars_of(shown[k].as_str());
                if position_of(&self.names, &c).is_none() {
                    proof {
                        lemma_push_new(texts(self.names@), x);
                    }
                    let ghost before = self.names@;
                    self.names.push(string_of(&c));
                    assert(texts(self.names@) =~= texts(before).push(x));
                }
                assert(texts(self.names@).to_set() =~= old(self)@.union(texts(shown@).take(k + 1).to_set()));
                k += 1;
            }
            assert(texts(shown@).take(k as int) =~= texts(shown@));
        }
    }

    /// The DATs to ask the server for: none when nothing is picked, so that
    /// no download is started.
    pub fn to_download(&self) -> (r: Option<Vec<String>>)
        requires
            self.wf(),
        ensures
            match r {
                None => self@.len() == 0,
                Some(v) => self@.len() > 0 && texts(v@).to_set() == self@ && texts(v@).no_duplicates(),
            },
    {
        proof {
            texts(self.names@).unique_seq_to_set();
        }
        if self.names.len() == 0 {
            return None;
        }
        let mut v: Vec<String> = Vec::new();
        let mut i: usize = 0;
        while i < self.names.len()
            invariant
                i <= self.names@.len(),
                texts(v@) == texts(self.names@).take(i as int),
            decreases self.names.len() - i,
        {
            let ghost before = v@;
            v.push(string_of(&chars_of(self.names[i].as_str())));
            assert(texts(v@) =~= texts(before).push(self.names@[i as int]@));
            assert(texts(self.names@).take(i + 1) =~= texts(self.names@).take(i as int).push(self.names@[i as int]@));
            assert(texts(v@) =~= texts(self.names@).take(i + 1));
            i += 1;
        }
        assert(texts(self.names@).take(i as int) =~= texts(self.names@));
        Some(v)
    }
}

/// The set of a list grows by what is pushed.
proof fn lemma_push_new_set(s: Seq<Seq<char>>, x: Seq<char>)
    ensures
        s.push(x).to_set() == s.to_set().insert(x),
{
    let t = s.push(x);
    assert forall|y: Seq<char>| t.to_set().contains(y) <==> s.to_set().insert(x).contains(y) by {
        if t.contains(y) {
            let a = choose|a: int| 0 <= a < t.len() && t[a] == y;
            if a < s.len() {
                assert(s[a] == y);
            }
        }
        if s.contains(y) {
            let a = choose|a: int| 0 <= a < s.len() && s[a] == y;
            assert(t[a] == y);
        }
        if y == x {
            assert(t[s.len() as int] == y);
        }
    }
    assert(t.to_set() =~= s.to_set().insert(x));
}

// === the romfiles of a game ===

/// The view of a romfile.
pub open spec fn romfile_view(f: Romfile) -> (i64, Seq<char>, i64) {
    (f.id, f.path@, f.size)
}

/// The romfiles the ROMs are in, in order, one per ROM that has one.
pub open spec fn linked_romfiles(roms: Seq<Rom>) -> Seq<(i64, Seq<char>, i64)>
    decreases roms.len(),
{
    if roms.len() == 0 {
        seq![]
    } else {
        let rest = linked_romfiles(roms.drop_last());
        match roms.last().romfile {
            Some(f) => rest.push(romfile_view(f)),
            None => rest,
        }
    }
}

/// `x` is the first of `l` whose path it has.
pub open spec fn first_of_path(l: Seq<(i64, Seq<char>, i64)>, x: (i64, Seq<char>, i64)) -> bool {
    exists|k: int| 0 <= k < l.len() && l[k] == x && forall|j: int| 0 <= j < k ==> (#[trigger] l[j]).1 != x.1
}

/// The paths of `r` increase strictly.
pub open spec fn increasing_paths(r: Seq<(i64, Seq<char>, i64)>) -> bool {
    forall|i: int, j: int| 0 <= i < j < r.len() ==> lex_lt(r[i].1, r[j].1)
}

/// Each of `r` is the first of `l` with its path.
pub open spec fn all_first(r: Seq<(i64, Seq<char>, i64)>, l: Seq<(i64, Seq<char>, i64)>) -> bool {
    forall|i: int| 0 <= i < r.len() ==> first_of_path(l, #[trigger] r[i])
}

/// Some entry of `r` has `path`.
pub open spec fn path_listed(r: Seq<(i64, Seq<char>, i64)>, path: Seq<char>) -> bool {
    exists|i: int| 0 <= i < r.len() && r[i].1 == path
}

/// Each path of `l` is in `r`.
pub open spec fn covers_paths(r: Seq<(i64, Seq<char>, i64)>, l: Seq<(i64, Seq<char>, i64)>) -> bool {
    forall|k: int| 0 <= k < l.len() ==> path_listed(r, (#[trigger] l[k]).1)
}

/// `r` lists, by path in increasing order, the first of `l` with each path.
#[verifier::opaque]
pub open spec fn distinct_by_path(r: Seq<(i64, Seq<char>, i64)>, l: Seq<(i64, Seq<char>, i64)>) -> bool {
    &&& increasing_paths(r)
    &&& all_first(r, l)
    &&& covers_paths(r, l)
}

fn copy_of(f: &Romfile) -> (r: Romfile)
    ensures
        romfile_view(r) == romfile_view(*f),
{
    Romfile { id: f.id, path: string_of(&chars_of(f.path.as_str())), size: f.size }
}

proof fn lemma_first_of_path_grows(l0: Seq<(i64, Seq<char>, i64)>, x: (i64, Seq<char>, i64), w: (i64, Seq<char>, i64))
    requires
        first_of_path(l0, w),
    ensures
        first_of_path(l0.push(x), w),
{
    let l1 = l0.push(x);
    let k = choose|k: int| 0 <= k < l0.len() && l0[k] == w && forall|j: int| 0 <= j < k ==> (#[trigger] l0[j]).1 != w.1;
    assert(l1[k] == w);
    assert forall|j: int| 0 <= j < k implies (#[trigger] l1[j]).1 != w.1 by {
        assert(l1[j] == l0[j]);
    }
}

/// No path of `l0` is new when `r` covers `l0` and `x`'s path is not in it.
proof fn lemma_new_path_unseen(
    v0: Seq<(i64, Seq<char>, i64)>,
    l0: Seq<(i64, Seq<char>, i64)>,
    x: (i64, Seq<char>, i64),
    p: int,
)
    requires
        increasing_paths(v0),
        covers_paths(v0, l0),
        0 <= p <= v0.len(),
        forall|k: int| 0 <= k < p ==> lex_lt(#[trigger] v0[k].1, x.1),
        p < v0.len() ==> lex_lt(x.1, v0[p].1),
    ensures
        forall|k: int| 0 <= k < l0.len() ==> (#[trigger] l0[k]).1 != x.1,
{
    assert forall|k: int| 0 <= k < l0.len() implies (#[trigger] l0[k]).1 != x.1 by {
        let j = choose|j: int| 0 <= j < v0.len() && v0[j].1 == l0[k].1;
        if j < p {
            lemma_lt_irreflexive(x.1);
        } else {
            if j > p {
                lemma_lt_transitive(x.1, v0[p].1, v0[j].1);
            }
            lemma_lt_irreflexive(x.1);
        }
    }
}

/// Inserting at `p` a path that sorts there keeps the paths increasing.
proof fn lemma_insert_increasing(v0: Seq<(i64, Seq<char>, i64)>, x: (i64, Seq<char>, i64), p: int)
    requires
        increasing_paths(v0),
        0 <= p <= v0.len(),
        forall|k: int| 0 <= k < p ==> lex_lt(#[trigger] v0[k].1, x.1),
        p < v0.len() ==> lex_lt(x.1, v0[p].1),
    ensures
        increasing_paths(v0.insert(p, x)),
{
    let v1 = v0.insert(p, x);
    assert forall|a: int, b: int| 0 <= a < b < v1.len() implies lex_lt(v1[a].1, v1[b].1) by {
        if b < p {
            assert(v1[a] == v0[a] && v1[b] == v0[b]);
        } else if b == p {
            assert(v1[a] == v0[a]);
        } else if a < p {
            assert(v1[a] == v0[a] && v1[b] == v0[b - 1]);
            if b - 1 != p {
                lemma_lt_transitive(x.1, v0[p].1, v0[b - 1].1);
            }
            lemma_lt_transitive(v0[a].1, x.1, v0[b - 1].1);
        } else if a == p {
            assert(v1[b] == v0[b - 1]);
            if b - 1 != p {
                lemma_lt_transitive(x.1, v0[p].1, v0[b - 1].1);
            }
        } else {
            assert(v1[a] == v0[a - 1] && v1[b] == v0[b - 1]);
        }
    }
}

/// Inserting a romfile whose path `l0` lacks keeps every entry the first of
/// its path.
proof fn lemma_insert_all_first(
    v0: Seq<(i64, Seq<char>, i64)>,
    l0: Seq<(i64, Seq<char>, i64)>,
    x: (i64, Seq<char>, i64),
    p: int,
)
    requires
        all_first(v0, l0),
        0 <= p <= v0.len(),
        forall|k: int| 0 <= k < l0.len() ==> (#[trigger] l0[k]).1 != x.1,
    ensures
        all_first(v0.insert(p, x), l0.push(x)),
{
    let v1 = v0.insert(p, x);
    let l1 = l0.push(x);
    assert forall|a: int| 0 <= a < v1.len() implies first_of_path(l1, #[trigger] v1[a]) by {
        if a == p {
            assert(l1[l0.len() as int] == x);
            assert forall|j: int| 0 <= j < l0.len() implies (#[trigger] l1[j]).1 != x.1 by {
                assert(l1[j] == l0[j]);
            }
        } else if a < p {
            assert(v1[a] == v0[a]);
            lemma_first_of_path_grows(l0, x, v0[a]);
        } else {
            assert(v1[a] == v0[a - 1]);
            lemma_first_of_path_grows(l0, x, v0[a - 1]);
        }
    }
}

/// Inserting `x` keeps every path covered, its own too.
proof fn lemma_insert_covers(
    v0: Seq<(i64, Seq<char>, i64)>,
    l0: Seq<(i64, Seq<char>, i64)>,
    x: (i64, Seq<char>, i64),
    p: int,
)
    requires
        covers_paths(v0, l0),
        0 <= p <= v0.len(),
    ensures
        covers_paths(v0.insert(p, x), l0.push(x)),
{
    let v1 = v0.insert(p, x);
    let l1 = l0.push(x);
    assert forall|k: int| 0 <= k < l1.len() implies path_listed(v1, (#[trigger] l1[k]).1) by {
        if k == l0.len() {
            assert(v1[p] == x);
        } else {
            assert(l1[k] == l0[k]);
            let j = choose|j: int| 0 <= j < v0.len() && v0[j].1 == l0[k].1;
            if j < p {
                assert(v1[j] == v0[j]);
            } else {
                assert(v1[j + 1] == v0[j]);
            }
        }
    }
    assert(covers_paths(v1, l1));
}

/// Inserting at `p` a romfile whose path is new keeps the list sorted and
/// distinct.
proof fn lemma_insert_new_path(
    v0: Seq<(i64, Seq<char>, i64)>,
    l0: Seq<(i64, Seq<char>, i64)>,
    x: (i64, Seq<char>, i64),
    p: int,
)
    requires
        distinct_by_path(v0, l0),
        0 <= p <= v0.len(),
        forall|k: int| 0 <= k < p ==> lex_lt(#[trigger] v0[k].1, x.1),
        p < v0.len() ==> lex_lt(x.1, v0[p].1),
    ensures
        distinct_by_path(v0.insert(p, x), l0.push(x)),
{
    reveal(distinct_by_path);
    lemma_new_path_unseen(v0, l0, x, p);
    lemma_insert_increasing(v0, x, p);
    lemma_insert_all_first(v0, l0, x, p);
    lemma_insert_covers(v0, l0, x, p);
}

/// A romfile whose path is already listed changes nothing.
proof fn lemma_path_present(
    v0: Seq<(i64, Seq<char>, i64)>,
    l0: Seq<(i64, Seq<char>, i64)>,
    x: (i64, Seq<char>, i64),
    p: int,
)
    requires
        distinct_by_path(v0, l0),
        0 <= p < v0.len(),
        v0[p].1 == x.1,
    ensures
        distinct_by_path(v0, l0.push(x)),
{
    reveal(distinct_by_path);
    let l1 = l0.push(x);
    assert(all_first(v0, l1)) by {
        assert forall|a: int| 0 <= a < v0.len() implies first_of_path(l1, #[trigger] v0[a]) by {
            lemma_first_of_path_grows(l0, x, v0[a]);
        }
    }
    assert(covers_paths(v0, l1)) by {
        assert forall|k: int| 0 <= k < l1.len() implies path_listed(v0, (#[trigger] l1[k]).1) by {
            if k == l0.len() {
                assert(v0[p].1 == l1[k].1);
            } else {
                assert(l1[k] == l0[k]);
            }
        }
    }
}

/// The distinct romfiles of a game's ROMs, by path: sorted by path, and of
/// several with one path the first.
pub fn romfiles_of(roms: &Vec<Rom>) -> (r: Vec<Romfile>)
    ensures
        distinct_by_path(r@.map_values(|f: Romfile| romfile_view(f)), linked_romfiles(roms@)),
{
    let mut r: Vec<Romfile> = Vec::new();
    let mut i: usize = 0;
    proof {
        assert(roms@.take(0) =~= Seq::<Rom>::empty());
        assert(r@.map_values(|f: Romfile| romfile_view(f)) =~= Seq::<(i64, Seq<char>, i64)>::empty());
        reveal(distinct_by_path);
    }
    while i < roms.len()
        invariant
            i <= roms@.len(),
            distinct_by_path(r@.map_values(|f: Romfile| romfile_view(f)), linked_romfiles(roms@.take(i as int))),
        decreases roms.len() - i,
    {
        let ghost l0 = linked_romfiles(roms@.take(i as int));
        let ghost v0 = r@.map_values(|f: Romfile| romfile_view(f));
        proof {
            assert(roms@.take(i + 1).drop_last() =~= roms@.take(i as int));
            assert(roms@.take(i + 1).last() == roms@[i as int]);
        }
        match &roms[i].romfile {
            Some(f) => {
                let ghost x = romfile_view(*f);
                let ghost l1 = l0.push(x);
                assert(linked_romfiles(roms@.take(i + 1)) == l1);
                let path = chars_of(f.path.as_str());
                let mut p: usize = 0;
                while p < r.len() && less_than(&chars_of(r[p].path.as_str()), &path)
                    invariant
                        p <= r@.len(),
                        path@ == f.path@,
                        v0 == r@.map_values(|g: Romfile| romfile_view(g)),
                        forall|k: int| 0 <= k < p ==> lex_lt(#[trigger] v0[k].1, path@),
                    decreases r.len() - p,
                {
                    assert(v0[p as int].1 == r@[p as int].path@);
                    p += 1;
                }
                let present = p < r.len() && same(&chars_of(r[p].path.as_str()), &path);
                proof {
                    // What stands at `p` and after is not below the new path.
                    if p < r@.len() {
                        assert(v0[p as int].1 == r@[p as int].path@);
                        assert(!lex_lt(v0[p as int].1, path@));
                    }
                }
                if !present {
                    proof {
                        if p < r@.len() {
                            lemma_lt_total(v0[p as int].1, x.1);
                        }
                        lemma_insert_new_path(v0, l0, x, p as int);
                    }
                    r.insert(p, copy_of(f));
                    assert(r@.map_values(|g: Romfile| romfile_view(g)) =~= v0.insert(p as int, x));
                } else {
                    proof {
                        lemma_path_present(v0, l0, x, p as int);
                    }
                }
            },
            None => {
                assert(linked_romfiles(roms@.take(i + 1)) == l0);
            },
        }
        i += 1;
    }
    assert(roms@.take(i as int) =~= roms@);
    r
}

// === list values ===

/// The entries of a `|`-separated list value; none for a missing or empty
/// one.
pub open spec fn list_entries(value: Option<Seq<char>>) -> Seq<Seq<char>> {
    match value {
        Some(v) => if v.len() > 0 {
            split_list_spec(v)
        } else {
            seq![]
        },
        None => seq![],
    }
}

/// Split a `|`-separated list value into its entries.
pub fn split_list(value: &Option<String>) -> (r: Vec<String>)
    ensures
        texts(r@) == list_entries(match value {
            Some(v) => Some(v@),
            None => None,
        }),
{
    match value {
        Some(v) => {
            let c = chars_of(v.as_str());
            if c.len() > 0 {
                split_chars(&c)
            } else {
                Vec::new()
            }
        },
        None => Vec::new(),
    }
}

// === styling ===

/// The status class of a system by its completion.
pub open spec fn system_color_of(completion: i64) -> Seq<char> {
    if completion == 2 {
        "status-complete"@
    } else if completion == 1 {
        "status-incomplete"@
    } else {
        "status-wanted"@
    }
}

/// The status class of a system.
pub fn system_color(system: &System) -> (s: &'static str)
    ensures
        s@ == system_color_of(system.completion),
{
    match system.completion {
        2 => "status-complete",
        1 => "status-incomplete",
        _ => "status-wanted",
    }
}

/// The status class of a game: ignored, else by completion.
pub fn game_color(game: &Game) -> (s: &'static str)
    ensures
        s@ == if game.sorting == 2 {
            "status-ignored"@
        } else {
            system_color_of(game.completion)
        },
{
    if game.sorting == 2 {
        return "status-ignored";
    }
    match game.completion {
        2 => "status-complete",
        1 => "status-incomplete",
        _ => "status-wanted",
    }
}

/// The status class of a ROM: ignored, present in a file, or wanted.
pub fn rom_color(rom: &Rom) -> (s: &'static str)
    ensures
        s@ == if rom.ignored {
            "status-ignored"@
        } else if rom.romfile is Some {
            "status-complete"@
        } else {
            "status-wanted"@
        },
{
    if rom.ignored {
        "status-ignored"
    } else if rom.romfile.is_some() {
        "status-complete"
    } else {
        "status-wanted"
    }
}

/// The classes of a row: its stripe by absolute position, and whether it is
/// selected.
pub open spec fn row_class_of(position: usize, selected: bool) -> Seq<char> {
    "list-row "@ + (if position % 2 == 0 {
        "row-even"@
    } else {
        "row-odd"@
    }) + " "@ + (if selected {
        "row-selected"@
    } else {
        ""@
    })
}

fn push_text(v: &mut Vec<char>, s: &str)
    ensures
        final(v)@ == old(v)@ + s@,
{
    crate::paths::append_chars(v, &chars_of(s));
}

/// Exec form of [`row_class_of`].
pub fn row_class(position: usize, selected: bool) -> (s: String)
    ensures
        s@ == row_class_of(position, selected),
{
    let mut v: Vec<char> = Vec::new();
    push_text(&mut v, "list-row ");
    push_text(&mut v, if position % 2 == 0 { "row-even" } else { "row-odd" });
    push_text(&mut v, " ");
    push_text(&mut v, if selected { "row-selected" } else { "" });
    string_of(&v)
}

/// The width of a dialog of a size.
pub open spec fn dialog_width_of(size: Seq<char>) -> Seq<char> {
    if size == "xs"@ {
        "24rem"@
    } else if size == "sm"@ {
        "28rem"@
    } else if size == "md"@ {
        "32rem"@
    } else if size == "lg"@ {
        "42rem"@
    } else {
        "56rem"@
    }
}

/// The preferred width of a dialog: `xl` and anything unknown get the
/// widest.
pub fn dialog_width(size: &str) -> (s: &'static str)
    ensures
        s@ == dialog_width_of(size@),
{
    let c = chars_of(size);
    if same(&c, &chars_of("xs")) {
        "24rem"
    } else if same(&c, &chars_of("sm")) {
        "28rem"
    } else if same(&c, &chars_of("md")) {
        "32rem"
    } else if same(&c, &chars_of("lg")) {
        "42rem"
    } else {
        "56rem"
    }
}

// === the settings form ===

pub const ONE_REGIONS_KEY: &'static str = "REGIONS_ONE";
pub const ALL_REGIONS_KEY: &'static str = "REGIONS_ALL";
pub const LANGUAGES_KEY: &'static str = "LANGUAGES";
pub const DISCARD_RELEASES_KEY: &'static str = "DISCARD_RELEASES";
pub const DISCARD_FLAGS_KEY: &'static str = "DISCARD_FLAGS";
pub const STRICT_ONE_REGIONS_KEY: &'static str = "REGIONS_ONE_STRICT";
pub const PREFER_PARENTS_KEY: &'static str = "PREFER_PARENTS";
pub const PREFER_REGIONS_KEY: &'static str = "PREFER_REGIONS";
pub const PREFER_VERSIONS_KEY: &'static str = "PREFER_VERSIONS";
pub const PREFER_FLAGS_KEY: &'static str = "PREFER_FLAGS";
pub const ROM_DIRECTORY_KEY: &'static str = "ROM_DIRECTORY";
pub const TMP_DIRECTORY_KEY: &'static str = "TMP_DIRECTORY";
pub const GROUP_SUBSYSTEMS_KEY: &'static str = "GROUP_SUBSYSTEMS";
pub const ONE_REGIONS_SUBFOLDERS_KEY: &'static str = "REGIONS_ONE_SUBFOLDERS";
pub const ALL_REGIONS_SUBFOLDERS_KEY: &'static str = "REGIONS_ALL_SUBFOLDERS";

pub const PREFER_REGIONS_CHOICES: [&'static str; 3] = ["none", "broad", "narrow"];
pub const PREFER_VERSIONS_CHOICES: [&'static str; 3] = ["none", "new", "old"];
pub const SUBFOLDER_SCHEMES_CHOICES: [&'static str; 2] = ["none", "alpha"];

/// The value of the first setting with `key`, if it has one.
pub open spec fn found_value(settings: Seq<Setting>, key: Seq<char>) -> Option<Seq<char>>
    decreases settings.len(),
{
    if settings.len() == 0 {
        None
    } else if settings[0].key@ == key {
        match settings[0].value {
            Some(v) => Some(v@),
            None => None,
        }
    } else {
        found_value(settings.drop_first(), key)
    }
}

/// Exec form of [`found_value`].
pub fn find_value(settings: &Vec<Setting>, key: &str) -> (r: Option<String>)
    ensures
        match r {
            Some(v) => found_value(settings@, key@) == Some(v@),
            None => found_value(settings@, key@) is None,
        },
{
    let k = chars_of(key);
    let mut i: usize = 0;
    assert(settings@.skip(0) =~= settings@);
    while i < settings.len()
        invariant
            i <= settings@.len(),
            k@ == key@,
            found_value(settings@, key@) == found_value(settings@.skip(i as int), key@),
        decreases settings.len() - i,
    {
        assert(settings@.skip(i as int)[0] == settings@[i as int]);
        assert(settings@.skip(i as int).drop_first() =~= settings@.skip(i + 1));
        if same(&chars_of(settings[i].key.as_str()), &k) {
            return match &settings[i].value {
                Some(v) => Some(string_of(&chars_of(v.as_str()))),
                None => None,
            };
        }
        i += 1;
    }
    None
}

/// The editable copies of the settings the settings dialog shows.
#[derive(Clone, Debug)]
pub struct Local {
    pub one_regions: Vec<String>,
    pub all_regions: Vec<String>,
    pub languages: Vec<String>,
    pub discard_releases: Vec<String>,
    pub discard_flags: Vec<String>,
    pub prefer_flags: Vec<String>,
    pub strict_one_regions: bool,
    pub prefer_parents: bool,
    pub group_subsystems: bool,
    pub prefer_regions: String,
    pub prefer_versions: String,
    pub one_regions_subfolders: String,
    pub all_regions_subfolders: String,
    pub rom_directory: String,
    pub tmp_directory: String,
}

/// A found text, or `default` when there is none.
pub open spec fn or_default(v: Option<Seq<char>>, default: Seq<char>) -> Seq<char> {
    match v {
        Some(t) => t,
        None => default,
    }
}

fn value_or(v: Option<String>, default: &str) -> (r: String)
    ensures
        r@ == or_default(
            match v {
                Some(t) => Some(t@),
                None => None,
            },
            default@,
        ),
{
    match v {
        Some(t) => t,
        None => string_of(&chars_of(default)),
    }
}

fn list_of(settings: &Vec<Setting>, key: &str) -> (r: Vec<String>)
    ensures
        texts(r@) == list_entries(found_value(settings@, key@)),
{
    split_list(&find_value(settings, key))
}

fn is_text(v: &Option<String>, t: &str) -> (r: bool)
    ensures
        r == (match v {
            Some(s) => s@ == t@,
            None => false,
        }),
{
    match v {
        Some(s) => same(&chars_of(s.as_str()), &chars_of(t)),
        None => false,
    }
}

impl Local {
    /// The form before any setting is read: empty lists, strict regions off,
    /// parents and subsystems on, every choice `none`, no directories.
    pub fn new() -> (l: Local)
        ensures
            l.one_regions@.len() == 0 && l.all_regions@.len() == 0 && l.languages@.len() == 0,
            l.discard_releases@.len() == 0 && l.discard_flags@.len() == 0 && l.prefer_flags@.len() == 0,
            !l.strict_one_regions && l.prefer_parents && l.group_subsystems,
            l.prefer_regions@ == "none"@ && l.prefer_versions@ == "none"@,
            l.one_regions_subfolders@ == "none"@ && l.all_regions_subfolders@ == "none"@,
            l.rom_directory@.len() == 0 && l.tmp_directory@.len() == 0,
    {
        let empty: Vec<char> = Vec::new();
        Local {
            one_regions: Vec::new(),
            all_regions: Vec::new(),
            languages: Vec::new(),
            discard_releases: Vec::new(),
            discard_flags: Vec::new(),
            prefer_flags: Vec::new(),
            strict_one_regions: false,
            prefer_parents: true,
            group_subsystems: true,
            prefer_regions: string_of(&chars_of("none")),
            prefer_versions: string_of(&chars_of("none")),
            one_regions_subfolders: string_of(&chars_of("none")),
            all_regions_subfolders: string_of(&chars_of("none")),
            rom_directory: string_of(&empty),
            tmp_directory: string_of(&empty),
        }
    }

    /// The form filled from `settings`: each field from the first setting of
    /// its key. Lists are split, strict regions is on only when `true`,
    /// parents and subsystems are on unless `false`, choices default to
    /// `none` and directories to nothing.
    pub fn populate(settings: &Vec<Setting>) -> (l: Local)
        ensures
            texts(l.one_regions@) == list_entries(found_value(settings@, ONE_REGIONS_KEY@)),
            texts(l.all_regions@) == list_entries(found_value(settings@, ALL_REGIONS_KEY@)),
            texts(l.languages@) == list_entries(found_value(settings@, LANGUAGES_KEY@)),
            texts(l.discard_releases@) == list_entries(found_value(settings@, DISCARD_RELEASES_KEY@)),
            texts(l.discard_flags@) == list_entries(found_value(settings@, DISCARD_FLAGS_KEY@)),
            texts(l.prefer_flags@) == list_entries(found_value(settings@, PREFER_FLAGS_KEY@)),
            l.strict_one_regions == (found_value(settings@, STRICT_ONE_REGIONS_KEY@) == Some("true"@)),
            l.prefer_parents == (found_value(settings@, PREFER_PARENTS_KEY@) != Some("false"@)),
            l.group_subsystems == (found_value(settings@, GROUP_SUBSYSTEMS_KEY@) != Some("false"@)),
            l.prefer_regions@ == or_default(found_value(settings@, PREFER_REGIONS_KEY@), "none"@),
            l.prefer_versions@ == or_default(found_value(settings@, PREFER_VERSIONS_KEY@), "none"@),
            l.one_regions_subfolders@ == or_default(found_value(settings@, ONE_REGIONS_SUBFOLDERS_KEY@), "none"@),
            l.all_regions_subfolders@ == or_default(found_value(settings@, ALL_REGIONS_SUBFOLDERS_KEY@), "none"@),
            l.rom_directory@ == or_default(found_value(settings@, ROM_DIRECTORY_KEY@), ""@),
            l.tmp_directory@ == or_default(found_value(settings@, TMP_DIRECTORY_KEY@), ""@),
    {
        let strict = find_value(settings, STRICT_ONE_REGIONS_KEY);
        let parents = find_value(settings, PREFER_PARENTS_KEY);
        let subsystems = find_value(settings, GROUP_SUBSYSTEMS_KEY);
        Local {
            one_regions: list_of(settings, ONE_REGIONS_KEY),
            all_regions: list_of(settings, ALL_REGIONS_KEY),
            languages: list_of(settings, LANGUAGES_KEY),
            discard_releases: list_of(settings, DISCARD_RELEASES_KEY),
            discard_flags: list_of(settings, DISCARD_FLAGS_KEY),
            prefer_flags: list_of(settings, PREFER_FLAGS_KEY),
            strict_one_regions: is_text(&strict, "true"),
            prefer_parents: !is_text(&parents, "false"),
            group_subsystems: !is_text(&subsystems, "false"),
            prefer_regions: value_or(find_value(settings, PREFER_REGIONS_KEY), "none"),
            prefer_versions: value_or(find_value(settings, PREFER_VERSIONS_KEY), "none"),
            one_regions_subfolders: value_or(find_value(settings, ONE_REGIONS_SUBFOLDERS_KEY), "none"),
            all_regions_subfolders: value_or(find_value(settings, ALL_REGIONS_SUBFOLDERS_KEY), "none"),
            rom_directory: value_or(find_value(settings, ROM_DIRECTORY_KEY), ""),
            tmp_directory: value_or(find_value(settings, TMP_DIRECTORY_KEY), ""),
        }
    }
}

/// The positions the filter keeps are exactly those of the games it keeps,
/// in increasing order.
pub proof fn lemma_filtered_positions(f: GameFilter, games: Seq<Game>)
    requires
        games.len() <= usize::MAX,
    ensures
        forall|i: int, j: int| 0 <= i < j < kept_positions(f, games).len() ==> kept_positions(f, games)[i] < kept_positions(f, games)[j],
        forall|i: int|
            0 <= i < kept_positions(f, games).len() ==> (#[trigger] kept_positions(f, games)[i]) < games.len() && keeps(
                f,
                games[kept_positions(f, games)[i] as int],
            ),
        forall|n: int| 0 <= n < games.len() && #[trigger] keeps(f, games[n]) ==> kept_positions(f, games).contains(n as usize),
    decreases games.len(),
{
    if games.len() > 0 {
        let rest = games.drop_last();
        lemma_filtered_positions(f, rest);
        let r0 = kept_positions(f, rest);
        let r = kept_positions(f, games);
        let last = (games.len() - 1) as usize;
        if keeps(f, games.last()) {
            assert(r == r0.push(last));
        } else {
            assert(r == r0);
        }
        assert forall|i: int| 0 <= i < r.len() implies (#[trigger] r[i]) < games.len() && keeps(f, games[r[i] as int]) by {
            if i < r0.len() {
                assert(r[i] == r0[i]);
                assert(games[r0[i] as int] == rest[r0[i] as int]);
            }
        }
        assert forall|i: int, j: int| 0 <= i < j < r.len() implies r[i] < r[j] by {
            if j < r0.len() {
                assert(r[i] == r0[i] && r[j] == r0[j]);
            } else {
                assert(r[i] == r0[i]);
            }
        }
        assert forall|n: int| 0 <= n < games.len() && #[trigger] keeps(f, games[n]) implies r.contains(n as usize) by {
            if n < rest.len() {
                assert(games[n] == rest[n]);
                assert(keeps(f, rest[n]));
                assert(r0.contains(n as usize));
                let w = choose|w: int| 0 <= w < r0.len() && r0[w] == n as usize;
                assert(r[w] == n as usize);
            } else {
                assert(r[r.len() - 1] == n as usize);
            }
        }
    }
}

} // verus!
