//! Checking the files of a system: which checker a file goes to, which ROMs
//! it is checked against, and what becomes of it afterwards.

use crate::common::{one_of, is_one_of, ARCHIVE_EXTENSIONS, CSO_EXTENSION, CUE_EXTENSION, NSZ_EXTENSION, RVZ_EXTENSION, ZSO_EXTENSION, CHD_EXTENSION};
use crate::config::{hash_algorithm_name, HashAlgorithm};
use crate::model::Rom;
use crate::paths::{file_name, get_file_name, join, join_path};
use crate::text::{chars_of, ends_with, has_suffix, same, string_of};
use vstd::prelude::*;

verus! {

/// Why a check cannot start or an archive does not match its ROMs.
#[derive(Clone, Copy, Debug, PartialEq, Eq, Structural)]
pub enum CheckRomsError {
    /// The configured hash algorithm is none of `crc`, `md5`, `sha1`.
    UnknownHashAlgorithm,
    /// An archive holds another number of files than its ROMs.
    DifferentCount,
}

/// The hash algorithm a stored `HASH_ALGORITHM` value names.
pub open spec fn hash_algorithm_named(v: Option<Seq<char>>) -> Option<HashAlgorithm> {
    match v {
        Some(t) => if t == "crc"@ {
            Some(HashAlgorithm::Crc)
        } else if t == "md5"@ {
            Some(HashAlgorithm::Md5)
        } else if t == "sha1"@ {
            Some(HashAlgorithm::Sha1)
        } else {
            None
        },
        None => None,
    }
}

/// The hash algorithm files are checked with, from its setting's value.
pub fn hash_algorithm_setting(value: Option<&str>) -> (r: Result<HashAlgorithm, CheckRomsError>)
    ensures
        match hash_algorithm_named(
            match value {
                Some(v) => Some(v@),
                None => None,
            },
        ) {
            Some(a) => r == Ok::<HashAlgorithm, CheckRomsError>(a),
            None => r == Err::<HashAlgorithm, CheckRomsError>(CheckRomsError::UnknownHashAlgorithm),
        },
{
    match value {
        Some(v) => {
            let c = chars_of(v);
            if same(&c, &chars_of("crc")) {
                Ok(HashAlgorithm::Crc)
            } else if same(&c, &chars_of("md5")) {
                Ok(HashAlgorithm::Md5)
            } else if same(&c, &chars_of("sha1")) {
                Ok(HashAlgorithm::Sha1)
            } else {
                Err(CheckRomsError::UnknownHashAlgorithm)
            }
        },
        None => Err(CheckRomsError::UnknownHashAlgorithm),
    }
}

/// Which checker a file goes to.
#[derive(Clone, Copy, Debug, PartialEq, Eq, Structural)]
pub enum CheckKind {
    Archive,
    Chd,
    Cso,
    Nsz,
    Rvz,
    Zso,
    Original,
}

/// The checker for a file by its extension, compared as it is written.
pub open spec fn check_kind_of(ext: Seq<char>) -> CheckKind {
    if is_one_of(ARCHIVE_EXTENSIONS@, ext) {
        CheckKind::Archive
    } else if ext == CHD_EXTENSION@ {
        CheckKind::Chd
    } else if ext == CSO_EXTENSION@ {
        CheckKind::Cso
    } else if ext == NSZ_EXTENSION@ {
        CheckKind::Nsz
    } else if ext == RVZ_EXTENSION@ {
        CheckKind::Rvz
    } else if ext == ZSO_EXTENSION@ {
        CheckKind::Zso
    } else {
        CheckKind::Original
    }
}

/// Each compressed format's extension, and only it, selects that format's
/// checker; `7z` and `zip` select the archive checker; every other
/// extension is hashed as a plain file.
pub proof fn lemma_each_format_has_its_checker(ext: Seq<char>)
    ensures
        check_kind_of(ext) == CheckKind::Archive <==> (ext == "7z"@ || ext == "zip"@),
        check_kind_of(ext) == CheckKind::Chd <==> ext == "chd"@,
        check_kind_of(ext) == CheckKind::Cso <==> ext == "cso"@,
        check_kind_of(ext) == CheckKind::Nsz <==> ext == "nsz"@,
        check_kind_of(ext) == CheckKind::Rvz <==> ext == "rvz"@,
        check_kind_of(ext) == CheckKind::Zso <==> ext == "zso"@,
        check_kind_of(ext) == CheckKind::Original <==> !(ext == "7z"@ || ext == "zip"@ || ext == "chd"@ || ext == "cso"@
            || ext == "nsz"@ || ext == "rvz"@ || ext == "zso"@),
{
    reveal_strlit("7z");
    reveal_strlit("zip");
    reveal_strlit("chd");
    reveal_strlit("cso");
    reveal_strlit("nsz");
    reveal_strlit("rvz");
    reveal_strlit("zso");
    let words = seq!["zip"@, "chd"@, "cso"@, "nsz"@, "rvz"@, "zso"@];
    assert(words[0][0] == 'z' && words[1][0] == 'c' && words[2][0] == 'c' && words[3][0] == 'n' && words[4][0] == 'r'
        && words[5][0] == 'z');
    assert(words[1][1] == 'h' && words[2][1] == 's' && words[0][1] == 'i' && words[5][1] == 's');
    assert forall|a: int, b: int| 0 <= a < b < 6 implies words[a] != words[b] by {
        if a == 1 && b == 2 {
            assert(words[a][1] != words[b][1]);
        } else if a == 0 && b == 5 {
            assert(words[a][1] != words[b][1]);
        } else {
            assert(words[a][0] != words[b][0]);
        }
    }
    assert(CHD_EXTENSION@ == "chd"@);
    assert(CSO_EXTENSION@ == "cso"@);
    assert(NSZ_EXTENSION@ == "nsz"@);
    assert(RVZ_EXTENSION@ == "rvz"@);
    assert(ZSO_EXTENSION@ == "zso"@);
    let w = crate::common::word_texts(ARCHIVE_EXTENSIONS@);
    assert(ARCHIVE_EXTENSIONS@ =~= seq!["7z", "zip"]);
    assert(w =~= seq!["7z"@, "zip"@]);
    assert(is_one_of(ARCHIVE_EXTENSIONS@, ext) <==> (ext == "7z"@ || ext == "zip"@)) by {
        if ext == "7z"@ {
            assert(w[0] == ext);
        }
        if ext == "zip"@ {
            assert(w[1] == ext);
        }
    }
}

/// Exec form of [`check_kind_of`].
pub fn check_kind(extension: &str) -> (k: CheckKind)
    ensures
        k == check_kind_of(extension@),
{
    let e = chars_of(extension);
    if one_of(&ARCHIVE_EXTENSIONS, &e) {
        CheckKind::Archive
    } else if same(&e, &chars_of(CHD_EXTENSION)) {
        CheckKind::Chd
    } else if same(&e, &chars_of(CSO_EXTENSION)) {
        CheckKind::Cso
    } else if same(&e, &chars_of(NSZ_EXTENSION)) {
        CheckKind::Nsz
    } else if same(&e, &chars_of(RVZ_EXTENSION)) {
        CheckKind::Rvz
    } else if same(&e, &chars_of(ZSO_EXTENSION)) {
        CheckKind::Zso
    } else {
        CheckKind::Original
    }
}

/// The positions of the ROMs kept in the romfile `id`, in order.
pub open spec fn positions_in(roms: Seq<Rom>, id: i64) -> Seq<usize>
    decreases roms.len(),
{
    if roms.len() == 0 {
        seq![]
    } else {
        let rest = positions_in(roms.drop_last(), id);
        if roms.last().romfile_id == Some(id) {
            rest.push((roms.len() - 1) as usize)
        } else {
            rest
        }
    }
}

/// The ROMs a romfile is checked against: those kept in it, in order.
pub fn roms_of_romfile(roms: &Vec<Rom>, id: i64) -> (r: Vec<usize>)
    ensures
        r@ == positions_in(roms@, id),
{
    let mut r: Vec<usize> = Vec::new();
    let mut i: usize = 0;
    assert(roms@.take(0) =~= Seq::<Rom>::empty());
    while i < roms.len()
        invariant
            i <= roms@.len(),
            r@ == positions_in(roms@.take(i as int), id),
        decreases roms.len() - i,
    {
        proof {
            assert(roms@.take(i + 1).drop_last() =~= roms@.take(i as int));
            assert(roms@.take(i + 1).last() == roms@[i as int]);
        }
        if roms[i].romfile_id == Some(id) {
            r.push(i);
        }
        i += 1;
    }
    assert(roms@.take(i as int) =~= roms@);
    r
}

/// The ROM is a game's CUE sheet.
pub open spec fn is_cue_of(rom: Rom, game_id: i64) -> bool {
    rom.game_id == game_id && has_suffix(rom.name@, CUE_EXTENSION@)
}

/// The CUE sheet a CHD of a game is checked with: the first ROM of the game
/// whose name ends with `cue`.
pub fn cue_rom_position(roms: &Vec<Rom>, game_id: i64) -> (r: Option<usize>)
    ensures
        match r {
            Some(i) => i < roms@.len() && is_cue_of(roms@[i as int], game_id) && forall|j: int|
                0 <= j < i ==> !is_cue_of(#[trigger] roms@[j], game_id),
            None => forall|j: int| 0 <= j < roms@.len() ==> !is_cue_of(#[trigger] roms@[j], game_id),
        },
{
    let mut i: usize = 0;
    while i < roms.len()
        invariant
            i <= roms@.len(),
            forall|j: int| 0 <= j < i ==> !is_cue_of(#[trigger] roms@[j], game_id),
        decreases roms.len() - i,
    {
        if roms[i].game_id == game_id && ends_with(&chars_of(roms[i].name.as_str()), &chars_of(CUE_EXTENSION)) {
            return Some(i);
        }
        i += 1;
    }
    None
}

/// Some ROM is named `name`.
pub open spec fn named_rom(roms: Seq<Rom>, name: Seq<char>) -> bool {
    exists|j: int| 0 <= j < roms.len() && roms[j].name@ == name
}

/// The ROM each file of an archive is checked against: the first ROM with
/// the file's name. Refused when the archive holds another number of files
/// than the ROMs.
pub fn match_archive_entries(names: &Vec<String>, roms: &Vec<Rom>) -> (r: Result<Vec<usize>, CheckRomsError>)
    requires
        names@.len() == roms@.len() ==> forall|i: int| 0 <= i < names@.len() ==> named_rom(roms@, #[trigger] names@[i]@),
    ensures
        names@.len() != roms@.len() ==> r == Err::<Vec<usize>, CheckRomsError>(CheckRomsError::DifferentCount),
        names@.len() == roms@.len() ==> (r matches Ok(v) && v@.len() == names@.len() && forall|i: int|
            0 <= i < v@.len() ==> {
                &&& (#[trigger] v@[i]) < roms@.len()
                &&& roms@[v@[i] as int].name@ == names@[i]@
                &&& forall|j: int| 0 <= j < v@[i] ==> roms@[j].name@ != names@[i]@
            }),
{
    if names.len() != roms.len() {
        return Err(CheckRomsError::DifferentCount);
    }
    let mut v: Vec<usize> = Vec::new();
    let mut i: usize = 0;
    while i < names.len()
        invariant
            i <= names@.len(),
            names@.len() == roms@.len(),
            forall|k: int| 0 <= k < names@.len() ==> named_rom(roms@, #[trigger] names@[k]@),
            v@.len() == i,
            forall|k: int|
                0 <= k < i ==> {
                    &&& (#[trigger] v@[k]) < roms@.len()
                    &&& roms@[v@[k] as int].name@ == names@[k]@
                    &&& forall|j: int| 0 <= j < v@[k] ==> roms@[j].name@ != names@[k]@
                },
        decreases names.len() - i,
    {
        let n = chars_of(names[i].as_str());
        let mut j: usize = 0;
        assert(named_rom(roms@, names@[i as int]@));
        while j < roms.len() && !same(&chars_of(roms[j].name.as_str()), &n)
            invariant
                j <= roms@.len(),
                n@ == names@[i as int]@,
                named_rom(roms@, n@),
                forall|k: int| 0 <= k < j ==> roms@[k].name@ != n@,
            decreases roms.len() - j,
        {
            j += 1;
        }
        if j == roms.len() {
            let ghost w = choose|w: int| 0 <= w < roms@.len() && roms@[w].name@ == n@;
            assert(roms@[w].name@ != n@);
        }
        v.push(j);
        i += 1;
    }
    Ok(v)
}

/// What becomes of a checked file.
#[derive(Clone, Copy, Debug, PartialEq, Eq, Structural)]
pub enum CheckOutcome {
    /// It failed: it goes to the trash.
    Trash,
    /// It passed, and sizes are being recomputed: its size is stored anew.
    UpdateSize,
    /// It passed.
    Keep,
}

/// What becomes of a file whose check `passed`, when sizes are recomputed or not.
pub fn check_outcome(passed: bool, recompute_size: bool) -> (o: CheckOutcome)
    ensures
        o == (if !passed {
            CheckOutcome::Trash
        } else if recompute_size {
            CheckOutcome::UpdateSize
        } else {
            CheckOutcome::Keep
        }),
{
    if !passed {
        CheckOutcome::Trash
    } else if recompute_size {
        CheckOutcome::UpdateSize
    } else {
        CheckOutcome::Keep
    }
}

/// Where a file goes in the trash directory: under its own name.
pub fn trash_path(trash_directory: &str, path: &str) -> (r: String)
    ensures
        r@ == join(trash_directory@, file_name(path@)),
{
    string_of(&join_path(&chars_of(trash_directory), &get_file_name(&chars_of(path))))
}

/// How a system's completion is recomputed once its files are checked.
#[derive(Clone, Copy, Debug, PartialEq, Eq, Structural)]
pub enum CompletionUpdate {
    /// Every file passed: nothing changes.
    Unchanged,
    /// Some failed in an arcade system.
    Arcade,
    /// Some failed in another system.
    Regular,
}

/// How completion is recomputed after `errors` files failed.
pub fn completion_update(errors: usize, arcade: bool) -> (u: CompletionUpdate)
    ensures
        u == (if errors == 0 {
            CompletionUpdate::Unchanged
        } else if arcade {
            CompletionUpdate::Arcade
        } else {
            CompletionUpdate::Regular
        }),
{
    if errors == 0 {
        CompletionUpdate::Unchanged
    } else if arcade {
        CompletionUpdate::Arcade
    } else {
        CompletionUpdate::Regular
    }
}

// === the check run ===

/// Whether a checker needs an outside tool: 7-Zip, `chdman`, `maxcso`,
/// `nsz` or Dolphin; plain files are hashed directly.
pub open spec fn needs_tool(k: CheckKind) -> bool {
    k != CheckKind::Original
}

/// Where a check run stands with the file in hand.
#[derive(Clone, Copy, Debug, PartialEq, Eq, Structural)]
pub enum CheckStage {
    FindingTool,
    Checking,
    /// The outcome of the check is being recorded.
    Recording,
    Done,
}

/// How the last action went.
#[derive(Clone, Copy, Debug, PartialEq, Eq, Structural)]
pub enum CheckEvent {
    /// The answer to [`CheckAction::FindTool`].
    ToolFound(bool),
    /// The file checked passed or not.
    Checked(bool),
    /// The action is done.
    StepDone,
    /// The action failed: the run ends with that error.
    Failed,
}

/// What the caller does next.
#[derive(Clone, Copy, Debug, PartialEq, Eq, Structural)]
pub enum CheckAction {
    /// Find the tool file `i` needs.
    FindTool(usize, CheckKind),
    /// Check file `i` with its checker.
    CheckFile(usize, CheckKind),
    /// Move file `i`, which failed, to the trash (see [`trash_path`]).
    Trash(usize),
    /// Store the size of file `i`, which passed, anew.
    UpdateSize(usize),
    /// Recompute completion as said and commit; `missing_tool` names the
    /// checker whose tool stopped the run early.
    Finish { missing_tool: Option<CheckKind>, completion: CompletionUpdate },
    /// An action failed: the run stops with its error, uncommitted.
    Aborted,
    /// The event does not answer the last action; nothing changes.
    Ignored,
}

/// A check run over the files of a system, each by its checker.
#[derive(Clone, Debug)]
pub struct CheckRun {
    pub kinds: Vec<CheckKind>,
    /// The file in hand.
    pub position: usize,
    pub stage: CheckStage,
    /// How many files failed so far.
    pub errors: usize,
    pub recompute_size: bool,
    pub arcade: bool,
}

impl CheckRun {
    /// The run is consistent: a file in hand while not done, and failures
    /// counted only among the files checked.
    pub open spec fn wf(&self) -> bool {
        &&& self.kinds@.len() <= usize::MAX
        &&& self.position <= self.kinds@.len()
        &&& self.stage != CheckStage::Done ==> self.position < self.kinds@.len()
        &&& self.errors <= self.position + (if self.stage == CheckStage::Recording || self.stage == CheckStage::Done { 1int } else { 0int })
    }
}

/// `s` at file `position`, in `stage`, with `errors`.
pub open spec fn check_at(s: CheckRun, position: int, stage: CheckStage, errors: int) -> CheckRun {
    CheckRun {
        kinds: s.kinds,
        position: position as usize,
        stage,
        errors: errors as usize,
        recompute_size: s.recompute_size,
        arcade: s.arcade,
    }
}

/// File `i` is taken up: its tool is looked for first when it needs one;
/// with no file left, completion is recomputed and the run finishes.
pub open spec fn begin_file(s: CheckRun, i: int) -> (CheckRun, CheckAction) {
    if i >= s.kinds@.len() {
        (
            check_at(s, s.kinds@.len() as int, CheckStage::Done, s.errors as int),
            CheckAction::Finish { missing_tool: None, completion: completion_of(s.errors as int, s.arcade) },
        )
    } else if needs_tool(s.kinds@[i]) {
        (check_at(s, i, CheckStage::FindingTool, s.errors as int), CheckAction::FindTool(i as usize, s.kinds@[i]))
    } else {
        (check_at(s, i, CheckStage::Checking, s.errors as int), CheckAction::CheckFile(i as usize, s.kinds@[i]))
    }
}

/// How completion is recomputed after `errors` failures (see
/// [`completion_update`]).
pub open spec fn completion_of(errors: int, arcade: bool) -> CompletionUpdate {
    if errors == 0 {
        CompletionUpdate::Unchanged
    } else if arcade {
        CompletionUpdate::Arcade
    } else {
        CompletionUpdate::Regular
    }
}

/// The next state and action of a check run on an event: a missing tool
/// stops the run (completion still recomputed); a failed file goes to the
/// trash and counts as an error; a passed one has its size stored anew when
/// sizes are recomputed.
pub open spec fn check_transition(s: CheckRun, e: CheckEvent) -> (CheckRun, CheckAction) {
    let i = s.position as int;
    match s.stage {
        CheckStage::Done => (s, CheckAction::Ignored),
        stage => match e {
            CheckEvent::Failed => (check_at(s, i, CheckStage::Done, s.errors as int), CheckAction::Aborted),
            CheckEvent::ToolFound(found) => match stage {
                CheckStage::FindingTool => if found {
                    (check_at(s, i, CheckStage::Checking, s.errors as int), CheckAction::CheckFile(i as usize, s.kinds@[i]))
                } else {
                    (
                        check_at(s, i, CheckStage::Done, s.errors as int),
                        CheckAction::Finish { missing_tool: Some(s.kinds@[i]), completion: completion_of(s.errors as int, s.arcade) },
                    )
                },
                _ => (s, CheckAction::Ignored),
            },
            CheckEvent::Checked(passed) => match stage {
                CheckStage::Checking => if !passed {
                    (check_at(s, i, CheckStage::Recording, s.errors + 1), CheckAction::Trash(i as usize))
                } else if s.recompute_size {
                    (check_at(s, i, CheckStage::Recording, s.errors as int), CheckAction::UpdateSize(i as usize))
                } else {
                    begin_file(s, i + 1)
                },
                _ => (s, CheckAction::Ignored),
            },
            CheckEvent::StepDone => match stage {
                CheckStage::Recording => begin_file(s, i + 1),
                _ => (s, CheckAction::Ignored),
            },
        },
    }
}

fn check_at_exec(s: CheckRun, position: usize, stage: CheckStage, errors: usize) -> (r: CheckRun)
    ensures
        r == check_at(s, position as int, stage, errors as int),
{
    CheckRun { kinds: s.kinds, position, stage, errors, recompute_size: s.recompute_size, arcade: s.arcade }
}

fn begin_file_exec(s: CheckRun, i: usize) -> (r: (CheckRun, CheckAction))
    requires
        i <= s.kinds@.len(),
        s.errors <= i,
    ensures
        r == begin_file(s, i as int),
        r.0.wf(),
{
    if i >= s.kinds.len() {
        let n = s.kinds.len();
        let completion = completion_update(s.errors, s.arcade);
        let e = s.errors;
        (check_at_exec(s, n, CheckStage::Done, e), CheckAction::Finish { missing_tool: None, completion })
    } else {
        let kind = s.kinds[i];
        let e = s.errors;
        if kind != CheckKind::Original {
            (check_at_exec(s, i, CheckStage::FindingTool, e), CheckAction::FindTool(i, kind))
        } else {
            (check_at_exec(s, i, CheckStage::Checking, e), CheckAction::CheckFile(i, kind))
        }
    }
}

/// Start a check of files of `kinds`, storing sizes anew when
/// `recompute_size`, in an arcade system or not.
pub fn start_check(kinds: Vec<CheckKind>, recompute_size: bool, arcade: bool) -> (r: (CheckRun, CheckAction))
    ensures
        r == begin_file(
            CheckRun { kinds, position: 0, stage: CheckStage::Checking, errors: 0, recompute_size, arcade },
            0,
        ),
        r.0.wf(),
{
    let s = CheckRun { kinds, position: 0, stage: CheckStage::Checking, errors: 0, recompute_size, arcade };
    begin_file_exec(s, 0)
}

/// One step of a check run: the state and action that follow `event`.
pub fn check_next(s: CheckRun, event: CheckEvent) -> (r: (CheckRun, CheckAction))
    requires
        s.wf(),
    ensures
        r == check_transition(s, event),
        r.0.wf(),
{
    let i = s.position;
    let e = s.errors;
    match s.stage {
        CheckStage::Done => (s, CheckAction::Ignored),
        stage => match event {
            CheckEvent::Failed => (check_at_exec(s, i, CheckStage::Done, e), CheckAction::Aborted),
            CheckEvent::ToolFound(found) => match stage {
                CheckStage::FindingTool => {
                    let kind = s.kinds[i];
                    if found {
                        (check_at_exec(s, i, CheckStage::Checking, e), CheckAction::CheckFile(i, kind))
                    } else {
                        let completion = completion_update(e, s.arcade);
                        (
                            check_at_exec(s, i, CheckStage::Done, e),
                            CheckAction::Finish { missing_tool: Some(kind), completion },
                        )
                    }
                },
                _ => (s, CheckAction::Ignored),
            },
            CheckEvent::Checked(passed) => match stage {
                CheckStage::Checking => if !passed {
                    (check_at_exec(s, i, CheckStage::Recording, e + 1), CheckAction::Trash(i))
                } else if s.recompute_size {
                    (check_at_exec(s, i, CheckStage::Recording, e), CheckAction::UpdateSize(i))
                } else {
                    begin_file_exec(s, i + 1)
                },
                _ => (s, CheckAction::Ignored),
            },
            CheckEvent::StepDone => match stage {
                CheckStage::Recording => begin_file_exec(s, i + 1),
                _ => (s, CheckAction::Ignored),
            },
        },
    }
}

/// A failed file is moved to the trash and counted, and a run whose files
/// all passed leaves completion unchanged.
pub proof fn lemma_failed_file_is_trashed(s: CheckRun)
    requires
        s.wf(),
        s.stage == CheckStage::Checking,
    ensures
        check_transition(s, CheckEvent::Checked(false)).1 == CheckAction::Trash(s.position),
        check_transition(s, CheckEvent::Checked(false)).0.errors == s.errors + 1,
        s.errors == 0 && s.position + 1 == s.kinds@.len() && !s.recompute_size ==> check_transition(
            s,
            CheckEvent::Checked(true),
        ).1 == (CheckAction::Finish { missing_tool: None, completion: CompletionUpdate::Unchanged }),
{
}

} // verus!
