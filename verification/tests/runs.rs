use oxyromon::archive::ArchiveType;
use oxyromon::check_roms::{check_next, start_check, CheckAction, CheckEvent, CheckKind, CompletionUpdate};
use oxyromon::common::romfiles_consistent;
use oxyromon::convert_roms::{route_to_archive, route_to_rvz};
use oxyromon::convert_run::{
    archive_run, conversion_next, rvz_run, start_run, ConversionAction, ConversionEvent, ConversionJob,
    ConversionRun, Revert, Route,
};
use oxyromon::model::{Rom, Romfile};

fn rom(id: i64, name: &str, game_id: i64, romfile_id: i64) -> Rom {
    Rom {
        id,
        name: String::from(name),
        bios: false,
        disk: false,
        size: 1,
        crc: None,
        md5: None,
        sha1: None,
        game_id,
        romfile_id: Some(romfile_id),
        parent_id: None,
        original: true,
    }
}

fn romfile(id: i64, path: &str) -> Romfile {
    Romfile { id, path: String::from(path), size: 0, parent_id: None, romfile_type: 0 }
}

fn job(outputs: usize, check_all: bool, commit_after_failure: bool) -> ConversionJob {
    ConversionJob {
        route: Route::Isos,
        game: 0,
        guarded: false,
        decode: false,
        outputs,
        check_all,
        revert: Revert::DeleteFirst,
        commit_after_failure,
        rename_to_source: false,
    }
}

/// Feed `events` to a run and collect the actions it answers with.
fn drive(start: (ConversionRun, ConversionAction), events: &[ConversionEvent]) -> Vec<ConversionAction> {
    let (mut run, first) = start;
    let mut actions = vec![first];
    for event in events {
        let (next, action) = conversion_next(run, *event);
        run = next;
        actions.push(action);
    }
    actions
}

#[test]
fn a_checked_conversion_is_recorded_then_committed() {
    let actions = drive(
        start_run(vec![job(1, false, false)], true, true),
        &[ConversionEvent::StepDone, ConversionEvent::Checked(true), ConversionEvent::StepDone, ConversionEvent::StepDone],
    );
    assert_eq!(
        actions,
        vec![
            ConversionAction::Create(0),
            ConversionAction::CheckOutput(0, 0),
            ConversionAction::Persist { job: 0, diff: true, rename_to_source: false },
            ConversionAction::Commit(0),
            ConversionAction::Finished,
        ]
    );
}

#[test]
fn a_failed_check_reverts_and_leaves_the_source() {
    let actions = drive(
        start_run(vec![job(1, false, false)], true, false),
        &[ConversionEvent::StepDone, ConversionEvent::Checked(false), ConversionEvent::StepDone, ConversionEvent::StepDone],
    );
    assert_eq!(
        actions,
        vec![
            ConversionAction::Create(0),
            ConversionAction::CheckOutput(0, 0),
            ConversionAction::Revert(0, Revert::DeleteFirst),
            ConversionAction::Rollback(0),
            ConversionAction::Finished,
        ]
    );
    // A recompression keeps the game's transaction after a failed check.
    let kept = drive(
        start_run(vec![job(1, false, true)], true, false),
        &[ConversionEvent::StepDone, ConversionEvent::Checked(false), ConversionEvent::StepDone],
    );
    assert_eq!(kept[3], ConversionAction::Commit(0));
}

#[test]
fn checking_every_output_drops_each_failed_one() {
    let actions = drive(
        start_run(vec![job(2, true, false)], true, false),
        &[ConversionEvent::StepDone, ConversionEvent::Checked(false), ConversionEvent::StepDone, ConversionEvent::Checked(true)],
    );
    assert_eq!(
        actions,
        vec![
            ConversionAction::Create(0),
            ConversionAction::CheckOutput(0, 0),
            ConversionAction::DeleteOutput(0, 0),
            ConversionAction::CheckOutput(0, 1),
            ConversionAction::Rollback(0),
        ]
    );
}

#[test]
fn inspection_skips_or_stops_and_failures_abort() {
    let mut guarded = job(1, false, false);
    guarded.guarded = true;
    guarded.decode = true;
    let skip = ConversionEvent::Inspected { tool_missing: false, has_children: true, needs_newer_chdman: false };
    let go = ConversionEvent::Inspected { tool_missing: false, has_children: false, needs_newer_chdman: false };
    let stop = ConversionEvent::Inspected { tool_missing: true, has_children: false, needs_newer_chdman: false };
    let actions = drive(
        start_run(vec![guarded, guarded], false, false),
        &[skip, ConversionEvent::StepDone, go, ConversionEvent::StepDone, ConversionEvent::StepDone],
    );
    assert_eq!(
        actions,
        vec![
            ConversionAction::Inspect(0),
            ConversionAction::Rollback(0),
            ConversionAction::Inspect(1),
            ConversionAction::Decode(1),
            ConversionAction::Create(1),
            ConversionAction::Persist { job: 1, diff: false, rename_to_source: false },
        ]
    );
    assert_eq!(drive(start_run(vec![guarded], false, false), &[stop])[1], ConversionAction::Stopped);
    let failed = drive(start_run(vec![job(1, false, false)], false, false), &[ConversionEvent::Failed, ConversionEvent::StepDone]);
    assert_eq!(failed[1..].to_vec(), vec![ConversionAction::Aborted, ConversionAction::Ignored]);
    assert_eq!(start_run(Vec::new(), true, true).1, ConversionAction::Finished);
}

#[test]
fn an_archive_run_takes_the_routed_games_in_order() {
    let romfiles = vec![romfile(1, "/r/a.cso"), romfile(2, "/r/b.zip"), romfile(3, "/r/c.7z"), romfile(4, "/r/d.rom")];
    let games = vec![
        (1, vec![rom(1, "a", 1, 1)]),
        (2, vec![rom(2, "b", 2, 2)]),
        (3, vec![rom(3, "c", 3, 3)]),
        (4, vec![rom(4, "d", 4, 4)]),
    ];
    assert!(romfiles_consistent(&games, &romfiles));
    let routes = route_to_archive(games, &romfiles);
    let (run, first) = archive_run(&routes, &romfiles, ArchiveType::Zip, false, false, true, false);
    let shapes: Vec<(Route, usize, bool, Revert)> =
        run.jobs.iter().map(|j| (j.route, j.outputs, j.rename_to_source, j.revert)).collect();
    assert_eq!(
        shapes,
        vec![
            (Route::Csos, 1, false, Revert::DeleteFirst),
            (Route::Archives, 0, true, Revert::Keep),
            (Route::Archives, 1, false, Revert::DeleteFirst),
            (Route::Others, 1, false, Revert::DeleteFirst),
        ]
    );
    assert!(run.jobs[0].decode);
    assert_eq!(first, ConversionAction::Decode(0));
    assert!(!romfiles_consistent(&vec![(9, vec![rom(9, "x", 9, 99)])], &romfiles));
}

#[test]
fn an_rvz_run_recompresses_only_when_asked() {
    let romfiles = vec![romfile(1, "/r/a.iso"), romfile(2, "/r/b.rvz")];
    let games = vec![(1, vec![rom(1, "a.iso", 1, 1)]), (2, vec![rom(2, "b.iso", 2, 2)])];
    let routes = route_to_rvz(games.clone(), &romfiles);
    let (plain, _) = rvz_run(&routes, false, true, false);
    assert_eq!(plain.jobs.len(), 1);
    let (again, _) = rvz_run(&route_to_rvz(games, &romfiles), true, true, false);
    assert_eq!(again.jobs.len(), 2);
    assert!(again.jobs[1].rename_to_source && again.jobs[1].commit_after_failure);
}

#[test]
fn a_check_run_trashes_failed_files_and_updates_completion() {
    let (run, first) = start_check(vec![CheckKind::Original, CheckKind::Archive], true, false);
    assert_eq!(first, CheckAction::CheckFile(0, CheckKind::Original));
    let (run, a) = check_next(run, CheckEvent::Checked(true));
    assert_eq!(a, CheckAction::UpdateSize(0));
    let (run, a) = check_next(run, CheckEvent::StepDone);
    assert_eq!(a, CheckAction::FindTool(1, CheckKind::Archive));
    let (run, a) = check_next(run, CheckEvent::ToolFound(true));
    assert_eq!(a, CheckAction::CheckFile(1, CheckKind::Archive));
    let (run, a) = check_next(run, CheckEvent::Checked(false));
    assert_eq!(a, CheckAction::Trash(1));
    let (_, a) = check_next(run, CheckEvent::StepDone);
    assert_eq!(a, CheckAction::Finish { missing_tool: None, completion: CompletionUpdate::Regular });
    let (run, _) = start_check(vec![CheckKind::Chd], false, true);
    let (_, a) = check_next(run, CheckEvent::ToolFound(false));
    assert_eq!(a, CheckAction::Finish { missing_tool: Some(CheckKind::Chd), completion: CompletionUpdate::Unchanged });
}
