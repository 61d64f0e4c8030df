use oxyromon::archive::ArchiveType;
use oxyromon::check_roms::{
    check_kind, check_outcome, completion_update, cue_rom_position, hash_algorithm_setting, match_archive_entries,
    roms_of_romfile, trash_path, CheckKind, CheckOutcome, CheckRomsError, CompletionUpdate,
};
use oxyromon::config::HashAlgorithm;
use oxyromon::convert_roms::{
    archive_action, archive_destination, children_first, chd_source, group_roms_by_game, is_arcade_chd,
    needs_newer_chdman_for_split, pack_plan, parent_directory, parent_source, persist_plan, required_tool,
    route_to_archive, route_to_chd, route_to_original, route_to_rvz, split_cue_bin, system_verdict, unarchived_roms,
    xso_archive_eligible, ArchiveAction, ChdSource, ConvertError, PackPlan, ParentSource, PersistStep, SystemVerdict,
    Tool, XsoType,
};
use oxyromon::create_dats::{dat_game, dat_header, DOCTYPE};
use oxyromon::model::{Rom, Romfile};

fn rom(id: i64, name: &str, game_id: i64, romfile_id: i64) -> Rom {
    Rom {
        id,
        name: String::from(name),
        bios: false,
        disk: false,
        size: 1,
        crc: None,
        md5: None,
        sha1: None,
        game_id,
        romfile_id: Some(romfile_id),
        parent_id: None,
        original: true,
    }
}

fn romfile(id: i64, path: &str, parent_id: Option<i64>) -> Romfile {
    Romfile { id, path: String::from(path), size: 0, parent_id, romfile_type: 0 }
}

fn ids(v: &[(i64, Vec<Rom>)]) -> Vec<i64> {
    v.iter().map(|g| g.0).collect()
}

#[test]
fn roms_are_grouped_by_game_in_order_of_first_appearance() {
    let roms = vec![rom(1, "a", 7, 1), rom(2, "b", 3, 2), rom(3, "c", 7, 3), rom(4, "d", 5, 4)];
    let groups = group_roms_by_game(roms);
    assert_eq!(ids(&groups), vec![7, 3, 5]);
    assert_eq!(groups[0].1.iter().map(|r| r.id).collect::<Vec<i64>>(), vec![1, 3]);
    assert_eq!(groups[1].1.len(), 1);
}

#[test]
fn conversion_to_an_archive_routes_each_kind() {
    let romfiles = vec![
        romfile(1, "/r/a.chd", None),
        romfile(2, "/r/b.chd", Some(1)),
        romfile(3, "/r/c.cso", None),
        romfile(4, "/r/d.zip", None),
        romfile(5, "/r/e.rom", None),
        romfile(6, "/r/f.rvz", None),
    ];
    let games = vec![
        (1, vec![rom(1, "a", 1, 1)]),
        (2, vec![rom(2, "b", 2, 2)]),
        (3, vec![rom(3, "c", 3, 3)]),
        (4, vec![rom(4, "d", 4, 4)]),
        (5, vec![rom(5, "e", 5, 5)]),
        (6, vec![rom(6, "f", 6, 6)]),
    ];
    let routes = route_to_archive(games, &romfiles);
    assert_eq!(ids(&routes.chds), vec![2, 1]);
    assert_eq!(ids(&routes.csos), vec![3]);
    assert_eq!(ids(&routes.nszs), Vec::<i64>::new());
    assert_eq!(ids(&routes.rvzs), vec![6]);
    assert_eq!(ids(&routes.zsos), Vec::<i64>::new());
    assert_eq!(ids(&routes.archives), vec![4]);
    assert_eq!(ids(&routes.others), vec![5]);
}

#[test]
fn conversion_to_chd_takes_cue_bin_pairs_only_whole() {
    let romfiles = vec![
        romfile(1, "/r/a.cue", None),
        romfile(2, "/r/a.bin", None),
        romfile(3, "/r/b.cue", None),
        romfile(4, "/r/c.iso", None),
        romfile(5, "/r/d.7z", None),
    ];
    let games = vec![
        (1, vec![rom(1, "a.cue", 1, 1), rom(2, "a.bin", 1, 2)]),
        (2, vec![rom(3, "b.cue", 2, 3)]),
        (3, vec![rom(4, "c.iso", 3, 4)]),
        (4, vec![rom(5, "d.iso", 4, 5)]),
    ];
    let routes = route_to_chd(games, &romfiles);
    assert_eq!(ids(&routes.archives), vec![4]);
    assert_eq!(ids(&routes.cue_bins), vec![1]);
    assert_eq!(ids(&routes.isos), vec![3]);
    assert_eq!(ids(&routes.others), vec![2]);
}

#[test]
fn other_conversions_route_their_sources() {
    let romfiles = vec![romfile(1, "/r/a.iso", None), romfile(2, "/r/b.rvz", None), romfile(3, "/r/c.zso", None)];
    let games = vec![(1, vec![rom(1, "a", 1, 1)]), (2, vec![rom(2, "b", 2, 2)]), (3, vec![rom(3, "c", 3, 3)])];
    let rvz = route_to_rvz(games, &romfiles);
    assert_eq!(ids(&rvz.isos), vec![1]);
    assert_eq!(ids(&rvz.rvzs), vec![2]);
    let games = vec![(1, vec![rom(1, "a", 1, 1)]), (2, vec![rom(2, "b", 2, 2)]), (3, vec![rom(3, "c", 3, 3)])];
    let original = route_to_original(games, &romfiles);
    assert_eq!(ids(&original.rvzs), vec![2]);
    assert_eq!(ids(&original.zsos), vec![3]);
    let games = vec![(1, vec![rom(1, "a", 1, 1)]), (3, vec![rom(3, "c", 3, 3)])];
    let xso = oxyromon::convert_roms::route_to_xso(games, &romfiles, XsoType::Cso);
    assert_eq!(ids(&xso.isos), vec![1]);
    assert_eq!(ids(&xso.same), Vec::<i64>::new());
    assert_eq!(ids(&xso.opposite), vec![3]);
    assert_eq!(XsoType::Cso.opposite(), XsoType::Zso);
    assert_eq!(XsoType::Zso.extension(), "zso");
}

#[test]
fn children_are_converted_before_parents() {
    let romfiles = vec![romfile(1, "/p.chd", None), romfile(2, "/c.chd", Some(1)), romfile(3, "/q.chd", None)];
    let games = vec![(1, vec![rom(1, "p", 1, 1)]), (2, vec![rom(2, "c", 2, 2)]), (3, vec![rom(3, "q", 3, 3)])];
    assert_eq!(ids(&children_first(games, &romfiles)), vec![2, 1, 3]);
}

#[test]
fn systems_a_conversion_skips() {
    assert_eq!(system_verdict("CHD", "Sega - Dreamcast", false, "0.263"), SystemVerdict::NeedsNewerChdman);
    assert_eq!(system_verdict("CHD", "Sega - Dreamcast", false, "0.264"), SystemVerdict::Convert);
    assert_eq!(system_verdict("7Z", "MAME", true, "0.1"), SystemVerdict::ArcadeUnsupported);
    assert_eq!(system_verdict("ZIP", "MAME", true, "0.1"), SystemVerdict::Convert);
    assert_eq!(required_tool("ZSO"), Ok(Some(Tool::Maxcso)));
    assert_eq!(required_tool("ORIGINAL"), Ok(None));
    assert_eq!(required_tool("RAR"), Err(ConvertError::UnsupportedFormat));
}

#[test]
fn decisions_for_one_game() {
    let mut disk = rom(1, "disk", 1, 1);
    disk.disk = true;
    assert!(is_arcade_chd(&vec![rom(2, "x", 1, 2), disk]));
    assert!(!is_arcade_chd(&vec![rom(2, "x", 1, 2)]));
    let (cues, bins) = split_cue_bin(&vec![rom(1, "a.bin", 1, 1), rom(2, "a.cue", 1, 2), rom(3, "b.bin", 1, 3)]);
    assert_eq!(cues, vec![1]);
    assert_eq!(bins, vec![0, 2]);
    assert!(needs_newer_chdman_for_split(2, "0.264"));
    assert!(!needs_newer_chdman_for_split(1, "0.264"));
    assert_eq!(archive_action(ArchiveType::Zip, ArchiveType::Sevenzip, false), ArchiveAction::Convert);
    assert_eq!(archive_action(ArchiveType::Zip, ArchiveType::Zip, true), ArchiveAction::Recompress);
    assert_eq!(archive_action(ArchiveType::Zip, ArchiveType::Zip, false), ArchiveAction::Nothing);
    assert_eq!(pack_plan(1, false), PackPlan::Single);
    assert_eq!(pack_plan(1, true), PackPlan::Multiple);
    assert!(xso_archive_eligible(&vec![rom(1, "Game.iso", 1, 1)]));
    assert!(!xso_archive_eligible(&vec![rom(1, "Game.bin", 1, 1)]));
    assert_eq!(parent_source(true, false), ParentSource::Prompt);
    assert_eq!(parent_source(false, true), ParentSource::Database);
    assert_eq!(parent_source(false, false), ParentSource::NoParent);
    assert_eq!(chd_source("rdsk"), Some(ChdSource::Rdsk));
    assert_eq!(chd_source("ISO"), None);
}

#[test]
fn files_already_archived_are_not_packed_again() {
    let romfiles = vec![romfile(1, "/r/Game.zip", None), romfile(2, "/r/extra.rom", None)];
    let roms = vec![rom(1, "a", 1, 1), rom(2, "b", 1, 2)];
    assert_eq!(unarchived_roms(&roms, &romfiles, ArchiveType::Zip), vec![1]);
    assert_eq!(unarchived_roms(&roms, &romfiles, ArchiveType::Sevenzip), vec![0, 1]);
}

#[test]
fn archives_of_arcade_games_go_above_their_folder() {
    assert_eq!(archive_destination("/roms/MAME/pacman", true), "/roms/MAME");
    assert_eq!(archive_destination("/roms/MAME/pacman", false), "/roms/MAME/pacman");
    assert_eq!(parent_directory("/game"), "/");
    assert_eq!(parent_directory("game"), "");
}

#[test]
fn persisting_a_conversion() {
    assert_eq!(persist_plan(false, true, true), vec![PersistStep::DeleteTarget]);
    assert_eq!(
        persist_plan(true, true, false),
        vec![PersistStep::PrintDiff, PersistStep::UpdateRecord, PersistStep::DeleteSource]
    );
    assert_eq!(
        persist_plan(true, false, true),
        vec![PersistStep::DeleteSource, PersistStep::RenameTargetToSource, PersistStep::UpdateRecord]
    );
}

#[test]
fn checking_files() {
    assert_eq!(hash_algorithm_setting(Some("md5")), Ok(HashAlgorithm::Md5));
    assert_eq!(hash_algorithm_setting(Some("MD5")), Err(CheckRomsError::UnknownHashAlgorithm));
    assert_eq!(hash_algorithm_setting(None), Err(CheckRomsError::UnknownHashAlgorithm));
    assert_eq!(check_kind("7z"), CheckKind::Archive);
    assert_eq!(check_kind("chd"), CheckKind::Chd);
    assert_eq!(check_kind("CHD"), CheckKind::Original);
    assert_eq!(check_kind("zso"), CheckKind::Zso);
    let roms = vec![rom(1, "a.bin", 1, 5), rom(2, "a.cue", 1, 6), rom(3, "b.bin", 2, 5)];
    assert_eq!(roms_of_romfile(&roms, 5), vec![0, 2]);
    assert_eq!(cue_rom_position(&roms, 1), Some(1));
    assert_eq!(cue_rom_position(&roms, 2), None);
    let names = vec![String::from("a.cue"), String::from("a.bin")];
    let two = vec![rom(1, "a.bin", 1, 5), rom(2, "a.cue", 1, 5)];
    assert_eq!(match_archive_entries(&names, &two), Ok(vec![1, 0]));
    assert_eq!(match_archive_entries(&names[..1].to_vec(), &two), Err(CheckRomsError::DifferentCount));
    assert_eq!(check_outcome(false, true), CheckOutcome::Trash);
    assert_eq!(check_outcome(true, true), CheckOutcome::UpdateSize);
    assert_eq!(check_outcome(true, false), CheckOutcome::Keep);
    assert_eq!(trash_path("/roms/Trash", "/roms/Sys/game.rom"), "/roms/Trash/game.rom");
    assert_eq!(completion_update(0, true), CompletionUpdate::Unchanged);
    assert_eq!(completion_update(2, true), CompletionUpdate::Arcade);
    assert_eq!(completion_update(2, false), CompletionUpdate::Regular);
}

#[test]
fn dat_files_from_a_directory() {
    let header = dat_header("/home/me/Test System", None, None, None, None, None, "20240101");
    assert_eq!(header.name, "Test System");
    assert_eq!(header.version, "20240101");
    assert_eq!(header.date, "20240101");
    assert_eq!(header.description, "");
    assert!(header.url.is_none());
    let header = dat_header("/x/y", Some("DAT"), Some("d"), Some("42"), Some("me"), Some("http://x"), "20240101");
    assert_eq!(header.name, "DAT");
    assert_eq!(header.version, "42");
    assert_eq!(header.url.as_deref(), Some("http://x"));
    let game = dat_game("/x/Test Game (USA, Europe).rom", 256, "cbf43926", "m", "s");
    assert_eq!(game.name, "Test Game (USA, Europe)");
    assert_eq!(game.roms[0].name, "Test Game (USA, Europe).rom");
    assert_eq!(game.roms[0].size, 256);
    assert_eq!(game.roms[0].crc.as_deref(), Some("cbf43926"));
    assert!(DOCTYPE[0].starts_with("<?xml"));
}

use oxyromon::model::Sorting;

#[test]
fn conversion_to_nsz_takes_nsps_and_nszs() {
    let romfiles = vec![romfile(1, "/r/a.nsp", None), romfile(2, "/r/b.nsz", None), romfile(3, "/r/c.zip", None)];
    let games = vec![(1, vec![rom(1, "a", 1, 1)]), (2, vec![rom(2, "b", 2, 2)]), (3, vec![rom(3, "c", 3, 3)])];
    let routes = oxyromon::convert_roms::route_to_nsz(games, &romfiles);
    assert_eq!(ids(&routes.archives), vec![3]);
    assert_eq!(ids(&routes.nsps), vec![1]);
    assert_eq!(ids(&routes.nszs), vec![2]);
}

#[test]
fn sortings_are_stored_as_numbers() {
    assert_eq!(Sorting::OneRegion.as_i64(), 1);
    assert_eq!(Sorting::from_i64(2), Some(Sorting::Ignored));
    assert_eq!(Sorting::from_i64(3), None);
}

use oxyromon::convert_roms::{entry_for_rom, extraction_directory, single_file};

#[test]
fn a_game_must_lie_in_a_single_archive() {
    assert_eq!(single_file(&vec![4, 4, 4]), Ok(4));
    assert_eq!(single_file(&vec![4, 5]), Err(ConvertError::MultipleFiles));
}

#[test]
fn archives_are_extracted_beside_them_or_in_a_folder_for_arcade() {
    assert_eq!(extraction_directory("/roms/Sys/Game.zip", false), "/roms/Sys");
    assert_eq!(extraction_directory("/roms/MAME/pacman.zip", true), "/roms/MAME/pacman");
}

#[test]
fn each_rom_is_taken_from_the_file_of_its_name() {
    let paths = vec![String::from("b.rom"), String::from("a.rom"), String::from("a.rom")];
    assert_eq!(entry_for_rom(&paths, "a.rom"), 1);
}

#[test]
fn parents_skip_trailing_separators() {
    assert_eq!(parent_directory("/roms/game/"), "/roms");
    assert_eq!(parent_directory("/roms//game"), "/roms");
    assert_eq!(parent_directory("/roms/./game/."), "/roms");
    assert_eq!(parent_directory("./game"), ".");
}

use oxyromon::create_dats::{dat_file_name, dat_path};

#[test]
fn a_dat_is_named_after_its_system_and_version() {
    assert_eq!(dat_file_name("Test System", "42"), "Test System (42).dat");
    let header = dat_header("/tmp/Test System", None, None, Some("42"), None, None, "20240101");
    assert_eq!(dat_path("/tmp/DAT", &header), "/tmp/DAT/Test System (42).dat");
    let dated = dat_header("/tmp/Test System/", None, None, None, None, None, "20240101");
    assert_eq!(dated.name, "Test System");
    assert_eq!(dat_path("/tmp/DAT/", &dated), "/tmp/DAT/Test System (20240101).dat");
}
