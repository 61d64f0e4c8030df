use oxyromon::common::{
    compute_alpha_subfolder, partition_games_by_all_extensions, partition_games_by_extensions, playlist_directory,
    romfile_as_common, sorted_directory, CommonRomfile, RomfileError, SortedDirectory,
};
use oxyromon::config::SubfolderScheme;
use oxyromon::model::{Game, Rom, Romfile, System};

fn system(arcade: bool, custom_extension: Option<&str>) -> System {
    System {
        id: 1,
        name: String::from("Test System"),
        custom_name: None,
        description: String::new(),
        version: String::new(),
        url: Some(String::new()),
        arcade,
        merging: 0,
        completion: 0,
        custom_extension: custom_extension.map(String::from),
    }
}

fn game(name: &str, sorting: i64, jbfolder: bool) -> Game {
    Game {
        id: 1,
        name: String::from(name),
        description: String::new(),
        comment: None,
        external_id: None,
        device: false,
        bios: false,
        jbfolder,
        regions: String::new(),
        sorting,
        completion: 0,
        system_id: 1,
        parent_id: None,
        bios_id: None,
        playlist_id: None,
    }
}

fn rom(id: i64, name: &str, game_id: i64, romfile_id: i64) -> Rom {
    Rom {
        id,
        name: String::from(name),
        bios: false,
        disk: false,
        size: 1,
        crc: Some(String::new()),
        md5: Some(String::new()),
        sha1: Some(String::new()),
        game_id,
        romfile_id: Some(romfile_id),
        parent_id: None,
        original: true,
    }
}

fn romfile(id: i64, path: &str, parent_id: Option<i64>) -> Romfile {
    Romfile { id, path: String::from(path), size: 0, parent_id, romfile_type: 0 }
}

#[test]
fn test_path_playlist_test() {
    let rom_directory = "/tmp/roms";
    let system = system(false, None);
    let game = game("game name", 0, false);
    assert_eq!(playlist_directory(game.sorting), SortedDirectory::System);
    let directory = format!("{}/{}", rom_directory, system.name);
    let path = game.get_playlist_path(&directory, SubfolderScheme::Flat).unwrap();
    assert_eq!(path, format!("{}/Test System/game name.m3u", rom_directory));
}

#[test]
fn test_path_subfolder_alpha_letter_test() {
    let rom_directory = "/tmp/roms";
    let system = system(false, None);
    let game = game("game name", 0, false);
    let rom = rom(1, "rom name.rom", 1, 1);
    let romfile = romfile(1, "romfile.rom", None);
    let common = romfile_as_common(&romfile, rom_directory);
    assert_eq!(sorted_directory(game.sorting), SortedDirectory::System);
    let directory = format!("{}/{}", rom_directory, system.name);
    let path = common.get_sorted_path(&directory, &system, &game, &rom, SubfolderScheme::Alpha, None);
    assert_eq!(path, format!("{}/Test System/G/rom name.rom", rom_directory));
}

#[test]
fn a_playlist_loses_the_disc_mark() {
    let game = game("Test Game (USA, Europe) (Disc 2)", 0, false);
    let path = game.get_playlist_path("/roms/Sys", SubfolderScheme::Flat).unwrap();
    assert_eq!(path, "/roms/Sys/Test Game (USA, Europe).m3u");
    let path = game.get_playlist_path("/roms/Sys", SubfolderScheme::Alpha).unwrap();
    assert_eq!(path, "/roms/Sys/T/Test Game (USA, Europe).m3u");
}

#[test]
fn names_that_do_not_start_with_a_letter_go_under_hash() {
    assert_eq!(compute_alpha_subfolder("1942"), "#");
    assert_eq!(compute_alpha_subfolder("zelda"), "Z");
    assert_eq!(compute_alpha_subfolder(""), "#");
}

#[test]
fn sorted_paths_of_other_formats_take_the_game_name() {
    let system = system(false, None);
    let game = game("Game (USA)", 0, false);
    let rom = rom(1, "Game (USA).iso", 1, 1);
    let chd = CommonRomfile::from_path("/in/whatever.chd");
    assert_eq!(chd.get_sorted_path("/roms/Sys", &system, &game, &rom, SubfolderScheme::Flat, None), "/roms/Sys/Game (USA).chd");
    let iso = CommonRomfile::from_path("/in/whatever.iso");
    assert_eq!(iso.get_sorted_path("/roms/Sys", &system, &game, &rom, SubfolderScheme::Flat, None), "/roms/Sys/Game (USA).iso");
    assert_eq!(
        iso.get_sorted_path("/roms/Sys", &system, &game, &rom, SubfolderScheme::Flat, Some("rvz")),
        "/roms/Sys/Game (USA).rvz"
    );
}

#[test]
fn sorted_paths_with_a_custom_extension() {
    let system = system(false, Some("bin"));
    let game = game("Game", 0, false);
    let rom = rom(1, "track.raw", 1, 1);
    let f = CommonRomfile::from_path("/in/track.raw");
    assert_eq!(f.get_sorted_path("/roms/Sys", &system, &game, &rom, SubfolderScheme::Flat, None), "/roms/Sys/Game.bin");
}

#[test]
fn arcade_files_go_in_a_folder_unless_archived() {
    let system = system(true, None);
    let game = game("pacman", 0, false);
    let disk = rom(2, "disk", 1, 2);
    let rom = rom(1, "pacman.6e", 1, 1);
    let f = CommonRomfile::from_path("/in/pacman.6e");
    assert_eq!(f.get_sorted_path("/roms/Arc", &system, &game, &rom, SubfolderScheme::Flat, None), "/roms/Arc/pacman/pacman.6e");
    let z = CommonRomfile::from_path("/in/pacman.zip");
    assert_eq!(z.get_sorted_path("/roms/Arc", &system, &game, &rom, SubfolderScheme::Flat, None), "/roms/Arc/pacman.zip");
    let chd = CommonRomfile::from_path("/in/disk.chd");
    assert_eq!(chd.get_sorted_path("/roms/Arc", &system, &game, &disk, SubfolderScheme::Flat, None), "/roms/Arc/pacman/disk.chd");
}

#[test]
fn games_kept_in_folders_get_one() {
    let system = system(false, None);
    let game = game("Game", 2, true);
    assert_eq!(sorted_directory(game.sorting), SortedDirectory::Trash);
    let rom = rom(1, "file.pkg", 1, 1);
    let f = CommonRomfile::from_path("/in/file.pkg");
    assert_eq!(f.get_sorted_path("/trash", &system, &game, &rom, SubfolderScheme::Flat, None), "/trash/Game/file.pkg");
}

#[test]
fn images_are_recognised_by_extension() {
    assert!(CommonRomfile::from_path("/a/b.ISO").as_iso().is_ok());
    assert!(matches!(CommonRomfile::from_path("/a/b.bin").as_iso(), Err(RomfileError::NotIso)));
    let cue = CommonRomfile::from_path("/a/b.cue");
    let bins = vec![CommonRomfile::from_path("/a/b (Track 1).bin"), CommonRomfile::from_path("/a/b (Track 2).BIN")];
    let cue_bin = cue.as_cue_bin(bins).unwrap();
    assert_eq!(cue_bin.bin_romfiles.len(), 2);
    let bad = vec![CommonRomfile::from_path("/a/b.iso")];
    assert!(matches!(CommonRomfile::from_path("/a/b.cue").as_cue_bin(bad), Err(RomfileError::NotBin)));
    assert!(matches!(CommonRomfile::from_path("/a/b.txt").as_cue_bin(Vec::new()), Err(RomfileError::NotCue)));
    assert!(CommonRomfile::from_path("/a/b.rvz").as_rvz().is_ok());
    assert!(matches!(CommonRomfile::from_path("/a/b.iso").as_rvz(), Err(RomfileError::NotRvz)));
}

#[test]
fn relative_paths_and_copies() {
    let f = CommonRomfile::from_path("/roms/Sys/game.rom").with_system(Some(3));
    assert_eq!(f.system_id, Some(3));
    assert_eq!(f.relative_path("/roms").unwrap(), "Sys/game.rom");
    assert_eq!(f.relative_path("/roms/").unwrap(), "Sys/game.rom");
    assert!(matches!(f.relative_path("/rom"), Err(RomfileError::OutsideDirectory)));
    assert_eq!(f.copy_target("/tmp/x"), "/tmp/x/game.rom");
}

#[test]
fn games_are_split_by_the_files_that_hold_them() {
    let romfiles = vec![
        romfile(1, "/r/a.cue", None),
        romfile(2, "/r/a.bin", None),
        romfile(3, "/r/b.iso", None),
        romfile(4, "/r/c.cue", None),
    ];
    let games = vec![
        (1, vec![rom(1, "a.cue", 1, 1), rom(2, "a.bin", 1, 2)]),
        (2, vec![rom(3, "b.iso", 2, 3)]),
        (3, vec![rom(4, "c.cue", 3, 4)]),
    ];
    let (cue, rest) = partition_games_by_extensions(games, &romfiles, &["cue"]);
    assert_eq!(cue.iter().map(|g| g.0).collect::<Vec<i64>>(), vec![1, 3]);
    assert_eq!(rest.iter().map(|g| g.0).collect::<Vec<i64>>(), vec![2]);
    let (both, others) = partition_games_by_all_extensions(cue, &romfiles, &["cue", "bin"]);
    assert_eq!(both.iter().map(|g| g.0).collect::<Vec<i64>>(), vec![1]);
    assert_eq!(others.iter().map(|g| g.0).collect::<Vec<i64>>(), vec![3]);
}

#[test]
fn a_relative_path_leads_back_to_the_file() {
    let f = CommonRomfile::from_path("/roms/Sys/game.rom");
    let relative = f.relative_path("/roms").unwrap();
    let back = romfile_as_common(&romfile(1, &relative, None), "/roms");
    assert_eq!(back.path, f.path);
}

#[test]
fn a_split_keeps_every_game_once() {
    let romfiles = vec![romfile(1, "/r/a.zip", None), romfile(2, "/r/b.rom", None), romfile(3, "/r/c.7z", None)];
    let games = vec![(1, vec![rom(1, "a", 1, 1)]), (2, vec![rom(2, "b", 2, 2)]), (3, vec![rom(3, "c", 3, 3)])];
    let (archives, others) = partition_games_by_extensions(games, &romfiles, &["7z", "zip"]);
    assert_eq!(archives.len() + others.len(), 3);
    assert_eq!(archives.iter().map(|g| g.0).collect::<Vec<i64>>(), vec![1, 3]);
}
