use oxyromon::frontend::{
    dialog_width, filter_games, game_color, prepend_notification, rom_color, romfiles_of, row_class, split_list,
    system_color, Game, GameFilter, Local, Notification, NotificationKind, Rom, Romfile, Setting, System,
};

fn game(name: &str, completion: i64, sorting: i64) -> Game {
    Game {
        id: 1,
        name: String::from(name),
        description: None,
        completion,
        sorting,
        name_lower: String::new(),
    }
    .with_name_lower()
}

fn rom(id: i64, romfile: Option<(i64, &str)>, ignored: bool) -> Rom {
    Rom {
        id,
        name: String::from("rom"),
        size: 1,
        romfile: romfile.map(|(id, path)| Romfile { id, path: String::from(path), size: 1 }),
        ignored,
    }
}

#[test]
fn notification_kinds_have_a_variant_and_an_icon() {
    assert_eq!(NotificationKind::Info.variant(), "brand");
    assert_eq!(NotificationKind::Error.variant(), "danger");
    assert_eq!(NotificationKind::Success.icon(), "circle-check");
    assert_eq!(NotificationKind::Warning.icon(), "triangle-exclamation");
}

#[test]
fn new_notifications_come_first() {
    let mut list = Vec::new();
    for (id, message) in [(0u64, "first"), (1, "second")] {
        let n = Notification { id, message: String::from(message), kind: NotificationKind::Info, time: String::new() };
        prepend_notification(&mut list, n);
    }
    assert_eq!(list[0].message, "second");
    assert_eq!(list[1].message, "first");
}

#[test]
fn the_game_filter() {
    let games = vec![game("Alpha", 2, 0), game("Beta", 1, 1), game("Gamma", 0, 2), game("ALPHABET", 0, 1)];
    assert_eq!(games[3].name_lower, "alphabet");
    let all = GameFilter::new(true, true, true, true, false, "");
    assert_eq!(filter_games(&all, &games), vec![0, 1, 2, 3]);
    let named = GameFilter::new(true, true, true, true, false, "ALPHA");
    assert_eq!(filter_games(&named, &games), vec![0, 3]);
    let one_region = GameFilter::new(true, true, true, true, true, "");
    assert_eq!(filter_games(&one_region, &games), vec![1, 3]);
    let no_ignored = GameFilter::new(true, true, true, false, false, "");
    assert_eq!(filter_games(&no_ignored, &games), vec![0, 1, 3]);
    let wanted_only = GameFilter::new(false, false, true, true, false, "");
    assert_eq!(filter_games(&wanted_only, &games), vec![2, 3]);
    assert!(!wanted_only.keep(&games[0]));
}

#[test]
fn a_games_romfiles_are_sorted_and_distinct() {
    let roms = vec![rom(1, Some((9, "b.bin")), false), rom(2, None, false), rom(3, Some((4, "a.cue")), false), rom(4, Some((7, "b.bin")), false)];
    let files = romfiles_of(&roms);
    assert_eq!(files.iter().map(|f| f.path.as_str()).collect::<Vec<&str>>(), vec!["a.cue", "b.bin"]);
    assert_eq!(files[1].id, 9);
}

#[test]
fn list_values() {
    assert_eq!(split_list(&None), Vec::<String>::new());
    assert_eq!(split_list(&Some(String::new())), Vec::<String>::new());
    assert_eq!(split_list(&Some(String::from("USA|EUR"))), vec![String::from("USA"), String::from("EUR")]);
}

#[test]
fn statuses_and_rows() {
    let system = System { id: 1, name: String::new(), description: String::new(), completion: 2, merging: 0, arcade: false };
    assert_eq!(system_color(&system), "status-complete");
    assert_eq!(game_color(&game("x", 2, 2)), "status-ignored");
    assert_eq!(game_color(&game("x", 1, 0)), "status-incomplete");
    assert_eq!(rom_color(&rom(1, None, true)), "status-ignored");
    assert_eq!(rom_color(&rom(1, Some((1, "a")), false)), "status-complete");
    assert_eq!(rom_color(&rom(1, None, false)), "status-wanted");
    assert_eq!(row_class(4, true), "list-row row-even row-selected");
    assert_eq!(row_class(3, false), "list-row row-odd ");
    assert_eq!(dialog_width("sm"), "28rem");
    assert_eq!(dialog_width("xl"), "56rem");
}

#[test]
fn the_settings_form_is_filled_from_the_settings() {
    let defaults = Local::new();
    assert!(defaults.prefer_parents);
    assert_eq!(defaults.prefer_regions, "none");
    let settings = vec![
        Setting { key: String::from("REGIONS_ONE"), value: Some(String::from("USA|EUR")) },
        Setting { key: String::from("PREFER_PARENTS"), value: Some(String::from("false")) },
        Setting { key: String::from("REGIONS_ONE_STRICT"), value: Some(String::from("true")) },
        Setting { key: String::from("ROM_DIRECTORY"), value: Some(String::from("/roms")) },
        Setting { key: String::from("ROM_DIRECTORY"), value: Some(String::from("/other")) },
        Setting { key: String::from("LANGUAGES"), value: None },
    ];
    let form = Local::populate(&settings);
    assert_eq!(form.one_regions, vec![String::from("USA"), String::from("EUR")]);
    assert!(!form.prefer_parents);
    assert!(form.group_subsystems);
    assert!(form.strict_one_regions);
    assert_eq!(form.rom_directory, "/roms");
    assert_eq!(form.tmp_directory, "");
    assert_eq!(form.prefer_versions, "none");
    assert!(form.languages.is_empty());
}

use oxyromon::frontend::{visible_dats, DatSelection};

#[test]
fn dats_are_filtered_and_picked() {
    let names = vec![String::from("Sony - PlayStation"), String::from("Sega - Saturn"), String::from("Sony - PSP")];
    assert_eq!(visible_dats(&names, "sony"), vec![0, 2]);
    assert_eq!(visible_dats(&names, ""), vec![0, 1, 2]);
    assert_eq!(visible_dats(&names, "nintendo"), Vec::<usize>::new());
    let shown = vec![names[0].clone(), names[2].clone()];
    let mut picked = DatSelection::new();
    assert!(picked.to_download().is_none());
    assert!(!picked.all_picked(&shown));
    picked.toggle("Sega - Saturn");
    picked.toggle_all(&shown);
    assert!(picked.all_picked(&shown));
    assert_eq!(picked.len(), 3);
    picked.toggle_all(&shown);
    assert_eq!(picked.len(), 1);
    assert!(picked.contains("Sega - Saturn"));
    picked.toggle("Sega - Saturn");
    assert_eq!(picked.len(), 0);
    picked.toggle("Sony - PSP");
    assert_eq!(picked.to_download(), Some(vec![String::from("Sony - PSP")]));
    assert!(!picked.all_picked(&Vec::new()));
}
