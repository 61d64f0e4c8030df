use oxyromon::archive::{get_archive_compression, ArchiveCompression, ArchiveType};
use oxyromon::common::subfolder_scheme;
use oxyromon::config::{
    join_list, split_list, to_decimal, AddOutcome, HashAlgorithm, RemoveOutcome, SetError, SetOutcome, Settings,
    UnsetOutcome,
};

fn text(v: Vec<char>) -> String {
    v.into_iter().collect()
}

#[test]
fn test_bool_test() {
    let mut settings = Settings::new();
    let key = "TEST_BOOLEAN";
    settings.set_bool(key, true, None);
    let value = settings.get_bool(key, None);
    assert_eq!(value, true);
}

#[test]
fn test_directory_test() {
    let mut settings = Settings::new();
    let key = "TEST_DIRECTORY";
    settings.set_directory(key, "/roms/tests", None);
    let directory = settings.get_directory(key, None).unwrap();
    assert_eq!(directory, "/roms/tests");
}

#[test]
fn test_remove_from_list_test() {
    let mut settings = Settings::new();
    let key = "DISCARD_FLAGS";
    settings.set_list(key, &vec![String::from("item1")], None);
    settings.remove_from_list(key, "item1", None);
    let list = settings.get_list(key, None);
    assert_eq!(list.len(), 0);
}

#[test]
fn test_system_bool_override_test() {
    let mut settings = Settings::new();
    settings.set_bool("PREFER_PARENTS", true, None);
    settings.set_bool("PREFER_PARENTS", false, Some(1));
    assert!(!settings.get_bool("PREFER_PARENTS", Some(1)));
    assert!(settings.get_bool("PREFER_PARENTS", None));
}

#[test]
fn a_system_without_its_own_value_reads_the_global_one() {
    let mut settings = Settings::new();
    settings.set_bool("PREFER_PARENTS", true, None);
    assert!(settings.get_bool("PREFER_PARENTS", Some(7)));
}

#[test]
fn storing_twice_keeps_one_row() {
    let mut settings = Settings::new();
    settings.set_string("PREFER_REGIONS", "broad", None);
    settings.set_string("PREFER_REGIONS", "narrow", None);
    assert_eq!(settings.rows().len(), 1);
    assert_eq!(settings.get_string("PREFER_REGIONS", None).unwrap(), "narrow");
}

#[test]
fn integers_are_stored_in_decimal() {
    let mut settings = Settings::new();
    settings.set_integer("ZIP_COMPRESSION_LEVEL", 7, None);
    assert_eq!(settings.get_integer("ZIP_COMPRESSION_LEVEL", None), Some(7));
    assert_eq!(settings.get_string("ZIP_COMPRESSION_LEVEL", None).unwrap(), "7");
    assert_eq!(text(to_decimal(1048576)), "1048576");
    assert_eq!(text(to_decimal(0)), "0");
}

#[test]
fn adding_to_a_list_sorts_it_unless_order_matters() {
    let mut settings = Settings::new();
    assert!(matches!(settings.add_to_list("LANGUAGES", "Fr", None), AddOutcome::Added));
    assert!(matches!(settings.add_to_list("LANGUAGES", "En", None), AddOutcome::Added));
    assert_eq!(settings.get_list("LANGUAGES", None), vec![String::from("En"), String::from("Fr")]);
    assert!(matches!(settings.add_to_list("REGIONS_ONE", "USA", None), AddOutcome::Added));
    assert!(matches!(settings.add_to_list("REGIONS_ONE", "EUR", None), AddOutcome::Added));
    assert_eq!(settings.get_list("REGIONS_ONE", None), vec![String::from("USA"), String::from("EUR")]);
}

#[test]
fn adding_twice_changes_nothing() {
    let mut settings = Settings::new();
    settings.add_to_list("LANGUAGES", "En", None);
    assert!(matches!(settings.add_to_list("LANGUAGES", "En", None), AddOutcome::AlreadyInList));
    assert_eq!(settings.get_list("LANGUAGES", None).len(), 1);
}

#[test]
fn a_list_of_choices_takes_only_its_words() {
    let mut settings = Settings::new();
    assert!(matches!(settings.add_to_list("CHD_CD_COMPRESSION_ALGORITHMS", "bogus", None), AddOutcome::InvalidChoice(_)));
    assert!(matches!(settings.add_to_list("CHD_CD_COMPRESSION_ALGORITHMS", "cdlz", None), AddOutcome::Added));
    assert!(matches!(settings.add_to_list("NOT_A_LIST", "x", None), AddOutcome::NotAList));
}

#[test]
fn removing_what_is_not_there_changes_nothing() {
    let mut settings = Settings::new();
    settings.add_to_list("LANGUAGES", "En", None);
    assert!(matches!(settings.remove_from_list("LANGUAGES", "Fr", None), RemoveOutcome::NotInList));
    assert!(matches!(settings.remove_from_list("NOT_A_LIST", "Fr", None), RemoveOutcome::NotAList));
    assert_eq!(settings.get_list("LANGUAGES", None), vec![String::from("En")]);
}

#[test]
fn remove_undoes_add() {
    let mut settings = Settings::new();
    settings.set_list("REGIONS_ONE", &vec![String::from("USA"), String::from("EUR")], None);
    settings.add_to_list("REGIONS_ONE", "JPN", None);
    settings.remove_from_list("REGIONS_ONE", "JPN", None);
    assert_eq!(settings.get_list("REGIONS_ONE", None), vec![String::from("USA"), String::from("EUR")]);
}

#[test]
fn set_setting_checks_each_kind() {
    let mut settings = Settings::new();
    assert!(matches!(settings.set_setting("PREFER_PARENTS", "true", None), Ok(SetOutcome::Stored)));
    assert!(matches!(settings.set_setting("PREFER_PARENTS", "yes", None), Err(SetError::NotABool)));
    assert!(matches!(settings.set_setting("PREFER_REGIONS", "broad", None), Ok(SetOutcome::Stored)));
    assert!(matches!(settings.set_setting("PREFER_REGIONS", "bogus", None), Ok(SetOutcome::InvalidChoice(_))));
    assert!(matches!(settings.set_setting("ZIP_COMPRESSION_LEVEL", "5", None), Ok(SetOutcome::Stored)));
    assert!(matches!(settings.set_setting("ZIP_COMPRESSION_LEVEL", "10", None), Ok(SetOutcome::OutOfRange(1, 9))));
    assert!(matches!(settings.set_setting("ZIP_COMPRESSION_LEVEL", "five", None), Err(SetError::NotAnInteger)));
    assert!(matches!(settings.set_setting("REGIONS_ALL", "USA", None), Ok(SetOutcome::ListNotSettable)));
    assert!(matches!(settings.set_setting("ROM_DIRECTORY", "/roms", None), Ok(SetOutcome::Directory)));
    assert!(matches!(settings.set_setting("NOT_A_SETTING", "x", None), Ok(SetOutcome::UnknownKey)));
    assert_eq!(settings.get_string("PREFER_REGIONS", None).unwrap(), "broad");
    assert_eq!(settings.get_integer("ZIP_COMPRESSION_LEVEL", None), Some(5));
}

#[test]
fn only_nullable_settings_can_be_unset() {
    let mut settings = Settings::new();
    settings.set_integer("ZIP_COMPRESSION_LEVEL", 3, None);
    assert_eq!(settings.unset_setting("ZIP_COMPRESSION_LEVEL", None), UnsetOutcome::Cleared);
    assert_eq!(settings.get_integer("ZIP_COMPRESSION_LEVEL", None), None);
    assert_eq!(settings.unset_setting("SEVENZIP_COMPRESSION_LEVEL", None), UnsetOutcome::Absent);
    assert_eq!(settings.unset_setting("PREFER_PARENTS", None), UnsetOutcome::NotNullable);
}

#[test]
fn a_system_listing_merges_the_global_settings_sorted() {
    let mut settings = Settings::new();
    settings.set_string("PREFER_REGIONS", "broad", None);
    settings.set_bool("PREFER_PARENTS", true, None);
    settings.set_bool("PREFER_PARENTS", false, Some(2));
    let global = settings.list_settings(None);
    assert_eq!(global.len(), 2);
    let listed = settings.list_settings(Some(2));
    assert_eq!(listed.len(), 2);
    assert_eq!(listed[0].0, "PREFER_PARENTS");
    assert_eq!(listed[0].1.as_deref(), Some("false"));
    assert_eq!(listed[1].0, "PREFER_REGIONS");
}

#[test]
fn list_values_split_and_join() {
    let parts = split_list(&"a|b||c".chars().collect::<Vec<char>>());
    assert_eq!(parts, vec![String::from("a"), String::from("b"), String::new(), String::from("c")]);
    assert_eq!(text(join_list(&parts)), "a|b||c");
}

#[test]
fn the_archive_compression_follows_the_settings() {
    let mut settings = Settings::new();
    settings.set_string("ZIP_COMPRESSION_ALGORITHM", "zstd", None);
    settings.set_integer("ZIP_ZSTD_COMPRESSION_LEVEL", 12, None);
    assert_eq!(get_archive_compression(&settings, ArchiveType::Zip, None), ArchiveCompression::Zstd(12));
    settings.set_string("SEVENZIP_COMPRESSION_ALGORITHM", "lzma2", None);
    settings.store("SEVENZIP_COMPRESSION_LEVEL", None, None);
    assert_eq!(get_archive_compression(&settings, ArchiveType::Sevenzip, None), ArchiveCompression::Lzma2(9));
    settings.set_string("ZIP_COMPRESSION_ALGORITHM", "other", None);
    assert_eq!(get_archive_compression(&settings, ArchiveType::Zip, None), ArchiveCompression::Default);
}

#[test]
fn the_subfolder_scheme_comes_from_the_settings_of_the_sorting() {
    let mut settings = Settings::new();
    settings.set_string("REGIONS_ALL_SUBFOLDERS", "alpha", None);
    settings.set_string("REGIONS_ONE_SUBFOLDERS", "none", None);
    assert_eq!(subfolder_scheme(None, &settings, 0, 1), oxyromon::config::SubfolderScheme::Alpha);
    assert_eq!(subfolder_scheme(None, &settings, 1, 1), oxyromon::config::SubfolderScheme::Flat);
    assert_eq!(subfolder_scheme(None, &settings, 2, 1), oxyromon::config::SubfolderScheme::Flat);
    assert_eq!(
        subfolder_scheme(Some(oxyromon::config::SubfolderScheme::Alpha), &settings, 1, 1),
        oxyromon::config::SubfolderScheme::Alpha
    );
}

#[test]
fn choice_names() {
    assert_eq!(HashAlgorithm::Sha1.as_str(), "sha1");
    assert_eq!(oxyromon::config::SubfolderScheme::from_name("alpha"), Some(oxyromon::config::SubfolderScheme::Alpha));
    assert_eq!(oxyromon::config::SubfolderScheme::from_name("Alpha"), None);
    assert_eq!(oxyromon::config::SubfolderScheme::Flat.as_str(), "none");
}

use oxyromon::config::setting_line;

#[test]
fn a_missing_directory_falls_back_to_the_default() {
    let mut settings = Settings::new();
    let used = settings.resolve_directory("ROM_DIRECTORY", None, "/home/me/Emulation");
    assert_eq!(used, "/home/me/Emulation");
    assert_eq!(settings.get_directory("ROM_DIRECTORY", None).unwrap(), "/home/me/Emulation");
    let used = settings.resolve_directory("ROM_DIRECTORY", Some(String::from("/mnt/roms")), "/elsewhere");
    assert_eq!(used, "/mnt/roms");
    assert_eq!(settings.get_directory("ROM_DIRECTORY", None).unwrap(), "/home/me/Emulation");
}

#[test]
fn settings_print_as_key_and_value() {
    assert_eq!(setting_line("PREFER_REGIONS", &Some(String::from("broad"))), "PREFER_REGIONS = broad");
    assert_eq!(setting_line("REGIONS_ALL", &None), "REGIONS_ALL = ");
}
