use oxyromon::archive::{
    copy_steps, list_entries, plan_rewrite, plan_zip_rewrite, replacement, rewrite_compression, select_compression,
    sevenzip_method, temporary_path, type_of, zip_method, ArchiveCompression, ArchiveError, ArchiveType, BlockAction,
    CopyStep, EntryMap, RawEntry, Replacement, SevenzipMethod, ZipMethod, ZipStep,
};
use oxyromon::common::CommonRomfile;
use oxyromon::config::HashAlgorithm;

fn names(v: &[&str]) -> Vec<String> {
    v.iter().map(|s| s.to_string()).collect()
}

/// One solid block of `a`, `b`, `c`, then `d` alone.
fn fixture() -> (Vec<String>, Vec<Option<usize>>) {
    (names(&["a", "b", "c", "d"]), vec![Some(0), Some(0), Some(0), Some(1)])
}

#[test]
fn renaming_plans_a_raw_copy_of_every_block() {
    let (entries, blocks) = fixture();
    let m = EntryMap::Rename { from: String::from("b"), to: String::from("renamed/b") };
    let plan = plan_rewrite(&entries, &blocks, 2, &m);
    assert_eq!(plan.blocks, vec![BlockAction::Copy, BlockAction::Copy]);
    assert_eq!(plan.kept, 4);
    assert_eq!(m.apply("b").as_deref(), Some("renamed/b"));
    assert_eq!(m.apply("a").as_deref(), Some("a"));
}

#[test]
fn deleting_from_a_solid_block_reencodes_only_it() {
    let (entries, blocks) = fixture();
    let plan = plan_rewrite(&entries, &blocks, 2, &EntryMap::Delete { name: String::from("b") });
    assert_eq!(plan.blocks, vec![BlockAction::Reencode, BlockAction::Copy]);
    assert_eq!(plan.kept, 3);
    assert_eq!(replacement(plan.kept), Replacement::UseRewritten);
}

#[test]
fn deleting_a_whole_block_drops_just_it() {
    let (entries, blocks) = fixture();
    let plan = plan_rewrite(&entries, &blocks, 2, &EntryMap::Delete { name: String::from("d") });
    assert_eq!(plan.blocks, vec![BlockAction::Copy, BlockAction::Drop]);
    assert_eq!(plan.kept, 3);
}

#[test]
fn deleting_the_last_entry_plans_removing_the_archive() {
    let plan = plan_rewrite(&names(&["e"]), &vec![Some(0)], 1, &EntryMap::Delete { name: String::from("e") });
    assert_eq!(plan.blocks, vec![BlockAction::Drop]);
    assert_eq!(plan.kept, 0);
    assert_eq!(replacement(plan.kept), Replacement::RemoveArchive);
}

#[test]
fn appending_keeps_every_block() {
    let (entries, blocks) = fixture();
    let plan = plan_rewrite(&entries, &blocks, 2, &EntryMap::Keep);
    assert_eq!(plan.blocks, vec![BlockAction::Copy, BlockAction::Copy]);
    assert_eq!(plan.kept, 4);
}

#[test]
fn loose_entries_survive_under_their_new_names() {
    let entries = names(&["dir", "a"]);
    let plan = plan_rewrite(&entries, &vec![None, Some(0)], 1, &EntryMap::Rename { from: String::from("dir"), to: String::from("folder") });
    assert_eq!(plan.loose, vec![(0, String::from("folder"))]);
    assert_eq!(plan.kept, 2);
}

#[test]
fn zip_rewrites_go_entry_by_entry() {
    let entries = names(&["a", "b"]);
    let (steps, kept) = plan_zip_rewrite(&entries, &EntryMap::Rename { from: String::from("b"), to: String::from("c") });
    assert!(matches!(steps[0], ZipStep::Copy));
    assert!(matches!(&steps[1], ZipStep::CopyAs(n) if n == "c"));
    assert_eq!(kept, 2);
    let (steps, kept) = plan_zip_rewrite(&entries, &EntryMap::Delete { name: String::from("a") });
    assert!(matches!(steps[0], ZipStep::Skip));
    assert_eq!(kept, 1);
}

#[test]
fn archive_types_come_from_extensions() {
    assert_eq!(type_of("/x/Game.7Z"), Ok(ArchiveType::Sevenzip));
    assert_eq!(type_of("/x/Game.zip"), Ok(ArchiveType::Zip));
    assert_eq!(type_of("/x/Game.rar"), Err(ArchiveError::NotAnArchive));
    assert_eq!(type_of("/x/Game"), Err(ArchiveError::NotAnArchive));
    assert_eq!(temporary_path("/x/Game.zip"), "/x/Game.oxyromon-tmp");
}

#[test]
fn compression_names_and_levels() {
    assert_eq!(select_compression(Some("zstd"), None, Some(3)), ArchiveCompression::Zstd(19));
    assert_eq!(select_compression(Some("deflate"), Some(3), None), ArchiveCompression::Deflate(9));
    assert_eq!(select_compression(Some("lzma2"), None, Some(5)), ArchiveCompression::Lzma2(5));
    assert_eq!(select_compression(None, Some(3), Some(5)), ArchiveCompression::Default);
    assert_eq!(sevenzip_method(ArchiveCompression::Deflate(3)), (SevenzipMethod::Lzma2, 9));
    assert_eq!(zip_method(ArchiveCompression::Lzma2(3)), (ZipMethod::Deflated, None));
    assert_eq!(zip_method(ArchiveCompression::Zstd(4)), (ZipMethod::Zstd, Some(4)));
    assert_eq!(rewrite_compression(true), ArchiveCompression::Zstd(19));
    assert_eq!(rewrite_compression(false), ArchiveCompression::Default);
}

#[test]
fn listings_keep_files_and_format_crcs() {
    let entries = vec![
        RawEntry { name: String::from("dir/"), size: 0, crc: 0, is_directory: true },
        RawEntry { name: String::from("a.rom"), size: 9, crc: 0xcbf43926, is_directory: false },
        RawEntry { name: String::from("b.rom"), size: 1, crc: 0x1a, is_directory: false },
    ];
    let all = list_entries(&entries, None);
    assert_eq!(
        all,
        vec![(String::from("a.rom"), 9, String::from("cbf43926")), (String::from("b.rom"), 1, String::from("0000001a"))]
    );
    let one = list_entries(&entries, Some("b.rom"));
    assert_eq!(one, vec![(String::from("b.rom"), 1, String::from("0000001a"))]);
}

#[test]
fn an_archive_lists_its_files() {
    let archive = CommonRomfile::from_path("/r/Game.zip");
    let files = archive.as_archive(&vec![(String::from("a.rom"), 9, String::from("cbf43926"))]).unwrap();
    assert_eq!(files.len(), 1);
    assert_eq!(files[0].path, "a.rom");
    assert_eq!(files[0].archive_type, ArchiveType::Zip);
    assert_eq!(files[0].recorded_size(), Some(9));
    assert_eq!(files[0].recorded_hash_and_size(HashAlgorithm::Crc), Some((String::from("cbf43926"), 9)));
    assert_eq!(files[0].recorded_hash_and_size(HashAlgorithm::Md5), None);
    assert!(CommonRomfile::from_path("/r/Game.rar").as_archive(&Vec::new()).is_err());
    let renamed = files[0].renamed("b.rom");
    assert_eq!(renamed.path, "b.rom");
    assert_eq!(renamed.romfile.path, "/r/Game.zip");
}

#[test]
fn packing_a_file_names_its_archive_and_entry() {
    let f = CommonRomfile::from_path("/work/sub\\dir/Game.iso");
    let (archived, stored) = f.to_archive("/work", "/dest", "Game (USA)", ArchiveType::Sevenzip);
    assert_eq!(archived.romfile.path, "/dest/Game (USA).7z");
    assert_eq!(archived.path, "sub\\dir/Game.iso");
    assert_eq!(stored, "sub/dir/Game.iso");
    assert_eq!(archived.size, 0);
    assert_eq!(archived.recorded_size(), None);
}

#[test]
fn copies_between_archives_pair_names() {
    let steps = copy_steps(&names(&["a", "b", "c"]), &names(&["a", "x"]));
    assert_eq!(steps.len(), 2);
    assert!(matches!(&steps[0], CopyStep::Copy(n) if n == "a"));
    assert!(matches!(&steps[1], CopyStep::CopyAs(a, b) if a == "b" && b == "x"));
}

#[test]
fn extracted_files_keep_their_path() {
    let archive = CommonRomfile::from_path("/r/Game.7z");
    let files = archive.as_archive(&vec![(String::from("sub/a.rom"), 1, String::from("00000001"))]).unwrap();
    assert_eq!(files[0].extracted_path("/tmp/x"), "/tmp/x/sub/a.rom");
}

#[test]
fn the_scratch_file_sits_beside_the_archive() {
    assert_eq!(temporary_path("dir/"), "dir.oxyromon-tmp");
    assert_eq!(temporary_path("/x/Game.zip/"), "/x/Game.oxyromon-tmp");
    assert_eq!(temporary_path("/x/Game.zip/."), "/x/Game.oxyromon-tmp");
    assert_eq!(temporary_path("/x/.hidden"), "/x/.hidden.oxyromon-tmp");
    assert_eq!(temporary_path("/"), "/");
    assert_eq!(temporary_path("/x/.."), "/x/..");
}
