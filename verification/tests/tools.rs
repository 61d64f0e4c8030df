use oxyromon::bchunk::BchunkError;
use oxyromon::chdman::{
    chd_report_is_complete, chdman_version, create_chd_command, extract_chd_command, is_older_version, parse_chd_report,
    track_paths, version_or_unknown, ChdInfoError, ChdType, MIN_DREAMCAST_VERSION,
};
use oxyromon::common::{CommonRomfile, CueBinRomfile, IsoRomfile};
use oxyromon::ctrtool::{cia_report_is_readable, parse_cia_report, saved_content_paths};
use oxyromon::dolphin::{converted_path_exec, RvzCompressionAlgorithm, RvzRomfile};

const CD_REPORT: &str = "chdman - MAME Compressed Hunks of Data (CHD) manager 0.264 (mame0264)\n\
Input file:   game.chd\n\
File Version: 5\n\
Logical size: 1,474,560 bytes\n\
SHA1:         89a6ef6d0ab8f2a8fe8f9b9f29a17a7b8a5f9c01\n\
Data SHA1:    0123456789abcdef0123456789abcdef01234567\n\
Metadata:     Tag='CHT2'  Index=0  Length=90 bytes\n\
              TRACK:1 TYPE:MODE1_RAW SUBTYPE:NONE FRAMES:1234\n\
Metadata:     Tag='CHT2'  Index=1  Length=90 bytes\n\
              TRACK:2 TYPE:AUDIO SUBTYPE:NONE FRAMES:99\n";

const DVD_REPORT: &str = "Input file:   game.chd\n\
Logical size: 4,700,000 bytes\n\
SHA1:         1111111111111111111111111111111111111111\n\
Data SHA1:    2222222222222222222222222222222222222222\n\
Parent SHA1:  3333333333333333333333333333333333333333\n\
Metadata:     Tag='DVD '  Index=0  Length=0 bytes\n";

#[test]
fn a_cd_report_gives_its_tracks() {
    assert!(chd_report_is_complete(CD_REPORT));
    let info = parse_chd_report(CD_REPORT).unwrap();
    assert_eq!(info.chd_type, ChdType::Cd);
    assert_eq!(info.size, 0);
    assert_eq!(info.sha1, "");
    assert_eq!(info.chd_sha1, "89a6ef6d0ab8f2a8fe8f9b9f29a17a7b8a5f9c01");
    assert_eq!(info.parent_sha1, None);
    assert_eq!(info.track_count, 2);
}

#[test]
fn a_dvd_report_gives_its_size_and_parent() {
    assert!(chd_report_is_complete(DVD_REPORT));
    let info = parse_chd_report(DVD_REPORT).unwrap();
    assert_eq!(info.chd_type, ChdType::Dvd);
    assert_eq!(info.size, 4_700_000);
    assert_eq!(info.sha1, "2222222222222222222222222222222222222222");
    assert_eq!(info.parent_sha1.as_deref(), Some("3333333333333333333333333333333333333333"));
    assert_eq!(info.track_count, 1);
}

#[test]
fn bad_reports_are_refused() {
    let bad_size = DVD_REPORT.replace("4,700,000", "lots");
    assert!(matches!(parse_chd_report(&bad_size), Err(ChdInfoError::BadSize)));
    let unknown = DVD_REPORT.replace("DVD ", "XXXX");
    assert!(matches!(parse_chd_report(&unknown), Err(ChdInfoError::UnknownType)));
    assert!(!chd_report_is_complete("Input file: x\n"));
}

#[test]
fn chd_commands() {
    let (path, args) = create_chd_command(
        "/in/Game.iso",
        "/out",
        ChdType::Dvd,
        Some(2048),
        &vec![String::from("lzma"), String::from("zstd")],
        Some("/out/Parent.chd"),
    );
    assert_eq!(path, "/out/Game.chd");
    assert_eq!(
        args,
        vec!["createdvd", "-i", "/in/Game.iso", "-o", "/out/Game.chd", "--hunksize", "2048", "--compression", "lzma,zstd", "-op", "/out/Parent.chd"]
    );
    let (bin, cue, args) = extract_chd_command("/in/Game.chd", "/tmp", "bin", ChdType::Cd, None, true);
    assert_eq!(bin, "/tmp/Game.%t.bin");
    assert_eq!(cue.as_deref(), Some("/tmp/.Game.cue"));
    assert_eq!(args, vec!["extractcd", "-i", "/in/Game.chd", "-o", "/tmp/.Game.cue", "-ob", "/tmp/Game.%t.bin", "-sb"]);
    assert_eq!(track_paths("/tmp/Game.%t.bin", "/tmp", 2), vec!["/tmp/Game.1.bin", "/tmp/Game.2.bin"]);
}

#[test]
fn chdman_versions() {
    assert_eq!(chdman_version(CD_REPORT), "0.264");
    assert_eq!(chdman_version("no version here\n"), "unknown");
    assert_eq!(version_or_unknown(None), "unknown");
    assert!(is_older_version("0.263", MIN_DREAMCAST_VERSION));
    assert!(!is_older_version("0.264", MIN_DREAMCAST_VERSION));
}

const CIA_REPORT: &str = "CIA:\n\
|- TitleVersion:  1.0.0 (1024)\n\
|- TitleMetaSize: 0x00000B34\n\
|- Contents:\n\
|  \\- ContentId:   0x00000000\n\
|     Size:        0x0000000000100000\n\
|  \\- ContentId:   0x00000001\n\
|     Size:        0x0000000000002000\n";

#[test]
fn a_cia_report_lists_contents_and_metadata() {
    assert!(cia_report_is_readable(CIA_REPORT));
    let infos = parse_cia_report(CIA_REPORT);
    assert_eq!(infos.len(), 3);
    assert_eq!(infos[0].path, "00000000");
    assert_eq!(infos[0].size, 0x100000);
    assert_eq!(infos[1].path, "00000001");
    assert_eq!(infos[1].size, 0x2000);
    assert_eq!(infos[2].path, "tmd.1024");
    assert_eq!(infos[2].size, 0xB34 + 0x300 + 0x400);
    assert!(!cia_report_is_readable("|- TitleMetaSize: 0x10\n"));
}

#[test]
fn saved_contents_are_read_from_the_log() {
    let log = "[ctrtool::CiaProcess LOG] Saving content 0000 to content.0000.app...\nother\n";
    let paths = saved_content_paths(log, "/tmp/x");
    assert_eq!(paths.len(), 1);
    assert_eq!(paths[0], "/tmp/x/content.0000.app");
}

#[test]
fn dolphin_commands() {
    let iso = CommonRomfile::from_path("/in/Game.iso").as_iso().unwrap();
    let (path, args) = iso.to_rvz_command("/out", RvzCompressionAlgorithm::Zstd, 5, 128, true);
    assert_eq!(path, "/out/Game.rvz");
    assert_eq!(
        args,
        vec!["convert", "-f", "rvz", "-c", "zstd", "-l", "5", "-b", "131072", "-i", "/in/Game.iso", "-o", "/out/Game.rvz", "-s"]
    );
    let rvz = RvzRomfile { romfile: CommonRomfile::from_path("/in/Game.rvz") };
    let (path, args) = rvz.to_iso_command("/tmp");
    assert_eq!(path, "/tmp/Game.iso");
    assert_eq!(args, vec!["convert", "-f", "iso", "-i", "/in/Game.rvz", "-o", "/tmp/Game.iso"]);
    assert_eq!(RvzCompressionAlgorithm::from_name("none"), Some(RvzCompressionAlgorithm::Uncompressed));
    assert_eq!(RvzCompressionAlgorithm::Lzma2.as_str(), "lzma2");
    assert_eq!(converted_path_exec("/a/b.c.iso", "/d", "chd"), "/d/b.c.chd");
    let _unused: Option<IsoRomfile> = None;
}

#[test]
fn bchunk_runs_on_a_single_bin() {
    let image = CueBinRomfile {
        cue_romfile: CommonRomfile::from_path("/in/Game.cue"),
        bin_romfiles: vec![CommonRomfile::from_path("/in/Game.bin")],
    };
    let run = image.to_iso_run("/tmp").unwrap();
    assert_eq!(run.args, vec!["/in/Game.bin", "/in/Game.cue", "bchunk"]);
    assert_eq!(run.written, "/tmp/bchunk01.iso");
    assert_eq!(run.iso, "/tmp/Game.iso");
    let two = CueBinRomfile {
        cue_romfile: CommonRomfile::from_path("/in/Game.cue"),
        bin_romfiles: vec![CommonRomfile::from_path("/in/1.bin"), CommonRomfile::from_path("/in/2.bin")],
    };
    assert!(matches!(two.to_iso_run("/tmp"), Err(BchunkError::SeveralBins)));
}

use oxyromon::chdman::{find_parent, named_tracks, ChdError, ChdInfo, ChdRomfile, ChdUnpack, Measure};
use oxyromon::config::HashAlgorithm;
use oxyromon::ctrtool::ctrtool_run_usable;

fn dvd_info(parent: Option<&str>) -> ChdInfo {
    ChdInfo {
        chd_type: ChdType::Dvd,
        size: 10,
        sha1: String::from("data"),
        chd_sha1: String::from("own"),
        parent_sha1: parent.map(String::from),
        track_count: 1,
    }
}

#[test]
fn measuring_a_chd() {
    let chd = ChdRomfile::from_info(CommonRomfile::from_path("/r/g.chd"), None, dvd_info(None));
    assert!(matches!(chd.size_source(), Ok(Measure::Recorded(10, _))));
    assert!(matches!(chd.hash_source(HashAlgorithm::Sha1), Ok(Measure::Recorded(10, ref h)) if h == "data"));
    assert!(matches!(chd.hash_source(HashAlgorithm::Crc), Ok(Measure::Unpack(ChdUnpack::Iso))));
    let cd = ChdRomfile::written(CommonRomfile::from_path("/r/c.chd"), None, ChdType::Cd, 2);
    assert!(matches!(cd.size_source(), Err(ChdError::CdNotMeasurable)));
    assert_eq!(cd.check_unpack(), ChdUnpack::CueBin);
    assert!(cd.split_tracks());
    let hd = ChdRomfile::written(CommonRomfile::from_path("/r/h.chd"), None, ChdType::Hd, 1);
    assert!(matches!(hd.size_source(), Ok(Measure::Unpack(ChdUnpack::Rdsk))));
}

#[test]
fn a_chd_is_taken_with_its_own_parent_only() {
    let ok = ChdRomfile::with_parent(
        CommonRomfile::from_path("/r/child.chd"),
        CommonRomfile::from_path("/r/parent.chd"),
        "abc",
        dvd_info(Some("abc")),
    );
    assert!(ok.is_ok());
    let bad = ChdRomfile::with_parent(
        CommonRomfile::from_path("/r/child.chd"),
        CommonRomfile::from_path("/r/other.chd"),
        "xyz",
        dvd_info(Some("abc")),
    );
    assert!(matches!(bad, Err(ChdError::ParentMismatch)));
}

#[test]
fn a_parent_is_found_by_its_sha1() {
    let candidates = vec![
        (String::from("/r/child.chd"), String::from("abc")),
        (String::from("/r/x.chd"), String::from("def")),
        (String::from("/r/p.chd"), String::from("abc")),
    ];
    assert_eq!(find_parent(&candidates, "/r/child.chd", "abc"), Some(2));
    assert_eq!(find_parent(&candidates, "/r/child.chd", "zzz"), None);
}

#[test]
fn split_tracks_take_their_roms_names() {
    let names = vec![String::from("Game (Track 1).bin")];
    assert_eq!(named_tracks("/t/Game.%t.bin", "/t", 2, &names), vec!["/t/Game (Track 1).bin", "/t/Game.2.bin"]);
}

#[test]
fn ctrtool_runs_that_can_be_read() {
    assert!(ctrtool_run_usable(true, b""));
    assert!(ctrtool_run_usable(false, b"x\n[ctrtool::NcchProcess ERROR] NcchHeader is corrupted (Bad struct magic).\n"));
    assert!(!ctrtool_run_usable(false, b"something else\n"));
}

use oxyromon::common::RomfileError;

#[test]
fn a_chd_is_opened_with_its_parent_from_beside_it() {
    let candidates = vec![
        (String::from("/r/child.chd"), String::from("abc")),
        (String::from("/r/p.chd"), String::from("abc")),
    ];
    let chd = CommonRomfile::from_path("/r/child.chd").as_chd(dvd_info(Some("abc")), &candidates).unwrap();
    assert_eq!(chd.parent_romfile.map(|p| p.path), Some(String::from("/r/p.chd")));
    assert_eq!(chd.size, 10);
    assert_eq!(chd.chd_sha1, "own");
    let lone = CommonRomfile::from_path("/r/child.chd").as_chd(dvd_info(Some("zzz")), &candidates).unwrap();
    assert!(lone.parent_romfile.is_none());
    let plain = CommonRomfile::from_path("/r/child.CHD").as_chd(dvd_info(None), &candidates).unwrap();
    assert!(plain.parent_romfile.is_none());
    let wrong = CommonRomfile::from_path("/r/child.iso").as_chd(dvd_info(None), &candidates);
    assert!(matches!(wrong, Err(RomfileError::NotChd)));
}

#[test]
fn images_unpacked_from_a_chd_are_recognised() {
    assert!(CommonRomfile::from_path("/t/disk.rdsk").as_rdsk().is_ok());
    assert!(matches!(CommonRomfile::from_path("/t/disk.riff").as_rdsk(), Err(RomfileError::NotRdsk)));
    assert!(CommonRomfile::from_path("/t/ld.RIFF").as_riff().is_ok());
    assert!(matches!(CommonRomfile::from_path("/t/ld.iso").as_riff(), Err(RomfileError::NotRiff)));
}
