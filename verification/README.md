# oxyromon

The verified core of a ROM collection manager, written in Verus. It sorts
the files of a collection checked against DAT files, decides every step of
converting games between archive and disc image formats and of checking
their files, and keeps the settings that drive both.

## Layout

- `src/` — the library; every function in it is verified.
  - `text.rs`, `paths.rs`, `hex.rs`, `sort.rs`: texts and `/`-separated
    paths as character sequences, hex digits, and lexicographic order.
  - `crc32.rs`, `checksum.rs`: CRC-32 (over `crc32fast`), MD5 and SHA-1
    (over `md-5` and `sha1`), whole or streamed, and how a file's checksum
    and size are compared with a DAT's.
  - `config.rs`: the settings store, its typed readings and edits, with laws
    on reading back what was stored and on list edits.
  - `archive.rs`: archive types and compression settings, entry listings,
    and the plans by which an archive is written anew.
  - `common.rs`: files of the collection, where they are sorted to, and which
    games a set of files covers.
  - `chdman.rs`, `dolphin.rs`, `bchunk.rs`, `ctrtool.rs`: command lines for
    the disc image tools and what is read from their reports.
  - `check_roms.rs`, `convert_roms.rs`, `create_dats.rs`: the decisions taken
    when checking files, converting games and making DAT files; a check run
    as a state machine (`check_next`).
  - `convert_run.rs`: conversion runs as a state machine (`conversion_next`)
    and the jobs each conversion takes up from the routed games.
  - `frontend.rs`: the records the browser front end shows, its filters,
    the settings form and the choice of DATs to download.
  - `patterns.rs`: the regular expressions, through the `regex` crate.
- `app/` — ordinary Rust around the library: the loops that drive the
  conversion and check runs (with a checker of loose files and archives on
  disk), reading files into the verified checksum streams, creating,
  extracting and rewriting zip and 7z archives by the library's plans,
  resolving the stored directories on disk, running the tools, and the
  serialised records. The database layer is not part of it.
- `tests/` — tests of the library on concrete values.
