//! RVZ images made and read by `dolphin-tool`: the command lines it is run
//! with and what counts as an RVZ file.

use crate::common::{CommonRomfile, IsoRomfile, RomfileError, has_extension, extension_is, ISO_EXTENSION, RVZ_EXTENSION};
use crate::config::{decimal, to_decimal};
use crate::paths::{file_name, get_file_name, join, join_path, path_extension, set_extension, with_extension};
use crate::text::{chars_of, string_of, strings};
use vstd::prelude::*;

verus! {

pub const RVZ_BLOCK_SIZE_RANGE: [usize; 2] = [32, 2048];
pub const RVZ_COMPRESSION_LEVEL_RANGE: [usize; 2] = [1, 22];

/// Codecs of RVZ images; `Uncompressed` is stored as `none`.
#[derive(Clone, Copy, Debug, PartialEq, Eq, Structural)]
pub enum RvzCompressionAlgorithm {
    Uncompressed,
    Zstd,
    Bzip2,
    Lzma,
    Lzma2,
}

/// The word a codec is stored and passed to `dolphin-tool` as.
pub open spec fn rvz_algorithm_name(a: RvzCompressionAlgorithm) -> Seq<char> {
    match a {
        RvzCompressionAlgorithm::Uncompressed => "none"@,
        RvzCompressionAlgorithm::Zstd => "zstd"@,
        RvzCompressionAlgorithm::Bzip2 => "bzip2"@,
        RvzCompressionAlgorithm::Lzma => "lzma"@,
        RvzCompressionAlgorithm::Lzma2 => "lzma2"@,
    }
}

/// The codec stored as `name`, if any.
pub open spec fn rvz_algorithm_named(name: Seq<char>) -> Option<RvzCompressionAlgorithm> {
    if name == "none"@ {
        Some(RvzCompressionAlgorithm::Uncompressed)
    } else if name == "zstd"@ {
        Some(RvzCompressionAlgorithm::Zstd)
    } else if name == "bzip2"@ {
        Some(RvzCompressionAlgorithm::Bzip2)
    } else if name == "lzma"@ {
        Some(RvzCompressionAlgorithm::Lzma)
    } else if name == "lzma2"@ {
        Some(RvzCompressionAlgorithm::Lzma2)
    } else {
        None
    }
}

impl RvzCompressionAlgorithm {
    /// The word this codec is stored as.
    pub fn as_str(self) -> (s: &'static str)
        ensures
            s@ == rvz_algorithm_name(self),
    {
        match self {
            RvzCompressionAlgorithm::Uncompressed => "none",
            RvzCompressionAlgorithm::Zstd => "zstd",
            RvzCompressionAlgorithm::Bzip2 => "bzip2",
            RvzCompressionAlgorithm::Lzma => "lzma",
            RvzCompressionAlgorithm::Lzma2 => "lzma2",
        }
    }

    /// The codec stored as `name`, if any.
    pub fn from_name(name: &str) -> (r: Option<RvzCompressionAlgorithm>)
        ensures
            r == rvz_algorithm_named(name@),
    {
        let n = chars_of(name);
        if crate::text::same(&n, &chars_of("none")) {
            Some(RvzCompressionAlgorithm::Uncompressed)
        } else if crate::text::same(&n, &chars_of("zstd")) {
            Some(RvzCompressionAlgorithm::Zstd)
        } else if crate::text::same(&n, &chars_of("bzip2")) {
            Some(RvzCompressionAlgorithm::Bzip2)
        } else if crate::text::same(&n, &chars_of("lzma")) {
            Some(RvzCompressionAlgorithm::Lzma)
        } else if crate::text::same(&n, &chars_of("lzma2")) {
            Some(RvzCompressionAlgorithm::Lzma2)
        } else {
            None
        }
    }
}

/// An RVZ image.
#[derive(Clone, Debug)]
pub struct RvzRomfile {
    pub romfile: CommonRomfile,
}

impl CommonRomfile {
    /// This file as an RVZ image: refused unless its extension is `rvz`,
    /// whatever its case.
    pub fn as_rvz(self) -> (r: Result<RvzRomfile, RomfileError>)
        requires
            path_extension(self.path@) is Some,
        ensures
            has_extension(self.path@, RVZ_EXTENSION@) ==> (r matches Ok(rvz) && rvz.romfile == self),
            !has_extension(self.path@, RVZ_EXTENSION@) ==> r == Err::<RvzRomfile, RomfileError>(RomfileError::NotRvz),
    {
        if extension_is(self.path.as_str(), RVZ_EXTENSION) {
            Ok(RvzRomfile { romfile: self })
        } else {
            Err(RomfileError::NotRvz)
        }
    }
}

/// Where a file converted from `source` into `directory` is written: its
/// name there with `extension`.
pub open spec fn converted_path(source: Seq<char>, directory: Seq<char>, extension: Seq<char>) -> Seq<char> {
    with_extension(join(directory, file_name(source)), extension)
}

/// Exec form of [`converted_path`].
pub fn converted_path_exec(source: &str, directory: &str, extension: &str) -> (r: String)
    ensures
        r@ == converted_path(source@, directory@, extension@),
{
    string_of(&set_extension(&join_path(&chars_of(directory), &get_file_name(&chars_of(source))), &chars_of(extension)))
}

/// The `dolphin-tool` arguments that unpack an RVZ image to an ISO image.
pub open spec fn iso_args_spec(source: Seq<char>, destination: Seq<char>) -> Seq<Seq<char>> {
    seq!["convert"@, "-f"@, "iso"@, "-i"@, source, "-o"@, destination]
}

/// The `dolphin-tool` arguments that pack an ISO image to an RVZ image; the
/// block size is given in KiB and passed in bytes.
pub open spec fn rvz_args_spec(
    source: Seq<char>,
    destination: Seq<char>,
    algorithm: RvzCompressionAlgorithm,
    level: usize,
    block_size: usize,
    scrub: bool,
) -> Seq<Seq<char>> {
    seq![
        "convert"@,
        "-f"@,
        "rvz"@,
        "-c"@,
        rvz_algorithm_name(algorithm),
        "-l"@,
        decimal(level as nat),
        "-b"@,
        decimal((block_size * 1024) as nat),
        "-i"@,
        source,
        "-o"@,
        destination,
    ] + if scrub {
        seq!["-s"@]
    } else {
        Seq::<Seq<char>>::empty()
    }
}

fn text(s: &str) -> (r: String)
    ensures
        r@ == s@,
{
    string_of(&chars_of(s))
}

impl RvzRomfile {
    /// The ISO image this RVZ image unpacks to in `directory`, and the
    /// `dolphin-tool` arguments that unpack it.
    pub fn to_iso_command(&self, directory: &str) -> (r: (String, Vec<String>))
        ensures
            r.0@ == converted_path(self.romfile.path@, directory@, ISO_EXTENSION@),
            strings(r.1@) == iso_args_spec(self.romfile.path@, r.0@),
    {
        let destination = converted_path_exec(self.romfile.path.as_str(), directory, ISO_EXTENSION);
        let args = vec![
            text("convert"),
            text("-f"),
            text("iso"),
            text("-i"),
            text(self.romfile.path.as_str()),
            text("-o"),
            text(destination.as_str()),
        ];
        assert(strings(args@) =~= iso_args_spec(self.romfile.path@, destination@));
        (destination, args)
    }
}

impl IsoRomfile {
    /// The RVZ image this ISO image packs to in `directory`, and the
    /// `dolphin-tool` arguments that pack it.
    pub fn to_rvz_command(
        &self,
        directory: &str,
        algorithm: RvzCompressionAlgorithm,
        level: usize,
        block_size: usize,
        scrub: bool,
    ) -> (r: (String, Vec<String>))
        requires
            block_size * 1024 <= usize::MAX,
        ensures
            r.0@ == converted_path(self.romfile.path@, directory@, RVZ_EXTENSION@),
            strings(r.1@) == rvz_args_spec(self.romfile.path@, r.0@, algorithm, level, block_size, scrub),
    {
        let destination = converted_path_exec(self.romfile.path.as_str(), directory, RVZ_EXTENSION);
        let mut args = vec![
            text("convert"),
            text("-f"),
            text("rvz"),
            text("-c"),
            text(algorithm.as_str()),
            text("-l"),
            string_of(&to_decimal(level as u64)),
            text("-b"),
            string_of(&to_decimal((block_size * 1024) as u64)),
            text("-i"),
            text(self.romfile.path.as_str()),
            text("-o"),
            text(destination.as_str()),
        ];
        let ghost base = strings(args@);
        if scrub {
            args.push(text("-s"));
        }
        assert(strings(args@) =~= rvz_args_spec(self.romfile.path@, destination@, algorithm, level, block_size, scrub));
        (destination, args)
    }
}

} // verus!
