//! CUE/BIN images turned into ISO images by `bchunk`.

use crate::common::{paths_of, CueBinRomfile, ISO_EXTENSION};
use crate::dolphin::{converted_path, converted_path_exec};
use crate::paths::{join, join_path};
use crate::text::{chars_of, string_of, strings};
use vstd::prelude::*;

verus! {

/// The name `bchunk` is run by, and the base name it writes tracks under.
pub const BCHUNK: &'static str = "bchunk";

/// Why a CUE/BIN image cannot be turned into an ISO image.
#[derive(Clone, Copy, Debug, PartialEq, Eq, Structural)]
pub enum BchunkError {
    /// Only a sheet with a single BIN file is supported.
    SeveralBins,
}

/// How `bchunk` is run on a CUE/BIN image: its arguments, the directory it is
/// run in, the file it writes there, and where that file is renamed to.
#[derive(Clone, Debug)]
pub struct BchunkRun {
    pub args: Vec<String>,
    pub directory: String,
    pub written: String,
    pub iso: String,
}

impl CueBinRomfile {
    /// How this image is turned into an ISO image in `directory`: `bchunk`
    /// is given the BIN file, the CUE sheet and its base name, writes the
    /// first track as `bchunk01.iso`, which is renamed after the sheet.
    /// Refused for more than one BIN file.
    pub fn to_iso_run(&self, directory: &str) -> (r: Result<BchunkRun, BchunkError>)
        requires
            self.bin_romfiles@.len() > 0,
        ensures
            self.bin_romfiles@.len() > 1 ==> r == Err::<BchunkRun, BchunkError>(BchunkError::SeveralBins),
            self.bin_romfiles@.len() == 1 ==> (r matches Ok(run) && {
                &&& strings(run.args@) == seq![self.bin_romfiles@[0].path@, self.cue_romfile.path@, BCHUNK@]
                &&& run.directory@ == directory@
                &&& run.written@ == join(directory@, "bchunk01.iso"@)
                &&& run.iso@ == converted_path(self.cue_romfile.path@, directory@, ISO_EXTENSION@)
            }),
    {
        if self.bin_romfiles.len() > 1 {
            return Err(BchunkError::SeveralBins);
        }
        let args = vec![
            string_of(&chars_of(self.bin_romfiles[0].path.as_str())),
            string_of(&chars_of(self.cue_romfile.path.as_str())),
            string_of(&chars_of(BCHUNK)),
        ];
        assert(strings(args@) =~= seq![self.bin_romfiles@[0].path@, self.cue_romfile.path@, BCHUNK@]);
        Ok(BchunkRun {
            args,
            directory: string_of(&chars_of(directory)),
            written: string_of(&join_path(&chars_of(directory), &chars_of("bchunk01.iso"))),
            iso: converted_path_exec(self.cue_romfile.path.as_str(), directory, ISO_EXTENSION),
        })
    }
}

} // verus!
