use vstd::prelude::*;

use crate::command_support::{opt_text, texts};
use crate::qpdf_detector::{detect_start, detect_wf, locate, DetectStep, Detection, Tool};

verus! {

/// Starts looking for pdftoppm: `--pdftoppm`, then `NATA_PDFTOPPM`, then
/// `PATH`, exactly as qpdf is looked for.
pub fn detect(cli_path: Option<String>, env_path: Option<String>, path_dirs: Option<Vec<String>>, windows: bool) -> (r: (
    Detection,
    DetectStep,
))
    ensures
        detect_wf(r.0@),
        detect_start(
            Tool::Pdftoppm,
            opt_text(cli_path),
            opt_text(env_path),
            match path_dirs {
                Some(ds) => Some(texts(ds@)),
                None => None,
            },
            windows,
            r.0@,
            r.1@,
        ),
{
    locate(Tool::Pdftoppm, cli_path, env_path, path_dirs, windows)
}

} // verus!
