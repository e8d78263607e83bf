use vstd::prelude::*;

verus! {

/// A whole command line: the options shared by all commands and the command.
#[derive(Debug, Clone)]
pub struct Cli {
    pub common: CommonOptions,
    pub command: Commands,
}

/// Options that every command accepts.
#[derive(Debug, Clone)]
pub struct CommonOptions {
    pub qpdf: Option<String>,
    pub pdftoppm: Option<String>,
    pub strict: bool,
    pub quiet: bool,
    pub verbose: bool,
}

/// The commands of the tool.
#[derive(Debug, Clone)]
pub enum Commands {
    Merge(MergeArgs),
    Extract(ExtractArgs),
    Render(RenderArgs),
    Split(SplitArgs),
}

/// `merge <inputs>... -o <file> [--overwrite]`
#[derive(Debug, Clone)]
pub struct MergeArgs {
    pub inputs: Vec<String>,
    pub output: String,
    pub overwrite: bool,
}

/// `extract <input> --pages <pages> -o <file> [--overwrite]`
#[derive(Debug, Clone)]
pub struct ExtractArgs {
    pub input: String,
    pub pages: String,
    pub output: String,
    pub overwrite: bool,
}

/// `render <input> [--pages <pages>] -d <dir> [--dpi <n>] [--overwrite]`
#[derive(Debug, Clone)]
pub struct RenderArgs {
    pub input: String,
    pub pages: String,
    pub output_dir: String,
    pub dpi: u32,
    pub overwrite: bool,
}

/// `split <input> (--ranges <spec>... | --every <n> | --each-page) -d <dir> [--overwrite]`
#[derive(Debug, Clone)]
pub struct SplitArgs {
    pub input: String,
    pub ranges: Vec<String>,
    pub every: Option<u32>,
    pub each_page: bool,
    pub output_dir: String,
    pub overwrite: bool,
}

} // verus!
