use vstd::prelude::*;

use crate::command_support::texts;
use crate::error::{AppError, ErrorView};

verus! {

/// What a path names on disk, following symbolic links.
#[derive(Debug, Clone, Copy, PartialEq, Eq, Structural)]
pub enum PathKind {
    Missing,
    File,
    Directory,
    Other,
}

/// How a program run ended: it could not be run (or its output could not be
/// read back), or it exited with its status and output.
#[derive(Debug, Clone)]
pub enum ProcessOutcome {
    Failed(String),
    Exited { success: bool, stdout: Vec<u8>, stderr: Vec<u8> },
}

/// A run of an outside program: the program, its arguments, and whether its
/// standard output goes through a temporary file rather than a pipe.
#[derive(Debug, Clone)]
pub struct Invocation {
    pub executable: String,
    pub args: Vec<String>,
    pub stdout_to_temp_file: bool,
}

/// Outside work a command asks for, answered by the matching `Reply`.
#[derive(Debug)]
pub enum Request {
    /// What the path names: `Reply::Kind`.
    Inspect(String),
    /// The canonical form of each path: `Reply::Canonical`.
    Canonicalize(Vec<String>),
    /// Run a program: `Reply::Ran`.
    Run(Invocation),
    /// Create an empty temporary file named `.nata-*` in a directory: `Reply::Created`.
    CreateTempFile(String),
    /// Create a temporary directory in a directory: `Reply::Created`.
    CreateTempDir(String),
    /// Create a directory and its missing parents: `Reply::Io`.
    CreateDirAll(String),
    /// Move a temporary file made by `CreateTempFile` to its final path: `Reply::Io`.
    Persist { temp: String, target: String },
    /// Rename a file: `Reply::Io`.
    Rename { from: String, to: String },
    /// The paths of the entries of a directory, `None` when it cannot be read: `Reply::Listing`.
    ListDir(String),
    /// Show an informational message: `Reply::Ack`.
    Info(String),
    /// The command is over with this result; nothing more is asked.
    Finish(Result<(), AppError>),
}

/// The answer to a `Request`.
#[derive(Debug)]
pub enum Reply {
    Kind(PathKind),
    Canonical(Vec<Result<String, String>>),
    Ran(ProcessOutcome),
    Created(Result<String, String>),
    Io(Result<(), String>),
    Listing(Option<Vec<String>>),
    Ack,
}

/// A program run with its texts as character sequences.
pub struct InvocationView {
    pub executable: Seq<char>,
    pub args: Seq<Seq<char>>,
    pub stdout_to_temp_file: bool,
}

impl View for Invocation {
    type V = InvocationView;

    open spec fn view(&self) -> InvocationView {
        InvocationView {
            executable: self.executable@,
            args: texts(self.args@),
            stdout_to_temp_file: self.stdout_to_temp_file,
        }
    }
}

/// A request with its texts as character sequences.
pub enum RequestView {
    Inspect(Seq<char>),
    Canonicalize(Seq<Seq<char>>),
    Run(InvocationView),
    CreateTempFile(Seq<char>),
    CreateTempDir(Seq<char>),
    CreateDirAll(Seq<char>),
    Persist(Seq<char>, Seq<char>),
    Rename(Seq<char>, Seq<char>),
    ListDir(Seq<char>),
    Info(Seq<char>),
    Finish(Result<(), ErrorView>),
}

impl View for Request {
    type V = RequestView;

    open spec fn view(&self) -> RequestView {
        match self {
            Request::Inspect(p) => RequestView::Inspect(p@),
            Request::Canonicalize(ps) => RequestView::Canonicalize(texts(ps@)),
            Request::Run(inv) => RequestView::Run(inv@),
            Request::CreateTempFile(d) => RequestView::CreateTempFile(d@),
            Request::CreateTempDir(d) => RequestView::CreateTempDir(d@),
            Request::CreateDirAll(d) => RequestView::CreateDirAll(d@),
            Request::Persist { temp, target } => RequestView::Persist(temp@, target@),
            Request::Rename { from, to } => RequestView::Rename(from@, to@),
            Request::ListDir(d) => RequestView::ListDir(d@),
            Request::Info(m) => RequestView::Info(m@),
            Request::Finish(r) => RequestView::Finish(
                match r {
                    Ok(()) => Ok(()),
                    Err(e) => Err(e@),
                },
            ),
        }
    }
}

/// `a` comes before `b` in the lexicographic order of pairs of naturals, a
/// well-founded order: a run whose every step moves its measure down in it
/// ends.
pub open spec fn lex_below(a: (nat, nat), b: (nat, nat)) -> bool {
    a.0 < b.0 || (a.0 == b.0 && a.1 < b.1)
}

} // verus!
