use vstd::prelude::*;

use crate::cli::CommonOptions;
use crate::command_support::texts;
use crate::error::{AppError, ErrorView};
use crate::io_support::join_path;
use crate::path_syntax::join_fact;
use crate::protocol::lex_below;
use crate::text::{append_chars, chars_to_string, str_chars};

verus! {

/// The outside programs the tool looks for.
#[derive(Debug, Clone, Copy, PartialEq, Eq, Structural)]
pub enum Tool {
    Qpdf,
    Pdftoppm,
}

/// The program's name.
pub open spec fn spec_tool_name(tool: Tool) -> Seq<char> {
    match tool {
        Tool::Qpdf => "qpdf"@,
        Tool::Pdftoppm => "pdftoppm"@,
    }
}

/// The environment variable that names the program's executable.
pub open spec fn spec_env_var(tool: Tool) -> Seq<char> {
    match tool {
        Tool::Qpdf => "NATA_QPDF"@,
        Tool::Pdftoppm => "NATA_PDFTOPPM"@,
    }
}

/// The file names the program's executable may have in a directory of
/// `PATH`, in the order they are tried: on Windows the `.exe` name first.
pub open spec fn spec_executable_names(tool: Tool, windows: bool) -> Seq<Seq<char>> {
    if windows {
        seq![spec_tool_name(tool) + ".exe"@, spec_tool_name(tool)]
    } else {
        seq![spec_tool_name(tool)]
    }
}

/// The error when no executable of the program is found.
pub open spec fn spec_not_found(tool: Tool) -> ErrorView {
    match tool {
        Tool::Qpdf => ErrorView::QpdfNotFound,
        Tool::Pdftoppm => ErrorView::PdftoppmNotFound,
    }
}

/// The error when the chosen path is not an executable file.
pub open spec fn spec_not_executable(tool: Tool, path: Seq<char>) -> ErrorView {
    match tool {
        Tool::Qpdf => ErrorView::QpdfNotExecutable(path),
        Tool::Pdftoppm => ErrorView::PdftoppmNotExecutable(path),
    }
}

impl Tool {
    /// The program's name.
    pub fn name(self) -> (r: &'static str)
        ensures
            r@ == spec_tool_name(self),
    {
        proof {
            reveal_strlit("qpdf");
            reveal_strlit("pdftoppm");
        }
        match self {
            Tool::Qpdf => "qpdf",
            Tool::Pdftoppm => "pdftoppm",
        }
    }

    /// The environment variable that names the program's executable.
    pub fn env_var(self) -> (r: &'static str)
        ensures
            r@ == spec_env_var(self),
    {
        proof {
            reveal_strlit("NATA_QPDF");
            reveal_strlit("NATA_PDFTOPPM");
        }
        match self {
            Tool::Qpdf => "NATA_QPDF",
            Tool::Pdftoppm => "NATA_PDFTOPPM",
        }
    }

    /// The file names tried in each directory of `PATH`.
    pub fn executable_names(self, windows: bool) -> (r: Vec<String>)
        ensures
            texts(r@) == spec_executable_names(self, windows),
    {
        let name = self.name();
        let r = if windows {
            let mut exe = str_chars(name);
            append_chars(&mut exe, &str_chars(".exe"));
            vec![chars_to_string(&exe), name.to_owned()]
        } else {
            vec![name.to_owned()]
        };
        assert(texts(r@) =~= spec_executable_names(self, windows));
        r
    }

    fn not_found(self) -> (e: AppError)
        ensures
            e@ == spec_not_found(self),
    {
        match self {
            Tool::Qpdf => AppError::QpdfNotFound,
            Tool::Pdftoppm => AppError::PdftoppmNotFound,
        }
    }

    fn not_executable(self, path: String) -> (e: AppError)
        ensures
            e@ == spec_not_executable(self, path@),
    {
        match self {
            Tool::Qpdf => AppError::QpdfNotExecutable { path },
            Tool::Pdftoppm => AppError::PdftoppmNotExecutable { path },
        }
    }
}

/// What a lookup asks or answers: whether a path is an executable file,
/// whether a path is a file, or the executable it settled on, or why there is
/// none.
#[derive(Debug)]
pub enum DetectStep {
    CheckExecutable(String),
    CheckFile(String),
    Found(String),
    Failed(AppError),
}

/// A lookup step with its texts as character sequences.
pub enum DetectStepView {
    CheckExecutable(Seq<char>),
    CheckFile(Seq<char>),
    Found(Seq<char>),
    Failed(ErrorView),
}

impl View for DetectStep {
    type V = DetectStepView;

    open spec fn view(&self) -> DetectStepView {
        match self {
            DetectStep::CheckExecutable(p) => DetectStepView::CheckExecutable(p@),
            DetectStep::CheckFile(p) => DetectStepView::CheckFile(p@),
            DetectStep::Found(p) => DetectStepView::Found(p@),
            DetectStep::Failed(e) => DetectStepView::Failed(e@),
        }
    }
}

/// Where a lookup stands: checking a path that was named explicitly,
/// searching `PATH`, checking the found candidate once more, or done.
#[derive(Debug, Clone, Copy, PartialEq, Eq, Structural)]
pub enum DetectStage {
    Explicit,
    Search,
    Confirm,
    Finished,
}

/// A running lookup of an outside program's executable.
#[derive(Debug)]
pub struct Detection {
    tool: Tool,
    stage: DetectStage,
    candidates: Vec<String>,
    index: usize,
}

/// A lookup's state: the program, the stage, the paths it may choose in
/// order, and the one being checked.
pub struct DetectView {
    pub tool: Tool,
    pub stage: DetectStage,
    pub candidates: Seq<Seq<char>>,
    pub index: nat,
}

impl View for Detection {
    type V = DetectView;

    closed spec fn view(&self) -> DetectView {
        DetectView { tool: self.tool, stage: self.stage, candidates: texts(self.candidates@), index: self.index as nat }
    }
}

/// The index names a candidate while one is being checked.
pub open spec fn detect_wf(s: DetectView) -> bool {
    s.stage != DetectStage::Finished ==> s.index < s.candidates.len()
}

/// The candidates of a `PATH` search: candidate `i * n + j` is the `j`-th of
/// the `n` executable names joined to the `i`-th directory, as `join_fact`
/// states it, directory by directory in `PATH` order.
pub open spec fn path_candidates(dirs: Seq<Seq<char>>, names: Seq<Seq<char>>, cands: Seq<Seq<char>>) -> bool {
    &&& cands.len() == dirs.len() * names.len()
    &&& forall|i: int, j: int|
        0 <= i < dirs.len() && 0 <= j < names.len() ==> join_fact(
            #[trigger] dirs[i],
            #[trigger] names[j],
            cands[i * names.len() + j],
        )
}

/// The start of a lookup: a path given on the command line wins, then one
/// given by the environment variable, and such a path is only asked to be a
/// file; only without both is `PATH` searched, trying in each of its
/// directories in order each executable name in order. Nothing to search
/// means the program is not found.
pub open spec fn detect_start(
    tool: Tool,
    cli_path: Option<Seq<char>>,
    env_path: Option<Seq<char>>,
    path_dirs: Option<Seq<Seq<char>>>,
    windows: bool,
    t: DetectView,
    step: DetectStepView,
) -> bool {
    match (cli_path, env_path) {
        (Some(p), _) => t == DetectView { tool, stage: DetectStage::Explicit, candidates: seq![p], index: 0 }
            && step == DetectStepView::CheckFile(p),
        (None, Some(p)) => t == DetectView { tool, stage: DetectStage::Explicit, candidates: seq![p], index: 0 }
            && step == DetectStepView::CheckFile(p),
        (None, None) => match path_dirs {
            None => t.tool == tool && t.stage == DetectStage::Finished && step == DetectStepView::Failed(
                spec_not_found(tool),
            ),
            Some(dirs) => {
                &&& t.tool == tool
                &&& t.index == 0
                &&& path_candidates(dirs, spec_executable_names(tool, windows), t.candidates)
                &&& if t.candidates.len() == 0 {
                    t.stage == DetectStage::Finished && step == DetectStepView::Failed(spec_not_found(tool))
                } else {
                    t.stage == DetectStage::Search && step == DetectStepView::CheckExecutable(t.candidates[0])
                }
            },
        },
    }
}

/// One step of a lookup, given the answer to the question last asked. An
/// explicit path is taken if it is a file and refused if not. The search
/// moves on past candidates that are not executable files, fails after the
/// last one, and checks that the first one that is, is a file before taking
/// it.
pub open spec fn detect_next(s: DetectView, answer: bool, t: DetectView, step: DetectStepView) -> bool {
    let c = s.candidates[s.index as int];
    match s.stage {
        DetectStage::Explicit | DetectStage::Confirm => t == DetectView { stage: DetectStage::Finished, ..s } && if answer {
            step == DetectStepView::Found(c)
        } else {
            step == DetectStepView::Failed(spec_not_executable(s.tool, c))
        },
        DetectStage::Search => if answer {
            t == DetectView { stage: DetectStage::Confirm, ..s } && step == DetectStepView::CheckFile(c)
        } else if s.index + 1 < s.candidates.len() {
            t == DetectView { index: (s.index + 1) as nat, ..s } && step == DetectStepView::CheckExecutable(
                s.candidates[s.index + 1 as int],
            )
        } else {
            t == DetectView { stage: DetectStage::Finished, ..s } && step == DetectStepView::Failed(spec_not_found(s.tool))
        },
        DetectStage::Finished => false,
    }
}

/// A chosen path is taken only if it is a file.
fn validate_candidate(tool: Tool, path: String, is_file: bool) -> (r: Result<String, AppError>)
    ensures
        match r {
            Ok(p) => is_file && p@ == path@,
            Err(e) => !is_file && e@ == spec_not_executable(tool, path@),
        },
{
    if is_file {
        Ok(path)
    } else {
        Err(tool.not_executable(path))
    }
}

/// Each directory joined with each name, directory by directory.
fn candidates_in(dirs: &Vec<String>, names: &Vec<String>) -> (r: Vec<String>)
    ensures
        path_candidates(texts(dirs@), texts(names@), texts(r@)),
{
    let ghost ds = texts(dirs@);
    let ghost ns = texts(names@);
    let ghost n = names@.len() as int;
    let mut r: Vec<String> = Vec::new();
    let mut i: usize = 0;
    while i < dirs.len()
        invariant
            i <= dirs.len(),
            ds == texts(dirs@),
            ns == texts(names@),
            n == names@.len(),
            r@.len() == i * n,
            forall|a: int, b: int|
                0 <= a < i && 0 <= b < n ==> join_fact(#[trigger] ds[a], #[trigger] ns[b], r@[a * n + b]@),
        decreases dirs.len() - i,
    {
        let mut k: usize = 0;
        while k < names.len()
            invariant
                i < dirs.len(),
                k <= names.len(),
                ds == texts(dirs@),
                ns == texts(names@),
                n == names@.len(),
                r@.len() == i * n + k,
                forall|a: int, b: int|
                    0 <= a < i && 0 <= b < n ==> join_fact(#[trigger] ds[a], #[trigger] ns[b], r@[a * n + b]@),
                forall|b: int| 0 <= b < k ==> join_fact(ds[i as int], #[trigger] ns[b], r@[i * n + b]@),
            decreases names.len() - k,
        {
            let ghost before = r@;
            let c = join_path(dirs[i].as_str(), names[k].as_str());
            r.push(c);
            assert forall|a: int, b: int|
                0 <= a < i && 0 <= b < n implies join_fact(#[trigger] ds[a], #[trigger] ns[b], r@[a * n + b]@) by {
                assert(a * n + b < i * n) by (nonlinear_arith)
                    requires
                        0 <= a < i,
                        0 <= b < n,
                ;
                assert(r@[a * n + b] == before[a * n + b]);
            }
            assert forall|b: int| 0 <= b < k + 1 implies join_fact(ds[i as int], #[trigger] ns[b], r@[i * n + b]@) by {
                if b < k {
                    assert(r@[i * n + b] == before[i * n + b]);
                }
            }
            k += 1;
        }
        assert(r@.len() == (i + 1) * n) by (nonlinear_arith)
            requires
                r@.len() == i * n + n,
        ;
        assert forall|a: int, b: int|
            0 <= a < i + 1 && 0 <= b < n implies join_fact(#[trigger] ds[a], #[trigger] ns[b], r@[a * n + b]@) by {
            if a == i {
                assert(join_fact(ds[i as int], ns[b], r@[i * n + b]@));
            }
        }
        i += 1;
    }
    proof {
        assert(texts(r@).len() == ds.len() * ns.len());
        assert forall|a: int, b: int|
            0 <= a < ds.len() && 0 <= b < ns.len() implies join_fact(
            #[trigger] ds[a],
            #[trigger] ns[b],
            texts(r@)[a * ns.len() + b],
        ) by {
            assert(a * n + b < ds.len() * n) by (nonlinear_arith)
                requires
                    0 <= a < ds.len(),
                    0 <= b < n,
            ;
            assert(join_fact(ds[a], ns[b], r@[a * n + b]@));
        }
    }
    r
}

/// Starts looking for `tool`'s executable, from the path given on the
/// command line, the value of its environment variable, and the directories
/// of `PATH` in order (each `None` where absent).
pub fn locate(
    tool: Tool,
    cli_path: Option<String>,
    env_path: Option<String>,
    path_dirs: Option<Vec<String>>,
    windows: bool,
) -> (r: (Detection, DetectStep))
    ensures
        detect_wf(r.0@),
        detect_start(
            tool,
            crate::command_support::opt_text(cli_path),
            crate::command_support::opt_text(env_path),
            match path_dirs {
                Some(ds) => Some(texts(ds@)),
                None => None,
            },
            windows,
            r.0@,
            r.1@,
        ),
{
    let explicit = match cli_path {
        Some(p) => Some(p),
        None => env_path,
    };
    match explicit {
        Some(p) => {
            let d = Detection { tool, stage: DetectStage::Explicit, candidates: vec![p.clone()], index: 0 };
            assert(d@.candidates =~= seq![p@]);
            (d, DetectStep::CheckFile(p))
        },
        None => match path_dirs {
            None => (Detection { tool, stage: DetectStage::Finished, candidates: Vec::new(), index: 0 }, DetectStep::Failed(tool.not_found())),
            Some(dirs) => {
                let names = tool.executable_names(windows);
                let candidates = candidates_in(&dirs, &names);
                if candidates.len() == 0 {
                    (Detection { tool, stage: DetectStage::Finished, candidates, index: 0 }, DetectStep::Failed(tool.not_found()))
                } else {
                    let first = candidates[0].clone();
                    (Detection { tool, stage: DetectStage::Search, candidates, index: 0 }, DetectStep::CheckExecutable(first))
                }
            },
        },
    }
}

/// Starts looking for qpdf: `--qpdf`, then `NATA_QPDF`, then `PATH`.
pub fn detect(cli_path: Option<String>, env_path: Option<String>, path_dirs: Option<Vec<String>>, windows: bool) -> (r: (
    Detection,
    DetectStep,
))
    ensures
        detect_wf(r.0@),
        detect_start(
            Tool::Qpdf,
            crate::command_support::opt_text(cli_path),
            crate::command_support::opt_text(env_path),
            match path_dirs {
                Some(ds) => Some(texts(ds@)),
                None => None,
            },
            windows,
            r.0@,
            r.1@,
        ),
{
    locate(Tool::Qpdf, cli_path, env_path, path_dirs, windows)
}

impl Detection {
    /// Whether the lookup is over.
    pub fn is_finished(&self) -> (b: bool)
        ensures
            b == (self@.stage == DetectStage::Finished),
    {
        self.stage == DetectStage::Finished
    }

    /// Takes the answer to the question last asked (whether the path is an
    /// executable file, or whether it is a file) and returns the next step.
    pub fn resume(&mut self, answer: bool) -> (r: DetectStep)
        requires
            detect_wf(old(self)@),
            old(self)@.stage != DetectStage::Finished,
        ensures
            detect_wf(final(self)@),
            detect_next(old(self)@, answer, final(self)@, r@),
    {
        let c = self.candidates[self.index].clone();
        match self.stage {
            DetectStage::Explicit | DetectStage::Confirm => {
                self.stage = DetectStage::Finished;
                match validate_candidate(self.tool, c, answer) {
                    Ok(p) => DetectStep::Found(p),
                    Err(e) => DetectStep::Failed(e),
                }
            },
            DetectStage::Search => {
                if answer {
                    self.stage = DetectStage::Confirm;
                    DetectStep::CheckFile(c)
                } else if self.index < self.candidates.len() - 1 {
                    self.index = self.index + 1;
                    DetectStep::CheckExecutable(self.candidates[self.index].clone())
                } else {
                    self.stage = DetectStage::Finished;
                    DetectStep::Failed(self.tool.not_found())
                }
            },
            DetectStage::Finished => DetectStep::Failed(self.tool.not_found()),
        }
    }
}

/// The message that names the executable in use.
pub open spec fn spec_using_message(tool: Tool, path: Seq<char>) -> Seq<char> {
    "info: using "@ + spec_tool_name(tool) + " at "@ + path
}

/// The message naming the executable in use, shown only when verbose output
/// is asked for and not silenced by `--quiet`.
pub fn announce(tool: Tool, path: &str, common: &CommonOptions) -> (r: Option<String>)
    ensures
        match r {
            Some(m) => common.verbose && !common.quiet && m@ == spec_using_message(tool, path@),
            None => !(common.verbose && !common.quiet),
        },
{
    if common.verbose && !common.quiet {
        let mut m = str_chars("info: using ");
        append_chars(&mut m, &str_chars(tool.name()));
        append_chars(&mut m, &str_chars(" at "));
        append_chars(&mut m, &str_chars(path));
        Some(chars_to_string(&m))
    } else {
        None
    }
}

/// How far a lookup is from its end.
pub open spec fn detect_measure(s: DetectView) -> (nat, nat) {
    match s.stage {
        DetectStage::Search => (2, (s.candidates.len() - s.index) as nat),
        DetectStage::Explicit | DetectStage::Confirm => (1, 0),
        DetectStage::Finished => (0, 0),
    }
}

/// Every lookup ends: each step moves its measure down in a well-founded
/// order.
pub proof fn lemma_detect_ends(s: DetectView, answer: bool, t: DetectView, step: DetectStepView)
    requires
        detect_wf(s),
        detect_next(s, answer, t, step),
    ensures
        lex_below(detect_measure(t), detect_measure(s)),
{
}

/// What checking one chosen path comes to, when `is_file` says which paths
/// are files: the path if it is one, else it is not executable.
pub open spec fn spec_take_if_file(tool: Tool, p: Seq<char>, is_file: spec_fn(Seq<char>) -> bool) -> Result<
    Seq<char>,
    ErrorView,
> {
    if is_file(p) {
        Ok(p)
    } else {
        Err(spec_not_executable(tool, p))
    }
}

/// The result of searching the candidates from index `i` on: the first one
/// that is an executable file (by `is_exec`) and is confirmed as a file;
/// refused if it is not one; not found after the last candidate.
pub open spec fn spec_search_from(
    tool: Tool,
    cands: Seq<Seq<char>>,
    i: int,
    is_exec: spec_fn(Seq<char>) -> bool,
    is_file: spec_fn(Seq<char>) -> bool,
) -> Result<Seq<char>, ErrorView>
    decreases cands.len() - i,
{
    if i < 0 || i >= cands.len() {
        Err(spec_not_found(tool))
    } else if is_exec(cands[i]) {
        spec_take_if_file(tool, cands[i], is_file)
    } else {
        spec_search_from(tool, cands, i + 1, is_exec, is_file)
    }
}

/// The result of a whole lookup, given which paths are executable files and
/// which are files: the command-line path if given, else the environment's,
/// each taken if it is a file and refused otherwise with no other path
/// tried; else the first `PATH` candidate that is an executable file; else
/// not found (also when there is no `PATH`).
pub open spec fn spec_lookup(
    tool: Tool,
    cli_path: Option<Seq<char>>,
    env_path: Option<Seq<char>>,
    cands: Option<Seq<Seq<char>>>,
    is_exec: spec_fn(Seq<char>) -> bool,
    is_file: spec_fn(Seq<char>) -> bool,
) -> Result<Seq<char>, ErrorView> {
    match (cli_path, env_path) {
        (Some(p), _) => spec_take_if_file(tool, p, is_file),
        (None, Some(p)) => spec_take_if_file(tool, p, is_file),
        (None, None) => match cands {
            None => Err(spec_not_found(tool)),
            Some(cs) => spec_search_from(tool, cs, 0, is_exec, is_file),
        },
    }
}

/// What a lookup in state `s` that has just taken `step` will end with:
/// the step's result when it ends the lookup, else what the pending check and
/// the rest of the search come to.
pub open spec fn spec_lookup_outcome(
    s: DetectView,
    step: DetectStepView,
    is_exec: spec_fn(Seq<char>) -> bool,
    is_file: spec_fn(Seq<char>) -> bool,
) -> Result<Seq<char>, ErrorView> {
    match step {
        DetectStepView::Found(p) => Ok(p),
        DetectStepView::Failed(e) => Err(e),
        _ => match s.stage {
            DetectStage::Search => spec_search_from(s.tool, s.candidates, s.index as int, is_exec, is_file),
            _ => spec_take_if_file(s.tool, s.candidates[s.index as int], is_file),
        },
    }
}

/// The answer the host gives in state `s`, when `is_exec` and `is_file` say
/// which paths are executable files and which are files.
pub open spec fn spec_answer(s: DetectView, is_exec: spec_fn(Seq<char>) -> bool, is_file: spec_fn(Seq<char>) -> bool) -> bool {
    match s.stage {
        DetectStage::Search => is_exec(s.candidates[s.index as int]),
        _ => is_file(s.candidates[s.index as int]),
    }
}

/// The lookup as a whole: its start already determines, for any answers the
/// host gives, what it ends with, and that is `spec_lookup` (`--qpdf`, then
/// `NATA_QPDF`, then the `PATH` candidates: each executable name joined to
/// each directory, directory by directory).
pub proof fn lemma_lookup_start(
    tool: Tool,
    cli_path: Option<Seq<char>>,
    env_path: Option<Seq<char>>,
    path_dirs: Option<Seq<Seq<char>>>,
    windows: bool,
    t: DetectView,
    step: DetectStepView,
    is_exec: spec_fn(Seq<char>) -> bool,
    is_file: spec_fn(Seq<char>) -> bool,
)
    requires
        detect_start(tool, cli_path, env_path, path_dirs, windows, t, step),
    ensures
        cli_path is None && env_path is None ==> (path_dirs matches Some(ds) ==> path_candidates(
            ds,
            spec_executable_names(tool, windows),
            t.candidates,
        )),
        spec_lookup_outcome(t, step, is_exec, is_file) == spec_lookup(
            tool,
            cli_path,
            env_path,
            match path_dirs {
                Some(_) => Some(t.candidates),
                None => None,
            },
            is_exec,
            is_file,
        ),
{
}

/// Each step of a lookup keeps what it will end with, as long as the host
/// answers as `is_exec` and `is_file` say: so a lookup ends with
/// `spec_lookup` of what it started from.
pub proof fn lemma_lookup_step(
    s: DetectView,
    answer: bool,
    t: DetectView,
    step: DetectStepView,
    is_exec: spec_fn(Seq<char>) -> bool,
    is_file: spec_fn(Seq<char>) -> bool,
    pending: DetectStepView,
)
    requires
        detect_wf(s),
        detect_next(s, answer, t, step),
        answer == spec_answer(s, is_exec, is_file),
        pending is CheckFile || pending is CheckExecutable,
    ensures
        spec_lookup_outcome(t, step, is_exec, is_file) == spec_lookup_outcome(s, pending, is_exec, is_file),
{
    reveal_with_fuel(spec_search_from, 2);
}

} // verus!
