use vstd::prelude::*;

use crate::command_support::{opt_text, path_extension, spec_stderr_summary, stderr_summary, texts};
use crate::error::{AppError, ErrorView};
use crate::io_support::{path_parent, same_path};
use crate::path_syntax::{extension_fact, parent_fact, same_path_fact};
use crate::protocol::{Invocation, InvocationView, PathKind, ProcessOutcome};
use crate::text::{chars_eq_ignore_ascii_case, chars_to_string, decimal, eq_ignore_ascii_case, str_chars, u32_to_decimal};

verus! {

/// Runs pdftoppm: builds its command lines and reads what its runs and the
/// files they leave behind report.
#[derive(Debug, Clone)]
pub struct PdftoppmRunner {
    executable: String,
}

/// The name of a page rendering in error messages.
pub open spec fn render_operation() -> Seq<char> {
    "render_page_to_png"@
}

/// `pdftoppm -f <page> -l <page> -r <dpi> -png <input> <prefix>`: renders the
/// one page at `dpi` into a PNG file whose name starts with `prefix`.
pub open spec fn render_page_view(exe: Seq<char>, input: Seq<char>, page: u32, dpi: u32, prefix: Seq<char>) -> InvocationView {
    InvocationView {
        executable: exe,
        args: seq![
            "-f"@,
            decimal(page as nat),
            "-l"@,
            decimal(page as nat),
            "-r"@,
            decimal(dpi as nat),
            "-png"@,
            input,
            prefix,
        ],
        stdout_to_temp_file: false,
    }
}

/// What a rendering run reports: success, or why it failed.
pub open spec fn spec_render_outcome(o: ProcessOutcome) -> Result<(), ErrorView> {
    match o {
        ProcessOutcome::Failed(e) => Err(ErrorView::PdftoppmExecutionFailed(render_operation(), e@)),
        ProcessOutcome::Exited { success, stdout, stderr } => if !success {
            Err(ErrorView::PdftoppmCommandFailed(render_operation(), spec_stderr_summary("pdftoppm"@, stderr@)))
        } else {
            Ok(())
        },
    }
}

/// The failure reported when the rendering left no single PNG file.
pub open spec fn missing_png() -> ErrorView {
    ErrorView::PdftoppmCommandFailed(render_operation(), "pdftoppm did not produce the expected PNG output"@)
}

/// The failure reported when the PNG file is not where it was asked for.
pub open spec fn misplaced_png() -> ErrorView {
    ErrorView::PdftoppmCommandFailed(render_operation(), "pdftoppm produced an unexpected PNG output path"@)
}

/// An extension that marks a PNG file: `png` in any ASCII case.
pub open spec fn is_png_extension(ext: Option<Seq<char>>) -> bool {
    match ext {
        Some(e) => eq_ignore_ascii_case(e, "png"@),
        None => false,
    }
}

/// Entry `k` is the one and only PNG file among entries with these extensions.
pub open spec fn only_png(exts: Seq<Option<Seq<char>>>, k: int) -> bool {
    &&& 0 <= k < exts.len()
    &&& is_png_extension(exts[k])
    &&& forall|j: int| 0 <= j < exts.len() && j != k ==> !is_png_extension(#[trigger] exts[j])
}

/// The PNG file a rendering left among the entries of its directory (with
/// their extensions): the only one, or none when there are none or several.
pub open spec fn spec_single_png(paths: Seq<Seq<char>>, exts: Seq<Option<Seq<char>>>) -> Option<Seq<char>> {
    if exists|k: int| only_png(exts, k) {
        Some(paths[choose|k: int| only_png(exts, k)])
    } else {
        None
    }
}

/// Whether an extension marks a PNG file.
pub fn png_extension(ext: Option<&str>) -> (b: bool)
    ensures
        b == is_png_extension(
            match ext {
                Some(e) => Some(e@),
                None => None,
            },
        ),
{
    match ext {
        Some(e) => chars_eq_ignore_ascii_case(&str_chars(e), &str_chars("png")),
        None => false,
    }
}

/// The only entry whose extension marks a PNG file, if there is exactly one.
pub fn select_single_png(paths: &Vec<String>, exts: &Vec<Option<String>>) -> (r: Option<String>)
    requires
        paths@.len() == exts@.len(),
    ensures
        r matches Some(p) ==> Some(p@) == spec_single_png(texts(paths@), ext_views(exts@)),
        r is None ==> spec_single_png(texts(paths@), ext_views(exts@)) is None,
{
    let ghost ev = ext_views(exts@);
    let mut found: Option<usize> = None;
    let mut count: usize = 0;
    let mut i: usize = 0;
    while i < exts.len()
        invariant
            i <= exts.len(),
            paths@.len() == exts@.len(),
            ev == ext_views(exts@),
            count <= i,
            count == 0 ==> found is None && forall|j: int| 0 <= j < i ==> !is_png_extension(#[trigger] ev[j]),
            count == 1 ==> (found matches Some(k) && k < i && is_png_extension(ev[k as int]) && forall|j: int|
                0 <= j < i && j != k ==> !is_png_extension(#[trigger] ev[j])),
            count >= 2 ==> exists|a: int, b: int|
                0 <= a < b < i && is_png_extension(#[trigger] ev[a]) && is_png_extension(#[trigger] ev[b]),
        decreases exts.len() - i,
    {
        let png = match &exts[i] {
            Some(e) => png_extension(Some(e.as_str())),
            None => png_extension(None),
        };
        assert(png == is_png_extension(ev[i as int]));
        if png {
            if count == 1 {
                let k = found.unwrap();
                assert(is_png_extension(ev[k as int]) && is_png_extension(ev[i as int]));
            }
            if count == 0 {
                found = Some(i);
            }
            if count < 2 {
                count = count + 1;
            }
        }
        i += 1;
    }
    if count == 1 {
        let k = found.unwrap();
        assert(only_png(ev, k as int));
        assert forall|m: int| only_png(ev, m) implies m == k as int by {
            if m != k as int {
                assert(!is_png_extension(ev[m]));
            }
        }
        Some(paths[k].clone())
    } else {
        assert forall|m: int| !only_png(ev, m) by {
            if count >= 2 {
                let (a, b) = choose|a: int, b: int|
                    0 <= a < b < exts.len() && is_png_extension(#[trigger] ev[a]) && is_png_extension(#[trigger] ev[b]);
                if only_png(ev, m) {
                    if m != a {
                        assert(!is_png_extension(ev[a]));
                    } else {
                        assert(!is_png_extension(ev[b]));
                    }
                }
            }
        }
        None
    }
}

/// The extensions of some paths, as texts.
pub open spec fn ext_views(v: Seq<Option<String>>) -> Seq<Option<Seq<char>>> {
    Seq::new(
        v.len(),
        |i: int|
            match v[i] {
                Some(e) => Some(e@),
                None => None,
            },
    )
}

/// The PNG file a rendering left in its directory, from the paths of the
/// directory's entries: the only one whose extension (as this platform reads
/// it) is `png` in any case, or none.
pub fn find_generated_png(entries: &Vec<String>) -> (r: Option<String>)
    ensures
        exists|exts: Seq<Option<Seq<char>>>|
            exts.len() == entries@.len() && (forall|i: int|
                0 <= i < exts.len() ==> extension_fact(#[trigger] entries@[i]@, exts[i])) && match r {
                Some(p) => Some(p@) == #[trigger] spec_single_png(texts(entries@), exts),
                None => spec_single_png(texts(entries@), exts) is None,
            },
{
    let mut exts: Vec<Option<String>> = Vec::new();
    let mut i: usize = 0;
    while i < entries.len()
        invariant
            i <= entries.len(),
            exts@.len() == i,
            forall|j: int| 0 <= j < i ==> extension_fact(#[trigger] entries@[j]@, ext_views(exts@)[j]),
        decreases entries.len() - i,
    {
        let e = path_extension(entries[i].as_str());
        exts.push(e);
        i += 1;
        assert forall|j: int| 0 <= j < i implies extension_fact(#[trigger] entries@[j]@, ext_views(exts@)[j]) by {
            if j == i - 1 {
                assert(ext_views(exts@)[j] == opt_text(e));
            } else {
                assert(ext_views(exts@)[j] == ext_views(exts@.drop_last())[j]);
            }
        }
    }
    let r = select_single_png(entries, &exts);
    assert(ext_views(exts@).len() == entries@.len());
    r
}

/// What the found PNG file comes to: it must exist and lie directly in the
/// rendering's directory (`in_workdir`: its parent, compared as a path, is
/// that directory).
pub open spec fn spec_generated_png(found: Option<Seq<char>>, in_workdir: bool) -> Result<Seq<char>, ErrorView> {
    match found {
        None => Err(missing_png()),
        Some(g) => if !in_workdir {
            Err(misplaced_png())
        } else {
            Ok(g)
        },
    }
}

/// Whether `in_workdir` is what comparing the found PNG file's parent with
/// the rendering's directory as paths gives (false when it has no parent).
pub open spec fn parent_compared(found_parent: Option<Seq<char>>, workdir: Seq<char>, in_workdir: bool) -> bool {
    match found_parent {
        Some(p) => same_path_fact(p, workdir, in_workdir),
        None => !in_workdir,
    }
}

/// Checks the found PNG file against the rendering's directory, given the
/// parent of its path, which is compared with the directory as a path.
pub fn check_generated_png(found: Option<String>, found_parent: Option<String>, workdir: &str) -> (r: Result<String, AppError>)
    ensures
        exists|in_workdir: bool|
            parent_compared(opt_text(found_parent), workdir@, in_workdir) && match (r, #[trigger] spec_generated_png(
                opt_text(found),
                in_workdir,
            )) {
                (Ok(g), Ok(h)) => g@ == h,
                (Err(e), Err(v)) => e@ == v,
                _ => false,
            },
{
    let in_workdir = match &found_parent {
        Some(p) => same_path(p.as_str(), workdir),
        None => false,
    };
    assert(parent_compared(opt_text(found_parent), workdir@, in_workdir));
    let ghost fv = opt_text(found);
    let r = match found {
        None => Err(
            AppError::PdftoppmCommandFailed {
                operation: "render_page_to_png".to_owned(),
                detail: "pdftoppm did not produce the expected PNG output".to_owned(),
            },
        ),
        Some(g) => {
            if !in_workdir {
                Err(
                    AppError::PdftoppmCommandFailed {
                        operation: "render_page_to_png".to_owned(),
                        detail: "pdftoppm produced an unexpected PNG output path".to_owned(),
                    },
                )
            } else {
                Ok(g)
            }
        },
    };
    assert(match (r, spec_generated_png(fv, in_workdir)) {
        (Ok(g), Ok(h)) => g@ == h,
        (Err(e), Err(v)) => e@ == v,
        _ => false,
    });
    r
}

/// The found PNG file must be a file.
pub open spec fn spec_png_kind(kind: PathKind) -> Result<(), ErrorView> {
    if kind == PathKind::File {
        Ok(())
    } else {
        Err(missing_png())
    }
}

/// Checks what the found PNG file's path names.
pub fn check_png_kind(kind: PathKind) -> (r: Result<(), AppError>)
    ensures
        match (r, spec_png_kind(kind)) {
            (Ok(()), Ok(())) => true,
            (Err(e), Err(v)) => e@ == v,
            _ => false,
        },
{
    if kind == PathKind::File {
        Ok(())
    } else {
        Err(
            AppError::PdftoppmCommandFailed {
                operation: "render_page_to_png".to_owned(),
                detail: "pdftoppm did not produce the expected PNG output".to_owned(),
            },
        )
    }
}

/// The directory a rendering works in is made next to `output`: in its
/// parent directory, or in the current directory when it has none.
pub open spec fn spec_work_base(parent: Option<Seq<char>>) -> Seq<char> {
    match parent {
        Some(p) => p,
        None => "."@,
    }
}

/// The directory next to which the rendering of `output` works.
pub fn work_base(output: &str) -> (r: String)
    ensures
        exists|parent: Option<Seq<char>>| parent_fact(output@, parent) && r@ == #[trigger] spec_work_base(parent),
{
    match path_parent(output) {
        Some(p) => {
            assert(p@ == spec_work_base(Some(p@)));
            assert(parent_fact(output@, Some(p@)));
            p
        },
        None => {
            let r = ".".to_owned();
            assert(r@ == spec_work_base(None));
            r
        },
    }
}

impl PdftoppmRunner {
    pub fn new(executable: String) -> (r: PdftoppmRunner)
        ensures
            r.executable_view() == executable@,
    {
        PdftoppmRunner { executable }
    }

    /// The pdftoppm executable this runner starts.
    pub fn executable(&self) -> (r: &str)
        ensures
            r@ == self.executable_view(),
    {
        self.executable.as_str()
    }

    /// The pdftoppm executable this runner starts.
    pub closed spec fn executable_view(&self) -> Seq<char> {
        self.executable@
    }

    /// The run that renders `page` of `input` at `dpi` to a PNG file named
    /// after `prefix`.
    pub fn render_page_command(&self, input: &str, page: u32, dpi: u32, prefix: &str) -> (r: Invocation)
        ensures
            r@ == render_page_view(self.executable_view(), input@, page, dpi, prefix@),
    {
        let p = chars_to_string(&u32_to_decimal(page));
        let d = chars_to_string(&u32_to_decimal(dpi));
        let r = Invocation {
            executable: self.executable.clone(),
            args: vec![
                "-f".to_owned(),
                p.clone(),
                "-l".to_owned(),
                p,
                "-r".to_owned(),
                d,
                "-png".to_owned(),
                input.to_owned(),
                prefix.to_owned(),
            ],
            stdout_to_temp_file: false,
        };
        assert(texts(r.args@) =~= render_page_view(self.executable_view(), input@, page, dpi, prefix@).args);
        r
    }

    /// The result of a rendering run.
    pub fn render_outcome(&self, outcome: &ProcessOutcome) -> (r: Result<(), AppError>)
        ensures
            match (r, spec_render_outcome(*outcome)) {
                (Ok(()), Ok(())) => true,
                (Err(e), Err(v)) => e@ == v,
                _ => false,
            },
    {
        match outcome {
            ProcessOutcome::Failed(e) => Err(
                AppError::PdftoppmExecutionFailed { operation: "render_page_to_png".to_owned(), source: e.clone() },
            ),
            ProcessOutcome::Exited { success, stdout: _, stderr } => {
                if !*success {
                    Err(
                        AppError::PdftoppmCommandFailed {
                            operation: "render_page_to_png".to_owned(),
                            detail: stderr_summary("pdftoppm", stderr.as_slice()),
                        },
                    )
                } else {
                    Ok(())
                }
            },
        }
    }
}

} // verus!
