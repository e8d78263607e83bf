use vstd::prelude::*;

use crate::error::{AppError, ErrorView};
use crate::command_support::opt_text;
use crate::path_syntax::{join_fact, parent_fact, same_path_fact, stem_fact};
use crate::protocol::PathKind;
use crate::text::{
    append_chars, chars_eq, chars_to_string, decimal, lemma_decimal_injective, lemma_decimal_value, str_chars, trim,
    trim_chars, u64_to_decimal, views,
};

verus! {

// ------------------------------------------------------- output file names

/// The `k`-th name tried for an output: `base.ext` first (`k` is 1), then
/// `base-k.ext` for `k` from 2 on.
pub open spec fn candidate_name(base: Seq<char>, ext: Seq<char>, k: nat) -> Seq<char> {
    if k < 2 {
        base.push('.') + ext
    } else {
        base.push('-') + decimal(k) + seq!['.'] + ext
    }
}

/// `k` is the first try whose name is not in `used`.
pub open spec fn is_first_free(base: Seq<char>, ext: Seq<char>, used: Seq<Seq<char>>, k: nat) -> bool {
    &&& k >= 1
    &&& !used.contains(candidate_name(base, ext, k))
    &&& forall|j: nat| 1 <= j < k ==> used.contains(#[trigger] candidate_name(base, ext, j))
}

/// The index of the first try whose name is not in `used`.
pub open spec fn first_free(base: Seq<char>, ext: Seq<char>, used: Seq<Seq<char>>) -> nat {
    choose|k: nat| is_first_free(base, ext, used, k)
}

/// The names given to outputs with the bases `bases` and the extension `ext`,
/// in order: each output takes the first of its tries not taken by an earlier one.
pub open spec fn dedup_names(bases: Seq<Seq<char>>, ext: Seq<char>) -> Seq<Seq<char>>
    decreases bases.len(),
{
    if bases.len() == 0 {
        Seq::empty()
    } else {
        let prev = dedup_names(bases.drop_last(), ext);
        prev.push(candidate_name(bases.last(), ext, first_free(bases.last(), ext, prev)))
    }
}

proof fn lemma_candidate_injective(base: Seq<char>, ext: Seq<char>, j: nat, k: nat)
    requires
        j >= 1,
        k >= 1,
        candidate_name(base, ext, j) == candidate_name(base, ext, k),
    ensures
        j == k,
{
    lemma_decimal_value(j);
    lemma_decimal_value(k);
    assert(j < 2 ==> candidate_name(base, ext, j).len() == base.len() + 1 + ext.len());
    assert(k < 2 ==> candidate_name(base, ext, k).len() == base.len() + 1 + ext.len());
    assert(j >= 2 ==> candidate_name(base, ext, j).len() == base.len() + 2 + decimal(j).len() + ext.len());
    assert(k >= 2 ==> candidate_name(base, ext, k).len() == base.len() + 2 + decimal(k).len() + ext.len());
    if j >= 2 && k >= 2 {
        let cj = candidate_name(base, ext, j);
        let ck = candidate_name(base, ext, k);
        let lo: int = base.len() as int + 1;
        assert(decimal(j).len() == decimal(k).len());
        assert(cj.subrange(lo, lo + decimal(j).len() as int) =~= decimal(j));
        assert(ck.subrange(lo, lo + decimal(k).len() as int) =~= decimal(k));
        lemma_decimal_injective(j, k);
    } else if j >= 2 || k >= 2 {
        assert(candidate_name(base, ext, j).len() != candidate_name(base, ext, k).len());
    }
}

/// Among the first `used.len() + 1` tries, at least one name is free.
proof fn lemma_free_try_exists(base: Seq<char>, ext: Seq<char>, used: Seq<Seq<char>>)
    ensures
        exists|k: nat| 1 <= k <= used.len() + 1 && !used.contains(#[trigger] candidate_name(base, ext, k)),
{
    if forall|k: nat| 1 <= k <= used.len() + 1 ==> used.contains(#[trigger] candidate_name(base, ext, k)) {
        let tries = vstd::set_lib::set_int_range(1, used.len() as int + 2);
        let f = |k: int| candidate_name(base, ext, k as nat);
        vstd::set_lib::lemma_int_range(1, used.len() as int + 2);
        assert(vstd::relations::injective_on(f, tries)) by {
            assert forall|a: int, b: int|
                tries.contains(a) && tries.contains(b) && #[trigger] f(a) == #[trigger] f(b) implies a == b by {
                lemma_candidate_injective(base, ext, a as nat, b as nat);
            }
        }
        vstd::set_lib::lemma_map_size(tries, tries.map(f), f);
        assert(tries.map(f).subset_of(used.to_set())) by {
            assert forall|x: Seq<char>| tries.map(f).contains(x) implies used.to_set().contains(x) by {
                let k = choose|k: int| tries.contains(k) && f(k) == x;
                assert(used.contains(candidate_name(base, ext, k as nat)));
            }
        }
        used.lemma_cardinality_of_set();
        vstd::set_lib::lemma_len_subset(tries.map(f), used.to_set());
        assert(false);
    }
}

proof fn lemma_first_free_below(base: Seq<char>, ext: Seq<char>, used: Seq<Seq<char>>, k0: nat)
    requires
        k0 >= 1,
        !used.contains(candidate_name(base, ext, k0)),
    ensures
        exists|k: nat| k <= k0 && is_first_free(base, ext, used, k),
    decreases k0,
{
    if forall|j: nat| 1 <= j < k0 ==> used.contains(#[trigger] candidate_name(base, ext, j)) {
        assert(is_first_free(base, ext, used, k0));
    } else {
        let j = choose|j: nat| 1 <= j < k0 && !used.contains(#[trigger] candidate_name(base, ext, j));
        lemma_first_free_below(base, ext, used, j);
    }
}

/// The first free try exists, is unique, and lies within `used.len() + 1` tries.
pub proof fn lemma_first_free(base: Seq<char>, ext: Seq<char>, used: Seq<Seq<char>>)
    ensures
        is_first_free(base, ext, used, first_free(base, ext, used)),
        first_free(base, ext, used) <= used.len() + 1,
        forall|k: nat| is_first_free(base, ext, used, k) ==> k == first_free(base, ext, used),
{
    lemma_free_try_exists(base, ext, used);
    let k0 = choose|k: nat| 1 <= k <= used.len() + 1 && !used.contains(#[trigger] candidate_name(base, ext, k));
    lemma_first_free_below(base, ext, used, k0);
    let f = first_free(base, ext, used);
    assert forall|k: nat| is_first_free(base, ext, used, k) implies k == f by {
        if k < f {
            assert(used.contains(candidate_name(base, ext, k)));
        } else if f < k {
            assert(used.contains(candidate_name(base, ext, f)));
        }
    }
}

fn contains_name(used: &Vec<Vec<char>>, name: &Vec<char>) -> (b: bool)
    ensures
        b == views(used@).contains(name@),
{
    let mut i: usize = 0;
    while i < used.len()
        invariant
            i <= used.len(),
            forall|j: int| 0 <= j < i ==> used@[j]@ != name@,
        decreases used.len() - i,
    {
        if chars_eq(&used[i], name) {
            assert(views(used@)[i as int] == name@);
            return true;
        }
        i += 1;
    }
    assert(!views(used@).contains(name@)) by {
        if views(used@).contains(name@) {
            let j = choose|j: int| 0 <= j < views(used@).len() && views(used@)[j] == name@;
            assert(used@[j]@ == name@);
        }
    }
    false
}

fn with_duplicate_suffix(base: &Vec<char>, ext: &Vec<char>, k: u64) -> (r: Vec<char>)
    ensures
        r@ == candidate_name(base@, ext@, k as nat),
{
    let mut r: Vec<char> = Vec::new();
    append_chars(&mut r, base);
    if k < 2 {
        r.push('.');
        append_chars(&mut r, ext);
        assert(r@ =~= candidate_name(base@, ext@, k as nat));
    } else {
        r.push('-');
        append_chars(&mut r, &u64_to_decimal(k));
        r.push('.');
        append_chars(&mut r, ext);
        assert(r@ =~= candidate_name(base@, ext@, k as nat));
    }
    r
}

/// Gives every output a name of its own: the output with base `b` takes
/// `b.ext` if no earlier output took it, and otherwise the first of
/// `b-2.ext`, `b-3.ext`, ... that no earlier output took.
pub fn apply_duplicate_suffixes(bases: &Vec<Vec<char>>, ext: &Vec<char>) -> (r: Vec<Vec<char>>)
    ensures
        views(r@) == dedup_names(views(bases@), ext@),
{
    let ghost bs = views(bases@);
    let mut used: Vec<Vec<char>> = Vec::new();
    let mut i: usize = 0;
    assert(bs.take(0) =~= Seq::<Seq<char>>::empty());
    while i < bases.len()
        invariant
            i <= bases.len(),
            bs == views(bases@),
            used@.len() == i,
            views(used@) == dedup_names(bs.take(i as int), ext@),
        decreases bases.len() - i,
    {
        let ghost prev = views(used@);
        let ghost b = bases@[i as int]@;
        proof {
            lemma_first_free(b, ext@, prev);
        }
        let mut k: u64 = 1;
        let mut name = with_duplicate_suffix(&bases[i], ext, k);
        while contains_name(&used, &name)
            invariant
                prev == views(used@),
                used@.len() == i,
                i < bases.len(),
                b == bases@[i as int]@,
                1 <= k <= first_free(b, ext@, prev),
                first_free(b, ext@, prev) <= i + 1,
                is_first_free(b, ext@, prev, first_free(b, ext@, prev)),
                name@ == candidate_name(b, ext@, k as nat),
                forall|j: nat| 1 <= j < k ==> prev.contains(#[trigger] candidate_name(b, ext@, j)),
            decreases first_free(b, ext@, prev) - k,
        {
            if k == 1 {
                k = 2;
            } else {
                k += 1;
            }
            proof {
                if k > first_free(b, ext@, prev) {
                    assert(false);
                }
            }
            name = with_duplicate_suffix(&bases[i], ext, k);
        }
        proof {
            assert(is_first_free(b, ext@, prev, k as nat));
            lemma_first_free(b, ext@, prev);
        }
        assert(bs.take(i + 1).drop_last() =~= bs.take(i as int));
        assert(bs.take(i + 1).last() == b);
        used.push(name);
        assert(views(used@) =~= prev.push(candidate_name(b, ext@, first_free(b, ext@, prev))));
        i += 1;
    }
    assert(bs.take(bases.len() as int) =~= bs);
    used
}

/// Output names never collide: every output gets a name no other output has,
/// each name is one of its own output's tries, and an output whose plain name
/// `base.ext` was not taken by an earlier output keeps it.
pub proof fn lemma_dedup_names(bases: Seq<Seq<char>>, ext: Seq<char>)
    ensures
        dedup_names(bases, ext).len() == bases.len(),
        dedup_names(bases, ext).no_duplicates(),
        forall|i: int|
            0 <= i < bases.len() ==> #[trigger] dedup_names(bases, ext)[i] == candidate_name(
                bases[i],
                ext,
                first_free(bases[i], ext, dedup_names(bases, ext).take(i)),
            ),
        forall|i: int|
            0 <= i < bases.len() && !dedup_names(bases, ext).take(i).contains(
                candidate_name(bases[i], ext, 1),
            ) ==> #[trigger] dedup_names(bases, ext)[i] == candidate_name(bases[i], ext, 1),
    decreases bases.len(),
{
    if bases.len() > 0 {
        let init = bases.drop_last();
        let prev = dedup_names(init, ext);
        lemma_dedup_names(init, ext);
        let names = dedup_names(bases, ext);
        let n = bases.len() - 1;
        lemma_first_free(bases.last(), ext, prev);
        assert(names.take(n) =~= prev);
        assert forall|i: int| 0 <= i < n implies names.take(i) =~= prev.take(i) by {}
        assert forall|i: int| 0 <= i < bases.len() implies #[trigger] names[i] == candidate_name(
            bases[i],
            ext,
            first_free(bases[i], ext, names.take(i)),
        ) by {
            if i < n {
                assert(names.take(i) =~= prev.take(i));
                assert(bases[i] == init[i]);
            }
        }
        assert forall|i: int|
            0 <= i < bases.len() && !names.take(i).contains(
                candidate_name(bases[i], ext, 1),
            ) implies #[trigger] names[i] == candidate_name(bases[i], ext, 1) by {
            if i < n {
                assert(names.take(i) =~= prev.take(i));
                assert(bases[i] == init[i]);
            } else {
                lemma_first_free(bases[i], ext, names.take(i));
                assert(is_first_free(bases[i], ext, names.take(i), 1));
            }
        }
        assert forall|a: int, b: int| 0 <= a < b < names.len() implies names[a] != names[b] by {
            if b == n {
                assert(prev.contains(names[a]));
            }
        }
    }
}

/// Every name given to an output starts with its base and is longer.
pub proof fn lemma_dedup_names_extend_bases(bases: Seq<Seq<char>>, ext: Seq<char>)
    ensures
        forall|i: int|
            0 <= i < bases.len() ==> (#[trigger] dedup_names(bases, ext)[i]).len() > bases[i].len()
                && dedup_names(bases, ext)[i].subrange(0, bases[i].len() as int) == bases[i],
{
    lemma_dedup_names(bases, ext);
    assert forall|i: int| 0 <= i < bases.len() implies (#[trigger] dedup_names(bases, ext)[i]).len() > bases[i].len()
        && dedup_names(bases, ext)[i].subrange(0, bases[i].len() as int) == bases[i] by {
        let names = dedup_names(bases, ext);
        let k = first_free(bases[i], ext, names.take(i));
        assert(names[i] == candidate_name(bases[i], ext, k));
        assert(candidate_name(bases[i], ext, k).subrange(0, bases[i].len() as int) =~= bases[i]);
    }
}

// ------------------------------------------------------------- input stems

/// The stem an output name starts with: the input's file stem, trimmed, or
/// `input` when there is none or it is blank.
pub open spec fn spec_stem_or_default(stem: Option<Seq<char>>) -> Seq<char> {
    match stem {
        Some(s) => if trim(s).len() > 0 {
            trim(s)
        } else {
            "input"@
        },
        None => "input"@,
    }
}

/// The stem from an input's file stem, as `spec_stem_or_default` gives it.
pub fn stem_or_default(stem: Option<&str>) -> (r: String)
    ensures
        r@ == spec_stem_or_default(
            match stem {
                Some(s) => Some(s@),
                None => None,
            },
        ),
{
    match stem {
        Some(s) => {
            let t = trim_chars(&str_chars(s));
            if t.len() > 0 {
                chars_to_string(&t)
            } else {
                "input".to_owned()
            }
        },
        None => "input".to_owned(),
    }
}

/// The file stem of a path: `std::path::Path::file_stem`, where the path has
/// one and it is valid text. Its documentation: the stem of the file name,
/// which is the last component when that is a named one other than `..`;
/// the whole file name when it has no `.` or only a leading one, else what
/// precedes the last `.`. Stated for the Unix and the Windows reading of the
/// components (`stem_fact`); not stated for paths that start with two
/// separators, which Windows reads with a network, device or verbatim prefix.
#[verifier::external_body]
fn path_file_stem(path: &str) -> (r: Option<String>)
    ensures
        stem_fact(path@, opt_text(r)),
{
    std::path::Path::new(path).file_stem().and_then(|s| s.to_str()).map(|s| s.to_owned())
}

/// The stem that names the outputs made from `input`: its file stem, trimmed,
/// or `input`. It is never empty.
pub fn input_stem(input: &str) -> (r: String)
    ensures
        r@.len() > 0,
        exists|stem: Option<Seq<char>>| stem_fact(input@, stem) && r@ == #[trigger] spec_stem_or_default(stem),
{
    let stem = path_file_stem(input);
    let r = match &stem {
        Some(s) => stem_or_default(Some(s.as_str())),
        None => stem_or_default(None),
    };
    proof {
        reveal_strlit("input");
        assert(r@ == spec_stem_or_default(opt_text(stem)));
    }
    r
}

/// `std::path::Path::join` of a directory and a file name, as text. A
/// relative name without a prefix extends the directory: the name follows it,
/// after the platform's separator unless the directory is empty, already ends
/// in a separator or is a bare drive (`join_fact`). Not stated: directories
/// with a Windows verbatim prefix, whose components Windows writes anew, and
/// names with a root or a prefix, which replace the directory.
#[verifier::external_body]
pub(crate) fn join_path(dir: &str, name: &str) -> (r: String)
    ensures
        join_fact(dir@, name@, r@),
{
    std::path::Path::new(dir).join(name).to_string_lossy().into_owned()
}

// ------------------------------------------------------- path decisions

/// An input PDF must exist and be a file.
pub open spec fn spec_validate_input_pdf(path: Seq<char>, kind: PathKind) -> Result<(), ErrorView> {
    match kind {
        PathKind::Missing => Err(ErrorView::InputPdfNotFound(path)),
        PathKind::File => Ok(()),
        _ => Err(ErrorView::InputPdfNotFile(path)),
    }
}

/// Checks an input PDF, given what its path names.
pub fn validate_input_pdf(path: &str, kind: PathKind) -> (r: Result<(), AppError>)
    ensures
        match (r, spec_validate_input_pdf(path@, kind)) {
            (Ok(()), Ok(())) => true,
            (Err(e), Err(v)) => e@ == v,
            _ => false,
        },
{
    match kind {
        PathKind::Missing => Err(AppError::InputPdfNotFound { path: path.to_owned() }),
        PathKind::File => Ok(()),
        _ => Err(AppError::InputPdfNotFile { path: path.to_owned() }),
    }
}

/// The directory an output goes to, from the path's parent: the current
/// directory for a bare file name, and no directory at all for a root.
pub open spec fn spec_parent_dir(path: Seq<char>, parent: Option<Seq<char>>) -> Result<Seq<char>, ErrorView> {
    match parent {
        Some(p) => if p.len() == 0 {
            Ok("."@)
        } else {
            Ok(p)
        },
        None => Err(ErrorView::OutputDirectoryNotFound(path)),
    }
}

/// The directory an output goes to, given the parent of its path.
pub fn parent_dir_of(path: &str, parent: Option<&str>) -> (r: Result<String, AppError>)
    ensures
        match (r, spec_parent_dir(path@, match parent { Some(p) => Some(p@), None => None })) {
            (Ok(d), Ok(e)) => d@ == e,
            (Err(e), Err(v)) => e@ == v,
            _ => false,
        },
{
    match parent {
        Some(p) => {
            if p.is_empty() {
                Ok(".".to_owned())
            } else {
                Ok(p.to_owned())
            }
        },
        None => Err(AppError::OutputDirectoryNotFound { path: path.to_owned() }),
    }
}

/// `std::path::Path::parent` of a path, as text: the path without its final
/// component, `""` for a single relative component, nothing for the empty
/// path and for a root or a prefix. Stated by the components of the result,
/// for the Unix and the Windows reading (`parent_fact`); not stated for paths
/// that start with two separators.
#[verifier::external_body]
pub(crate) fn path_parent(path: &str) -> (r: Option<String>)
    ensures
        parent_fact(path@, opt_text(r)),
{
    std::path::Path::new(path).parent().map(|p| p.to_string_lossy().into_owned())
}

/// The directory an output goes to: `parent_dir_of` for the parent of its
/// path on this platform.
pub fn output_parent_dir(path: &str) -> (r: Result<String, AppError>)
    ensures
        exists|parent: Option<Seq<char>>|
            parent_fact(path@, parent) && match (r, #[trigger] spec_parent_dir(path@, parent)) {
                (Ok(d), Ok(e)) => d@ == e,
                (Err(e), Err(v)) => e@ == v,
                _ => false,
            },
{
    let parent = path_parent(path);
    let r = match &parent {
        Some(p) => parent_dir_of(path, Some(p.as_str())),
        None => parent_dir_of(path, None),
    };
    assert(parent_fact(path@, opt_text(parent)));
    r
}

/// A single output may be written: its directory exists, and the path is
/// free, or holds a file and overwriting was asked for.
pub open spec fn spec_validate_single_output(
    path: Seq<char>,
    parent: Seq<char>,
    parent_kind: PathKind,
    kind: PathKind,
    overwrite: bool,
) -> Result<(), ErrorView> {
    if parent_kind == PathKind::Missing {
        Err(ErrorView::OutputDirectoryNotFound(parent))
    } else if kind == PathKind::Missing {
        Ok(())
    } else if kind != PathKind::File {
        Err(ErrorView::OutputPathNotFile(path))
    } else if !overwrite {
        Err(ErrorView::OutputAlreadyExists(path))
    } else {
        Ok(())
    }
}

/// Checks a single output, given what its directory and its path name.
pub fn validate_single_output(
    path: &str,
    parent: &str,
    parent_kind: PathKind,
    kind: PathKind,
    overwrite: bool,
) -> (r: Result<(), AppError>)
    ensures
        match (r, spec_validate_single_output(path@, parent@, parent_kind, kind, overwrite)) {
            (Ok(()), Ok(())) => true,
            (Err(e), Err(v)) => e@ == v,
            _ => false,
        },
{
    if parent_kind == PathKind::Missing {
        Err(AppError::OutputDirectoryNotFound { path: parent.to_owned() })
    } else if kind == PathKind::Missing {
        Ok(())
    } else if kind != PathKind::File {
        Err(AppError::OutputPathNotFile { path: path.to_owned() })
    } else if !overwrite {
        Err(AppError::OutputAlreadyExists { path: path.to_owned() })
    } else {
        Ok(())
    }
}

/// An output directory: `Ok(true)` when it has to be created, `Ok(false)`
/// when it exists, an error when the path names something else.
pub open spec fn spec_output_directory(path: Seq<char>, kind: PathKind) -> Result<bool, ErrorView> {
    match kind {
        PathKind::Missing => Ok(true),
        PathKind::Directory => Ok(false),
        _ => Err(ErrorView::OutputPathNotDirectory(path)),
    }
}

/// Checks an output directory, given what its path names; says whether it
/// still has to be created.
pub fn ensure_output_directory(path: &str, kind: PathKind) -> (r: Result<bool, AppError>)
    ensures
        match (r, spec_output_directory(path@, kind)) {
            (Ok(b), Ok(c)) => b == c,
            (Err(e), Err(v)) => e@ == v,
            _ => false,
        },
{
    match kind {
        PathKind::Missing => Ok(true),
        PathKind::Directory => Ok(false),
        _ => Err(AppError::OutputPathNotDirectory { path: path.to_owned() }),
    }
}

/// The output must not be one of the inputs: inputs are compared in order,
/// by their canonical paths, with the output's canonical path (or the output
/// itself when it has none). An input without a canonical path is invalid.
/// `same[i]` is what comparing the `i`-th input's canonical path with the
/// output's gave.
pub open spec fn spec_outputs_differ(
    output: Seq<char>,
    inputs: Seq<Seq<char>>,
    canon_inputs: Seq<Result<Seq<char>, Seq<char>>>,
    same: Seq<bool>,
) -> Result<(), ErrorView>
    decreases inputs.len(),
{
    if inputs.len() == 0 || canon_inputs.len() == 0 || same.len() == 0 {
        Ok(())
    } else {
        match spec_outputs_differ(output, inputs.drop_last(), canon_inputs.drop_last(), same.drop_last()) {
            Err(v) => Err(v),
            Ok(()) => match canon_inputs.last() {
                Err(m) => Err(ErrorView::InputPdfInvalid(inputs.last(), "failed to resolve input path: "@ + m)),
                Ok(_) => if same.last() {
                    Err(ErrorView::OutputPathMatchesInput(output))
                } else {
                    Ok(())
                },
            },
        }
    }
}

/// The path an output is compared as: its canonical path, or the output as
/// given when it has none.
pub open spec fn compared_path(output: Seq<char>, canon_output: Result<Seq<char>, Seq<char>>) -> Seq<char> {
    match canon_output {
        Ok(c) => c,
        Err(_) => output,
    }
}

/// `same` holds, for each input with a canonical path, what comparing that
/// path with `out` as paths gives.
pub open spec fn same_paths(out: Seq<char>, canon_inputs: Seq<Result<Seq<char>, Seq<char>>>, same: Seq<bool>) -> bool {
    &&& same.len() == canon_inputs.len()
    &&& forall|i: int|
        0 <= i < same.len() ==> (canon_inputs[i] matches Ok(c) ==> same_path_fact(c, out, #[trigger] same[i]))
}

/// The output is found to differ from the inputs exactly when every input
/// has a canonical path and none of them compared equal to the output's.
pub proof fn lemma_outputs_differ(
    output: Seq<char>,
    inputs: Seq<Seq<char>>,
    canon_inputs: Seq<Result<Seq<char>, Seq<char>>>,
    same: Seq<bool>,
)
    requires
        inputs.len() == canon_inputs.len(),
        same.len() == canon_inputs.len(),
    ensures
        spec_outputs_differ(output, inputs, canon_inputs, same) is Ok <==> forall|i: int|
            0 <= i < inputs.len() ==> (#[trigger] canon_inputs[i] is Ok && !same[i]),
    decreases inputs.len(),
{
    if inputs.len() > 0 {
        lemma_outputs_differ(output, inputs.drop_last(), canon_inputs.drop_last(), same.drop_last());
        let n = inputs.len() - 1;
        assert forall|i: int| 0 <= i < n implies #[trigger] canon_inputs.drop_last()[i] == canon_inputs[i]
            && same.drop_last()[i] == same[i] by {}
        if spec_outputs_differ(output, inputs, canon_inputs, same) is Ok {
            assert forall|i: int| 0 <= i < inputs.len() implies (#[trigger] canon_inputs[i] is Ok && !same[i]) by {
                if i < n {
                    assert(canon_inputs.drop_last()[i] == canon_inputs[i] && same.drop_last()[i] == same[i]);
                }
            }
        } else {
            if spec_outputs_differ(output, inputs.drop_last(), canon_inputs.drop_last(), same.drop_last()) is Err {
                let i = choose|i: int|
                    0 <= i < n && !(#[trigger] canon_inputs.drop_last()[i] is Ok && !same.drop_last()[i]);
                assert(canon_inputs.drop_last()[i] == canon_inputs[i] && same.drop_last()[i] == same[i]);
            } else {
                assert(canon_inputs.last() == canon_inputs[n]);
            }
        }
    }
}

/// The canonical forms of some paths, as texts.
pub open spec fn canon_views(v: Seq<Result<String, String>>) -> Seq<Result<Seq<char>, Seq<char>>> {
    Seq::new(
        v.len(),
        |i: int|
            match v[i] {
                Ok(c) => Ok(c@),
                Err(m) => Err(m@),
            },
    )
}

/// `==` on two paths: `std::path::Path::new(a) == std::path::Path::new(b)`,
/// which compares their components. Stated for equal texts, and for the
/// Unix and the Windows reading where that is modelled (`same_path_fact`).
/// Not stated for two paths on drives written differently: `c:` and `C:` may
/// be taken as the same drive.
#[verifier::external_body]
pub(crate) fn same_path(a: &str, b: &str) -> (r: bool)
    ensures
        same_path_fact(a@, b@, r),
{
    std::path::Path::new(a) == std::path::Path::new(b)
}

/// Checks that the output is none of the inputs, given the canonical form of
/// the output followed by those of the inputs; each input's canonical path
/// is compared with the output's as paths.
pub fn ensure_output_differs(output: &str, inputs: &Vec<String>, canonical: &Vec<Result<String, String>>) -> (r: Result<(), AppError>)
    requires
        canonical@.len() == inputs@.len() + 1,
    ensures
        exists|same: Seq<bool>|
            same_paths(compared_path(output@, canon_views(canonical@)[0]), canon_views(canonical@).skip(1), same)
                && match (r, #[trigger] spec_outputs_differ(
                output@,
                crate::command_support::texts(inputs@),
                canon_views(canonical@).skip(1),
                same,
            )) {
                (Ok(()), Ok(())) => true,
                (Err(e), Err(v)) => e@ == v,
                _ => false,
            },
{
    let ghost cv = canon_views(canonical@);
    let ghost ins = crate::command_support::texts(inputs@);
    let ghost out = compared_path(output@, cv[0]);
    let out_text: &str = match &canonical[0] {
        Ok(c) => c.as_str(),
        Err(_) => output,
    };
    let mut same: Vec<bool> = Vec::new();
    let mut k: usize = 0;
    while k < inputs.len()
        invariant
            k <= inputs.len(),
            canonical@.len() == inputs@.len() + 1,
            cv == canon_views(canonical@),
            out_text@ == out,
            same@.len() == k,
            forall|j: int| 0 <= j < k ==> (cv.skip(1)[j] matches Ok(c) ==> same_path_fact(c, out, #[trigger] same@[j])),
        decreases inputs.len() - k,
    {
        let b = match &canonical[k + 1] {
            Ok(c) => same_path(c.as_str(), out_text),
            Err(_) => false,
        };
        assert(cv.skip(1)[k as int] == cv[k + 1]);
        same.push(b);
        k += 1;
    }
    assert(same_paths(out, cv.skip(1), same@));
    let mut i: usize = 0;
    assert(ins.take(0) =~= Seq::<Seq<char>>::empty());
    while i < inputs.len()
        invariant
            i <= inputs.len(),
            canonical@.len() == inputs@.len() + 1,
            same@.len() == inputs@.len(),
            cv == canon_views(canonical@),
            out == compared_path(output@, cv[0]),
            same_paths(out, cv.skip(1), same@),
            ins == crate::command_support::texts(inputs@),
            spec_outputs_differ(output@, ins.take(i as int), cv.skip(1).take(i as int), same@.take(i as int)) == Ok::<
                (),
                ErrorView,
            >(()),
        decreases inputs.len() - i,
    {
        assert(ins.take(i + 1).drop_last() =~= ins.take(i as int));
        assert(cv.skip(1).take(i + 1).drop_last() =~= cv.skip(1).take(i as int));
        assert(same@.take(i + 1).drop_last() =~= same@.take(i as int));
        assert(cv.skip(1).take(i + 1).last() == cv[i + 1]);
        match &canonical[i + 1] {
            Err(m) => {
                let mut detail = str_chars("failed to resolve input path: ");
                append_chars(&mut detail, &str_chars(m.as_str()));
                proof {
                    lemma_outputs_differ_prefix_error(output@, ins, cv.skip(1), same@, i + 1);
                }
                return Err(AppError::InputPdfInvalid { path: inputs[i].clone(), detail: chars_to_string(&detail) });
            },
            Ok(_) => {
                if same[i] {
                    proof {
                        lemma_outputs_differ_prefix_error(output@, ins, cv.skip(1), same@, i + 1);
                    }
                    return Err(AppError::OutputPathMatchesInput { path: output.to_owned() });
                }
            },
        }
        i += 1;
    }
    assert(ins.take(inputs.len() as int) =~= ins);
    assert(cv.skip(1).take(inputs.len() as int) =~= cv.skip(1));
    assert(same@.take(inputs.len() as int) =~= same@);
    Ok(())
}

proof fn lemma_outputs_differ_prefix_error(
    output: Seq<char>,
    inputs: Seq<Seq<char>>,
    canon_inputs: Seq<Result<Seq<char>, Seq<char>>>,
    same: Seq<bool>,
    k: int,
)
    requires
        0 <= k <= inputs.len(),
        inputs.len() == canon_inputs.len(),
        same.len() == inputs.len(),
        spec_outputs_differ(output, inputs.take(k), canon_inputs.take(k), same.take(k)) is Err,
    ensures
        spec_outputs_differ(output, inputs, canon_inputs, same) == spec_outputs_differ(
            output,
            inputs.take(k),
            canon_inputs.take(k),
            same.take(k),
        ),
    decreases inputs.len() - k,
{
    if k < inputs.len() {
        assert(inputs.take(k + 1).drop_last() =~= inputs.take(k));
        assert(canon_inputs.take(k + 1).drop_last() =~= canon_inputs.take(k));
        assert(same.take(k + 1).drop_last() =~= same.take(k));
        lemma_outputs_differ_prefix_error(output, inputs, canon_inputs, same, k + 1);
    } else {
        assert(inputs.take(k) =~= inputs);
        assert(canon_inputs.take(k) =~= canon_inputs);
        assert(same.take(k) =~= same);
    }
}


/// The first `n` paths are pairwise different.
pub open spec fn distinct_upto(paths: Seq<Seq<char>>, n: int) -> bool {
    forall|i: int, j: int| 0 <= i < j < n ==> #[trigger] paths[i] != #[trigger] paths[j]
}

// ------------------------------------------------------------------ laws

/// An existing output is never replaced unless overwriting was asked for,
/// and even then only a file is; nothing is written into a directory that
/// does not exist.
pub proof fn lemma_output_protection(
    path: Seq<char>,
    parent: Seq<char>,
    parent_kind: PathKind,
    kind: PathKind,
    overwrite: bool,
)
    ensures
        kind != PathKind::Missing && !overwrite ==> spec_validate_single_output(path, parent, parent_kind, kind, overwrite) is Err,
        kind != PathKind::Missing && kind != PathKind::File ==> spec_validate_single_output(
            path,
            parent,
            parent_kind,
            kind,
            overwrite,
        ) is Err,
        parent_kind == PathKind::Missing ==> spec_validate_single_output(path, parent, parent_kind, kind, overwrite) is Err,
        parent_kind != PathKind::Missing && kind == PathKind::Missing ==> spec_validate_single_output(
            path,
            parent,
            parent_kind,
            kind,
            overwrite,
        ) is Ok,
{
}

} // verus!
