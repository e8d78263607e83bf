use vstd::prelude::*;

use crate::cli::{CommonOptions, SplitArgs};
use crate::error::{AppError, ErrorView};
use crate::io_support::{
    apply_duplicate_suffixes, dedup_names, distinct_upto, ensure_output_directory, input_stem, lemma_dedup_names_extend_bases, join_path, lemma_dedup_names,
    output_parent_dir, spec_output_directory, spec_parent_dir, spec_stem_or_default,
    spec_validate_input_pdf, spec_validate_single_output, validate_input_pdf, validate_single_output,
};
use crate::path_syntax::{
    all_joined, inside_and_distinct, join_fact, verbatim_like, lemma_all_joined, lemma_stem_prefixed_plain,
    parent_fact, plain_name, stem_fact,
};
use crate::page_spec::{
    as_ints, failure_view, lemma_qpdf_range_selects, lemma_qpdf_reads_span, lemma_rules_accept_resolution,
    qpdf_part_pages, qpdf_parts_pages, qpdf_range_pages, reports, spec_parse, spec_qpdf_range, spec_resolve,
    spec_validate_rules, PageFailure, PageSpec, PageSpecRules,
};
use crate::protocol::{lex_below, PathKind, Reply, Request, RequestView};
use crate::qpdf_runner::{
    extract_pages_view, inspect_strict_view, show_npages_view, spec_inspect_strict, spec_qpdf_write,
    spec_show_npages, QpdfRunner,
};
use crate::strict::{enforce_on_input, spec_strict_outcome, strict_info, strict_info_message};
use crate::command_support::texts;
use crate::text::{
    append_chars, chars_eq, chars_to_string, decimal, is_whitespace, spec_is_whitespace, str_chars, trim,
    trim_chars, u32_to_decimal, views,
};

verus! {

/// One output of a split: where it goes, its file name, and the qpdf range of
/// the pages it holds.
#[derive(Debug, Clone)]
pub struct SplitPlanEntry {
    pub output_path: String,
    pub file_name: String,
    pub page_range: String,
}

// ------------------------------------------------------------------ labels

/// A character of a label: `,` becomes `_`, `-`, `_` and ASCII letters and
/// digits stay, anything else becomes `_`.
pub open spec fn label_char(c: char) -> char {
    if c == ',' {
        '_'
    } else if c == '-' || c == '_' {
        c
    } else if ('a' <= c && c <= 'z') || ('A' <= c && c <= 'Z') || ('0' <= c && c <= '9') {
        c
    } else {
        '_'
    }
}

/// The label characters of `s`, whitespace dropped.
pub open spec fn sanitize(s: Seq<char>) -> Seq<char>
    decreases s.len(),
{
    if s.len() == 0 {
        Seq::empty()
    } else if spec_is_whitespace(s.last()) {
        sanitize(s.drop_last())
    } else {
        sanitize(s.drop_last()).push(label_char(s.last()))
    }
}

/// The label of a `--ranges` specification: its sanitized text, or `part`
/// when nothing is left.
pub open spec fn spec_normalize_label(s: Seq<char>) -> Seq<char> {
    if sanitize(s).len() == 0 {
        "part"@
    } else {
        sanitize(s)
    }
}

fn to_label_char(c: char) -> (r: char)
    ensures
        r == label_char(c),
{
    if c == ',' {
        '_'
    } else if c == '-' || c == '_' {
        c
    } else if ('a' <= c && c <= 'z') || ('A' <= c && c <= 'Z') || ('0' <= c && c <= '9') {
        c
    } else {
        '_'
    }
}

fn normalize_label(input: &Vec<char>) -> (r: Vec<char>)
    ensures
        r@ == spec_normalize_label(input@),
{
    let mut out: Vec<char> = Vec::new();
    let mut i: usize = 0;
    assert(input@.take(0) =~= Seq::<char>::empty());
    while i < input.len()
        invariant
            i <= input.len(),
            out@ == sanitize(input@.take(i as int)),
        decreases input.len() - i,
    {
        assert(input@.take(i + 1).drop_last() =~= input@.take(i as int));
        assert(input@.take(i + 1).last() == input@[i as int]);
        if !is_whitespace(input[i]) {
            out.push(to_label_char(input[i]));
        }
        i += 1;
    }
    assert(input@.take(input.len() as int) =~= input@);
    if out.len() == 0 {
        str_chars("part")
    } else {
        out
    }
}

/// The label of the pages `start..=end`: `start` alone when they are equal.
pub open spec fn spec_range_label(start: u32, end: u32) -> Seq<char> {
    if start == end {
        decimal(start as nat)
    } else {
        decimal(start as nat).push('-') + decimal(end as nat)
    }
}

fn range_label(start: u32, end: u32) -> (r: Vec<char>)
    ensures
        r@ == spec_range_label(start, end),
{
    if start == end {
        u32_to_decimal(start)
    } else {
        let mut v = u32_to_decimal(start);
        v.push('-');
        append_chars(&mut v, &u32_to_decimal(end));
        v
    }
}

// ------------------------------------------------------------------- plans

/// The rules a `--ranges` specification is held to: no `odd`/`even`, and it
/// must select at least one page.
pub open spec fn split_range_rules() -> PageSpecRules {
    PageSpecRules { allow_odd_even: false, require_single_page: false, allow_empty_result: false }
}

/// The output of one `--ranges` specification: the name base
/// `stem-label` and the qpdf range; or why the specification is refused.
pub open spec fn spec_range_entry(stem: Seq<char>, raw: Seq<char>, total: u32) -> Result<
    (Seq<char>, Seq<char>),
    PageFailure,
> {
    match spec_parse(raw) {
        Err(m) => Err(PageFailure::Invalid(m)),
        Ok(items) => match spec_validate_rules(items, total, split_range_rules()) {
            Err(f) => Err(f),
            Ok(_) => Ok(
                (stem.push('-') + spec_normalize_label(trim(raw)), spec_qpdf_range(items)),
            ),
        },
    }
}

/// The outputs of all `--ranges` specifications in order, or the refusal of
/// the first one refused.
pub open spec fn spec_range_entries(stem: Seq<char>, raws: Seq<Seq<char>>, total: u32) -> Result<
    Seq<(Seq<char>, Seq<char>)>,
    PageFailure,
>
    decreases raws.len(),
{
    if raws.len() == 0 {
        Ok(Seq::empty())
    } else {
        match spec_range_entries(stem, raws.drop_last(), total) {
            Err(f) => Err(f),
            Ok(es) => match spec_range_entry(stem, raws.last(), total) {
                Err(f) => Err(f),
                Ok(e) => Ok(es.push(e)),
            },
        }
    }
}

/// The first page of the `i`-th chunk of `chunk` pages.
pub open spec fn chunk_start(i: int, chunk: u32) -> int {
    i * chunk + 1
}

/// The last page of the `i`-th chunk: `chunk` pages on, or the document's end.
pub open spec fn chunk_end(i: int, chunk: u32, total: u32) -> int {
    if (i + 1) * chunk < total {
        (i + 1) * chunk
    } else {
        total as int
    }
}

/// The number of chunks of `chunk` pages that cover `total` pages.
pub open spec fn chunk_count(total: u32, chunk: u32) -> nat {
    ((total + chunk - 1) / (chunk as int)) as nat
}

/// The outputs of `--every chunk`: consecutive runs of `chunk` pages, the
/// last one possibly shorter, named `stem-label` with the range `start-end`.
pub open spec fn spec_chunk_entries(stem: Seq<char>, total: u32, chunk: u32) -> Seq<(Seq<char>, Seq<char>)> {
    Seq::new(
        chunk_count(total, chunk),
        |i: int|
            {
                let s = chunk_start(i, chunk) as u32;
                let e = chunk_end(i, chunk, total) as u32;
                (stem.push('-') + spec_range_label(s, e), decimal(s as nat).push('-') + decimal(e as nat))
            },
    )
}

/// The outputs of a split before names are made unique.
pub open spec fn spec_raw_entries(stem: Seq<char>, args: SplitArgs, total: u32) -> Result<
    Seq<(Seq<char>, Seq<char>)>,
    PageFailure,
> {
    if args.ranges@.len() > 0 {
        spec_range_entries(stem, views_of_strings(args.ranges@), total)
    } else {
        Ok(spec_chunk_entries(stem, total, chunk_size(args.every)))
    }
}

/// The chunk size of `--every`: one page unless given.
pub open spec fn chunk_size(every: Option<u32>) -> u32 {
    match every {
        Some(n) => n,
        None => 1,
    }
}

/// The texts of a sequence of strings.
pub open spec fn views_of_strings(v: Seq<String>) -> Seq<Seq<char>> {
    Seq::new(v.len(), |i: int| v[i]@)
}

/// The split plan: each output's unique file name and its qpdf range, in order.
pub open spec fn spec_split_plan(stem: Seq<char>, args: SplitArgs, total: u32) -> Result<
    Seq<(Seq<char>, Seq<char>)>,
    PageFailure,
> {
    match spec_raw_entries(stem, args, total) {
        Err(f) => Err(f),
        Ok(es) => {
            let names = dedup_names(es.map_values(|e: (Seq<char>, Seq<char>)| e.0), "pdf"@);
            Ok(Seq::new(es.len(), |i: int| (names[i], es[i].1)))
        },
    }
}

/// `r` is the plan `spec_split_plan(stem, args, total)` (or the error that
/// reports its refusal).
pub open spec fn is_split_plan(r: Result<Vec<SplitPlanEntry>, AppError>, stem: Seq<char>, args: SplitArgs, total: u32) -> bool {
    match (r, spec_split_plan(stem, args, total)) {
        (Ok(v), Ok(p)) => v@.len() == p.len() && forall|i: int|
            0 <= i < p.len() ==> (#[trigger] v@[i]).file_name@ == p[i].0 && v@[i].page_range@ == p[i].1,
        (Err(e), Err(f)) => reports(e, f),
        _ => false,
    }
}

fn build_range_entry(stem: &Vec<char>, raw: &String, total: u32) -> (r: Result<
    (Vec<char>, Vec<char>),
    AppError,
>)
    ensures
        match (r, spec_range_entry(stem@, raw@, total)) {
            (Ok(e), Ok(s)) => e.0@ == s.0 && e.1@ == s.1,
            (Err(err), Err(f)) => reports(err, f),
            _ => false,
        },
{
    let spec = PageSpec::parse(raw.as_str())?;
    let rules = PageSpecRules { allow_odd_even: false, require_single_page: false, allow_empty_result: false };
    spec.validate_rules(total, rules)?;
    let mut base = stem.clone();
    base.push('-');
    append_chars(&mut base, &normalize_label(&trim_chars(&str_chars(raw.as_str()))));
    let range = str_chars(spec.to_qpdf_range().as_str());
    Ok((base, range))
}

fn build_range_entries(stem: &Vec<char>, ranges: &Vec<String>, total: u32) -> (r: Result<
    (Vec<Vec<char>>, Vec<Vec<char>>),
    AppError,
>)
    ensures
        match (r, spec_range_entries(stem@, views_of_strings(ranges@), total)) {
            (Ok((bases, pranges)), Ok(es)) => bases@.len() == es.len() && pranges@.len() == es.len()
                && forall|i: int|
                0 <= i < es.len() ==> (#[trigger] bases@[i])@ == es[i].0 && pranges@[i]@ == es[i].1,
            (Err(err), Err(f)) => reports(err, f),
            _ => false,
        },
{
    let ghost raws = views_of_strings(ranges@);
    let mut bases: Vec<Vec<char>> = Vec::new();
    let mut pranges: Vec<Vec<char>> = Vec::new();
    let mut i: usize = 0;
    assert(raws.take(0) =~= Seq::<Seq<char>>::empty());
    while i < ranges.len()
        invariant
            i <= ranges.len(),
            raws == views_of_strings(ranges@),
            spec_range_entries(stem@, raws.take(i as int), total) matches Ok(es) && bases@.len() == es.len()
                && pranges@.len() == es.len() && forall|j: int|
                0 <= j < es.len() ==> (#[trigger] bases@[j])@ == es[j].0 && pranges@[j]@ == es[j].1,
        decreases ranges.len() - i,
    {
        assert(raws.take(i + 1).drop_last() =~= raws.take(i as int));
        assert(raws.take(i + 1).last() == ranges@[i as int]@);
        match build_range_entry(stem, &ranges[i], total) {
            Ok((b, p)) => {
                bases.push(b);
                pranges.push(p);
            },
            Err(e) => {
                proof {
                    lemma_range_entries_prefix_error(stem@, raws, total, i + 1);
                }
                return Err(e);
            },
        }
        i += 1;
    }
    assert(raws.take(ranges.len() as int) =~= raws);
    Ok((bases, pranges))
}

proof fn lemma_range_entries_prefix_error(stem: Seq<char>, raws: Seq<Seq<char>>, total: u32, k: int)
    requires
        0 <= k <= raws.len(),
        spec_range_entries(stem, raws.take(k), total) is Err,
    ensures
        spec_range_entries(stem, raws, total) == spec_range_entries(stem, raws.take(k), total),
    decreases raws.len() - k,
{
    if k < raws.len() {
        assert(raws.take(k + 1).drop_last() =~= raws.take(k));
        lemma_range_entries_prefix_error(stem, raws, total, k + 1);
    } else {
        assert(raws.take(k) =~= raws);
    }
}

proof fn lemma_chunk_step(i: int, chunk: u32, total: u32)
    requires
        chunk >= 1,
        0 <= i,
        chunk_start(i, chunk) <= total,
    ensures
        1 <= chunk_start(i, chunk) <= chunk_end(i, chunk, total) <= total,
        chunk_end(i, chunk, total) - chunk_start(i, chunk) < chunk,
        chunk_end(i, chunk, total) < total ==> chunk_end(i, chunk, total) + 1 == chunk_start(i + 1, chunk),
        chunk_end(i, chunk, total) == total ==> i + 1 == chunk_count(total, chunk),
        i < chunk_count(total, chunk),
{
    assert((i + 1) * chunk == i * chunk + chunk) by (nonlinear_arith);
    assert(i * chunk >= 0) by (nonlinear_arith)
        requires
            i >= 0,
            chunk >= 1,
    ;
    assert(chunk_count(total, chunk) == (total + chunk - 1) / (chunk as int));
    if chunk_end(i, chunk, total) == total {
        assert(i * chunk + 1 <= total);
        assert(total <= (i + 1) * chunk);
        assert((total + chunk - 1) / (chunk as int) == i + 1) by (nonlinear_arith)
            requires
                i * chunk + 1 <= total,
                total <= (i + 1) * chunk,
                chunk >= 1,
        ;
    } else {
        assert((i + 1) * chunk < total);
        assert((total + chunk - 1) / (chunk as int) >= i + 2) by (nonlinear_arith)
            requires
                (i + 1) * chunk < total,
                chunk >= 1,
                i >= 0,
        ;
    }
}

/// The bases and page ranges of `--every chunk`: `spec_chunk_entries`.
pub fn build_chunk_entries(stem: &Vec<char>, total: u32, chunk: u32) -> (r: (Vec<Vec<char>>, Vec<Vec<char>>))
    requires
        chunk >= 1,
    ensures
        r.0@.len() == spec_chunk_entries(stem@, total, chunk).len(),
        r.1@.len() == spec_chunk_entries(stem@, total, chunk).len(),
        forall|i: int|
            0 <= i < r.0@.len() ==> (#[trigger] r.0@[i])@ == spec_chunk_entries(stem@, total, chunk)[i].0
                && r.1@[i]@ == spec_chunk_entries(stem@, total, chunk)[i].1,
{
    let ghost es = spec_chunk_entries(stem@, total, chunk);
    let mut bases: Vec<Vec<char>> = Vec::new();
    let mut pranges: Vec<Vec<char>> = Vec::new();
    let mut start: u64 = 1;
    let ghost mut i: int = 0;
    proof {
        if total >= 1 {
            lemma_chunk_step(0, chunk, total);
        } else {
            assert((chunk - 1) / (chunk as int) == 0) by (nonlinear_arith)
                requires
                    chunk >= 1,
            ;
        }
    }
    while start <= total as u64
        invariant
            chunk >= 1,
            es == spec_chunk_entries(stem@, total, chunk),
            0 <= i,
            bases@.len() == i,
            pranges@.len() == i,
            start <= total as u64 ==> start == chunk_start(i, chunk),
            start <= total as u64 ==> i < es.len(),
            start > total as u64 ==> i == es.len(),
            forall|j: int|
                0 <= j < i ==> (#[trigger] bases@[j])@ == es[j].0 && pranges@[j]@ == es[j].1,
        decreases total as u64 + 1 - start,
    {
        proof {
            lemma_chunk_step(i, chunk, total);
        }
        let candidate_end: u64 = start + chunk as u64 - 1;
        let end: u64 = if candidate_end < total as u64 {
            candidate_end
        } else {
            total as u64
        };
        assert((i + 1) * chunk == i * chunk + chunk) by (nonlinear_arith);
        assert(end == chunk_end(i, chunk, total));
        let s32 = start as u32;
        let e32 = end as u32;
        let mut base = stem.clone();
        base.push('-');
        append_chars(&mut base, &range_label(s32, e32));
        let mut range = u32_to_decimal(s32);
        range.push('-');
        append_chars(&mut range, &u32_to_decimal(e32));
        assert(base@ == es[i].0);
        assert(range@ == es[i].1);
        bases.push(base);
        pranges.push(range);
        start = end + 1;
        proof {
            i = i + 1;
            if start <= total as u64 {
                lemma_chunk_step(i, chunk, total);
            }
        }
    }
    (bases, pranges)
}

/// The split plan for an input whose outputs are named after `stem`: exactly
/// `spec_split_plan(stem, args, total_pages)`, each output's path being its
/// name in `args.output_dir`.
pub fn plan_split(stem: &str, args: &SplitArgs, total_pages: u32) -> (r: Result<Vec<SplitPlanEntry>, AppError>)
    requires
        args.ranges@.len() == 0 ==> args.every != Some(0u32),
    ensures
        is_split_plan(r, stem@, *args, total_pages),
        r matches Ok(v) ==> all_joined(args.output_dir@, entry_names(v@), entry_paths(v@)),
        r matches Ok(v) ==> (!verbatim_like(args.output_dir@) && plain_name(stem@) ==> inside_and_distinct(
            args.output_dir@,
            entry_paths(v@),
        )),
{
    let stem_chars = str_chars(stem);
    let (bases, pranges) = if args.ranges.len() > 0 {
        build_range_entries(&stem_chars, &args.ranges, total_pages)?
    } else {
        let chunk = match args.every {
            Some(n) => n,
            None => 1,
        };
        build_chunk_entries(&stem_chars, total_pages, chunk)
    };
    let ghost es = spec_raw_entries(stem@, *args, total_pages)->Ok_0;
    assert(bases@.len() == es.len() && pranges@.len() == es.len());
    assert(forall|j: int| 0 <= j < es.len() ==> (#[trigger] bases@[j])@ == es[j].0 && pranges@[j]@ == es[j].1);
    assert forall|j: int| 0 <= j < es.len() implies (#[trigger] pranges@[j])@ == es[j].1 by {
        assert((bases@[j])@ == es[j].0);
    }
    let ext = str_chars("pdf");
    let names = apply_duplicate_suffixes(&bases, &ext);
    assert(views(bases@) =~= es.map_values(|e: (Seq<char>, Seq<char>)| e.0));
    let ghost names_spec = dedup_names(es.map_values(|e: (Seq<char>, Seq<char>)| e.0), "pdf"@);
    proof {
        lemma_dedup_names(es.map_values(|e: (Seq<char>, Seq<char>)| e.0), "pdf"@);
    }
    let mut plan: Vec<SplitPlanEntry> = Vec::new();
    let mut i: usize = 0;
    while i < names.len()
        invariant
            i <= names.len(),
            names@.len() == es.len(),
            pranges@.len() == es.len(),
            views(names@) == names_spec,
            forall|j: int| 0 <= j < es.len() ==> (#[trigger] pranges@[j])@ == es[j].1,
            plan@.len() == i,
            forall|j: int|
                0 <= j < i ==> (#[trigger] plan@[j]).file_name@ == names_spec[j] && plan@[j].page_range@
                    == es[j].1 && join_fact(args.output_dir@, plan@[j].file_name@, plan@[j].output_path@),
        decreases names.len() - i,
    {
        let file_name = chars_to_string(&names[i]);
        assert(file_name@ == names_spec[i as int]);
        let output_path = join_path(args.output_dir.as_str(), file_name.as_str());
        plan.push(SplitPlanEntry { output_path, file_name, page_range: chars_to_string(&pranges[i]) });
        i += 1;
    }
    proof {
        let dir = args.output_dir@;
        let bases = es.map_values(|e: (Seq<char>, Seq<char>)| e.0);
        assert(entry_names(plan@) =~= names_spec);
        assert forall|k: int| 0 <= k < entry_names(plan@).len() implies join_fact(
            dir,
            #[trigger] entry_names(plan@)[k],
            entry_paths(plan@)[k],
        ) by {
            assert(join_fact(dir, plan@[k].file_name@, plan@[k].output_path@));
        }
        if !verbatim_like(dir) && plain_name(stem@) {
            lemma_raw_entries_prefixed(stem@, *args, total_pages);
            lemma_dedup_names_extend_bases(bases, "pdf"@);
            assert forall|k: int| 0 <= k < names_spec.len() implies plain_name(#[trigger] names_spec[k]) by {
                let base = bases[k];
                assert(names_spec[k].subrange(0, base.len() as int) == base);
                assert(names_spec[k].subrange(0, stem@.len() + 1 as int) =~= base.subrange(0, stem@.len() + 1 as int));
                lemma_stem_prefixed_plain(stem@, names_spec[k]);
            }
            lemma_all_joined(dir, entry_names(plan@), entry_paths(plan@));
        }
    }
    Ok(plan)
}

/// Every output of a split is named `stem-...` before it is made unique.
proof fn lemma_raw_entries_prefixed(stem: Seq<char>, args: SplitArgs, total: u32)
    ensures
        spec_raw_entries(stem, args, total) matches Ok(es) ==> forall|i: int|
            0 <= i < es.len() ==> (#[trigger] es[i]).0.len() > stem.len() && es[i].0.subrange(0, stem.len() + 1 as int)
                == stem.push('-'),
{
    if args.ranges@.len() > 0 {
        lemma_range_entries_prefixed(stem, views_of_strings(args.ranges@), total);
    } else {
        let es = spec_chunk_entries(stem, total, chunk_size(args.every));
        assert forall|i: int| 0 <= i < es.len() implies (#[trigger] es[i]).0.len() > stem.len() && es[i].0.subrange(
            0,
            stem.len() + 1 as int,
        ) == stem.push('-') by {
            assert(es[i].0.subrange(0, stem.len() + 1 as int) =~= stem.push('-'));
        }
    }
}

proof fn lemma_range_entries_prefixed(stem: Seq<char>, raws: Seq<Seq<char>>, total: u32)
    ensures
        spec_range_entries(stem, raws, total) matches Ok(es) ==> forall|i: int|
            0 <= i < es.len() ==> (#[trigger] es[i]).0.len() > stem.len() && es[i].0.subrange(0, stem.len() + 1 as int)
                == stem.push('-'),
    decreases raws.len(),
{
    if raws.len() > 0 {
        lemma_range_entries_prefixed(stem, raws.drop_last(), total);
        if let Ok(es) = spec_range_entries(stem, raws, total) {
            let prev = spec_range_entries(stem, raws.drop_last(), total)->Ok_0;
            let e = spec_range_entry(stem, raws.last(), total)->Ok_0;
            assert(es == prev.push(e));
            assert(e.0.subrange(0, stem.len() + 1 as int) =~= stem.push('-'));
            assert forall|i: int| 0 <= i < es.len() implies (#[trigger] es[i]).0.len() > stem.len() && es[i].0.subrange(
                0,
                stem.len() + 1 as int,
            ) == stem.push('-') by {
                if i < prev.len() {
                    assert(es[i] == prev[i]);
                }
            }
        }
    }
}

/// The split plan of `args` for a document of `total_pages` pages: the plan of
/// `plan_split` for the input's stem (never empty).
pub fn build_split_plan(args: &SplitArgs, total_pages: u32) -> (r: Result<Vec<SplitPlanEntry>, AppError>)
    requires
        args.ranges@.len() == 0 ==> args.every != Some(0u32),
    ensures
        exists|stem: Option<Seq<char>>|
            stem_fact(args.input@, stem) && is_split_plan(r, #[trigger] spec_stem_or_default(stem), *args, total_pages)
                && (r matches Ok(v) ==> (!verbatim_like(args.output_dir@) && plain_name(spec_stem_or_default(stem))
                ==> inside_and_distinct(args.output_dir@, entry_paths(v@)))),
        r matches Ok(v) ==> all_joined(args.output_dir@, entry_names(v@), entry_paths(v@)),
{
    let stem = input_stem(args.input.as_str());
    plan_split(stem.as_str(), args, total_pages)
}

// ------------------------------------------------------------------ laws

/// No two outputs of a split plan share a file name, and the plan has one
/// output per `--ranges` specification (or per chunk), in order.
pub proof fn lemma_split_plan_unique_names(stem: Seq<char>, args: SplitArgs, total: u32)
    ensures
        spec_split_plan(stem, args, total) matches Ok(plan) ==> {
            &&& spec_raw_entries(stem, args, total) matches Ok(es)
            &&& plan.len() == es.len()
            &&& forall|i: int, j: int| 0 <= i < j < plan.len() ==> #[trigger] plan[i].0 != #[trigger] plan[j].0
            &&& forall|i: int| 0 <= i < plan.len() ==> #[trigger] plan[i].1 == es[i].1
        },
{
    if let Ok(es) = spec_raw_entries(stem, args, total) {
        let bases = es.map_values(|e: (Seq<char>, Seq<char>)| e.0);
        lemma_dedup_names(bases, "pdf"@);
        let plan = spec_split_plan(stem, args, total)->Ok_0;
        let names = dedup_names(bases, "pdf"@);
        assert forall|i: int, j: int| 0 <= i < j < plan.len() implies #[trigger] plan[i].0 != #[trigger] plan[j].0 by {
            assert(plan[i].0 == names[i]);
            assert(plan[j].0 == names[j]);
        }
    }
}

/// `--each-page` gives every page its own output, in page order: output `i`
/// holds page `i + 1` alone and is named after that page number.
pub proof fn lemma_each_page(stem: Seq<char>, total: u32)
    ensures
        spec_chunk_entries(stem, total, 1).len() == total,
        forall|i: int|
            0 <= i < total ==> #[trigger] spec_chunk_entries(stem, total, 1)[i] == (
                stem.push('-') + decimal((i + 1) as nat),
                decimal((i + 1) as nat).push('-') + decimal((i + 1) as nat),
            ),
{
    assert(chunk_count(total, 1) == total);
    assert forall|i: int| 0 <= i < total implies #[trigger] spec_chunk_entries(stem, total, 1)[i] == (
        stem.push('-') + decimal((i + 1) as nat),
        decimal((i + 1) as nat).push('-') + decimal((i + 1) as nat),
    ) by {
        assert(chunk_start(i, 1) == i + 1);
        assert(chunk_end(i, 1, total) == i + 1);
    }
}

/// `--every n` cuts the document into consecutive runs: the first starts at
/// page 1, each run holds at most `n` pages and starts right after the
/// previous one ends, and the last one ends at the last page.
pub proof fn lemma_chunks_cover_document(total: u32, chunk: u32)
    requires
        chunk >= 1,
    ensures
        total == 0 <==> chunk_count(total, chunk) == 0,
        forall|i: int|
            0 <= i < chunk_count(total, chunk) ==> 1 <= chunk_start(i, chunk) <= #[trigger] chunk_end(i, chunk, total) <= total
                && chunk_end(i, chunk, total) - chunk_start(i, chunk) < chunk,
        forall|i: int|
            0 <= i < chunk_count(total, chunk) - 1 ==> #[trigger] chunk_end(i, chunk, total) + 1 == chunk_start(i + 1, chunk),
        chunk_count(total, chunk) > 0 ==> chunk_end(chunk_count(total, chunk) - 1, chunk, total) == total,
{
    let n = chunk_count(total, chunk) as int;
    if total == 0 {
        assert((chunk - 1) / (chunk as int) == 0) by (nonlinear_arith)
            requires
                chunk >= 1,
        ;
    } else {
        lemma_chunk_step(0, chunk, total);
    }
    assert forall|i: int| 0 <= i < n implies chunk_start(i, chunk) <= total by {
        assert((total + chunk - 1) / (chunk as int) > i ==> i * chunk + 1 <= total) by (nonlinear_arith)
            requires
                chunk >= 1,
                i >= 0,
        ;
    }
    assert forall|i: int|
        0 <= i < n implies 1 <= chunk_start(i, chunk) <= #[trigger] chunk_end(i, chunk, total) <= total
            && chunk_end(i, chunk, total) - chunk_start(i, chunk) < chunk by {
        lemma_chunk_step(i, chunk, total);
        assert(i * chunk >= 0) by (nonlinear_arith)
            requires
                i >= 0,
                chunk >= 1,
        ;
    }
    assert forall|i: int| 0 <= i < n - 1 implies #[trigger] chunk_end(i, chunk, total) + 1 == chunk_start(i + 1, chunk) by {
        lemma_chunk_step(i, chunk, total);
    }
    if n > 0 {
        lemma_chunk_step(n - 1, chunk, total);
        if chunk_end(n - 1, chunk, total) < total {
            lemma_chunk_step(n, chunk, total);
        }
    }
}


// ------------------------------------------------------------------ the run

/// Where a split stands: which answer it waits for.
#[derive(Debug, Clone, Copy, PartialEq, Eq, Structural)]
pub enum SplitStage {
    CheckInput,
    CountPages,
    StrictInfo,
    StrictInspect,
    ProbeDir,
    MakeDir,
    ProbeParent,
    ProbeOutput,
    CreateTemp,
    Extract,
    Persist,
    Finished,
}

/// A running `split`: it asks for outside work one request at a time and
/// decides from each answer what to ask next.
#[derive(Debug)]
pub struct SplitRun {
    args: SplitArgs,
    strict: bool,
    verbose: bool,
    qpdf: QpdfRunner,
    stem: String,
    stage: SplitStage,
    total: u32,
    plan: Vec<SplitPlanEntry>,
    index: usize,
    parent: String,
    parent_kind: PathKind,
    temps: Vec<String>,
}

/// A split's state with its texts as character sequences. `plan` holds each
/// output's file name and qpdf range, `outputs` each output's path, and
/// `temps` the temporary files made so far, one per output in order.
pub struct SplitView {
    pub args: SplitArgs,
    pub strict: bool,
    pub verbose: bool,
    pub qpdf: Seq<char>,
    pub stem: Seq<char>,
    pub stage: SplitStage,
    pub total: u32,
    pub plan: Seq<(Seq<char>, Seq<char>)>,
    pub outputs: Seq<Seq<char>>,
    pub index: nat,
    pub parent: Seq<char>,
    pub parent_kind: PathKind,
    pub temps: Seq<Seq<char>>,
}

/// The file names and ranges of plan entries.
pub open spec fn entry_views(plan: Seq<SplitPlanEntry>) -> Seq<(Seq<char>, Seq<char>)> {
    Seq::new(plan.len(), |i: int| (plan[i].file_name@, plan[i].page_range@))
}

/// The file names of plan entries.
pub open spec fn entry_names(plan: Seq<SplitPlanEntry>) -> Seq<Seq<char>> {
    Seq::new(plan.len(), |i: int| plan[i].file_name@)
}

/// The output paths of plan entries.
pub open spec fn entry_paths(plan: Seq<SplitPlanEntry>) -> Seq<Seq<char>> {
    Seq::new(plan.len(), |i: int| plan[i].output_path@)
}

impl View for SplitRun {
    type V = SplitView;

    closed spec fn view(&self) -> SplitView {
        SplitView {
            args: self.args,
            strict: self.strict,
            verbose: self.verbose,
            qpdf: self.qpdf.executable_view(),
            stem: self.stem@,
            stage: self.stage,
            total: self.total,
            plan: entry_views(self.plan@),
            outputs: entry_paths(self.plan@),
            index: self.index as nat,
            parent: self.parent@,
            parent_kind: self.parent_kind,
            temps: texts(self.temps@),
        }
    }
}

/// A chunk size of zero is never asked for, and every output has its path.
pub open spec fn split_base(s: SplitView) -> bool {
    &&& s.args.ranges@.len() == 0 ==> s.args.every != Some(0u32)
    &&& s.plan.len() == s.outputs.len()
}

/// A split's state is consistent: a chunk size of zero is never asked for,
/// every output has its path, inspections happen only in strict mode, and
/// while outputs are prepared or written the index names one of them, with a
/// temporary file for each one before it (or for all of them once writing
/// has begun).
pub open spec fn split_wf(s: SplitView) -> bool {
    &&& split_base(s)
    &&& !s.strict ==> s.stage != SplitStage::StrictInfo && s.stage != SplitStage::StrictInspect
    &&& match s.stage {
        SplitStage::ProbeParent | SplitStage::ProbeOutput | SplitStage::CreateTemp => s.index < s.outputs.len()
            && s.temps.len() == s.index && distinct_upto(s.outputs, s.index as int + 1),
        SplitStage::Extract | SplitStage::Persist => s.index < s.outputs.len() && s.temps.len() == s.outputs.len()
            && distinct_upto(s.outputs, s.outputs.len() as int),
        SplitStage::Finished => true,
        _ => s.temps.len() == 0,
    }
}

/// The answer that a stage waits for.
pub open spec fn split_accepts(stage: SplitStage, reply: Reply) -> bool {
    match stage {
        SplitStage::CheckInput | SplitStage::ProbeDir | SplitStage::ProbeParent | SplitStage::ProbeOutput => reply is Kind,
        SplitStage::CountPages | SplitStage::StrictInspect | SplitStage::Extract => reply is Ran,
        SplitStage::StrictInfo => reply is Ack,
        SplitStage::MakeDir | SplitStage::Persist => reply is Io,
        SplitStage::CreateTemp => reply is Created,
        SplitStage::Finished => false,
    }
}

/// `t` is `s` at `stage`, nothing else changed.
pub open spec fn split_moved(s: SplitView, t: SplitView, stage: SplitStage) -> bool {
    t == SplitView { stage, ..s }
}

/// `t` and `req` end the split with the error `v`.
pub open spec fn split_fails(s: SplitView, t: SplitView, req: RequestView, v: ErrorView) -> bool {
    split_moved(s, t, SplitStage::Finished) && req == RequestView::Finish(Err(v))
}

/// After the input is counted and inspected: the plan is made from the page
/// count, and the output directory is checked; a plan that cannot be made
/// ends the run before anything is written.
pub open spec fn split_plan_step(s: SplitView, t: SplitView, req: RequestView) -> bool {
    match spec_split_plan(s.stem, s.args, s.total) {
        Err(f) => split_fails(s, t, req, failure_view(f)),
        Ok(p) => t == SplitView { stage: SplitStage::ProbeDir, plan: p, outputs: t.outputs, ..s } && t.outputs.len() == p.len()
            && req == RequestView::Inspect(s.args.output_dir@) && all_joined(
            s.args.output_dir@,
            p.map_values(|e: (Seq<char>, Seq<char>)| e.0),
            t.outputs,
        ) && (!verbatim_like(s.args.output_dir@) && plain_name(s.stem) ==> inside_and_distinct(
            s.args.output_dir@,
            t.outputs,
        )),
    }
}

/// Output `i` is written next: qpdf extracts its range into its temporary
/// file; after the last output the run is over.
pub open spec fn split_extract_step(s: SplitView, t: SplitView, req: RequestView, i: nat) -> bool {
    if i < s.outputs.len() {
        t == SplitView { stage: SplitStage::Extract, index: i, ..s } && req == RequestView::Run(
            extract_pages_view(s.qpdf, s.args.input@, s.plan[i as int].1, s.temps[i as int]),
        )
    } else {
        t == SplitView { stage: SplitStage::Finished, index: i, ..s } && req == RequestView::Finish(Ok(()))
    }
}

/// Output `i` is prepared next: a path that an earlier output already has is
/// refused, then its directory is looked at. After the last output, writing
/// begins.
pub open spec fn split_prepare_step(s: SplitView, t: SplitView, req: RequestView, i: nat) -> bool {
    if i < s.outputs.len() {
        if exists|j: int| 0 <= j < i && s.outputs[j] == s.outputs[i as int] {
            split_fails(s, t, req, ErrorView::OutputAlreadyExists(s.outputs[i as int]))
        } else {
            exists|parent: Option<Seq<char>>|
                parent_fact(s.outputs[i as int], parent) && match #[trigger] spec_parent_dir(s.outputs[i as int], parent) {
                    Err(v) => split_fails(s, t, req, v),
                    Ok(d) => t == SplitView { stage: SplitStage::ProbeParent, index: i, parent: d, ..s } && req
                        == RequestView::Inspect(d),
                }
        }
    } else {
        split_extract_step(s, t, req, 0)
    }
}

/// One step of `split`: from the state `s` and the answer `reply` to the
/// state `t` and the next request `req`. The order is: the input must be a
/// file; qpdf counts its pages (and rejects what is not a PDF); in strict mode
/// its document-level features are inspected; the plan is made; the output
/// directory is created when missing; every output is checked and gets a
/// temporary file next to it; then each output in turn is extracted into its
/// temporary file and moved onto its path. The first failure ends the run.
pub open spec fn split_next(s: SplitView, reply: Reply, t: SplitView, req: RequestView) -> bool {
    match (s.stage, reply) {
        (SplitStage::CheckInput, Reply::Kind(k)) => match spec_validate_input_pdf(s.args.input@, k) {
            Err(v) => split_fails(s, t, req, v),
            Ok(()) => split_moved(s, t, SplitStage::CountPages) && req == RequestView::Run(
                show_npages_view(s.qpdf, s.args.input@),
            ),
        },
        (SplitStage::CountPages, Reply::Ran(o)) => match spec_show_npages(s.args.input@, o) {
            Err(v) => split_fails(s, t, req, v),
            Ok(n) => if s.strict && s.verbose {
                t == SplitView { stage: SplitStage::StrictInfo, total: n, ..s } && req == RequestView::Info(
                    strict_info_message(s.args.input@),
                )
            } else if s.strict {
                t == SplitView { stage: SplitStage::StrictInspect, total: n, ..s } && req == RequestView::Run(
                    inspect_strict_view(s.qpdf, s.args.input@),
                )
            } else {
                split_plan_step(SplitView { total: n, ..s }, t, req)
            },
        },
        (SplitStage::StrictInfo, Reply::Ack) => split_moved(s, t, SplitStage::StrictInspect) && req == RequestView::Run(
            inspect_strict_view(s.qpdf, s.args.input@),
        ),
        (SplitStage::StrictInspect, Reply::Ran(o)) => match spec_strict_outcome(s.args.input@, spec_inspect_strict(o)) {
            Err(v) => split_fails(s, t, req, v),
            Ok(()) => split_plan_step(s, t, req),
        },
        (SplitStage::ProbeDir, Reply::Kind(k)) => match spec_output_directory(s.args.output_dir@, k) {
            Err(v) => split_fails(s, t, req, v),
            Ok(true) => split_moved(s, t, SplitStage::MakeDir) && req == RequestView::CreateDirAll(s.args.output_dir@),
            Ok(false) => split_prepare_step(s, t, req, 0),
        },
        (SplitStage::MakeDir, Reply::Io(r)) => match r {
            Err(e) => split_fails(s, t, req, ErrorView::OutputDirectoryCreateFailed(s.args.output_dir@, e@)),
            Ok(()) => split_prepare_step(s, t, req, 0),
        },
        (SplitStage::ProbeParent, Reply::Kind(k)) => t == SplitView { stage: SplitStage::ProbeOutput, parent_kind: k, ..s }
            && req == RequestView::Inspect(s.outputs[s.index as int]),
        (SplitStage::ProbeOutput, Reply::Kind(k)) => match spec_validate_single_output(
            s.outputs[s.index as int],
            s.parent,
            s.parent_kind,
            k,
            s.args.overwrite,
        ) {
            Err(v) => split_fails(s, t, req, v),
            Ok(()) => split_moved(s, t, SplitStage::CreateTemp) && req == RequestView::CreateTempFile(s.parent),
        },
        (SplitStage::CreateTemp, Reply::Created(r)) => match r {
            Err(e) => split_fails(s, t, req, ErrorView::TempOutputCreateFailed(s.outputs[s.index as int], e@)),
            Ok(tmp) => split_prepare_step(SplitView { temps: s.temps.push(tmp@), ..s }, t, req, s.index + 1),
        },
        (SplitStage::Extract, Reply::Ran(o)) => match spec_qpdf_write("extract_pages"@, o) {
            Err(v) => split_fails(s, t, req, v),
            Ok(()) => split_moved(s, t, SplitStage::Persist) && req == RequestView::Persist(
                s.temps[s.index as int],
                s.outputs[s.index as int],
            ),
        },
        (SplitStage::Persist, Reply::Io(r)) => match r {
            Err(e) => split_fails(s, t, req, ErrorView::OutputFinalizeFailed(s.outputs[s.index as int], e@)),
            Ok(()) => split_extract_step(s, t, req, s.index + 1),
        },
        _ => false,
    }
}

/// Starts `split`: the first request checks the input. Its outputs are named
/// after the input's stem.
pub fn run(args: SplitArgs, common: &CommonOptions, qpdf: &QpdfRunner) -> (r: (SplitRun, Request))
    requires
        args.ranges@.len() == 0 ==> args.every != Some(0u32),
    ensures
        r.0@.args == args,
        r.0@.strict == common.strict,
        r.0@.verbose == (common.verbose && !common.quiet),
        r.0@.qpdf == qpdf.executable_view(),
        exists|stem: Option<Seq<char>>| stem_fact(args.input@, stem) && r.0@.stem == #[trigger] spec_stem_or_default(stem),
        r.0@.stage == SplitStage::CheckInput,
        r.0@.plan.len() == 0,
        r.0@.temps.len() == 0,
        split_wf(r.0@),
        r.1@ == RequestView::Inspect(args.input@),
{
    let stem = input_stem(args.input.as_str());
    let first = Request::Inspect(args.input.clone());
    let run = SplitRun {
        args,
        strict: common.strict,
        verbose: common.verbose && !common.quiet,
        qpdf: QpdfRunner::new(qpdf.executable().to_owned()),
        stem,
        stage: SplitStage::CheckInput,
        total: 0,
        plan: Vec::new(),
        index: 0,
        parent: String::new(),
        parent_kind: PathKind::Missing,
        temps: Vec::new(),
    };
    assert(run@.plan =~= Seq::<(Seq<char>, Seq<char>)>::empty());
    (run, first)
}

impl SplitRun {
    /// Whether `reply` is the kind of answer the run waits for.
    pub fn accepts(&self, reply: &Reply) -> (b: bool)
        ensures
            b == split_accepts(self@.stage, *reply),
    {
        match self.stage {
            SplitStage::CheckInput | SplitStage::ProbeDir | SplitStage::ProbeParent | SplitStage::ProbeOutput => matches!(reply, Reply::Kind(_)),
            SplitStage::CountPages | SplitStage::StrictInspect | SplitStage::Extract => matches!(reply, Reply::Ran(_)),
            SplitStage::StrictInfo => matches!(reply, Reply::Ack),
            SplitStage::MakeDir | SplitStage::Persist => matches!(reply, Reply::Io(_)),
            SplitStage::CreateTemp => matches!(reply, Reply::Created(_)),
            SplitStage::Finished => false,
        }
    }

    fn fail(&mut self, e: AppError) -> (r: Request)
        ensures
            split_fails(old(self)@, final(self)@, r@, e@),
    {
        self.stage = SplitStage::Finished;
        Request::Finish(Err(e))
    }

    fn make_plan(&mut self) -> (r: Request)
        requires
            split_wf(old(self)@),
            old(self)@.temps.len() == 0,
        ensures
            split_wf(final(self)@),
            split_plan_step(old(self)@, final(self)@, r@),
    {
        match plan_split(self.stem.as_str(), &self.args, self.total) {
            Err(e) => self.fail(e),
            Ok(plan) => {
                let ghost p = spec_split_plan(self@.stem, self@.args, self@.total)->Ok_0;
                assert(entry_views(plan@) =~= p);
                assert(entry_names(plan@) =~= p.map_values(|e: (Seq<char>, Seq<char>)| e.0));
                self.plan = plan;
                self.stage = SplitStage::ProbeDir;
                Request::Inspect(self.args.output_dir.clone())
            },
        }
    }

    fn has_earlier_duplicate(&self, i: usize) -> (b: bool)
        requires
            i < self@.outputs.len(),
        ensures
            b == exists|j: int| 0 <= j < i && self@.outputs[j] == self@.outputs[i as int],
    {
        let target = str_chars(self.plan[i].output_path.as_str());
        let mut j: usize = 0;
        while j < i
            invariant
                j <= i,
                i < self@.outputs.len(),
                target@ == self@.outputs[i as int],
                forall|k: int| 0 <= k < j ==> self@.outputs[k] != self@.outputs[i as int],
            decreases i - j,
        {
            if chars_eq(&str_chars(self.plan[j].output_path.as_str()), &target) {
                assert(self@.outputs[j as int] == self@.outputs[i as int]);
                return true;
            }
            j += 1;
        }
        false
    }

    fn extract_next(&mut self, i: usize) -> (r: Request)
        requires
            split_base(old(self)@),
            old(self)@.temps.len() == old(self)@.outputs.len(),
            distinct_upto(old(self)@.outputs, old(self)@.outputs.len() as int),
            i <= old(self)@.outputs.len(),
        ensures
            split_wf(final(self)@),
            split_extract_step(old(self)@, final(self)@, r@, i as nat),
    {
        if i < self.plan.len() {
            self.index = i;
            self.stage = SplitStage::Extract;
            Request::Run(
                self.qpdf.extract_pages_command(
                    self.args.input.as_str(),
                    self.plan[i].page_range.as_str(),
                    self.temps[i].as_str(),
                ),
            )
        } else {
            self.index = i;
            self.stage = SplitStage::Finished;
            Request::Finish(Ok(()))
        }
    }

    fn prepare_next(&mut self, i: usize) -> (r: Request)
        requires
            split_base(old(self)@),
            old(self)@.temps.len() == i,
            distinct_upto(old(self)@.outputs, i as int),
            i <= old(self)@.outputs.len(),
        ensures
            split_wf(final(self)@),
            split_prepare_step(old(self)@, final(self)@, r@, i as nat),
    {
        if i < self.plan.len() {
            if self.has_earlier_duplicate(i) {
                let path = self.plan[i].output_path.clone();
                self.fail(AppError::OutputAlreadyExists { path })
            } else {
                match output_parent_dir(self.plan[i].output_path.as_str()) {
                    Err(e) => self.fail(e),
                    Ok(d) => {
                        let req = Request::Inspect(d.clone());
                        self.parent = d;
                        self.index = i;
                        self.stage = SplitStage::ProbeParent;
                        req
                    },
                }
            }
        } else {
            self.extract_next(0)
        }
    }

    /// Takes the answer to the last request and returns the next one.
    pub fn resume(&mut self, reply: Reply) -> (r: Request)
        requires
            split_wf(old(self)@),
            split_accepts(old(self)@.stage, reply),
        ensures
            split_wf(final(self)@),
            split_next(old(self)@, reply, final(self)@, r@),
    {
        match (self.stage, reply) {
            (SplitStage::CheckInput, Reply::Kind(k)) => {
                match validate_input_pdf(self.args.input.as_str(), k) {
                    Err(e) => self.fail(e),
                    Ok(()) => {
                        self.stage = SplitStage::CountPages;
                        Request::Run(self.qpdf.show_npages_command(self.args.input.as_str()))
                    },
                }
            },
            (SplitStage::CountPages, Reply::Ran(o)) => {
                match self.qpdf.show_npages(self.args.input.as_str(), &o) {
                    Err(e) => self.fail(e),
                    Ok(n) => {
                        self.total = n;
                        if self.strict && self.verbose {
                            self.stage = SplitStage::StrictInfo;
                            Request::Info(strict_info(self.args.input.as_str()))
                        } else if self.strict {
                            self.stage = SplitStage::StrictInspect;
                            Request::Run(self.qpdf.inspect_strict_command(self.args.input.as_str()))
                        } else {
                            self.make_plan()
                        }
                    },
                }
            },
            (SplitStage::StrictInfo, Reply::Ack) => {
                self.stage = SplitStage::StrictInspect;
                Request::Run(self.qpdf.inspect_strict_command(self.args.input.as_str()))
            },
            (SplitStage::StrictInspect, Reply::Ran(o)) => {
                match enforce_on_input(self.args.input.as_str(), &self.qpdf, &o) {
                    Err(e) => self.fail(e),
                    Ok(()) => self.make_plan(),
                }
            },
            (SplitStage::ProbeDir, Reply::Kind(k)) => {
                match ensure_output_directory(self.args.output_dir.as_str(), k) {
                    Err(e) => self.fail(e),
                    Ok(true) => {
                        self.stage = SplitStage::MakeDir;
                        Request::CreateDirAll(self.args.output_dir.clone())
                    },
                    Ok(false) => self.prepare_next(0),
                }
            },
            (SplitStage::MakeDir, Reply::Io(r)) => {
                match r {
                    Err(e) => {
                        let path = self.args.output_dir.clone();
                        self.fail(AppError::OutputDirectoryCreateFailed { path, source: e })
                    },
                    Ok(()) => self.prepare_next(0),
                }
            },
            (SplitStage::ProbeParent, Reply::Kind(k)) => {
                self.parent_kind = k;
                self.stage = SplitStage::ProbeOutput;
                Request::Inspect(self.plan[self.index].output_path.clone())
            },
            (SplitStage::ProbeOutput, Reply::Kind(k)) => {
                match validate_single_output(
                    self.plan[self.index].output_path.as_str(),
                    self.parent.as_str(),
                    self.parent_kind,
                    k,
                    self.args.overwrite,
                ) {
                    Err(e) => self.fail(e),
                    Ok(()) => {
                        self.stage = SplitStage::CreateTemp;
                        Request::CreateTempFile(self.parent.clone())
                    },
                }
            },
            (SplitStage::CreateTemp, Reply::Created(r)) => {
                match r {
                    Err(e) => {
                        let path = self.plan[self.index].output_path.clone();
                        self.fail(AppError::TempOutputCreateFailed { path, source: e })
                    },
                    Ok(tmp) => {
                        assert(self.index < self.plan.len());
                        self.temps.push(tmp);
                        assert(self@.temps =~= old(self)@.temps.push(tmp@));
                        let next = self.index + 1;
                        self.prepare_next(next)
                    },
                }
            },
            (SplitStage::Extract, Reply::Ran(o)) => {
                match self.qpdf.extract_pages(&o) {
                    Err(e) => self.fail(e),
                    Ok(()) => {
                        self.stage = SplitStage::Persist;
                        Request::Persist {
                            temp: self.temps[self.index].clone(),
                            target: self.plan[self.index].output_path.clone(),
                        }
                    },
                }
            },
            (SplitStage::Persist, Reply::Io(r)) => {
                match r {
                    Err(e) => {
                        let path = self.plan[self.index].output_path.clone();
                        self.fail(AppError::OutputFinalizeFailed { path, source: e })
                    },
                    Ok(()) => {
                        assert(self.index < self.plan.len());
                        let next = self.index + 1;
                        self.extract_next(next)
                    },
                }
            },
            _ => {
                self.stage = SplitStage::Finished;
                Request::Finish(Ok(()))
            },
        }
    }
}


// ----------------------------------------------------------- laws of the run

/// A split moves nothing into place but its planned outputs, each from its
/// own temporary file right after qpdf filled it without error; it creates no
/// directory but the output directory and renames nothing.
pub proof fn lemma_split_writes_only_outputs(s: SplitView, reply: Reply, t: SplitView, req: RequestView)
    requires
        split_wf(s),
        split_next(s, reply, t, req),
    ensures
        req is Persist ==> s.index < s.outputs.len() && req->Persist_1 == s.outputs[s.index as int] && req->Persist_0
            == s.temps[s.index as int] && s.stage == SplitStage::Extract && (reply matches Reply::Ran(o) && spec_qpdf_write(
            "extract_pages"@,
            o,
        ) is Ok),
        req is CreateDirAll ==> req->CreateDirAll_0 == s.args.output_dir@,
        !(req is Rename),
{
}

/// In strict mode the input is inspected right after it is counted, and the
/// split goes on to plan its outputs only when the inspection found nothing
/// the tool cannot keep; without strict mode nothing is inspected.
pub proof fn lemma_split_strict_gate(s: SplitView, reply: Reply, t: SplitView, req: RequestView)
    requires
        split_wf(s),
        split_next(s, reply, t, req),
    ensures
        s.strict && s.stage == SplitStage::CountPages ==> t.stage == SplitStage::StrictInfo || t.stage
            == SplitStage::StrictInspect || t.stage == SplitStage::Finished,
        s.stage == SplitStage::StrictInspect && t.stage != SplitStage::Finished ==> (reply matches Reply::Ran(o)
            && spec_strict_outcome(s.args.input@, spec_inspect_strict(o)) is Ok),
        !s.strict ==> t.stage != SplitStage::StrictInfo && t.stage != SplitStage::StrictInspect,
{
}

/// How far a split is from its end: the phase, then the steps left in it.
pub open spec fn split_measure(s: SplitView) -> (nat, nat) {
    let left = (s.outputs.len() - s.index) as nat;
    match s.stage {
        SplitStage::CheckInput => (10, 0),
        SplitStage::CountPages => (9, 0),
        SplitStage::StrictInfo => (8, 0),
        SplitStage::StrictInspect => (7, 0),
        SplitStage::ProbeDir => (6, 0),
        SplitStage::MakeDir => (5, 0),
        SplitStage::ProbeParent => (4, 3 * left),
        SplitStage::ProbeOutput => (4, (3 * left - 1) as nat),
        SplitStage::CreateTemp => (4, (3 * left - 2) as nat),
        SplitStage::Extract => (3, 2 * left),
        SplitStage::Persist => (3, (2 * left - 1) as nat),
        SplitStage::Finished => (0, 0),
    }
}

/// Every split ends: each step moves its measure down in a well-founded order.
pub proof fn lemma_split_ends(s: SplitView, reply: Reply, t: SplitView, req: RequestView)
    requires
        split_wf(s),
        split_next(s, reply, t, req),
    ensures
        lex_below(split_measure(t), split_measure(s)),
{
}

/// Every output is checked and given its temporary file before qpdf writes
/// any of them, and no two outputs share a path: whenever an output is about
/// to be written, every output has its temporary file and the outputs are
/// pairwise different.
pub proof fn lemma_split_prepares_all_first(s: SplitView, reply: Reply, t: SplitView, req: RequestView)
    requires
        split_wf(s),
        split_next(s, reply, t, req),
        t.stage == SplitStage::Extract,
    ensures
        t.temps.len() == t.outputs.len(),
        distinct_upto(t.outputs, t.outputs.len() as int),
{
}

/// The first output whose path an earlier output already has ends the run
/// with `OutputAlreadyExists` for that path, before it is looked at or given
/// a temporary file.
pub proof fn lemma_split_refuses_repeat(s: SplitView, reply: Reply, t: SplitView, req: RequestView, j: int)
    requires
        split_wf(s),
        split_next(s, reply, t, req),
        s.stage == SplitStage::CreateTemp,
        reply matches Reply::Created(r) && r is Ok,
        s.index + 1 < s.outputs.len(),
        0 <= j <= s.index,
        s.outputs[j] == s.outputs[s.index as int + 1],
    ensures
        distinct_upto(s.outputs, s.index as int + 1),
        t.stage == SplitStage::Finished,
        req == RequestView::Finish(Err(ErrorView::OutputAlreadyExists(s.outputs[s.index as int + 1]))),
{
}

/// Each output is filled with its own pages: the qpdf run that writes the
/// temporary file of output `i` extracts the page range of plan entry `i`
/// from the input (`qpdf <input> --pages . <range> -- <temp>`), and that
/// temporary file is the one later moved onto output `i`.
pub proof fn lemma_split_fills_each_output(s: SplitView, reply: Reply, t: SplitView, req: RequestView)
    requires
        split_wf(s),
        split_next(s, reply, t, req),
        t.stage == SplitStage::Extract,
    ensures
        t.index < t.outputs.len(),
        t.plan == s.plan,
        t.outputs == s.outputs,
        req is Run,
        req->Run_0.executable == s.qpdf,
        req->Run_0.args == seq![s.args.input@, "--pages"@, "."@, s.plan[t.index as int].1, "--"@, t.temps[t.index as int]],
{
}

/// The page ranges of a plan's outputs, in order.
pub open spec fn plan_ranges(p: Seq<(Seq<char>, Seq<char>)>) -> Seq<Seq<char>> {
    p.map_values(|e: (Seq<char>, Seq<char>)| e.1)
}

proof fn lemma_chunk_parts(stem: Seq<char>, total: u32, chunk: u32, n: int)
    requires
        chunk >= 1,
        0 <= n <= chunk_count(total, chunk),
    ensures
        qpdf_parts_pages(plan_ranges(spec_chunk_entries(stem, total, chunk)).take(n), total) == Some(
            Seq::new((if n == 0 { 0 } else { chunk_end(n - 1, chunk, total) }) as nat, |k: int| k + 1),
        ),
    decreases n,
{
    let rs = plan_ranges(spec_chunk_entries(stem, total, chunk));
    lemma_chunks_cover_document(total, chunk);
    if n == 0 {
        assert(rs.take(0) =~= Seq::<Seq<char>>::empty());
        assert(Seq::new(0, |k: int| k + 1) =~= Seq::<int>::empty());
    } else {
        lemma_chunk_parts(stem, total, chunk, n - 1);
        assert(rs.take(n).drop_last() =~= rs.take(n - 1));
        let i = n - 1;
        let st = chunk_start(i, chunk);
        let en = chunk_end(i, chunk, total);
        assert(1 <= st <= en <= total);
        assert(rs.take(n).last() == decimal(st as u32 as nat).push('-') + decimal(en as u32 as nat));
        lemma_qpdf_reads_span(st as u32, en as u32, total);
        let before = if n - 1 == 0 { 0 } else { chunk_end(n - 2, chunk, total) };
        if n - 1 > 0 {
            assert(chunk_end(n - 2, chunk, total) + 1 == chunk_start(n - 1, chunk));
        }
        assert(before + 1 == st);
        assert(Seq::new(before as nat, |k: int| k + 1) + Seq::new((en - st + 1) as nat, |k: int| st + k) =~= Seq::new(
            en as nat,
            |k: int| k + 1,
        ));
    }
}

proof fn lemma_range_entries_read(stem: Seq<char>, raws: Seq<Seq<char>>, total: u32)
    requires
        total >= 1,
        spec_range_entries(stem, raws, total) is Ok,
    ensures
        spec_range_entries(stem, raws, total)->Ok_0.len() == raws.len(),
        forall|i: int|
            0 <= i < raws.len() ==> spec_parse(#[trigger] raws[i]) is Ok && spec_resolve(spec_parse(raws[i])->Ok_0, total) is Ok
                && qpdf_range_pages(spec_range_entries(stem, raws, total)->Ok_0[i].1, total) == Some(
                as_ints(spec_resolve(spec_parse(raws[i])->Ok_0, total)->Ok_0),
            ),
    decreases raws.len(),
{
    if raws.len() > 0 {
        let init = raws.drop_last();
        lemma_range_entries_read(stem, init, total);
        let es = spec_range_entries(stem, raws, total)->Ok_0;
        let before = spec_range_entries(stem, init, total)->Ok_0;
        let raw = raws.last();
        let items = spec_parse(raw)->Ok_0;
        lemma_rules_accept_resolution(items, total, split_range_rules());
        crate::page_spec::lemma_resolution_by_token(raw, total);
        crate::text::lemma_split_on_nonempty(crate::text::trim(raw), ',');
        lemma_qpdf_range_selects(items, total);
        assert forall|i: int| 0 <= i < raws.len() implies spec_parse(#[trigger] raws[i]) is Ok && spec_resolve(
            spec_parse(raws[i])->Ok_0,
            total,
        ) is Ok && qpdf_range_pages(es[i].1, total) == Some(as_ints(spec_resolve(spec_parse(raws[i])->Ok_0, total)->Ok_0)) by {
            if i < raws.len() - 1 {
                assert(raws[i] == init[i]);
                assert(es[i] == before[i]);
            }
        }
    }
}

/// What the outputs of a split hold, read from their qpdf page ranges as
/// qpdf reads them. With `--ranges`, output `i` holds exactly the pages that
/// the `i`-th specification selects, in its order. Otherwise (`--every n`,
/// `--each-page`) the outputs, one after the other, hold every page of the
/// document once, in order, each output at least one page and at most `n`.
pub proof fn lemma_split_plan_pages(stem: Seq<char>, args: SplitArgs, total: u32)
    requires
        total >= 1,
        args.ranges@.len() == 0 ==> args.every != Some(0u32),
        spec_split_plan(stem, args, total) is Ok,
    ensures
        args.ranges@.len() > 0 ==> spec_split_plan(stem, args, total)->Ok_0.len() == args.ranges@.len() && forall|i: int|
            0 <= i < args.ranges@.len() ==> spec_parse(#[trigger] args.ranges@[i]@) is Ok && spec_resolve(
                spec_parse(args.ranges@[i]@)->Ok_0,
                total,
            ) is Ok && qpdf_range_pages(spec_split_plan(stem, args, total)->Ok_0[i].1, total) == Some(
                as_ints(spec_resolve(spec_parse(args.ranges@[i]@)->Ok_0, total)->Ok_0),
            ),
        args.ranges@.len() == 0 ==> qpdf_parts_pages(plan_ranges(spec_split_plan(stem, args, total)->Ok_0), total)
            == Some(Seq::new(total as nat, |k: int| k + 1)),
        args.ranges@.len() == 0 ==> forall|i: int|
            0 <= i < spec_split_plan(stem, args, total)->Ok_0.len() ==> (qpdf_part_pages(
                #[trigger] spec_split_plan(stem, args, total)->Ok_0[i].1,
                total,
            ) matches Some(ps) && 1 <= ps.len() <= chunk_size(args.every)),
{
    let p = spec_split_plan(stem, args, total)->Ok_0;
    let es = spec_raw_entries(stem, args, total)->Ok_0;
    assert(p.len() == es.len());
    assert forall|i: int| 0 <= i < p.len() implies #[trigger] p[i].1 == es[i].1 by {}
    if args.ranges@.len() > 0 {
        let raws = views_of_strings(args.ranges@);
        lemma_range_entries_read(stem, raws, total);
        assert forall|i: int| 0 <= i < args.ranges@.len() implies spec_parse(#[trigger] args.ranges@[i]@) is Ok
            && spec_resolve(spec_parse(args.ranges@[i]@)->Ok_0, total) is Ok && qpdf_range_pages(p[i].1, total) == Some(
            as_ints(spec_resolve(spec_parse(args.ranges@[i]@)->Ok_0, total)->Ok_0),
        ) by {
            assert(raws[i] == args.ranges@[i]@);
            assert(p[i].1 == es[i].1);
        }
    } else {
        let c = chunk_size(args.every);
        assert(c >= 1);
        lemma_chunks_cover_document(total, c);
        let n = chunk_count(total, c) as int;
        lemma_chunk_parts(stem, total, c, n);
        assert(plan_ranges(es).take(n) =~= plan_ranges(es));
        assert(plan_ranges(p) =~= plan_ranges(es));
        assert(n > 0);
        assert forall|i: int| 0 <= i < p.len() implies (qpdf_part_pages(#[trigger] p[i].1, total) matches Some(ps) && 1
            <= ps.len() <= c) by {
            let st = chunk_start(i, c);
            let en = chunk_end(i, c, total);
            assert(1 <= st <= en <= total && en - st < c);
            assert(p[i].1 == es[i].1);
            lemma_qpdf_reads_span(st as u32, en as u32, total);
        }
    }
}

/// A `--ranges` specification may not use `odd` or `even`; one without
/// them that selects at least one page gives an output.
pub proof fn lemma_split_ranges_rules(stem: Seq<char>, raw: Seq<char>, total: u32)
    ensures
        spec_parse(raw) matches Ok(items) ==> ((exists|i: int|
            0 <= i < items.len() && (#[trigger] items[i] is Odd || items[i] is Even)) ==> spec_range_entry(stem, raw, total)
            == Err::<(Seq<char>, Seq<char>), PageFailure>(PageFailure::OddEven)),
        spec_parse(raw) matches Ok(items) ==> ((forall|i: int|
            0 <= i < items.len() ==> !(#[trigger] items[i] is Odd || items[i] is Even)) ==> (spec_resolve(items, total) matches Ok(
            ps,
        ) ==> (ps.len() > 0 ==> spec_range_entry(stem, raw, total) is Ok))),
{
    if let Ok(items) = spec_parse(raw) {
        crate::page_spec::lemma_rules_outcome(items, total, split_range_rules());
    }
}

} // verus!
