use vstd::prelude::*;

use crate::error::{AppError, ErrorView};
use crate::text::{
    chars_eq, chars_to_string, find_char, find_char_index, lemma_find_char, slice_chars, spec_parse_u32,
    split_chars, split_on, str_chars, trim, trim_chars, views, parse_u32, decimal, u32_to_decimal,
    append_chars, join_with, is_digit, unsigned_digits, digits_value, lemma_decimal_value, lemma_find_char_unique,
};

verus! {

/// One end of a page range: a page number or the last page.
#[derive(Debug, Clone, Copy, PartialEq, Eq, Structural)]
pub enum PageBound {
    Number(u32),
    Last,
}

/// One comma-separated item of a page specification.
#[derive(Debug, Clone, Copy, PartialEq, Eq, Structural)]
pub enum PageExpr {
    Number(u32),
    Range(PageBound, PageBound),
    All,
    Last,
    Odd,
    Even,
}

/// A parsed page specification such as `1,3,5-8` or `4-last`: its items in
/// the order they were written.
#[derive(Debug, Clone, PartialEq, Eq)]
pub struct PageSpec {
    items: Vec<PageExpr>,
}

/// Constraints that a command puts on a page specification.
#[derive(Debug, Clone, Copy, PartialEq, Eq, Structural)]
pub struct PageSpecRules {
    pub allow_odd_even: bool,
    pub require_single_page: bool,
    pub allow_empty_result: bool,
}

impl Default for PageSpecRules {
    fn default() -> (r: Self)
        ensures
            !r.allow_odd_even,
            !r.require_single_page,
            !r.allow_empty_result,
    {
        PageSpecRules { allow_odd_even: false, require_single_page: false, allow_empty_result: false }
    }
}

/// Why a page specification was refused once the page count is known.
pub enum PageFailure {
    Invalid(Seq<char>),
    OutOfRange(u32, u32),
    OddEven,
    Empty,
    NotSingle,
}

/// The error that reports `f`.
pub open spec fn failure_view(f: PageFailure) -> ErrorView {
    match f {
        PageFailure::Invalid(m) => ErrorView::InvalidPageSpec(m),
        PageFailure::OutOfRange(page, total) => ErrorView::PageOutOfRange(page, total),
        PageFailure::OddEven => ErrorView::OddEvenNotAllowed,
        PageFailure::Empty => ErrorView::EmptyPageSelection,
        PageFailure::NotSingle => ErrorView::SinglePageRequired,
    }
}

/// `e` is the error that reports `f`.
pub open spec fn reports(e: AppError, f: PageFailure) -> bool {
    e@ == failure_view(f)
}

// ---------------------------------------------------------------- parsing

/// A page number: what `u32` parsing accepts, except zero. The message of
/// the refusal is the text itself.
pub open spec fn spec_parse_page_number(t: Seq<char>) -> Result<u32, Seq<char>> {
    match spec_parse_u32(t) {
        Some(p) => if p == 0 {
            Err(t)
        } else {
            Ok(p)
        },
        None => Err(t),
    }
}

/// A range bound: `last` or a page number.
pub open spec fn spec_parse_bound(t: Seq<char>) -> Result<PageBound, Seq<char>> {
    if t == "last"@ {
        Ok(PageBound::Last)
    } else {
        match spec_parse_page_number(t) {
            Ok(p) => Ok(PageBound::Number(p)),
            Err(m) => Err(m),
        }
    }
}

/// A range whose bounds parsed: refused when it starts at `last` or when its
/// numeric start lies after its numeric end.
pub open spec fn spec_range(token: Seq<char>, start: PageBound, end: PageBound) -> Result<
    PageExpr,
    Seq<char>,
> {
    if start is Last {
        Err(token)
    } else if start matches PageBound::Number(a) && end matches PageBound::Number(b) && a > b {
        Err(token)
    } else {
        Ok(PageExpr::Range(start, end))
    }
}

/// One item: a keyword, a range `a-b` split at its first `-`, or a page number.
pub open spec fn spec_parse_item(raw: Seq<char>) -> Result<PageExpr, Seq<char>> {
    let token = trim(raw);
    if token.len() == 0 {
        Err("empty page token"@)
    } else if token == "all"@ {
        Ok(PageExpr::All)
    } else if token == "last"@ {
        Ok(PageExpr::Last)
    } else if token == "odd"@ {
        Ok(PageExpr::Odd)
    } else if token == "even"@ {
        Ok(PageExpr::Even)
    } else {
        match find_char(token, '-') {
            Some(i) => match spec_parse_bound(trim(token.take(i))) {
                Err(m) => Err(m),
                Ok(start) => match spec_parse_bound(trim(token.skip(i + 1))) {
                    Err(m) => Err(m),
                    Ok(end) => spec_range(token, start, end),
                },
            },
            None => match spec_parse_page_number(token) {
                Ok(p) => Ok(PageExpr::Number(p)),
                Err(m) => Err(m),
            },
        }
    }
}

/// The items of a list of tokens, or the refusal of the first bad token.
pub open spec fn spec_parse_items(tokens: Seq<Seq<char>>) -> Result<Seq<PageExpr>, Seq<char>>
    decreases tokens.len(),
{
    if tokens.len() == 0 {
        Ok(Seq::empty())
    } else {
        match spec_parse_items(tokens.drop_last()) {
            Err(m) => Err(m),
            Ok(items) => match spec_parse_item(tokens.last()) {
                Ok(e) => Ok(items.push(e)),
                Err(m) => Err(m),
            },
        }
    }
}

/// A whole specification: the trimmed text must not be empty, and each of its
/// comma-separated tokens must be an item.
pub open spec fn spec_parse(input: Seq<char>) -> Result<Seq<PageExpr>, Seq<char>> {
    let t = trim(input);
    if t.len() == 0 {
        Err("page specification is empty"@)
    } else {
        spec_parse_items(split_on(t, ','))
    }
}

fn parse_page_number(t: &Vec<char>) -> (r: Result<u32, AppError>)
    ensures
        match (r, spec_parse_page_number(t@)) {
            (Ok(p), Ok(q)) => p == q,
            (Err(e), Err(m)) => e.is_invalid_page_spec(m),
            _ => false,
        },
{
    match parse_u32(t) {
        Some(p) => {
            if p == 0 {
                Err(AppError::InvalidPageSpec(chars_to_string(t)))
            } else {
                Ok(p)
            }
        },
        None => Err(AppError::InvalidPageSpec(chars_to_string(t))),
    }
}

fn parse_bound(t: &Vec<char>) -> (r: Result<PageBound, AppError>)
    ensures
        match (r, spec_parse_bound(t@)) {
            (Ok(b), Ok(c)) => b == c,
            (Err(e), Err(m)) => e.is_invalid_page_spec(m),
            _ => false,
        },
{
    let last = str_chars("last");
    if chars_eq(t, &last) {
        Ok(PageBound::Last)
    } else {
        match parse_page_number(t) {
            Ok(p) => Ok(PageBound::Number(p)),
            Err(e) => Err(e),
        }
    }
}

fn parse_item(raw: &Vec<char>) -> (r: Result<PageExpr, AppError>)
    ensures
        match (r, spec_parse_item(raw@)) {
            (Ok(x), Ok(y)) => x == y,
            (Err(e), Err(m)) => e.is_invalid_page_spec(m),
            _ => false,
        },
{
    let token = trim_chars(raw);
    if token.len() == 0 {
        return Err(AppError::InvalidPageSpec("empty page token".to_owned()));
    }
    if chars_eq(&token, &str_chars("all")) {
        return Ok(PageExpr::All);
    }
    if chars_eq(&token, &str_chars("last")) {
        return Ok(PageExpr::Last);
    }
    if chars_eq(&token, &str_chars("odd")) {
        return Ok(PageExpr::Odd);
    }
    if chars_eq(&token, &str_chars("even")) {
        return Ok(PageExpr::Even);
    }
    match find_char_index(&token, '-') {
        Some(i) => {
            proof {
                lemma_find_char(token@, '-');
            }
            let start = parse_bound(&trim_chars(&slice_chars(&token, 0, i)))?;
            let end = parse_bound(&trim_chars(&slice_chars(&token, i + 1, token.len())))?;
            assert(token@.subrange(0, i as int) =~= token@.take(i as int));
            assert(token@.subrange(i + 1, token@.len() as int) =~= token@.skip(i + 1));
            if matches!(start, PageBound::Last) {
                return Err(AppError::InvalidPageSpec(chars_to_string(&token)));
            }
            if let (PageBound::Number(a), PageBound::Number(b)) = (start, end) {
                if a > b {
                    return Err(AppError::InvalidPageSpec(chars_to_string(&token)));
                }
            }
            Ok(PageExpr::Range(start, end))
        },
        None => {
            let p = parse_page_number(&token)?;
            Ok(PageExpr::Number(p))
        },
    }
}

impl View for PageSpec {
    type V = Seq<PageExpr>;

    closed spec fn view(&self) -> Seq<PageExpr> {
        self.items@
    }
}

impl PageSpec {
    /// Parses a page specification. On success the items are those of
    /// `spec_parse`; on failure the error is `InvalidPageSpec` with the message
    /// that `spec_parse` gives.
    pub fn parse(input: &str) -> (r: Result<PageSpec, AppError>)
        ensures
            match (r, spec_parse(input@)) {
                (Ok(ps), Ok(items)) => ps@ == items,
                (Err(e), Err(m)) => e.is_invalid_page_spec(m),
                _ => false,
            },
    {
        let chars = str_chars(input);
        let trimmed = trim_chars(&chars);
        if trimmed.len() == 0 {
            return Err(AppError::InvalidPageSpec("page specification is empty".to_owned()));
        }
        let tokens = split_chars(&trimmed, ',');
        let ghost toks = split_on(trimmed@, ',');
        let mut items: Vec<PageExpr> = Vec::new();
        let mut i: usize = 0;
        assert(toks.take(0) =~= Seq::<Seq<char>>::empty());
        while i < tokens.len()
            invariant
                i <= tokens.len(),
                views(tokens@) == toks,
                toks == split_on(trim(input@), ','),
                trim(input@).len() > 0,
                spec_parse_items(toks.take(i as int)) == Ok::<Seq<PageExpr>, Seq<char>>(items@),
            decreases tokens.len() - i,
        {
            assert(toks.take(i + 1).drop_last() =~= toks.take(i as int));
            assert(toks.take(i + 1).last() == tokens@[i as int]@);
            match parse_item(&tokens[i]) {
                Ok(e) => {
                    items.push(e);
                },
                Err(err) => {
                    proof {
                        assert(tokens@[i as int]@ == toks[i as int]);
                        let m = spec_parse_item(toks[i as int])->Err_0;
                        assert(err.is_invalid_page_spec(m));
                        assert(spec_parse_items(toks.take(i + 1)) == Err::<Seq<PageExpr>, Seq<char>>(m));
                        lemma_parse_items_prefix_error(toks, (i + 1) as int);
                        assert(spec_parse(input@) == spec_parse_items(toks));
                    }
                    return Err(err);
                },
            }
            i += 1;
        }
        assert(toks.take(tokens.len() as int) =~= toks);
        Ok(PageSpec { items })
    }
}

impl core::str::FromStr for PageSpec {
    type Err = AppError;

    /// Parses a page specification as `PageSpec::parse` does.
    fn from_str(input: &str) -> (r: Result<PageSpec, AppError>)
        ensures
            match (r, spec_parse(input@)) {
                (Ok(ps), Ok(items)) => ps@ == items,
                (Err(e), Err(m)) => e.is_invalid_page_spec(m),
                _ => false,
            },
    {
        PageSpec::parse(input)
    }
}

/// A refused prefix of tokens makes the whole list refused with the same message.
proof fn lemma_parse_items_prefix_error(tokens: Seq<Seq<char>>, k: int)
    requires
        0 <= k <= tokens.len(),
        spec_parse_items(tokens.take(k)) is Err,
    ensures
        spec_parse_items(tokens) == spec_parse_items(tokens.take(k)),
    decreases tokens.len() - k,
{
    if k < tokens.len() {
        assert(tokens.take(k + 1).drop_last() =~= tokens.take(k));
        lemma_parse_items_prefix_error(tokens, k + 1);
    } else {
        assert(tokens.take(k) =~= tokens);
    }
}

// ------------------------------------------------------------- resolution

/// The pages `a, a+1, ..., b`; empty when `a > b`.
pub open spec fn pages_between(a: int, b: int) -> Seq<u32> {
    if a > b {
        Seq::empty()
    } else {
        Seq::new((b - a + 1) as nat, |i: int| (a + i) as u32)
    }
}

/// The odd pages `1, 3, 5, ...` up to `total`.
pub open spec fn odd_pages(total: u32) -> Seq<u32> {
    Seq::new(((total as int + 1) / 2) as nat, |i: int| (2 * i + 1) as u32)
}

/// The even pages `2, 4, 6, ...` up to `total`.
pub open spec fn even_pages(total: u32) -> Seq<u32> {
    Seq::new((total as int / 2) as nat, |i: int| (2 * i + 2) as u32)
}

/// A single page must lie in `1..=total`.
pub open spec fn spec_validate_page(page: u32, total: u32) -> Result<u32, PageFailure> {
    if total == 0 || page == 0 || page > total {
        Err(PageFailure::OutOfRange(page, total))
    } else {
        Ok(page)
    }
}

pub open spec fn spec_resolve_bound(b: PageBound, total: u32) -> Result<u32, PageFailure> {
    match b {
        PageBound::Number(p) => spec_validate_page(p, total),
        PageBound::Last => spec_validate_page(total, total),
    }
}

/// The pages one item stands for in a document of `total` pages.
pub open spec fn spec_resolve_item(e: PageExpr, total: u32) -> Result<Seq<u32>, PageFailure> {
    match e {
        PageExpr::Number(p) => match spec_validate_page(p, total) {
            Ok(q) => Ok(seq![q]),
            Err(f) => Err(f),
        },
        PageExpr::Range(s, t) => match spec_resolve_bound(s, total) {
            Err(f) => Err(f),
            Ok(a) => match spec_resolve_bound(t, total) {
                Err(f) => Err(f),
                Ok(b) => if a > b {
                    Err(PageFailure::Invalid(decimal(a as nat).push('-') + decimal(b as nat)))
                } else {
                    Ok(pages_between(a as int, b as int))
                },
            },
        },
        PageExpr::All => Ok(pages_between(1, total as int)),
        PageExpr::Last => match spec_validate_page(total, total) {
            Ok(q) => Ok(seq![q]),
            Err(f) => Err(f),
        },
        PageExpr::Odd => Ok(odd_pages(total)),
        PageExpr::Even => Ok(even_pages(total)),
    }
}

/// The pages of all items, each item's pages in turn, in the order written and
/// with repetitions kept; or the failure of the first item that fails.
pub open spec fn spec_resolve(items: Seq<PageExpr>, total: u32) -> Result<Seq<u32>, PageFailure>
    decreases items.len(),
{
    if items.len() == 0 {
        Ok(Seq::empty())
    } else {
        match spec_resolve(items.drop_last(), total) {
            Err(f) => Err(f),
            Ok(pages) => match spec_resolve_item(items.last(), total) {
                Ok(more) => Ok(pages + more),
                Err(f) => Err(f),
            },
        }
    }
}

/// Whether an item is `odd` or `even`.
pub open spec fn is_parity(e: PageExpr) -> bool {
    e is Odd || e is Even
}

/// The pages of a specification under a command's rules.
pub open spec fn spec_validate_rules(items: Seq<PageExpr>, total: u32, rules: PageSpecRules) -> Result<
    Seq<u32>,
    PageFailure,
> {
    if !rules.allow_odd_even && exists|i: int| 0 <= i < items.len() && is_parity(#[trigger] items[i]) {
        Err(PageFailure::OddEven)
    } else {
        match spec_resolve(items, total) {
            Err(f) => Err(f),
            Ok(pages) => if !rules.allow_empty_result && pages.len() == 0 {
                Err(PageFailure::Empty)
            } else if rules.require_single_page && pages.len() != 1 {
                Err(PageFailure::NotSingle)
            } else {
                Ok(pages)
            },
        }
    }
}

fn validate_page(page: u32, total: u32) -> (r: Result<u32, AppError>)
    ensures
        match (r, spec_validate_page(page, total)) {
            (Ok(p), Ok(q)) => p == q,
            (Err(e), Err(f)) => reports(e, f),
            _ => false,
        },
{
    if total == 0 || page == 0 || page > total {
        Err(AppError::PageOutOfRange { page, total_pages: total })
    } else {
        Ok(page)
    }
}

fn resolve_bound(b: PageBound, total: u32) -> (r: Result<u32, AppError>)
    ensures
        match (r, spec_resolve_bound(b, total)) {
            (Ok(p), Ok(q)) => p == q,
            (Err(e), Err(f)) => reports(e, f),
            _ => false,
        },
{
    match b {
        PageBound::Number(p) => validate_page(p, total),
        PageBound::Last => validate_page(total, total),
    }
}

/// Appends the pages `a..=b` to `out`.
fn push_pages_between(out: &mut Vec<u32>, a: u32, b: u32)
    ensures
        final(out)@ == old(out)@ + pages_between(a as int, b as int),
{
    let ghost start = old(out)@;
    if a > b {
        assert(start + pages_between(a as int, b as int) =~= start);
        return;
    }
    let mut p: u64 = a as u64;
    while p <= b as u64
        invariant
            a <= b,
            a <= p <= b as u64 + 1,
            out@ == start + pages_between(a as int, p - 1),
        decreases b as u64 + 1 - p,
    {
        out.push(p as u32);
        p += 1;
        assert(out@ =~= start + pages_between(a as int, p - 1));
    }
}

/// Appends the pages `first, first+2, ...` up to `total` to `out`.
fn push_every_other(out: &mut Vec<u32>, first: u32, total: u32)
    requires
        first == 1 || first == 2,
    ensures
        first == 1 ==> final(out)@ == old(out)@ + odd_pages(total),
        first == 2 ==> final(out)@ == old(out)@ + even_pages(total),
{
    let ghost start = old(out)@;
    let mut p: u64 = first as u64;
    let mut k: u64 = 0;
    while p <= total as u64
        invariant
            first == 1 || first == 2,
            p == 2 * k + first,
            p <= total as u64 + 2,
            out@.len() == start.len() + k,
            forall|i: int| 0 <= i < start.len() ==> out@[i] == start[i],
            forall|i: int| 0 <= i < k ==> #[trigger] out@[start.len() + i] == (2 * i + first) as u32,
        decreases total as u64 + 2 - p,
    {
        out.push(p as u32);
        p += 2;
        k += 1;
    }
    if first == 1 {
        assert(k == (total as int + 1) / 2);
        let ghost target = start + odd_pages(total);
        assert forall|i: int| 0 <= i < out@.len() implies out@[i] == target[i] by {
            if i >= start.len() {
                assert(out@[start.len() + (i - start.len())] == (2 * (i - start.len()) + first) as u32);
            }
        }
        assert(out@ =~= target);
    } else {
        assert(k == total as int / 2);
        let ghost target = start + even_pages(total);
        assert forall|i: int| 0 <= i < out@.len() implies out@[i] == target[i] by {
            if i >= start.len() {
                assert(out@[start.len() + (i - start.len())] == (2 * (i - start.len()) + first) as u32);
            }
        }
        assert(out@ =~= target);
    }
}

/// The text `a-b` of two page numbers.
fn reversed_range_message(a: u32, b: u32) -> (m: String)
    ensures
        m@ == decimal(a as nat).push('-') + decimal(b as nat),
{
    let mut v = u32_to_decimal(a);
    v.push('-');
    let w = u32_to_decimal(b);
    append_chars(&mut v, &w);
    chars_to_string(&v)
}

fn resolve_item(out: &mut Vec<u32>, e: PageExpr, total: u32) -> (r: Result<(), AppError>)
    ensures
        match (r, spec_resolve_item(e, total)) {
            (Ok(_), Ok(pages)) => final(out)@ == old(out)@ + pages,
            (Err(err), Err(f)) => reports(err, f),
            _ => false,
        },
{
    match e {
        PageExpr::Number(p) => {
            let q = validate_page(p, total)?;
            out.push(q);
            Ok(())
        },
        PageExpr::Range(s, t) => {
            let a = resolve_bound(s, total)?;
            let b = resolve_bound(t, total)?;
            if a > b {
                return Err(AppError::InvalidPageSpec(reversed_range_message(a, b)));
            }
            push_pages_between(out, a, b);
            Ok(())
        },
        PageExpr::All => {
            push_pages_between(out, 1, total);
            Ok(())
        },
        PageExpr::Last => {
            let q = validate_page(total, total)?;
            out.push(q);
            Ok(())
        },
        PageExpr::Odd => {
            push_every_other(out, 1, total);
            Ok(())
        },
        PageExpr::Even => {
            push_every_other(out, 2, total);
            Ok(())
        },
    }
}

/// A failing prefix of items makes the whole specification fail the same way.
proof fn lemma_resolve_prefix_error(items: Seq<PageExpr>, total: u32, k: int)
    requires
        0 <= k <= items.len(),
        spec_resolve(items.take(k), total) is Err,
    ensures
        spec_resolve(items, total) == spec_resolve(items.take(k), total),
    decreases items.len() - k,
{
    if k < items.len() {
        assert(items.take(k + 1).drop_last() =~= items.take(k));
        lemma_resolve_prefix_error(items, total, k + 1);
    } else {
        assert(items.take(k) =~= items);
    }
}

impl PageSpec {
    /// The pages the specification stands for in a document of `total_pages`
    /// pages, as `spec_resolve` gives them, or the error that reports its failure.
    pub fn resolve(&self, total_pages: u32) -> (r: Result<Vec<u32>, AppError>)
        ensures
            match (r, spec_resolve(self@, total_pages)) {
                (Ok(v), Ok(pages)) => v@ == pages,
                (Err(e), Err(f)) => reports(e, f),
                _ => false,
            },
    {
        let mut resolved: Vec<u32> = Vec::new();
        let mut i: usize = 0;
        assert(self.items@.take(0) =~= Seq::<PageExpr>::empty());
        while i < self.items.len()
            invariant
                i <= self.items.len(),
                spec_resolve(self.items@.take(i as int), total_pages) == Ok::<Seq<u32>, PageFailure>(
                    resolved@,
                ),
            decreases self.items.len() - i,
        {
            assert(self.items@.take(i + 1).drop_last() =~= self.items@.take(i as int));
            assert(self.items@.take(i + 1).last() == self.items@[i as int]);
            match resolve_item(&mut resolved, self.items[i], total_pages) {
                Ok(()) => {},
                Err(e) => {
                    proof {
                        lemma_resolve_prefix_error(self.items@, total_pages, i + 1);
                    }
                    return Err(e);
                },
            }
            i += 1;
        }
        assert(self.items@.take(self.items.len() as int) =~= self.items@);
        Ok(resolved)
    }

    /// The pages of the specification under `rules`, as `spec_validate_rules`
    /// gives them, or the error that reports the refusal.
    pub fn validate_rules(&self, total_pages: u32, rules: PageSpecRules) -> (r: Result<
        Vec<u32>,
        AppError,
    >)
        ensures
            match (r, spec_validate_rules(self@, total_pages, rules)) {
                (Ok(v), Ok(pages)) => v@ == pages,
                (Err(e), Err(f)) => reports(e, f),
                _ => false,
            },
    {
        if !rules.allow_odd_even {
            let mut i: usize = 0;
            while i < self.items.len()
                invariant
                    i <= self.items.len(),
                    !rules.allow_odd_even,
                    forall|j: int| 0 <= j < i ==> !is_parity(#[trigger] self.items@[j]),
                decreases self.items.len() - i,
            {
                if matches!(self.items[i], PageExpr::Odd | PageExpr::Even) {
                    assert(is_parity(self@[i as int]));
                    return Err(AppError::OddEvenNotAllowed);
                }
                i += 1;
            }
        }
        let resolved = self.resolve(total_pages)?;
        if !rules.allow_empty_result && resolved.len() == 0 {
            return Err(AppError::EmptyPageSelection);
        }
        if rules.require_single_page && resolved.len() != 1 {
            return Err(AppError::SinglePageRequired);
        }
        Ok(resolved)
    }
}

// ---------------------------------------------------------- qpdf ranges

/// The qpdf range text of a bound: its number, or `z` for the last page.
pub open spec fn bound_qpdf(b: PageBound) -> Seq<char> {
    match b {
        PageBound::Number(p) => decimal(p as nat),
        PageBound::Last => "z"@,
    }
}

/// The qpdf range text of one item.
pub open spec fn expr_qpdf(e: PageExpr) -> Seq<char> {
    match e {
        PageExpr::Number(p) => decimal(p as nat),
        PageExpr::Range(a, b) => bound_qpdf(a).push('-') + bound_qpdf(b),
        PageExpr::All => "1-z"@,
        PageExpr::Last => "z"@,
        PageExpr::Odd => "1-z:odd"@,
        PageExpr::Even => "1-z:even"@,
    }
}

/// The qpdf range texts of all items, separated by commas.
pub open spec fn spec_qpdf_range(items: Seq<PageExpr>) -> Seq<char> {
    join_with(items.map_values(|e: PageExpr| expr_qpdf(e)), seq![','])
}

impl PageBound {
    /// The bound in qpdf's page range syntax.
    pub fn to_qpdf_range(self) -> (r: String)
        ensures
            r@ == bound_qpdf(self),
    {
        match self {
            PageBound::Number(p) => chars_to_string(&u32_to_decimal(p)),
            PageBound::Last => {
                proof {
                    reveal_strlit("z");
                }
                "z".to_owned()
            },
        }
    }
}

impl PageExpr {
    /// The item in qpdf's page range syntax.
    pub fn to_qpdf_range(self) -> (r: String)
        ensures
            r@ == expr_qpdf(self),
    {
        proof {
            reveal_strlit("1-z");
            reveal_strlit("z");
            reveal_strlit("1-z:odd");
            reveal_strlit("1-z:even");
        }
        match self {
            PageExpr::Number(p) => chars_to_string(&u32_to_decimal(p)),
            PageExpr::Range(a, b) => {
                let mut v = str_chars(a.to_qpdf_range().as_str());
                v.push('-');
                append_chars(&mut v, &str_chars(b.to_qpdf_range().as_str()));
                chars_to_string(&v)
            },
            PageExpr::All => "1-z".to_owned(),
            PageExpr::Last => "z".to_owned(),
            PageExpr::Odd => "1-z:odd".to_owned(),
            PageExpr::Even => "1-z:even".to_owned(),
        }
    }
}

impl PageSpec {
    /// The specification as a qpdf page range: each item's qpdf text, comma
    /// separated, in the order written.
    pub fn to_qpdf_range(&self) -> (r: String)
        ensures
            r@ == spec_qpdf_range(self@),
    {
        let ghost parts = self.items@.map_values(|e: PageExpr| expr_qpdf(e));
        let mut out: Vec<char> = Vec::new();
        let mut i: usize = 0;
        while i < self.items.len()
            invariant
                i <= self.items.len(),
                parts == self.items@.map_values(|e: PageExpr| expr_qpdf(e)),
                out@ == join_with(parts.take(i as int), seq![',']),
            decreases self.items.len() - i,
        {
            assert(parts.take(i + 1).drop_last() =~= parts.take(i as int));
            assert(parts.take(i + 1).last() == expr_qpdf(self.items@[i as int]));
            let piece = str_chars(self.items[i].to_qpdf_range().as_str());
            if i > 0 {
                out.push(',');
            } else {
                assert(parts.take(1).len() == 1);
                assert(out@ + piece@ =~= piece@);
            }
            append_chars(&mut out, &piece);
            i += 1;
        }
        assert(parts.take(self.items.len() as int) =~= parts);
        chars_to_string(&out)
    }
}

// ------------------------------------------------------------------ laws

/// Resolution keeps the order of the items and every repetition: the pages of
/// two item lists written one after the other are the pages of the first
/// followed by the pages of the second, and a failure in the first list wins
/// over one in the second.
pub proof fn lemma_resolve_concat(a: Seq<PageExpr>, b: Seq<PageExpr>, total: u32)
    ensures
        spec_resolve(a + b, total) == match spec_resolve(a, total) {
            Err(f) => Err(f),
            Ok(pa) => match spec_resolve(b, total) {
                Err(f) => Err(f),
                Ok(pb) => Ok(pa + pb),
            },
        },
    decreases b.len(),
{
    if b.len() == 0 {
        assert(a + b =~= a);
        if let Ok(pa) = spec_resolve(a, total) {
            assert(pa + Seq::<u32>::empty() =~= pa);
        }
    } else {
        assert((a + b).drop_last() =~= a + b.drop_last());
        assert((a + b).last() == b.last());
        lemma_resolve_concat(a, b.drop_last(), total);
        if let Ok(pa) = spec_resolve(a, total) {
            if let Ok(pb) = spec_resolve(b.drop_last(), total) {
                if let Ok(more) = spec_resolve_item(b.last(), total) {
                    assert(pa + pb + more =~= pa + (pb + more));
                }
            }
        }
    }
}

/// Every page of a successful resolution lies in `1..=total`.
pub proof fn lemma_resolved_pages_in_range(items: Seq<PageExpr>, total: u32)
    ensures
        spec_resolve(items, total) matches Ok(pages) ==> forall|i: int|
            0 <= i < pages.len() ==> 1 <= #[trigger] pages[i] <= total,
    decreases items.len(),
{
    if items.len() > 0 {
        lemma_resolved_pages_in_range(items.drop_last(), total);
        if let Ok(pages) = spec_resolve(items, total) {
            let pa = spec_resolve(items.drop_last(), total)->Ok_0;
            let more = spec_resolve_item(items.last(), total)->Ok_0;
            assert(pages == pa + more);
            assert forall|i: int| 0 <= i < pages.len() implies 1 <= #[trigger] pages[i] <= total by {
                if i >= pa.len() {
                    assert(pages[i] == more[i - pa.len()]);
                }
            }
        }
    }
}

/// The rules only ever refuse: when they accept, the pages are exactly the
/// resolution of the specification.
pub proof fn lemma_rules_accept_resolution(items: Seq<PageExpr>, total: u32, rules: PageSpecRules)
    ensures
        spec_validate_rules(items, total, rules) matches Ok(pages) ==> spec_resolve(items, total)
            == Ok::<Seq<u32>, PageFailure>(pages),
{
}

/// A page number as `str::parse::<u32>` reads it, at least 1.
pub open spec fn is_page_number(x: Seq<char>) -> bool {
    spec_parse_u32(x) matches Some(k) && k >= 1
}

/// A trimmed token that a page specification accepts: a keyword, a page
/// number, or `a-b` split at its first `-` where `a` (trimmed) is a page
/// number and `b` (trimmed) is `last` or a page number no smaller than `a`.
pub open spec fn token_ok(u: Seq<char>) -> bool {
    ||| u == "all"@ || u == "last"@ || u == "odd"@ || u == "even"@
    ||| is_page_number(u)
    ||| (find_char(u, '-') matches Some(i) && is_page_number(trim(u.take(i))) && (trim(u.skip(i + 1)) == "last"@ || (
        is_page_number(trim(u.skip(i + 1))) && spec_parse_u32(trim(u.take(i)))->Some_0 <= spec_parse_u32(
            trim(u.skip(i + 1)),
        )->Some_0)))
}

proof fn lemma_dash_not_number(u: Seq<char>, i: int)
    requires
        0 <= i < u.len(),
        u[i] == '-',
    ensures
        spec_parse_u32(u) is None,
{
    let d = unsigned_digits(u);
    if u.len() > 0 && u[0] == '+' {
        if i == 0 {
        } else {
            assert(d[i - 1] == u[i]);
            assert(!is_digit(d[i - 1]));
        }
    } else {
        assert(d[i] == u[i]);
        assert(!is_digit(d[i]));
    }
}

proof fn lemma_item_ok(raw: Seq<char>)
    ensures
        spec_parse_item(raw) is Ok <==> token_ok(trim(raw)),
{
    reveal_strlit("all");
    reveal_strlit("last");
    reveal_strlit("odd");
    reveal_strlit("even");
    let u = trim(raw);
    lemma_find_char(u, '-');
    if let Some(i) = find_char(u, '-') {
        lemma_dash_not_number(u, i);
    }
    if u.len() == 0 {
        assert(unsigned_digits(u).len() == 0);
    }
}

proof fn lemma_items_ok(tokens: Seq<Seq<char>>)
    ensures
        spec_parse_items(tokens) is Ok <==> forall|i: int| 0 <= i < tokens.len() ==> token_ok(trim(#[trigger] tokens[i])),
    decreases tokens.len(),
{
    if tokens.len() > 0 {
        lemma_items_ok(tokens.drop_last());
        lemma_item_ok(tokens.last());
        if spec_parse_items(tokens) is Ok {
            assert forall|i: int| 0 <= i < tokens.len() implies token_ok(trim(#[trigger] tokens[i])) by {
                if i < tokens.len() - 1 {
                    assert(tokens[i] == tokens.drop_last()[i]);
                }
            }
        } else if spec_parse_items(tokens.drop_last()) is Err {
            let i = choose|i: int| 0 <= i < tokens.len() - 1 && !token_ok(trim(#[trigger] tokens.drop_last()[i]));
            assert(tokens[i] == tokens.drop_last()[i]);
        } else {
            assert(!token_ok(trim(tokens[tokens.len() - 1])));
        }
    }
}

/// The grammar of page specifications: a specification is accepted exactly
/// when its trimmed text is not empty and every comma-separated token,
/// trimmed, is acceptable (`token_ok`); every refusal is `InvalidPageSpec`.
pub proof fn lemma_page_spec_grammar(input: Seq<char>)
    ensures
        spec_parse(input) is Ok <==> trim(input).len() > 0 && forall|i: int|
            0 <= i < split_on(trim(input), ',').len() ==> token_ok(trim(#[trigger] split_on(trim(input), ',')[i])),
{
    if trim(input).len() > 0 {
        lemma_items_ok(split_on(trim(input), ','));
    }
}

/// The pages the written tokens stand for, token after token, in the order
/// written and with repetitions kept; or the failure of the first token that
/// fails.
pub open spec fn token_pages(tokens: Seq<Seq<char>>, total: u32) -> Result<Seq<u32>, PageFailure>
    decreases tokens.len(),
{
    if tokens.len() == 0 {
        Ok(Seq::empty())
    } else {
        match token_pages(tokens.drop_last(), total) {
            Err(f) => Err(f),
            Ok(pages) => match spec_resolve_item(spec_parse_item(tokens.last())->Ok_0, total) {
                Ok(more) => Ok(pages + more),
                Err(f) => Err(f),
            },
        }
    }
}

proof fn lemma_items_by_token(tokens: Seq<Seq<char>>, total: u32)
    requires
        spec_parse_items(tokens) is Ok,
    ensures
        spec_parse_items(tokens)->Ok_0.len() == tokens.len(),
        forall|i: int|
            0 <= i < tokens.len() ==> spec_parse_item(#[trigger] tokens[i]) == Ok::<PageExpr, Seq<char>>(
                spec_parse_items(tokens)->Ok_0[i],
            ),
        spec_resolve(spec_parse_items(tokens)->Ok_0, total) == token_pages(tokens, total),
    decreases tokens.len(),
{
    if tokens.len() > 0 {
        lemma_items_by_token(tokens.drop_last(), total);
        let items = spec_parse_items(tokens)->Ok_0;
        let before = spec_parse_items(tokens.drop_last())->Ok_0;
        assert(items.drop_last() =~= before);
        assert forall|i: int| 0 <= i < tokens.len() implies spec_parse_item(#[trigger] tokens[i]) == Ok::<
            PageExpr,
            Seq<char>,
        >(items[i]) by {
            if i < tokens.len() - 1 {
                assert(tokens[i] == tokens.drop_last()[i]);
                assert(items[i] == before[i]);
            }
        }
    }
}

/// Resolution follows the written text: an accepted specification has one
/// item per comma-separated token, each the item that token reads as, and
/// the pages it resolves to are each token's pages in turn, or the failure
/// of the first token that fails.
pub proof fn lemma_resolution_by_token(input: Seq<char>, total: u32)
    requires
        spec_parse(input) is Ok,
    ensures
        spec_parse(input)->Ok_0.len() == split_on(trim(input), ',').len(),
        forall|i: int|
            0 <= i < split_on(trim(input), ',').len() ==> spec_parse_item(#[trigger] split_on(trim(input), ',')[i])
                == Ok::<PageExpr, Seq<char>>(spec_parse(input)->Ok_0[i]),
        spec_resolve(spec_parse(input)->Ok_0, total) == token_pages(split_on(trim(input), ','), total),
{
    lemma_items_by_token(split_on(trim(input), ','), total);
}

// ------------------------------------------------- what the items select

/// The pages come in strictly increasing order.
pub open spec fn increasing(ps: Seq<u32>) -> bool {
    forall|i: int, j: int| 0 <= i < j < ps.len() ==> ps[i] < ps[j]
}

/// `all`, `odd`, `even` and `last` select, in a document of `total` pages,
/// every page, every odd page, every even page and the last page, in
/// increasing order; `last` is refused in an empty document.
pub proof fn lemma_keyword_pages(total: u32)
    ensures
        spec_resolve_item(PageExpr::All, total) matches Ok(ps) && increasing(ps) && forall|p: u32|
            ps.contains(p) <==> 1 <= p <= total,
        spec_resolve_item(PageExpr::Odd, total) matches Ok(ps) && increasing(ps) && forall|p: u32|
            ps.contains(p) <==> (1 <= p <= total && p % 2 == 1),
        spec_resolve_item(PageExpr::Even, total) matches Ok(ps) && increasing(ps) && forall|p: u32|
            ps.contains(p) <==> (1 <= p <= total && p % 2 == 0),
        total >= 1 ==> spec_resolve_item(PageExpr::Last, total) == Ok::<Seq<u32>, PageFailure>(seq![total]),
        total == 0 ==> spec_resolve_item(PageExpr::Last, total) is Err,
{
    let all = pages_between(1, total as int);
    assert forall|p: u32| all.contains(p) <==> 1 <= p <= total by {
        if 1 <= p <= total {
            assert(all[p - 1] == p);
        }
    }
    let odd = odd_pages(total);
    assert forall|p: u32| odd.contains(p) <==> (1 <= p <= total && p % 2 == 1) by {
        if 1 <= p <= total && p % 2 == 1 {
            let k: int = (p - 1) / 2;
            assert(2 * k + 1 == p);
            assert(k < (total as int + 1) / 2);
            assert(odd[k] == p);
        }
        if odd.contains(p) {
            let k = choose|k: int| 0 <= k < odd.len() && odd[k] == p;
            assert(2 * k + 1 <= total);
        }
    }
    let even = even_pages(total);
    assert forall|p: u32| even.contains(p) <==> (1 <= p <= total && p % 2 == 0) by {
        if 1 <= p <= total && p % 2 == 0 {
            let k: int = (p - 2) / 2;
            assert(2 * k + 2 == p);
            assert(k < total as int / 2);
            assert(even[k] == p);
        }
        if even.contains(p) {
            let k = choose|k: int| 0 <= k < even.len() && even[k] == p;
            assert(2 * k + 2 <= total);
        }
    }
}

/// A page number selects that page when it lies in the document, and is
/// refused as out of range otherwise.
pub proof fn lemma_number_pages(p: u32, total: u32)
    ensures
        spec_resolve_item(PageExpr::Number(p), total) == if 1 <= p <= total {
            Ok::<Seq<u32>, PageFailure>(seq![p])
        } else {
            Err(PageFailure::OutOfRange(p, total))
        },
{
}

/// A range `a-b` of page numbers selects `a, a+1, ..., b` when both lie in
/// the document and `a <= b`; a start outside the document is reported
/// first, then an end outside it, and a start after the end is refused.
pub proof fn lemma_range_pages(a: u32, b: u32, total: u32)
    ensures
        1 <= a <= b <= total ==> (spec_resolve_item(PageExpr::Range(PageBound::Number(a), PageBound::Number(b)), total) matches Ok(
            ps,
        ) && ps.len() == b - a + 1 && forall|i: int| 0 <= i < ps.len() ==> ps[i] == a + i),
        !(1 <= a <= total) ==> spec_resolve_item(PageExpr::Range(PageBound::Number(a), PageBound::Number(b)), total)
            == Err::<Seq<u32>, PageFailure>(PageFailure::OutOfRange(a, total)),
        1 <= a <= total && !(1 <= b <= total) ==> spec_resolve_item(
            PageExpr::Range(PageBound::Number(a), PageBound::Number(b)),
            total,
        ) == Err::<Seq<u32>, PageFailure>(PageFailure::OutOfRange(b, total)),
        1 <= b < a <= total ==> spec_resolve_item(PageExpr::Range(PageBound::Number(a), PageBound::Number(b)), total) is Err,
        1 <= a <= total ==> (spec_resolve_item(PageExpr::Range(PageBound::Number(a), PageBound::Last), total) matches Ok(
            ps,
        ) && ps.len() == total - a + 1 && forall|i: int| 0 <= i < ps.len() ==> ps[i] == a + i),
{
}

// ------------------------------------------------------- qpdf's reading

/// How qpdf reads one end of a page range: `z` is the last page, a string of
/// digits is that page number.
pub open spec fn qpdf_bound_page(t: Seq<char>, total: u32) -> Option<int> {
    if t == "z"@ {
        Some(total as int)
    } else if t.len() > 0 && forall|i: int| 0 <= i < t.len() ==> is_digit(#[trigger] t[i]) {
        Some(digits_value(t) as int)
    } else {
        None
    }
}

/// The pages from `a` to `b` as qpdf lists them: upward, or downward when
/// `b < a`.
pub open spec fn qpdf_span(a: int, b: int) -> Seq<int> {
    if a <= b {
        Seq::new((b - a + 1) as nat, |k: int| a + k)
    } else {
        Seq::new((a - b + 1) as nat, |k: int| a - k)
    }
}

/// A page, or a range `a-b` (split at its first `-`), as qpdf reads it.
pub open spec fn qpdf_plain_pages(t: Seq<char>, total: u32) -> Option<Seq<int>> {
    match find_char(t, '-') {
        Some(i) => match (qpdf_bound_page(t.take(i), total), qpdf_bound_page(t.skip(i + 1), total)) {
            (Some(a), Some(b)) => Some(qpdf_span(a, b)),
            _ => None,
        },
        None => match qpdf_bound_page(t, total) {
            Some(a) => Some(seq![a]),
            None => None,
        },
    }
}

/// One comma-separated part of a qpdf page range as qpdf reads it: a page
/// or a range, optionally followed by `:odd` or `:even`, which keep the
/// first, third, ... or the second, fourth, ... of its pages.
pub open spec fn qpdf_part_pages(t: Seq<char>, total: u32) -> Option<Seq<int>> {
    match find_char(t, ':') {
        Some(i) => match qpdf_plain_pages(t.take(i), total) {
            Some(ps) => if t.skip(i + 1) == "odd"@ {
                Some(Seq::new(((ps.len() + 1) / 2) as nat, |k: int| ps[2 * k]))
            } else if t.skip(i + 1) == "even"@ {
                Some(Seq::new((ps.len() / 2) as nat, |k: int| ps[2 * k + 1]))
            } else {
                None
            },
            None => None,
        },
        None => qpdf_plain_pages(t, total),
    }
}

/// Pages as integers.
pub open spec fn as_ints(ps: Seq<u32>) -> Seq<int> {
    Seq::new(ps.len(), |i: int| ps[i] as int)
}

proof fn lemma_digits_text(t: Seq<char>)
    requires
        forall|i: int| 0 <= i < t.len() ==> is_digit(#[trigger] t[i]),
    ensures
        find_char(t, '-') is None,
        find_char(t, ':') is None,
        t != "z"@,
{
    reveal_strlit("z");
    lemma_find_char(t, '-');
    lemma_find_char(t, ':');
    if t.len() > 0 {
        assert(is_digit(t[0]));
    }
    if t == "z"@ {
        assert(t[0] == 'z');
    }
}

proof fn lemma_bound_text(b: PageBound, total: u32)
    requires
        spec_resolve_bound(b, total) is Ok,
    ensures
        forall|i: int| 0 <= i < bound_qpdf(b).len() ==> #[trigger] bound_qpdf(b)[i] != '-' && bound_qpdf(b)[i] != ':',
        qpdf_bound_page(bound_qpdf(b), total) == Some(spec_resolve_bound(b, total)->Ok_0 as int),
{
    reveal_strlit("z");
    match b {
        PageBound::Number(p) => {
            lemma_decimal_value(p as nat);
            let t = decimal(p as nat);
            lemma_digits_text(t);
            assert forall|i: int| 0 <= i < t.len() implies #[trigger] t[i] != '-' && t[i] != ':' by {
                assert(is_digit(t[i]));
            }
        },
        PageBound::Last => {},
    }
}

proof fn lemma_span_between(a: u32, b: u32)
    requires
        a <= b,
    ensures
        qpdf_span(a as int, b as int) == as_ints(pages_between(a as int, b as int)),
{
    assert(qpdf_span(a as int, b as int) =~= as_ints(pages_between(a as int, b as int)));
}

/// The qpdf text of an item selects, as qpdf reads it, exactly the pages the
/// item resolves to, in the same order: `1-z` is every page first to last,
/// `1-z:odd` and `1-z:even` the odd and even pages, `z` the last page, and a
/// number or a range its pages.
pub proof fn lemma_qpdf_text_selects_item(e: PageExpr, total: u32)
    requires
        total >= 1,
        spec_resolve_item(e, total) is Ok,
    ensures
        qpdf_part_pages(expr_qpdf(e), total) == Some(as_ints(spec_resolve_item(e, total)->Ok_0)),
{
    reveal_strlit("z");
    reveal_strlit("1");
    reveal_strlit("1-z");
    reveal_strlit("1-z:odd");
    reveal_strlit("1-z:even");
    reveal_strlit("odd");
    reveal_strlit("even");
    let ps = spec_resolve_item(e, total)->Ok_0;
    match e {
        PageExpr::Number(p) => {
            lemma_decimal_value(p as nat);
            lemma_digits_text(decimal(p as nat));
            assert(as_ints(ps) =~= seq![p as int]);
        },
        PageExpr::Range(a, b) => {
            lemma_bound_text(a, total);
            lemma_bound_text(b, total);
            let ta = bound_qpdf(a);
            let tb = bound_qpdf(b);
            let t = ta.push('-') + tb;
            assert(t == expr_qpdf(e));
            assert forall|j: int| 0 <= j < t.len() implies t[j] != ':' by {
                if j < ta.len() {
                    assert(t[j] == ta[j]);
                } else if j > ta.len() {
                    assert(t[j] == tb[j - ta.len() - 1]);
                }
            }
            lemma_find_char(t, ':');
            assert forall|j: int| 0 <= j < ta.len() implies t[j] != '-' by {
                assert(t[j] == ta[j]);
            }
            lemma_find_char_unique(t, '-', ta.len() as int);
            assert(t.take(ta.len() as int) =~= ta);
            assert(t.skip(ta.len() as int + 1) =~= tb);
            let av = spec_resolve_bound(a, total)->Ok_0;
            let bv = spec_resolve_bound(b, total)->Ok_0;
            lemma_span_between(av, bv);
        },
        PageExpr::All => {
            let t = "1-z"@;
            assert(t =~= seq!['1', '-', 'z']);
            lemma_find_char(t, ':');
            lemma_find_char_unique(t, '-', 1);
            assert(t.take(1) =~= seq!['1']);
            assert(t.skip(2) =~= "z"@);
            assert(is_digit('1'));
            assert(seq!['1'].drop_last() =~= Seq::<char>::empty());
            assert(digits_value(Seq::<char>::empty()) == 0);
            assert(seq!['1'].last() == '1');
            assert(('1' as u32) - ('0' as u32) == 1);
            assert(digits_value(seq!['1']) == 1);
            assert(seq!['1'] != "z"@);
            lemma_span_between(1, total);
        },
        PageExpr::Last => {
            lemma_find_char("z"@, ':');
            lemma_find_char("z"@, '-');
            assert(as_ints(ps) =~= seq![total as int]);
        },
        PageExpr::Odd => {
            let t = "1-z:odd"@;
            assert(t =~= seq!['1', '-', 'z', ':', 'o', 'd', 'd']);
            lemma_find_char_unique(t, ':', 3);
            let base = t.take(3);
            assert(base =~= seq!['1', '-', 'z']);
            assert(t.skip(4) =~= "odd"@);
            lemma_find_char(base, ':');
            lemma_find_char_unique(base, '-', 1);
            assert(base.take(1) =~= seq!['1']);
            assert(base.skip(2) =~= "z"@);
            assert(seq!['1'].drop_last() =~= Seq::<char>::empty());
            assert(digits_value(Seq::<char>::empty()) == 0);
            assert(seq!['1'].last() == '1');
            assert(('1' as u32) - ('0' as u32) == 1);
            assert(digits_value(seq!['1']) == 1);
            assert(seq!['1'] != "z"@);
            lemma_span_between(1, total);
            let span = qpdf_span(1, total as int);
            assert(Seq::new(((span.len() + 1) / 2) as nat, |k: int| span[2 * k]) =~= as_ints(ps));
        },
        PageExpr::Even => {
            let t = "1-z:even"@;
            assert(t =~= seq!['1', '-', 'z', ':', 'e', 'v', 'e', 'n']);
            lemma_find_char_unique(t, ':', 3);
            let base = t.take(3);
            assert(base =~= seq!['1', '-', 'z']);
            assert(t.skip(4) =~= "even"@);
            assert(t.skip(4) != "odd"@);
            lemma_find_char(base, ':');
            lemma_find_char_unique(base, '-', 1);
            assert(base.take(1) =~= seq!['1']);
            assert(base.skip(2) =~= "z"@);
            assert(seq!['1'].drop_last() =~= Seq::<char>::empty());
            assert(digits_value(Seq::<char>::empty()) == 0);
            assert(seq!['1'].last() == '1');
            assert(('1' as u32) - ('0' as u32) == 1);
            assert(digits_value(seq!['1']) == 1);
            assert(seq!['1'] != "z"@);
            lemma_span_between(1, total);
            let span = qpdf_span(1, total as int);
            assert(Seq::new((span.len() / 2) as nat, |k: int| span[2 * k + 1]) =~= as_ints(ps));
        },
    }
}

/// The pages of the comma-separated parts of a qpdf range, one part after
/// the other; nothing when some part cannot be read.
pub open spec fn qpdf_parts_pages(parts: Seq<Seq<char>>, total: u32) -> Option<Seq<int>>
    decreases parts.len(),
{
    if parts.len() == 0 {
        Some(Seq::empty())
    } else {
        match (qpdf_parts_pages(parts.drop_last(), total), qpdf_part_pages(parts.last(), total)) {
            (Some(a), Some(b)) => Some(a + b),
            _ => None,
        }
    }
}

/// How qpdf reads a whole page range: its comma-separated parts in turn.
pub open spec fn qpdf_range_pages(text: Seq<char>, total: u32) -> Option<Seq<int>> {
    qpdf_parts_pages(split_on(text, ','), total)
}

proof fn lemma_bound_no_comma(b: PageBound)
    ensures
        forall|i: int| 0 <= i < bound_qpdf(b).len() ==> #[trigger] bound_qpdf(b)[i] != ',',
{
    reveal_strlit("z");
    if let PageBound::Number(p) = b {
        lemma_decimal_value(p as nat);
        assert forall|i: int| 0 <= i < decimal(p as nat).len() implies #[trigger] decimal(p as nat)[i] != ',' by {
            assert(is_digit(decimal(p as nat)[i]));
        }
    }
}

proof fn lemma_item_text_no_comma(e: PageExpr)
    ensures
        forall|i: int| 0 <= i < expr_qpdf(e).len() ==> #[trigger] expr_qpdf(e)[i] != ',',
{
    reveal_strlit("z");
    reveal_strlit("1-z");
    reveal_strlit("1-z:odd");
    reveal_strlit("1-z:even");
    match e {
        PageExpr::Number(p) => {
            lemma_bound_no_comma(PageBound::Number(p));
            assert(expr_qpdf(e) == bound_qpdf(PageBound::Number(p)));
        },
        PageExpr::Range(a, b) => {
            lemma_bound_no_comma(a);
            lemma_bound_no_comma(b);
            let ta = bound_qpdf(a);
            let tb = bound_qpdf(b);
            let t = ta.push('-') + tb;
            assert forall|j: int| 0 <= j < t.len() implies #[trigger] t[j] != ',' by {
                if j < ta.len() {
                    assert(t[j] == ta[j]);
                } else if j > ta.len() {
                    assert(t[j] == tb[j - ta.len() - 1]);
                }
            }
        },
        PageExpr::All => {
            assert("1-z"@ =~= seq!['1', '-', 'z']);
        },
        PageExpr::Last => {
            assert("z"@ =~= seq!['z']);
        },
        PageExpr::Odd => {
            assert("1-z:odd"@ =~= seq!['1', '-', 'z', ':', 'o', 'd', 'd']);
        },
        PageExpr::Even => {
            assert("1-z:even"@ =~= seq!['1', '-', 'z', ':', 'e', 'v', 'e', 'n']);
        },
    }
}

proof fn lemma_split_append(z: Seq<char>, y: Seq<char>, c: char)
    requires
        forall|i: int| 0 <= i < y.len() ==> y[i] != c,
    ensures
        split_on(z + y, c) == split_on(z, c).update(split_on(z, c).len() - 1, split_on(z, c).last() + y),
    decreases y.len(),
{
    crate::text::lemma_split_on_nonempty(z, c);
    let sz = split_on(z, c);
    if y.len() == 0 {
        assert(z + y =~= z);
        assert(sz.last() + y =~= sz.last());
        assert(sz.update(sz.len() - 1, sz.last()) =~= sz);
    } else {
        let y0 = y.drop_last();
        assert((z + y).drop_last() =~= z + y0);
        assert((z + y).last() == y.last());
        lemma_split_append(z, y0, c);
        assert(sz.last() + y0 + seq![y.last()] =~= sz.last() + y);
        assert((sz.last() + y0).push(y.last()) =~= sz.last() + y);
        let u = sz.update(sz.len() - 1, sz.last() + y0);
        assert(u.update(u.len() - 1, u.last().push(y.last())) =~= sz.update(sz.len() - 1, sz.last() + y));
    }
}

proof fn lemma_split_join(parts: Seq<Seq<char>>)
    requires
        parts.len() >= 1,
        forall|k: int, i: int| 0 <= k < parts.len() && 0 <= i < parts[k].len() ==> #[trigger] parts[k][i] != ',',
    ensures
        split_on(join_with(parts, seq![',']), ',') == parts,
    decreases parts.len(),
{
    let last = parts.last();
    assert forall|i: int| 0 <= i < last.len() implies last[i] != ',' by {
        assert(parts[parts.len() - 1][i] != ',');
    }
    if parts.len() == 1 {
        lemma_split_append(Seq::empty(), last, ',');
        assert(Seq::<char>::empty() + last =~= last);
        assert(split_on(Seq::<char>::empty(), ',') =~= seq![Seq::<char>::empty()]);
        assert(Seq::<char>::empty() + last =~= last);
        assert(seq![Seq::<char>::empty()].update(0, Seq::<char>::empty() + last) =~= parts);
    } else {
        let init = parts.drop_last();
        assert forall|k: int, i: int| 0 <= k < init.len() && 0 <= i < init[k].len() implies #[trigger] init[k][i] != ',' by {
            assert(init[k] == parts[k]);
        }
        lemma_split_join(init);
        let j = join_with(init, seq![',']);
        let z = j + seq![','];
        assert(z.drop_last() =~= j);
        assert(split_on(z, ',') == init.push(Seq::<char>::empty()));
        lemma_split_append(z, last, ',');
        assert(join_with(parts, seq![',']) == z + last);
        assert(Seq::<char>::empty() + last =~= last);
        assert(init.push(Seq::<char>::empty()).update(init.len() as int, Seq::<char>::empty() + last) =~= parts);
    }
}

proof fn lemma_parts_pages(items: Seq<PageExpr>, total: u32)
    requires
        total >= 1,
        spec_resolve(items, total) is Ok,
    ensures
        qpdf_parts_pages(items.map_values(|e: PageExpr| expr_qpdf(e)), total) == Some(
            as_ints(spec_resolve(items, total)->Ok_0),
        ),
    decreases items.len(),
{
    let parts = items.map_values(|e: PageExpr| expr_qpdf(e));
    if items.len() == 0 {
        assert(as_ints(spec_resolve(items, total)->Ok_0) =~= Seq::<int>::empty());
    } else {
        let init = items.drop_last();
        lemma_parts_pages(init, total);
        assert(parts.drop_last() =~= init.map_values(|e: PageExpr| expr_qpdf(e)));
        assert(parts.last() == expr_qpdf(items.last()));
        lemma_qpdf_text_selects_item(items.last(), total);
        let a = spec_resolve(init, total)->Ok_0;
        let b = spec_resolve_item(items.last(), total)->Ok_0;
        assert(as_ints(a + b) =~= as_ints(a) + as_ints(b));
    }
}

/// The qpdf range written for a specification selects, as qpdf reads it,
/// exactly the pages the specification resolves to, in the same order and
/// with the same repetitions.
pub proof fn lemma_qpdf_range_selects(items: Seq<PageExpr>, total: u32)
    requires
        total >= 1,
        items.len() >= 1,
        spec_resolve(items, total) is Ok,
    ensures
        qpdf_range_pages(spec_qpdf_range(items), total) == Some(as_ints(spec_resolve(items, total)->Ok_0)),
{
    let parts = items.map_values(|e: PageExpr| expr_qpdf(e));
    assert forall|k: int, i: int| 0 <= k < parts.len() && 0 <= i < parts[k].len() implies #[trigger] parts[k][i] != ',' by {
        lemma_item_text_no_comma(items[k]);
    }
    lemma_split_join(parts);
    lemma_parts_pages(items, total);
}

/// qpdf reads `s-e`, for pages `1 <= s <= e <= total`, as the pages `s` to
/// `e` in order.
pub proof fn lemma_qpdf_reads_span(a: u32, b: u32, total: u32)
    requires
        1 <= a <= b <= total,
    ensures
        qpdf_part_pages(decimal(a as nat).push('-') + decimal(b as nat), total) == Some(
            Seq::new((b - a + 1) as nat, |k: int| a + k),
        ),
{
    let e = PageExpr::Range(PageBound::Number(a), PageBound::Number(b));
    lemma_qpdf_text_selects_item(e, total);
    assert(expr_qpdf(e) == decimal(a as nat).push('-') + decimal(b as nat));
    assert(as_ints(spec_resolve_item(e, total)->Ok_0) =~= Seq::new((b - a + 1) as nat, |k: int| a + k));
}

/// What a command's rules do to a specification: `odd`/`even` are refused
/// first where not allowed; then a failure to resolve is reported; then an
/// empty selection where one is not allowed, and a selection of other than
/// one page where a single page is required; anything else is the
/// resolution, unchanged.
pub proof fn lemma_rules_outcome(items: Seq<PageExpr>, total: u32, rules: PageSpecRules)
    ensures
        !rules.allow_odd_even && (exists|i: int| 0 <= i < items.len() && (#[trigger] items[i] is Odd || items[i] is Even))
            ==> spec_validate_rules(items, total, rules) == Err::<Seq<u32>, PageFailure>(PageFailure::OddEven),
        (rules.allow_odd_even || forall|i: int| 0 <= i < items.len() ==> !(#[trigger] items[i] is Odd || items[i] is Even))
            ==> match spec_resolve(items, total) {
            Err(f) => spec_validate_rules(items, total, rules) == Err::<Seq<u32>, PageFailure>(f),
            Ok(ps) => spec_validate_rules(items, total, rules) == if !rules.allow_empty_result && ps.len() == 0 {
                Err::<Seq<u32>, PageFailure>(PageFailure::Empty)
            } else if rules.require_single_page && ps.len() != 1 {
                Err(PageFailure::NotSingle)
            } else {
                Ok(ps)
            },
        },
{
    if !rules.allow_odd_even && (exists|i: int| 0 <= i < items.len() && (#[trigger] items[i] is Odd || items[i] is Even)) {
        let i = choose|i: int| 0 <= i < items.len() && (#[trigger] items[i] is Odd || items[i] is Even);
        assert(is_parity(items[i]));
    }
    if rules.allow_odd_even || forall|i: int| 0 <= i < items.len() ==> !(#[trigger] items[i] is Odd || items[i] is Even) {
        if !rules.allow_odd_even {
            assert forall|i: int| 0 <= i < items.len() implies !is_parity(#[trigger] items[i]) by {
                assert(!(items[i] is Odd || items[i] is Even));
            }
        }
    }
}

} // verus!
