//! Page resolution for a match: an exact strategy over per-page texts, and a
//! line-density estimate over the whole text when exact resolution fails.
use vstd::prelude::*;
use crate::convert::{chars_of, lower_of, lowercase};
use crate::matcher::{first_line_hit, line_hit};
use crate::text::{contains_seq, lines_of, split_lines, trim, trim_chars, views};

verus! {

/// Lines assumed to fit on one page by the estimate.
pub const LINES_PER_PAGE: usize = 40;

/// The model of per-page texts: `None` where a page's text could not be had.
pub open spec fn page_texts(pages: Seq<Option<String>>) -> Seq<Option<Seq<char>>> {
    pages.map_values(|p: Option<String>|
        match p {
            Some(t) => Some(t@),
            None => None,
        })
}

/// The page text is known and contains `n` once lower-cased.
pub open spec fn page_has(p: Option<Seq<char>>, n: Seq<char>) -> bool {
    p matches Some(t) && line_hit(t, n)
}

/// The index of the first page at or after `k` whose text contains `n` once
/// lower-cased, or the number of pages when none does.
pub open spec fn first_page_hit(pages: Seq<Option<Seq<char>>>, n: Seq<char>, k: int) -> int
    decreases pages.len() - k,
{
    if k >= pages.len() {
        pages.len() as int
    } else if page_has(pages[k], n) {
        k
    } else {
        first_page_hit(pages, n, k + 1)
    }
}

/// The exact page of a match: the number (from 1) of the first page that
/// contains the lower-cased needle `n`, if any.
pub open spec fn exact_page(pages: Seq<Option<Seq<char>>>, n: Seq<char>) -> Option<u32> {
    let k = first_page_hit(pages, n, 0);
    if k < pages.len() {
        Some((k + 1) as u32)
    } else {
        None
    }
}

/// Finds the first page, in ascending order, whose text contains
/// `search_text`, case ignored. Page `k + 1` is at index `k`; a page whose
/// text could not be had is passed over.
pub fn find_exact_page_number(pages: &Vec<Option<String>>, search_text: &str) -> (r: Option<u32>)
    requires
        pages@.len() < u32::MAX,
    ensures
        r == exact_page(page_texts(pages@), lower_of(search_text@)),
{
    let ghost ps = page_texts(pages@);
    let n = lowercase(&chars_of(search_text));
    let mut k: usize = 0;
    while k < pages.len()
        invariant
            pages@.len() < u32::MAX,
            ps == page_texts(pages@),
            n@ == lower_of(search_text@),
            0 <= k <= pages@.len(),
            first_page_hit(ps, n@, 0) == first_page_hit(ps, n@, k as int),
        decreases pages@.len() - k,
    {
        match &pages[k] {
            Some(t) => {
                let low = lowercase(&chars_of(t.as_str()));
                if contains_seq(&low, &n) {
                    return Some((k + 1) as u32);
                }
            },
            None => {},
        }
        k = k + 1;
    }
    None
}

/// The estimated page of a match: from the index of the first line of the
/// text that contains the lower-cased, trimmed matched text, at
/// `LINES_PER_PAGE` lines a page.
pub open spec fn estimated_page(text: Seq<char>, matched: Seq<char>) -> Option<u32> {
    let ls = lines_of(text);
    let i = first_line_hit(ls, trim(lower_of(matched)), 0);
    if i < ls.len() {
        Some((i / LINES_PER_PAGE as int + 1) as u32)
    } else {
        None
    }
}

/// Estimates the page of `matched_line` in `full_text` from line density.
/// This is an approximation: it is wrong wherever pages do not hold
/// `LINES_PER_PAGE` lines each.
pub fn estimate_page_number(full_text: &str, matched_line: &str) -> (r: Option<u32>)
    ensures
        r == estimated_page(full_text@, matched_line@),
{
    let ls = split_lines(&chars_of(full_text));
    let n = trim_chars(&lowercase(&chars_of(matched_line)));
    let mut i: usize = 0;
    while i < ls.len()
        invariant
            views(ls@) == lines_of(full_text@),
            n@ == trim(lower_of(matched_line@)),
            0 <= i <= ls@.len(),
            first_line_hit(views(ls@), n@, 0) == first_line_hit(views(ls@), n@, i as int),
        decreases ls@.len() - i,
    {
        let low = lowercase(&ls[i]);
        if contains_seq(&low, &n) {
            return Some((i / LINES_PER_PAGE + 1) as u32);
        }
        i = i + 1;
    }
    None
}

/// The page of a match: the exact page when there is one, else the estimate.
pub open spec fn resolved_page(exact: Option<u32>, text: Seq<char>, matched: Seq<char>) -> Option<
    u32,
> {
    match exact {
        Some(p) => Some(p),
        None => estimated_page(text, matched),
    }
}

/// Resolves the page of a match: `exact` when it is known, else the estimate
/// over `full_text`.
pub fn resolve_page(exact: Option<u32>, full_text: &str, matched_line: &str) -> (r: Option<u32>)
    ensures
        r == resolved_page(exact, full_text@, matched_line@),
{
    match exact {
        Some(p) => Some(p),
        None => estimate_page_number(full_text, matched_line),
    }
}

proof fn lemma_first_page_hit(pages: Seq<Option<Seq<char>>>, n: Seq<char>, k: int)
    requires
        0 <= k <= pages.len(),
    ensures
        k <= first_page_hit(pages, n, k) <= pages.len(),
        first_page_hit(pages, n, k) < pages.len() ==> page_has(pages[first_page_hit(pages, n, k)], n),
        forall|j: int| k <= j < first_page_hit(pages, n, k) ==> !page_has(#[trigger] pages[j], n),
    decreases pages.len() - k,
{
    if k < pages.len() && !page_has(pages[k], n) {
        lemma_first_page_hit(pages, n, k + 1);
    }
}

/// Exact resolution returns the first page, counted from 1, whose text holds
/// the needle: it holds it, and no page before it does.
pub proof fn lemma_exact_page_is_first(pages: Seq<Option<Seq<char>>>, n: Seq<char>)
    requires
        pages.len() < u32::MAX,
    ensures
        exact_page(pages, n) matches Some(p) ==> 1 <= p <= pages.len() && page_has(pages[p - 1], n)
            && forall|j: int| 0 <= j < p - 1 ==> !page_has(#[trigger] pages[j], n),
        exact_page(pages, n) is None ==> forall|j: int|
            0 <= j < pages.len() ==> !page_has(#[trigger] pages[j], n),
{
    lemma_first_page_hit(pages, n, 0);
}

proof fn lemma_first_line_hit(ls: Seq<Seq<char>>, n: Seq<char>, i: int)
    requires
        0 <= i <= ls.len(),
    ensures
        i <= first_line_hit(ls, n, i) <= ls.len(),
    decreases ls.len() - i,
{
    if i < ls.len() && !line_hit(ls[i], n) {
        lemma_first_line_hit(ls, n, i + 1);
    }
}

/// The estimate is a page from 1 up to the number of pages, where the text has
/// no more than `LINES_PER_PAGE` lines for each page.
pub proof fn lemma_estimate_in_range(text: Seq<char>, matched: Seq<char>, page_count: nat)
    requires
        lines_of(text).len() <= LINES_PER_PAGE * page_count,
        page_count <= u32::MAX,
    ensures
        estimated_page(text, matched) matches Some(p) ==> 1 <= p <= page_count,
{
    let ls = lines_of(text);
    let i = first_line_hit(ls, trim(lower_of(matched)), 0);
    lemma_first_line_hit(ls, trim(lower_of(matched)), 0);
    if i < ls.len() {
        assert(i / 40 < page_count) by (nonlinear_arith)
            requires
                0 <= i < 40 * page_count,
        ;
    }
}

} // verus!
