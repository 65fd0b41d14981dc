//! Case-insensitive keyword matching and the context windows built around
//! the first matching line (or character position) of a text.
use vstd::prelude::*;
use crate::convert::{chars_of, lower_of, lowercase, string_of};
use crate::text::{
    add_unique, cap_chars, capped, contains, contains_seq, copy_chars, find, first_occurrence,
    join_lines, join_with_newlines, lines_of, occurs_at, push_unique, split_lines, trim, trim_chars,
    views,
};

verus! {

/// Longest context, in characters, of a single-keyword match.
pub const SINGLE_CAP: usize = 200;

/// Characters kept of a single-keyword context that is too long.
pub const SINGLE_KEEP: usize = 100;

/// Longest context, in characters, of a multi-keyword match.
pub const MULTI_CAP: usize = 300;

/// Characters kept of a multi-keyword context that is too long.
pub const MULTI_KEEP: usize = 150;

/// Once a multi-keyword context holds more lines than this, no more are added.
pub const MULTI_MAX_LINES: usize = 10;

/// The line `l` contains the lower-cased needle `n` once lower-cased itself.
pub open spec fn line_hit(l: Seq<char>, n: Seq<char>) -> bool {
    contains(lower_of(l), n)
}

/// The index of the first line at or after `i` that contains `n`, or the
/// number of lines when none does.
pub open spec fn first_line_hit(ls: Seq<Seq<char>>, n: Seq<char>, i: int) -> int
    decreases ls.len() - i,
{
    if i >= ls.len() {
        ls.len() as int
    } else if line_hit(ls[i], n) {
        i
    } else {
        first_line_hit(ls, n, i + 1)
    }
}

/// The text of a single-keyword match before capping: the first matching
/// line with one line before and after it, repeated lines once, joined with
/// newlines and trimmed.
pub open spec fn single_window(ls: Seq<Seq<char>>, n: Seq<char>) -> Seq<char> {
    let i = first_line_hit(ls, n, 0);
    let lines = if i < ls.len() {
        let lo = if i > 0 { i - 1 } else { 0 };
        let hi = if i + 1 < ls.len() { i + 2 } else { ls.len() as int };
        add_unique(Seq::empty(), ls.subrange(lo, hi))
    } else {
        Seq::empty()
    };
    trim(join_lines(lines))
}

/// The context of a single-keyword match: its window, capped.
pub open spec fn single_context(ls: Seq<Seq<char>>, n: Seq<char>) -> Seq<char> {
    capped(single_window(ls, n), SINGLE_CAP as nat, SINGLE_KEEP as nat)
}

/// The index of the first line that contains `n` once lower-cased.
fn first_matching_line(ls: &Vec<Vec<char>>, n: &Vec<char>) -> (r: usize)
    ensures
        r as int == first_line_hit(views(ls@), n@, 0),
        r <= ls@.len(),
{
    let mut i: usize = 0;
    while i < ls.len()
        invariant
            0 <= i <= ls@.len(),
            first_line_hit(views(ls@), n@, 0) == first_line_hit(views(ls@), n@, i as int),
        decreases ls@.len() - i,
    {
        let low = lowercase(&ls[i]);
        if contains_seq(&low, n) {
            return i;
        }
        i = i + 1;
    }
    i
}

/// The context of the first line of `text` that contains `keyword`, when the
/// text contains the keyword at all; matching ignores case.
pub fn single_keyword_context(text: &Vec<char>, keyword: &Vec<char>) -> (r: Option<Vec<char>>)
    ensures
        r.is_some() == contains(lower_of(text@), lower_of(keyword@)),
        text@.len() == 0 && lower_of(keyword@).len() > 0 ==> r is None,
        r matches Some(c) ==> c@ == single_context(lines_of(text@), lower_of(keyword@)),
{
    let n = lowercase(keyword);
    let low = lowercase(text);
    if !contains_seq(&low, &n) {
        return None;
    }
    proof {
        if low@.len() == 0 && n@.len() > 0 {
            let i = choose|i: int| occurs_at(low@, n@, i);
        }
    }
    let ls = split_lines(text);
    let i = first_matching_line(&ls, &n);
    let mut picked: Vec<Vec<char>> = Vec::new();
    if i < ls.len() {
        let lo: usize = if i > 0 { i - 1 } else { 0 };
        let hi: usize = if ls.len() - i > 1 { i + 2 } else { ls.len() };
        push_unique(&mut picked, &ls, lo, hi);
        assert(views(Seq::<Vec<char>>::empty()) =~= Seq::<Seq<char>>::empty());
    } else {
        assert(views(picked@) =~= Seq::<Seq<char>>::empty());
    }
    let joined = join_with_newlines(&picked);
    let trimmed = trim_chars(&joined);
    let c = cap_chars(trimmed, SINGLE_CAP, SINGLE_KEEP);
    Some(c)
}

/// The keywords of `kws`, in order, whose lower-cased form occurs in the
/// lower-cased text `low`.
pub open spec fn found_keywords(low: Seq<char>, kws: Seq<Seq<char>>) -> Seq<Seq<char>>
    decreases kws.len(),
{
    if kws.len() == 0 {
        Seq::empty()
    } else {
        let r = found_keywords(low, kws.drop_last());
        if contains(low, lower_of(kws.last())) {
            r.push(kws.last())
        } else {
            r
        }
    }
}

proof fn lemma_nothing_found_in_empty(low: Seq<char>, ks: Seq<Seq<char>>)
    requires
        low.len() == 0,
        forall|i: int| 0 <= i < ks.len() ==> lower_of(#[trigger] ks[i]).len() > 0,
    ensures
        found_keywords(low, ks).len() == 0,
    decreases ks.len(),
{
    if ks.len() > 0 {
        assert forall|i: int| 0 <= i < ks.drop_last().len() implies lower_of(
            #[trigger] ks.drop_last()[i],
        ).len() > 0 by {
            assert(ks.drop_last()[i] == ks[i]);
        }
        lemma_nothing_found_in_empty(low, ks.drop_last());
        assert(lower_of(ks[ks.len() - 1]).len() > 0);
        if contains(low, lower_of(ks.last())) {
            let i = choose|i: int| occurs_at(low, lower_of(ks.last()), i);
        }
    }
}

/// Some keyword of `ks` occurs in the line `l`, case ignored.
pub open spec fn any_hit(l: Seq<char>, ks: Seq<Seq<char>>) -> bool {
    exists|j: int| 0 <= j < ks.len() && line_hit(l, lower_of(ks[j]))
}

/// The lines gathered for a multi-keyword context from line `i` on, after
/// `acc`: each matching line brings two lines before and after it, repeated
/// lines once, until more than `MULTI_MAX_LINES` lines are held.
pub open spec fn gather(ls: Seq<Seq<char>>, ks: Seq<Seq<char>>, i: int, acc: Seq<Seq<char>>) -> Seq<
    Seq<char>,
>
    decreases ls.len() - i,
{
    if i < 0 || i >= ls.len() {
        acc
    } else if any_hit(ls[i], ks) {
        let lo = if i >= 2 { i - 2 } else { 0 };
        let hi = if i + 3 < ls.len() { i + 3 } else { ls.len() as int };
        let a = add_unique(acc, ls.subrange(lo, hi));
        if a.len() > MULTI_MAX_LINES {
            a
        } else {
            gather(ls, ks, i + 1, a)
        }
    } else {
        gather(ls, ks, i + 1, acc)
    }
}

/// The context of a multi-keyword match over the lines `ls`, for the found
/// keywords `ks`.
pub open spec fn multi_context(ls: Seq<Seq<char>>, ks: Seq<Seq<char>>) -> Seq<char> {
    capped(multi_window(ls, ks), MULTI_CAP as nat, MULTI_KEEP as nat)
}

/// The text of a multi-keyword match before capping: the gathered lines
/// joined with newlines and trimmed.
pub open spec fn multi_window(ls: Seq<Seq<char>>, ks: Seq<Seq<char>>) -> Seq<char> {
    trim(join_lines(gather(ls, ks, 0, Seq::empty())))
}

fn select_found(low: &Vec<char>, kws: &Vec<Vec<char>>) -> (r: Vec<Vec<char>>)
    ensures
        views(r@) == found_keywords(low@, views(kws@)),
{
    let mut r: Vec<Vec<char>> = Vec::new();
    let mut i: usize = 0;
    while i < kws.len()
        invariant
            0 <= i <= kws@.len(),
            views(r@) == found_keywords(low@, views(kws@).take(i as int)),
        decreases kws@.len() - i,
    {
        proof {
            assert(views(kws@).take(i + 1).drop_last() =~= views(kws@).take(i as int));
        }
        let k = lowercase(&kws[i]);
        if contains_seq(low, &k) {
            let ghost prev = views(r@);
            r.push(copy_chars(&kws[i]));
            assert(views(r@) =~= prev.push(kws@[i as int]@));
        }
        i = i + 1;
    }
    assert(views(kws@).take(i as int) =~= views(kws@));
    r
}

fn line_has_any(line: &Vec<char>, ks: &Vec<Vec<char>>) -> (r: bool)
    ensures
        r == any_hit(line@, views(ks@)),
{
    let low = lowercase(line);
    let mut j: usize = 0;
    while j < ks.len()
        invariant
            low@ == lower_of(line@),
            0 <= j <= ks@.len(),
            forall|m: int| 0 <= m < j ==> !line_hit(line@, lower_of(#[trigger] views(ks@)[m])),
        decreases ks@.len() - j,
    {
        let k = lowercase(&ks[j]);
        if contains_seq(&low, &k) {
            assert(line_hit(line@, lower_of(views(ks@)[j as int])));
            return true;
        }
        j = j + 1;
    }
    false
}

/// The lines that a multi-keyword context is built from.
fn gather_lines(ls: &Vec<Vec<char>>, ks: &Vec<Vec<char>>) -> (r: Vec<Vec<char>>)
    ensures
        views(r@) == gather(views(ls@), views(ks@), 0, Seq::empty()),
{
    let mut acc: Vec<Vec<char>> = Vec::new();
    let mut i: usize = 0;
    assert(views(acc@) =~= Seq::<Seq<char>>::empty());
    while i < ls.len()
        invariant
            0 <= i <= ls@.len(),
            gather(views(ls@), views(ks@), 0, Seq::empty()) == gather(
                views(ls@),
                views(ks@),
                i as int,
                views(acc@),
            ),
        decreases ls@.len() - i,
    {
        if line_has_any(&ls[i], ks) {
            let lo: usize = if i >= 2 { i - 2 } else { 0 };
            let hi: usize = if ls.len() - i > 3 { i + 3 } else { ls.len() };
            push_unique(&mut acc, ls, lo, hi);
            if acc.len() > MULTI_MAX_LINES {
                return acc;
            }
        }
        i = i + 1;
    }
    acc
}

/// The keywords found in `text`, in their order in `keywords`, with the
/// context built around the lines that hold them; `None` when the text holds
/// none of them. Matching ignores case.
pub fn multi_keyword_context(text: &Vec<char>, keywords: &Vec<Vec<char>>) -> (r: Option<
    (Vec<Vec<char>>, Vec<char>),
>)
    ensures
        r.is_some() == (found_keywords(lower_of(text@), views(keywords@)).len() > 0),
        text@.len() == 0 && (forall|i: int|
            0 <= i < keywords@.len() ==> lower_of(#[trigger] keywords@[i]@).len() > 0) ==> r is None,
        r matches Some((f, c)) ==> views(f@) == found_keywords(lower_of(text@), views(keywords@))
            && c@ == multi_context(lines_of(text@), views(f@)),
{
    let low = lowercase(text);
    let found = select_found(&low, keywords);
    proof {
        if text@.len() == 0 && (forall|i: int|
            0 <= i < keywords@.len() ==> lower_of(#[trigger] keywords@[i]@).len() > 0) {
            lemma_nothing_found_in_empty(low@, views(keywords@));
        }
    }
    if found.len() == 0 {
        return None;
    }
    let ls = split_lines(text);
    let picked = gather_lines(&ls, &found);
    let joined = join_with_newlines(&picked);
    let trimmed = trim_chars(&joined);
    let c = cap_chars(trimmed, MULTI_CAP, MULTI_KEEP);
    Some((found, c))
}

/// Characters of a page kept on each side of a match.
pub const PAGE_WINDOW: usize = 30;

/// A page that holds the searched text, with the text around its first match.
pub struct PdfPageInfo {
    pub page_number: u32,
    pub content: String,
}

impl PdfPageInfo {
    pub open spec fn view(&self) -> (u32, Seq<char>) {
        (self.page_number, self.content@)
    }
}

/// The first index of `n` in `h`, when there is one.
pub open spec fn first_index(h: Seq<char>, n: Seq<char>) -> int {
    choose|i: int| first_occurrence(h, n, i)
}

/// The part of page `p` from `PAGE_WINDOW` characters before index `i` to
/// `PAGE_WINDOW` characters after a match of length `len` there, clipped to
/// the page.
pub open spec fn page_window(p: Seq<char>, i: int, len: int) -> Seq<char> {
    let hi = if i + len + PAGE_WINDOW < p.len() { i + len + PAGE_WINDOW } else { p.len() as int };
    let lo0 = if i > PAGE_WINDOW { i - PAGE_WINDOW } else { 0 };
    let lo = if lo0 < hi { lo0 } else { hi };
    p.subrange(lo, hi)
}

/// One entry per non-empty page that contains `n` once lower-cased, in page
/// order; pages are numbered from 1.
pub open spec fn page_matches(pages: Seq<Seq<char>>, n: Seq<char>) -> Seq<(u32, Seq<char>)>
    decreases pages.len(),
{
    if pages.len() == 0 {
        Seq::empty()
    } else {
        let r = page_matches(pages.drop_last(), n);
        let p = pages.last();
        if p.len() > 0 && contains(lower_of(p), n) {
            r.push((pages.len() as u32, page_window(p, first_index(lower_of(p), n), n.len() as int)))
        } else {
            r
        }
    }
}

proof fn lemma_first_occurrence_unique(h: Seq<char>, n: Seq<char>, i: int)
    requires
        first_occurrence(h, n, i),
    ensures
        first_index(h, n) == i,
{
    let j = first_index(h, n);
    assert(first_occurrence(h, n, j));
    if j < i {
        assert(!occurs_at(h, n, j));
    }
    if i < j {
        assert(!occurs_at(h, n, i));
    }
}

fn window_of(p: &Vec<char>, i: usize, len: usize) -> (r: Vec<char>)
    ensures
        r@ == page_window(p@, i as int, len as int),
{
    let room: usize = if i < p.len() { p.len() - i } else { 0 };
    let hi: usize = if room > len && room - len > PAGE_WINDOW { i + len + PAGE_WINDOW } else { p.len() };
    let lo0: usize = if i > PAGE_WINDOW { i - PAGE_WINDOW } else { 0 };
    let lo: usize = if lo0 < hi { lo0 } else { hi };
    let mut r: Vec<char> = Vec::new();
    let mut k: usize = lo;
    while k < hi
        invariant
            lo <= k <= hi <= p@.len(),
            r@ == p@.subrange(lo as int, k as int),
        decreases hi - k,
    {
        r.push(p[k]);
        k = k + 1;
        assert(r@ =~= p@.subrange(lo as int, k as int));
    }
    r
}

/// The pages among `pages` (page `k + 1` at index `k`) that are non-empty and
/// contain `search_text`, case ignored, each with the text around its first
/// match.
pub fn search_in_pdf_pages(pages: &Vec<String>, search_text: &str) -> (r: Vec<PdfPageInfo>)
    requires
        pages@.len() < u32::MAX,
    ensures
        r@.map_values(|m: PdfPageInfo| m@) == page_matches(
            pages@.map_values(|p: String| p@),
            lower_of(search_text@),
        ),
{
    let ghost ps = pages@.map_values(|p: String| p@);
    let n = lowercase(&chars_of(search_text));
    let mut r: Vec<PdfPageInfo> = Vec::new();
    let mut k: usize = 0;
    while k < pages.len()
        invariant
            pages@.len() < u32::MAX,
            ps == pages@.map_values(|p: String| p@),
            n@ == lower_of(search_text@),
            0 <= k <= pages@.len(),
            r@.map_values(|m: PdfPageInfo| m@) == page_matches(ps.take(k as int), n@),
        decreases pages@.len() - k,
    {
        proof {
            assert(ps.take(k + 1).drop_last() =~= ps.take(k as int));
        }
        let p = chars_of(pages[k].as_str());
        if p.len() > 0 {
            let low = lowercase(&p);
            match find(&low, &n) {
                Some(i) => {
                    proof {
                        lemma_first_occurrence_unique(low@, n@, i as int);
                    }
                    let w = window_of(&p, i, n.len());
                    let ghost prev = r@.map_values(|m: PdfPageInfo| m@);
                    r.push(PdfPageInfo { page_number: (k + 1) as u32, content: string_of(&w) });
                    assert(r@.map_values(|m: PdfPageInfo| m@) =~= prev.push(
                        ((k + 1) as u32, w@),
                    ));
                },
                None => {},
            }
        }
        k = k + 1;
    }
    assert(ps.take(k as int) =~= ps);
    r
}

/// A capped text never exceeds the cap, and one that was cut ends with the
/// marker "...".
pub proof fn lemma_capped_within(s: Seq<char>, cap: nat, keep: nat)
    requires
        keep + 3 <= cap,
    ensures
        capped(s, cap, keep).len() <= cap,
        s.len() > cap ==> capped(s, cap, keep).len() == keep + 3 && capped(s, cap, keep).subrange(
            keep as int,
            keep + 3 as int,
        ) == seq!['.', '.', '.'],
{
    if s.len() > cap {
        assert(capped(s, cap, keep).subrange(keep as int, keep + 3 as int) =~= seq!['.', '.', '.']);
    }
}

/// Every context, of either mode, stays within its cap, and a context whose
/// window was longer than the cap ends with the marker "...".
pub proof fn lemma_context_within_cap(ls: Seq<Seq<char>>, n: Seq<char>, ks: Seq<Seq<char>>)
    ensures
        single_context(ls, n).len() <= SINGLE_CAP,
        single_window(ls, n).len() > SINGLE_CAP ==> single_context(ls, n).subrange(
            SINGLE_KEEP as int,
            SINGLE_KEEP + 3 as int,
        ) == seq!['.', '.', '.'] && single_context(ls, n).len() == SINGLE_KEEP + 3,
        multi_context(ls, ks).len() <= MULTI_CAP,
        multi_window(ls, ks).len() > MULTI_CAP ==> multi_context(ls, ks).subrange(
            MULTI_KEEP as int,
            MULTI_KEEP + 3 as int,
        ) == seq!['.', '.', '.'] && multi_context(ls, ks).len() == MULTI_KEEP + 3,
{
    lemma_capped_within(single_window(ls, n), SINGLE_CAP as nat, SINGLE_KEEP as nat);
    lemma_capped_within(multi_window(ls, ks), MULTI_CAP as nat, MULTI_KEEP as nat);
}

} // verus!
