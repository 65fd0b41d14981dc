//! One unit of search: the outcome for a single document, given its
//! extracted text and, for exact page resolution, its per-page texts.
use vstd::prelude::*;
use crate::convert::{chars_of, lower_of, string_of};
use crate::locate::{exact_page, find_exact_page_number, page_texts, resolve_page, resolved_page};
use crate::matcher::{
    any_hit, found_keywords, gather, multi_context, multi_keyword_context, single_context,
    single_keyword_context,
};
use crate::aggregate::somes;
use crate::query::strings_view;
use crate::text::{contains, lines_of, views};

verus! {

/// A matching document: where it is, how large, the context of the match and
/// the page of the match when it could be resolved.
pub struct SearchResult {
    pub file_path: String,
    pub matched_text: String,
    pub file_size: u64,
    pub page_number: Option<u32>,
}

/// The model of a search result.
pub struct ResultView {
    pub file_path: Seq<char>,
    pub matched_text: Seq<char>,
    pub file_size: u64,
    pub page_number: Option<u32>,
}

impl View for SearchResult {
    type V = ResultView;

    open spec fn view(&self) -> ResultView {
        ResultView {
            file_path: self.file_path@,
            matched_text: self.matched_text@,
            file_size: self.file_size,
            page_number: self.page_number,
        }
    }
}

/// The model of the outcome of searching one document.
pub open spec fn outcome_view(r: Option<SearchResult>) -> Option<ResultView> {
    match r {
        Some(x) => Some(x@),
        None => None,
    }
}

/// The outcome of a single-keyword search of one document.
pub open spec fn single_outcome(
    path: Seq<char>,
    size: u64,
    text: Seq<char>,
    pages: Seq<Option<Seq<char>>>,
    keyword: Seq<char>,
) -> Option<ResultView> {
    let n = lower_of(keyword);
    if contains(lower_of(text), n) {
        let c = single_context(lines_of(text), n);
        Some(
            ResultView {
                file_path: path,
                matched_text: c,
                file_size: size,
                page_number: resolved_page(exact_page(pages, n), text, c),
            },
        )
    } else {
        None
    }
}

/// Searches one document for `keyword`, case ignored. `text` is its whole
/// text, `pages` its per-page texts (empty when they could not be had).
pub fn search_in_pdf(
    file_path: &str,
    file_size: u64,
    text: &str,
    pages: &Vec<Option<String>>,
    keyword: &str,
) -> (r: Option<SearchResult>)
    requires
        pages@.len() < u32::MAX,
    ensures
        text@.len() == 0 && lower_of(keyword@).len() > 0 ==> r is None,
        outcome_view(r) == single_outcome(
            file_path@,
            file_size,
            text@,
            page_texts(pages@),
            keyword@,
        ),
{
    let t = chars_of(text);
    let k = chars_of(keyword);
    match single_keyword_context(&t, &k) {
        Some(c) => {
            let context = string_of(&c);
            let exact = find_exact_page_number(pages, keyword);
            let page_number = resolve_page(exact, text, context.as_str());
            Some(
                SearchResult {
                    file_path: String::from_str(file_path),
                    matched_text: context,
                    file_size,
                    page_number,
                },
            )
        },
        None => None,
    }
}

/// The exact page of the first keyword of `ks`, in order, that has one.
pub open spec fn first_exact(pages: Seq<Option<Seq<char>>>, ks: Seq<Seq<char>>) -> Option<u32>
    decreases ks.len(),
{
    if ks.len() == 0 {
        None
    } else {
        match exact_page(pages, lower_of(ks[0])) {
            Some(p) => Some(p),
            None => first_exact(pages, ks.drop_first()),
        }
    }
}

/// The outcome of a multi-keyword search of one document.
pub open spec fn multi_outcome(
    path: Seq<char>,
    size: u64,
    text: Seq<char>,
    pages: Seq<Option<Seq<char>>>,
    keywords: Seq<Seq<char>>,
) -> Option<ResultView> {
    let f = found_keywords(lower_of(text), keywords);
    if f.len() > 0 {
        let c = multi_context(lines_of(text), f);
        Some(
            ResultView {
                file_path: path,
                matched_text: c,
                file_size: size,
                page_number: resolved_page(first_exact(pages, f), text, c),
            },
        )
    } else {
        None
    }
}

fn first_exact_page(pages: &Vec<Option<String>>, ks: &Vec<Vec<char>>) -> (r: Option<u32>)
    requires
        pages@.len() < u32::MAX,
    ensures
        r == first_exact(page_texts(pages@), views(ks@)),
{
    let mut j: usize = 0;
    assert(views(ks@).subrange(0, ks@.len() as int) =~= views(ks@));
    while j < ks.len()
        invariant
            pages@.len() < u32::MAX,
            0 <= j <= ks@.len(),
            first_exact(page_texts(pages@), views(ks@)) == first_exact(
                page_texts(pages@),
                views(ks@).subrange(j as int, ks@.len() as int),
            ),
        decreases ks@.len() - j,
    {
        let ghost rest = views(ks@).subrange(j as int, ks@.len() as int);
        assert(rest.drop_first() =~= views(ks@).subrange(j + 1, ks@.len() as int));
        let k = string_of(&ks[j]);
        match find_exact_page_number(pages, k.as_str()) {
            Some(p) => {
                return Some(p);
            },
            None => {},
        }
        j = j + 1;
    }
    None
}

/// Searches one document for any of `keywords`, case ignored: the context
/// gathers the lines around every line that holds a found keyword, and the
/// page is that of the first found keyword with an exact page.
pub fn quick_search_in_pdf(
    file_path: &str,
    file_size: u64,
    text: &str,
    pages: &Vec<Option<String>>,
    keywords: &Vec<String>,
) -> (r: Option<SearchResult>)
    requires
        pages@.len() < u32::MAX,
    ensures
        text@.len() == 0 && (forall|i: int|
            0 <= i < keywords@.len() ==> lower_of(#[trigger] keywords@[i]@).len() > 0) ==> r is None,
        outcome_view(r) == multi_outcome(
            file_path@,
            file_size,
            text@,
            page_texts(pages@),
            strings_view(keywords@),
        ),
{
    let t = chars_of(text);
    let mut ks: Vec<Vec<char>> = Vec::new();
    let mut i: usize = 0;
    while i < keywords.len()
        invariant
            0 <= i <= keywords@.len(),
            views(ks@) == strings_view(keywords@).take(i as int),
        decreases keywords@.len() - i,
    {
        let ghost prev = views(ks@);
        ks.push(chars_of(keywords[i].as_str()));
        assert(views(ks@) =~= prev.push(keywords@[i as int]@));
        i = i + 1;
        assert(views(ks@) =~= strings_view(keywords@).take(i as int));
    }
    assert(views(ks@) =~= strings_view(keywords@));
    proof {
        if text@.len() == 0 && (forall|i: int|
            0 <= i < keywords@.len() ==> lower_of(#[trigger] keywords@[i]@).len() > 0) {
            assert forall|i: int| 0 <= i < ks@.len() implies lower_of(#[trigger] ks@[i]@).len() > 0 by {
                assert(views(ks@)[i] == strings_view(keywords@)[i]);
            }
        }
    }
    match multi_keyword_context(&t, &ks) {
        Some((found, c)) => {
            let context = string_of(&c);
            let exact = first_exact_page(pages, &found);
            let page_number = resolve_page(exact, text, context.as_str());
            Some(
                SearchResult {
                    file_path: String::from_str(file_path),
                    matched_text: context,
                    file_size,
                    page_number,
                },
            )
        },
        None => None,
    }
}

/// Matching ignores case: two keywords with the same lower-case form give
/// the same outcome on every document.
pub proof fn lemma_single_case_insensitive(
    path: Seq<char>,
    size: u64,
    text: Seq<char>,
    pages: Seq<Option<Seq<char>>>,
    k1: Seq<char>,
    k2: Seq<char>,
)
    requires
        lower_of(k1) == lower_of(k2),
    ensures
        single_outcome(path, size, text, pages, k1) == single_outcome(path, size, text, pages, k2),
{
}

/// The two keyword lists agree once lower-cased, keyword by keyword.
pub open spec fn same_lower(a: Seq<Seq<char>>, b: Seq<Seq<char>>) -> bool {
    a.len() == b.len() && forall|i: int| 0 <= i < a.len() ==> lower_of(#[trigger] a[i]) == lower_of(b[i])
}

proof fn lemma_found_same_lower(low: Seq<char>, k1: Seq<Seq<char>>, k2: Seq<Seq<char>>)
    requires
        same_lower(k1, k2),
    ensures
        same_lower(found_keywords(low, k1), found_keywords(low, k2)),
    decreases k1.len(),
{
    if k1.len() > 0 {
        assert forall|i: int| 0 <= i < k1.drop_last().len() implies lower_of(
            #[trigger] k1.drop_last()[i],
        ) == lower_of(k2.drop_last()[i]) by {
            assert(k1.drop_last()[i] == k1[i] && k2.drop_last()[i] == k2[i]);
        }
        lemma_found_same_lower(low, k1.drop_last(), k2.drop_last());
        assert(lower_of(k1.last()) == lower_of(k2.last()));
        let f1 = found_keywords(low, k1.drop_last());
        let f2 = found_keywords(low, k2.drop_last());
        if contains(low, lower_of(k1.last())) {
            assert forall|i: int| 0 <= i < f1.push(k1.last()).len() implies lower_of(
                #[trigger] f1.push(k1.last())[i],
            ) == lower_of(f2.push(k2.last())[i]) by {
                if i < f1.len() {
                    assert(lower_of(f1[i]) == lower_of(f2[i]));
                }
            }
        }
    }
}

proof fn lemma_gather_same_lower(
    ls: Seq<Seq<char>>,
    k1: Seq<Seq<char>>,
    k2: Seq<Seq<char>>,
    i: int,
    acc: Seq<Seq<char>>,
)
    requires
        same_lower(k1, k2),
    ensures
        gather(ls, k1, i, acc) == gather(ls, k2, i, acc),
    decreases ls.len() - i,
{
    if 0 <= i < ls.len() {
        if any_hit(ls[i], k1) {
            let j = choose|j: int| 0 <= j < k1.len() && crate::matcher::line_hit(ls[i], lower_of(k1[j]));
            assert(lower_of(k1[j]) == lower_of(k2[j]));
        }
        if any_hit(ls[i], k2) {
            let j = choose|j: int| 0 <= j < k2.len() && crate::matcher::line_hit(ls[i], lower_of(k2[j]));
            assert(lower_of(k1[j]) == lower_of(k2[j]));
        }
        assert(any_hit(ls[i], k1) == any_hit(ls[i], k2));
        let lo = if i >= 2 { i - 2 } else { 0 };
        let hi = if i + 3 < ls.len() { i + 3 } else { ls.len() as int };
        lemma_gather_same_lower(ls, k1, k2, i + 1, crate::text::add_unique(acc, ls.subrange(lo, hi)));
        lemma_gather_same_lower(ls, k1, k2, i + 1, acc);
    }
}

proof fn lemma_first_exact_same_lower(
    pages: Seq<Option<Seq<char>>>,
    k1: Seq<Seq<char>>,
    k2: Seq<Seq<char>>,
)
    requires
        same_lower(k1, k2),
    ensures
        first_exact(pages, k1) == first_exact(pages, k2),
    decreases k1.len(),
{
    if k1.len() > 0 {
        assert(lower_of(k1[0]) == lower_of(k2[0]));
        assert forall|i: int| 0 <= i < k1.drop_first().len() implies lower_of(
            #[trigger] k1.drop_first()[i],
        ) == lower_of(k2.drop_first()[i]) by {
            assert(k1.drop_first()[i] == k1[i + 1] && k2.drop_first()[i] == k2[i + 1]);
        }
        lemma_first_exact_same_lower(pages, k1.drop_first(), k2.drop_first());
    }
}

/// Matching ignores case in a multi-keyword search too: two keyword lists
/// that agree once lower-cased give the same outcome on every document.
pub proof fn lemma_multi_case_insensitive(
    path: Seq<char>,
    size: u64,
    text: Seq<char>,
    pages: Seq<Option<Seq<char>>>,
    k1: Seq<Seq<char>>,
    k2: Seq<Seq<char>>,
)
    requires
        same_lower(k1, k2),
    ensures
        multi_outcome(path, size, text, pages, k1) == multi_outcome(path, size, text, pages, k2),
{
    let f1 = found_keywords(lower_of(text), k1);
    let f2 = found_keywords(lower_of(text), k2);
    lemma_found_same_lower(lower_of(text), k1, k2);
    lemma_gather_same_lower(lines_of(text), f1, f2, 0, Seq::empty());
    lemma_first_exact_same_lower(pages, f1, f2);
}

/// A document as a search unit sees it: path, size, whole text and
/// per-page texts.
pub type DocumentInput = (Seq<char>, u64, Seq<char>, Seq<Option<Seq<char>>>);

/// How many of the documents hold at least one of the keywords.
pub open spec fn matching_count(docs: Seq<DocumentInput>, keywords: Seq<Seq<char>>) -> nat
    decreases docs.len(),
{
    if docs.len() == 0 {
        0
    } else {
        matching_count(docs.drop_last(), keywords) + if found_keywords(
            lower_of(docs.last().2),
            keywords,
        ).len() > 0 {
            1nat
        } else {
            0nat
        }
    }
}

/// A run over documents of which `k` hold a keyword gives exactly `k`
/// results: one outcome per document, each that of a multi-keyword search.
pub proof fn lemma_result_count(
    docs: Seq<DocumentInput>,
    keywords: Seq<Seq<char>>,
    outcomes: Seq<Option<SearchResult>>,
)
    requires
        outcomes.len() == docs.len(),
        forall|i: int|
            0 <= i < docs.len() ==> outcome_view(#[trigger] outcomes[i]) == multi_outcome(
                docs[i].0,
                docs[i].1,
                docs[i].2,
                docs[i].3,
                keywords,
            ),
    ensures
        somes(outcomes).len() == matching_count(docs, keywords),
    decreases docs.len(),
{
    if docs.len() > 0 {
        let n = docs.len() - 1;
        assert forall|i: int| 0 <= i < docs.drop_last().len() implies outcome_view(
            #[trigger] outcomes.drop_last()[i],
        ) == multi_outcome(
            docs.drop_last()[i].0,
            docs.drop_last()[i].1,
            docs.drop_last()[i].2,
            docs.drop_last()[i].3,
            keywords,
        ) by {
            assert(outcomes.drop_last()[i] == outcomes[i] && docs.drop_last()[i] == docs[i]);
        }
        lemma_result_count(docs.drop_last(), keywords, outcomes.drop_last());
        assert(outcome_view(outcomes[n]) == multi_outcome(
            docs[n].0,
            docs[n].1,
            docs[n].2,
            docs[n].3,
            keywords,
        ));
    }
}

} // verus!
