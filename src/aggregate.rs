//! The final, deterministically ordered result list: results by document
//! path ascending (character by character), then by page ascending, a result
//! whose page is unresolved before any with a resolved page.
use vstd::prelude::*;
use vstd::multiset::Multiset;
use crate::convert::chars_of;
use crate::search::{ResultView, SearchResult};
use crate::text::chars_eq;

verus! {

/// `a` comes before `b`, or equals it, in lexicographic character order.
pub open spec fn chars_le(a: Seq<char>, b: Seq<char>) -> bool
    decreases a.len(),
{
    if a.len() == 0 {
        true
    } else if b.len() == 0 {
        false
    } else if a[0] != b[0] {
        (a[0] as int) < (b[0] as int)
    } else {
        chars_le(a.drop_first(), b.drop_first())
    }
}

/// Page order: an unresolved page first, then resolved pages ascending.
pub open spec fn page_le(a: Option<u32>, b: Option<u32>) -> bool {
    match (a, b) {
        (None, _) => true,
        (Some(_), None) => false,
        (Some(x), Some(y)) => x <= y,
    }
}

/// The order of results: by path, then by page.
pub open spec fn result_le(a: ResultView, b: ResultView) -> bool {
    if a.file_path == b.file_path {
        page_le(a.page_number, b.page_number)
    } else {
        chars_le(a.file_path, b.file_path)
    }
}

/// The results are in `result_le` order.
pub open spec fn sorted(s: Seq<SearchResult>) -> bool {
    forall|i: int, j: int| 0 <= i < j < s.len() ==> result_le(#[trigger] s[i]@, #[trigger] s[j]@)
}

pub proof fn lemma_chars_le_total(a: Seq<char>, b: Seq<char>)
    ensures
        chars_le(a, b) || chars_le(b, a),
    decreases a.len(),
{
    if a.len() > 0 && b.len() > 0 && a[0] == b[0] {
        lemma_chars_le_total(a.drop_first(), b.drop_first());
    }
}

pub proof fn lemma_chars_le_antisymmetric(a: Seq<char>, b: Seq<char>)
    requires
        chars_le(a, b),
        chars_le(b, a),
    ensures
        a == b,
    decreases a.len(),
{
    if a.len() > 0 && b.len() > 0 {
        if a[0] == b[0] {
            lemma_chars_le_antisymmetric(a.drop_first(), b.drop_first());
            assert(a =~= seq![a[0]] + a.drop_first());
            assert(b =~= seq![b[0]] + b.drop_first());
        } else {
            assert((a[0] as int) != (b[0] as int));
        }
    } else {
        assert(a =~= b);
    }
}

pub proof fn lemma_chars_le_transitive(a: Seq<char>, b: Seq<char>, c: Seq<char>)
    requires
        chars_le(a, b),
        chars_le(b, c),
    ensures
        chars_le(a, c),
    decreases a.len(),
{
    if a.len() > 0 && b.len() > 0 && c.len() > 0 {
        if a[0] == b[0] && b[0] == c[0] {
            lemma_chars_le_transitive(a.drop_first(), b.drop_first(), c.drop_first());
        }
    }
}

proof fn lemma_result_le_total(a: ResultView, b: ResultView)
    ensures
        result_le(a, b) || result_le(b, a),
{
    lemma_chars_le_total(a.file_path, b.file_path);
}

proof fn lemma_result_le_transitive(a: ResultView, b: ResultView, c: ResultView)
    requires
        result_le(a, b),
        result_le(b, c),
    ensures
        result_le(a, c),
{
    if a.file_path != b.file_path && b.file_path != c.file_path {
        lemma_chars_le_transitive(a.file_path, b.file_path, c.file_path);
        if a.file_path == c.file_path {
            lemma_chars_le_antisymmetric(a.file_path, b.file_path);
        }
    }
}

fn chars_le_exec(a: &Vec<char>, b: &Vec<char>) -> (r: bool)
    ensures
        r == chars_le(a@, b@),
{
    let mut i: usize = 0;
    assert(a@.skip(0) =~= a@ && b@.skip(0) =~= b@);
    while i < a.len() && i < b.len() && a[i] == b[i]
        invariant
            0 <= i <= a@.len(),
            i <= b@.len(),
            chars_le(a@, b@) == chars_le(a@.skip(i as int), b@.skip(i as int)),
        decreases a@.len() - i,
    {
        assert(a@.skip(i as int).drop_first() =~= a@.skip(i + 1));
        assert(b@.skip(i as int).drop_first() =~= b@.skip(i + 1));
        i = i + 1;
    }
    if i == a.len() {
        true
    } else if i == b.len() {
        false
    } else {
        a[i] < b[i]
    }
}

fn page_le_exec(a: Option<u32>, b: Option<u32>) -> (r: bool)
    ensures
        r == page_le(a, b),
{
    match (a, b) {
        (None, _) => true,
        (Some(_), None) => false,
        (Some(x), Some(y)) => x <= y,
    }
}

/// Whether `a` comes before `b`, or ties with it, in result order.
pub fn result_le_exec(a: &SearchResult, b: &SearchResult) -> (r: bool)
    ensures
        r == result_le(a@, b@),
{
    let pa = chars_of(a.file_path.as_str());
    let pb = chars_of(b.file_path.as_str());
    if chars_eq(&pa, &pb) {
        page_le_exec(a.page_number, b.page_number)
    } else {
        chars_le_exec(&pa, &pb)
    }
}

/// Puts `results` in result order, keeping every result.
pub fn sort_results(results: Vec<SearchResult>) -> (r: Vec<SearchResult>)
    ensures
        r@.to_multiset() == results@.to_multiset(),
        sorted(r@),
{
    broadcast use vstd::multiset::group_multiset_axioms, vstd::seq_lib::group_to_multiset_ensures;

    let mut input = results;
    let mut out: Vec<SearchResult> = Vec::new();
    assert(out@.to_multiset() =~= Multiset::<SearchResult>::empty());
    while input.len() > 0
        invariant
            out@.to_multiset().add(input@.to_multiset()) == results@.to_multiset(),
            sorted(out@),
        decreases input@.len(),
    {
        let ghost before = input@;
        let x = input.pop().unwrap();
        proof {
            assert(before =~= input@.push(x));
            vstd::seq_lib::to_multiset_build(input@, x);
        }
        let mut pos: usize = 0;
        while pos < out.len() && result_le_exec(&out[pos], &x)
            invariant
                0 <= pos <= out@.len(),
                forall|k: int| 0 <= k < pos ==> result_le(#[trigger] out@[k]@, x@),
            decreases out@.len() - pos,
        {
            pos = pos + 1;
        }
        let ghost prev = out@;
        proof {
            if pos < prev.len() {
                lemma_result_le_total(prev[pos as int]@, x@);
                assert forall|j: int| pos <= j < prev.len() implies result_le(
                    x@,
                    #[trigger] prev[j]@,
                ) by {
                    if j > pos {
                        lemma_result_le_transitive(x@, prev[pos as int]@, prev[j]@);
                    }
                }
            }
            vstd::seq_lib::to_multiset_insert(prev, pos as int, x);
        }
        out.insert(pos, x);
        assert(out@ == prev.insert(pos as int, x));
        assert forall|i: int, j: int| 0 <= i < j < out@.len() implies result_le(
            #[trigger] out@[i]@,
            #[trigger] out@[j]@,
        ) by {
            if j < pos {
                assert(out@[i] == prev[i] && out@[j] == prev[j]);
            } else if j == pos {
                assert(out@[i] == prev[i]);
            } else if i < pos {
                assert(out@[i] == prev[i] && out@[j] == prev[j - 1]);
                if pos < prev.len() {
                    lemma_result_le_transitive(prev[i]@, x@, prev[j - 1]@);
                }
            } else if i == pos {
                assert(out@[j] == prev[j - 1]);
            } else {
                assert(out@[i] == prev[i - 1] && out@[j] == prev[j - 1]);
            }
        }
        assert(out@.to_multiset().add(input@.to_multiset()) =~= results@.to_multiset());
    }
    assert(input@.to_multiset() =~= Multiset::<SearchResult>::empty());
    assert(out@.to_multiset().add(input@.to_multiset()) =~= out@.to_multiset());
    out
}

/// No two of the results are about the same document.
pub open spec fn distinct_paths(s: Seq<SearchResult>) -> bool {
    forall|i: int, j: int|
        0 <= i < s.len() && 0 <= j < s.len() && i != j ==> (#[trigger] s[i]).file_path@
            != (#[trigger] s[j]).file_path@
}

/// The results among the outcomes, in order.
pub open spec fn somes(outcomes: Seq<Option<SearchResult>>) -> Seq<SearchResult>
    decreases outcomes.len(),
{
    if outcomes.len() == 0 {
        Seq::empty()
    } else {
        let r = somes(outcomes.drop_last());
        match outcomes.last() {
            Some(x) => r.push(x),
            None => r,
        }
    }
}

/// The final result list of a run from the outcomes of its documents: every
/// matching document's result, in result order.
pub fn collect_results(outcomes: Vec<Option<SearchResult>>) -> (r: Vec<SearchResult>)
    ensures
        r@.to_multiset() == somes(outcomes@).to_multiset(),
        r@.len() == somes(outcomes@).len(),
        sorted(r@),
{
    broadcast use vstd::multiset::group_multiset_axioms, vstd::seq_lib::group_to_multiset_ensures;

    let mut rest: Vec<Option<SearchResult>> = outcomes;
    let mut picked: Vec<SearchResult> = Vec::new();
    assert(picked@.to_multiset() =~= Multiset::<SearchResult>::empty());
    assert(picked@.to_multiset().add(somes(rest@).to_multiset()) =~= somes(outcomes@).to_multiset());
    while rest.len() > 0
        invariant
            picked@.to_multiset().add(somes(rest@).to_multiset()) == somes(outcomes@).to_multiset(),
        decreases rest@.len(),
    {
        let ghost before = rest@;
        let o = rest.pop().unwrap();
        proof {
            assert(before.drop_last() =~= rest@);
        }
        match o {
            Some(x) => {
                proof {
                    vstd::seq_lib::to_multiset_build(somes(rest@), x);
                    vstd::seq_lib::to_multiset_build(picked@, x);
                }
                picked.push(x);
                assert(picked@.to_multiset().add(somes(rest@).to_multiset())
                    =~= somes(outcomes@).to_multiset());
            },
            None => {},
        }
    }
    assert(somes(rest@) =~= Seq::<SearchResult>::empty());
    assert(picked@.to_multiset().add(somes(rest@).to_multiset()) =~= picked@.to_multiset());
    let r = sort_results(picked);
    proof {
        r@.to_multiset_ensures();
        somes(outcomes@).to_multiset_ensures();
    }
    r
}

/// The result list does not depend on the order in which documents were
/// searched: two sorted lists of the same results, no two about the same
/// document, are equal.
pub proof fn lemma_sorted_results_unique(s: Seq<SearchResult>, t: Seq<SearchResult>)
    requires
        s.to_multiset() == t.to_multiset(),
        sorted(s),
        sorted(t),
        distinct_paths(s),
        distinct_paths(t),
    ensures
        s == t,
    decreases s.len(),
{
    broadcast use vstd::multiset::group_multiset_axioms, vstd::seq_lib::group_to_multiset_ensures;

    s.to_multiset_ensures();
    t.to_multiset_ensures();
    if s.len() == 0 {
        assert(t.len() == 0);
        assert(s =~= t);
    } else {
        assert(t.len() == s.len());
        assert(s.to_multiset().count(s[0]) > 0);
        assert(t.contains(s[0]));
        let j = choose|j: int| 0 <= j < t.len() && t[j] == s[0];
        assert(t.to_multiset().count(t[0]) > 0);
        assert(s.contains(t[0]));
        let i = choose|i: int| 0 <= i < s.len() && s[i] == t[0];
        if i > 0 {
            assert(result_le(s[0]@, s[i]@));
        }
        if j > 0 {
            assert(result_le(t[0]@, t[j]@));
        }
        if s[0].file_path@ != t[0].file_path@ {
            lemma_chars_le_antisymmetric(s[0].file_path@, t[0].file_path@);
        }
        if i != 0 {
            assert(s[i].file_path@ != s[0].file_path@);
        }
        assert(s[0] == t[0]);
        vstd::seq_lib::to_multiset_remove(s, 0);
        vstd::seq_lib::to_multiset_remove(t, 0);
        assert(s.remove(0) =~= s.drop_first());
        assert(t.remove(0) =~= t.drop_first());
        let s1 = s.drop_first();
        let t1 = t.drop_first();
        assert forall|a: int, b: int| 0 <= a < b < s1.len() implies result_le(
            #[trigger] s1[a]@,
            #[trigger] s1[b]@,
        ) by {
            assert(s1[a] == s[a + 1] && s1[b] == s[b + 1]);
        }
        assert forall|a: int, b: int| 0 <= a < b < t1.len() implies result_le(
            #[trigger] t1[a]@,
            #[trigger] t1[b]@,
        ) by {
            assert(t1[a] == t[a + 1] && t1[b] == t[b + 1]);
        }
        assert forall|a: int, b: int|
            0 <= a < s1.len() && 0 <= b < s1.len() && a != b implies (#[trigger] s1[a]).file_path@
            != (#[trigger] s1[b]).file_path@ by {
            assert(s1[a] == s[a + 1] && s1[b] == s[b + 1]);
        }
        assert forall|a: int, b: int|
            0 <= a < t1.len() && 0 <= b < t1.len() && a != b implies (#[trigger] t1[a]).file_path@
            != (#[trigger] t1[b]).file_path@ by {
            assert(t1[a] == t[a + 1] && t1[b] == t[b + 1]);
        }
        lemma_sorted_results_unique(s1, t1);
        assert(s =~= seq![s[0]] + s1);
        assert(t =~= seq![t[0]] + t1);
    }
}

/// Searching the same documents twice, in any two orders, gives the same
/// result list, and as many results as there are matching documents.
pub proof fn lemma_run_order_free(
    a: Seq<Option<SearchResult>>,
    b: Seq<Option<SearchResult>>,
    ra: Seq<SearchResult>,
    rb: Seq<SearchResult>,
)
    requires
        somes(a).to_multiset() == somes(b).to_multiset(),
        ra.to_multiset() == somes(a).to_multiset(),
        rb.to_multiset() == somes(b).to_multiset(),
        sorted(ra),
        sorted(rb),
        distinct_paths(ra),
        distinct_paths(rb),
    ensures
        ra == rb,
        ra.len() == somes(a).len(),
{
    broadcast use vstd::seq_lib::group_to_multiset_ensures;

    lemma_sorted_results_unique(ra, rb);
    ra.to_multiset_ensures();
    somes(a).to_multiset_ensures();
}

} // verus!
