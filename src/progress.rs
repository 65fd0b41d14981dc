//! The progress counter of a search run: one event per document started,
//! numbered from 1 up to the number of documents found.
use vstd::prelude::*;

verus! {

/// A progress notification.
pub struct SearchProgress {
    pub current: usize,
    pub total: usize,
    pub current_file: String,
}

/// One step of the counter from count `c` of `total`: the new count and the
/// number of the event emitted, if any.
pub open spec fn step(c: nat, total: nat) -> (nat, Option<nat>) {
    if c < total {
        (c + 1, Some((c + 1) as nat))
    } else {
        (c, None)
    }
}

/// The count after `k` steps from zero, and the event numbers emitted.
pub open spec fn run(total: nat, k: nat) -> (nat, Seq<Option<nat>>)
    decreases k,
{
    if k == 0 {
        (0, Seq::empty())
    } else {
        let (c, evs) = run(total, (k - 1) as nat);
        let (c2, e) = step(c, total);
        (c2, evs.push(e))
    }
}

/// Counts the documents of a run as they are started.
pub struct ProgressCounter {
    current: usize,
    total: usize,
}

impl ProgressCounter {
    /// Documents started so far.
    pub closed spec fn count(&self) -> nat {
        self.current as nat
    }

    /// Documents in the run.
    pub closed spec fn size(&self) -> nat {
        self.total as nat
    }

    /// The count never passes the total.
    pub closed spec fn wf(&self) -> bool {
        self.current <= self.total
    }

    /// A counter for a run over `total` documents.
    pub fn new(total: usize) -> (r: ProgressCounter)
        ensures
            r.count() == 0,
            r.size() == total,
            r.wf(),
    {
        ProgressCounter { current: 0, total }
    }

    /// Documents started so far.
    pub fn current(&self) -> (r: usize)
        ensures
            r == self.count(),
    {
        self.current
    }

    /// Counts one more started document, `file`, and returns the event to
    /// emit; once every document was counted, nothing changes and no event
    /// comes.
    pub fn advance(&mut self, file: &str) -> (r: Option<SearchProgress>)
        requires
            old(self).wf(),
        ensures
            final(self).wf(),
            final(self).size() == old(self).size(),
            final(self).count() == step(old(self).count(), old(self).size()).0,
            match r {
                Some(e) => step(old(self).count(), old(self).size()).1 == Some(e.current as nat)
                    && e.total == old(self).size() && e.current_file@ == file@,
                None => step(old(self).count(), old(self).size()).1 is None,
            },
    {
        if self.current < self.total {
            self.current = self.current + 1;
            Some(
                SearchProgress {
                    current: self.current,
                    total: self.total,
                    current_file: String::from_str(file),
                },
            )
        } else {
            None
        }
    }
}

/// Over a run of `n` documents, the events are numbered `1, 2, ..., k` after
/// `k <= n` documents were started: no repeat, no gap, and the count is `k`.
pub proof fn lemma_progress_numbering(n: nat, k: nat)
    requires
        k <= n,
    ensures
        run(n, k).0 == k,
        run(n, k).1 == Seq::new(k, |i: int| Some((i + 1) as nat)),
    decreases k,
{
    if k > 0 {
        lemma_progress_numbering(n, (k - 1) as nat);
        assert(run(n, k).1 =~= Seq::new(k, |i: int| Some((i + 1) as nat)));
    }
}

/// After all `n` documents were started, a further step emits nothing.
pub proof fn lemma_progress_stops_at_total(n: nat)
    ensures
        step(run(n, n).0, n).1 is None,
{
    lemma_progress_numbering(n, n);
}

} // verus!
