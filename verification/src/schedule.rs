//! Ordering of concurrently fetched chapters.
//!
//! Fetches complete in any order; the book must keep the order of the
//! table of contents. Completions are therefore keyed by their input
//! index, and [`order_outcomes`] rebuilds the input-ordered sequence.
//! [`lemma_order_preserved`] states the guarantee the assembler rests
//! on: the chapters that survive are a subsequence of the TOC, in the
//! TOC's own order.

use vstd::prelude::*;
use crate::chapter::{Chapter, FetchOutcome};

verus! {

impl Clone for Chapter {
    /// An exact copy.
    fn clone(&self) -> (r: Self)
        ensures
            r == *self,
    {
        Chapter { name: self.name.clone(), link: self.link.clone(), content: self.content.clone() }
    }
}

impl Clone for FetchOutcome {
    /// An exact copy.
    fn clone(&self) -> (r: Self)
        ensures
            r == *self,
    {
        match self {
            FetchOutcome::Loaded(c) => FetchOutcome::Loaded(c.clone()),
            FetchOutcome::Missing(c) => FetchOutcome::Missing(c.clone()),
            FetchOutcome::Failed(l) => FetchOutcome::Failed(l.clone()),
        }
    }
}

/// The chapters an outcome sequence hands to the assembler: loaded and
/// soft-failed chapters in order, hard failures left out.
pub open spec fn kept_chapters(outs: Seq<FetchOutcome>) -> Seq<Chapter>
    decreases outs.len(),
{
    if outs.len() == 0 {
        Seq::empty()
    } else {
        (match outs.first() {
            FetchOutcome::Loaded(c) => seq![c],
            FetchOutcome::Missing(c) => seq![c],
            FetchOutcome::Failed(_) => Seq::empty(),
        }) + kept_chapters(outs.drop_first())
    }
}

/// `a` is `b` with zero or more elements left out, order kept.
pub open spec fn is_subseq_of<A>(a: Seq<A>, b: Seq<A>) -> bool
    decreases a.len() + b.len(),
{
    if a.len() == 0 {
        true
    } else if b.len() == 0 {
        false
    } else {
        (a.first() == b.first() && is_subseq_of(a.drop_first(), b.drop_first())) || is_subseq_of(
            a,
            b.drop_first(),
        )
    }
}

/// The outcome speaks of the given chapter: a kept outcome carries its
/// link, a hard failure may stand for any chapter.
pub open spec fn outcome_of(o: FetchOutcome, c: Chapter) -> bool {
    match o {
        FetchOutcome::Loaded(x) => x.link@ == c.link@,
        FetchOutcome::Missing(x) => x.link@ == c.link@,
        FetchOutcome::Failed(_) => true,
    }
}

/// The links of a chapter sequence, in order.
pub open spec fn links_of(cs: Seq<Chapter>) -> Seq<Seq<char>> {
    cs.map_values(|c: Chapter| c.link@)
}

/// Order preservation: when the `i`-th outcome speaks of the `i`-th TOC
/// chapter, the links of the kept chapters form a subsequence of the TOC
/// links, in the original order — whatever the completion order was.
pub proof fn lemma_order_preserved(toc: Seq<Chapter>, outs: Seq<FetchOutcome>)
    requires
        outs.len() == toc.len(),
        forall|i: int| 0 <= i < outs.len() ==> outcome_of(outs[i], toc[i]),
    ensures
        is_subseq_of(links_of(kept_chapters(outs)), links_of(toc)),
    decreases outs.len(),
{
    if outs.len() == 0 {
        assert(links_of(kept_chapters(outs)).len() == 0);
    } else {
        let rest_o = outs.drop_first();
        let rest_t = toc.drop_first();
        assert(forall|i: int| 0 <= i < rest_o.len() ==> outcome_of(rest_o[i], rest_t[i])) by {
            assert(forall|i: int|
                0 <= i < rest_o.len() ==> rest_o[i] == outs[i + 1] && rest_t[i] == toc[i + 1]);
        }
        lemma_order_preserved(rest_t, rest_o);
        let a = links_of(kept_chapters(outs));
        let b = links_of(toc);
        assert(b.drop_first() =~= links_of(rest_t));
        assert(outcome_of(outs[0], toc[0]));
        match outs.first() {
            FetchOutcome::Loaded(x) => {
                assert(a =~= seq![x.link@] + links_of(kept_chapters(rest_o)));
                assert(a.first() == b.first());
                assert(a.drop_first() =~= links_of(kept_chapters(rest_o)));
            },
            FetchOutcome::Missing(x) => {
                assert(a =~= seq![x.link@] + links_of(kept_chapters(rest_o)));
                assert(a.first() == b.first());
                assert(a.drop_first() =~= links_of(kept_chapters(rest_o)));
            },
            FetchOutcome::Failed(_) => {
                assert(a =~= links_of(kept_chapters(rest_o)));
            },
        }
    }
}

/// Some completion carries index `i` and outcome `o`.
pub open spec fn completion_of(done: Seq<(usize, FetchOutcome)>, i: int, o: FetchOutcome) -> bool {
    exists|j: int| 0 <= j < done.len() && (#[trigger] done[j]).0 == i && done[j].1 == o
}

/// Some completion carries index `i`.
pub open spec fn has_completion(done: Seq<(usize, FetchOutcome)>, i: int) -> bool {
    exists|j: int| 0 <= j < done.len() && (#[trigger] done[j]).0 == i
}

/// Rebuilds the input-ordered outcome sequence from completions keyed by
/// input index. For each position the first completion carrying that
/// index is taken; when some position has none, `None` comes back.
pub fn order_outcomes(count: usize, done: &Vec<(usize, FetchOutcome)>) -> (r: Option<
    Vec<FetchOutcome>,
>)
    ensures
        r matches Some(out) ==> out@.len() == count && (forall|i: int|
            #![trigger out@[i]]
            0 <= i < count ==> completion_of(done@, i, out@[i])),
        (forall|i: int| 0 <= i < count ==> #[trigger] has_completion(done@, i)) ==> r is Some,
{
    let n = done.len();
    let mut out: Vec<FetchOutcome> = Vec::new();
    let mut i: usize = 0;
    while i < count
        invariant
            i <= count,
            n == done@.len(),
            out@.len() == i,
            forall|k: int| #![trigger out@[k]] 0 <= k < i ==> completion_of(done@, k, out@[k]),
        decreases count - i,
    {
        let mut j: usize = 0;
        while j < n && done[j].0 != i
            invariant
                j <= n == done@.len(),
                forall|t: int| 0 <= t < j ==> done@[t].0 != i,
            decreases n - j,
        {
            j = j + 1;
        }
        if j < n {
            out.push(done[j].1.clone());
            proof {
                assert(completion_of(done@, i as int, done@[j as int].1));
            }
        } else {
            proof {
                assert(!has_completion(done@, i as int));
            }
            return None;
        }
        i = i + 1;
    }
    Some(out)
}

} // verus!
