//! Facts about filtering a sequence by a test.

use vstd::prelude::*;

verus! {

/// The place in `s` of the element that stands at place `k` of the
/// filtered sequence.
pub open spec fn filter_source<A>(s: Seq<A>, pred: spec_fn(A) -> bool, k: int) -> int
    decreases s.len(),
{
    if s.len() == 0 {
        0
    } else if pred(s.last()) && k == s.drop_last().filter(pred).len() {
        s.len() - 1
    } else {
        filter_source(s.drop_last(), pred, k)
    }
}

/// Filtering keeps the order: the elements that stay come from places of
/// the input that ascend.
pub proof fn lemma_filter_keeps_order<A>(s: Seq<A>, pred: spec_fn(A) -> bool)
    ensures
        forall|k: int|
            0 <= k < s.filter(pred).len() ==> {
                let at = #[trigger] filter_source(s, pred, k);
                0 <= at < s.len() && s[at] == s.filter(pred)[k]
            },
        forall|i: int, j: int|
            0 <= i < j < s.filter(pred).len() ==> #[trigger] filter_source(s, pred, i)
                < #[trigger] filter_source(s, pred, j),
    decreases s.len(),
{
    reveal(Seq::filter);
    if s.len() > 0 {
        let front = s.drop_last();
        let kept = front.filter(pred);
        lemma_filter_keeps_order(front, pred);
        assert forall|k: int| 0 <= k < s.filter(pred).len() implies {
            let at = #[trigger] filter_source(s, pred, k);
            0 <= at < s.len() && s[at] == s.filter(pred)[k]
        } by {
            if pred(s.last()) && k == kept.len() {
                assert(s.filter(pred)[k] == s.last());
            } else {
                assert(0 <= k < kept.len());
                let at = filter_source(front, pred, k);
                assert(0 <= at < front.len() && front[at] == kept[k]);
                assert(front[at] == s[at]);
            }
        }
        assert forall|i: int, j: int| 0 <= i < j < s.filter(pred).len() implies #[trigger] filter_source(
            s,
            pred,
            i,
        ) < #[trigger] filter_source(s, pred, j) by {
            assert(0 <= i < kept.len());
            let a = filter_source(front, pred, i);
            assert(0 <= a < front.len());
            if !(pred(s.last()) && j == kept.len()) {
                assert(0 <= j < kept.len());
                let b = filter_source(front, pred, j);
                assert(a < b);
            }
        }
    }
}

/// What passes a test once passes it again: filtering twice is filtering once.
pub proof fn lemma_filter_idempotent<A>(s: Seq<A>, pred: spec_fn(A) -> bool)
    ensures
        s.filter(pred).filter(pred) == s.filter(pred),
    decreases s.len(),
{
    reveal(Seq::filter);
    if s.len() > 0 {
        let front = s.drop_last();
        lemma_filter_idempotent(front, pred);
        if pred(s.last()) {
            front.filter(pred).lemma_filter_push(s.last(), pred);
        }
    }
}

/// Where every element passes the test, filtering changes nothing.
pub proof fn lemma_filter_all<A>(s: Seq<A>, pred: spec_fn(A) -> bool)
    requires
        forall|i: int| 0 <= i < s.len() ==> pred(#[trigger] s[i]),
    ensures
        s.filter(pred) == s,
    decreases s.len(),
{
    reveal(Seq::filter);
    if s.len() > 0 {
        let front = s.drop_last();
        assert forall|i: int| 0 <= i < front.len() implies pred(#[trigger] front[i]) by {
            assert(front[i] == s[i]);
        }
        lemma_filter_all(front, pred);
        assert(front.push(s.last()) =~= s);
    }
}

} // verus!
