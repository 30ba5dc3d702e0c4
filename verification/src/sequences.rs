//! Facts about sequences that a filter has been applied to.

use vstd::prelude::*;

verus! {

/// What a filter keeps is what was in the sequence and meets the condition.
pub proof fn lemma_filter_members<A>(s: Seq<A>, pred: spec_fn(A) -> bool, x: A)
    ensures
        s.filter(pred).contains(x) <==> s.contains(x) && pred(x),
    decreases s.len(),
{
    reveal(Seq::filter);
    if s.len() > 0 {
        let front = s.drop_last();
        lemma_filter_members(front, pred, x);
        let kept = s.filter(pred);
        if kept.contains(x) {
            let i = choose|i: int| 0 <= i < kept.len() && kept[i] == x;
            if i < front.filter(pred).len() {
                assert(front.filter(pred)[i] == x);
                let j = choose|j: int| 0 <= j < front.len() && front[j] == x;
                assert(s[j] == x);
            } else {
                assert(s[s.len() - 1] == x);
            }
        }
        if s.contains(x) && pred(x) {
            let j = choose|j: int| 0 <= j < s.len() && s[j] == x;
            if j < front.len() {
                assert(front[j] == x);
                let i = choose|i: int|
                    0 <= i < front.filter(pred).len() && front.filter(pred)[i] == x;
                assert(kept[i] == x);
            } else {
                assert(kept[kept.len() - 1] == x);
            }
        }
    }
}

/// Where no two elements of a sequence have the same mark, no two elements
/// that a filter keeps have.
pub proof fn lemma_filter_keeps_distinct<A, K>(
    s: Seq<A>,
    pred: spec_fn(A) -> bool,
    mark: spec_fn(A) -> K,
)
    requires
        forall|i: int, j: int|
            0 <= i < j < s.len() ==> mark(#[trigger] s[i]) != mark(#[trigger] s[j]),
    ensures
        forall|i: int, j: int|
            0 <= i < j < s.filter(pred).len() ==> mark(#[trigger] s.filter(pred)[i]) != mark(
                #[trigger] s.filter(pred)[j],
            ),
    decreases s.len(),
{
    reveal(Seq::filter);
    if s.len() > 0 {
        let front = s.drop_last();
        assert forall|i: int, j: int| 0 <= i < j < front.len() implies mark(#[trigger] front[i])
            != mark(#[trigger] front[j]) by {
            assert(mark(s[i]) != mark(s[j]));
        }
        lemma_filter_keeps_distinct(front, pred, mark);
        let kept = s.filter(pred);
        let before = front.filter(pred);
        assert forall|i: int, j: int| 0 <= i < j < kept.len() implies mark(#[trigger] kept[i])
            != mark(#[trigger] kept[j]) by {
            if j < before.len() {
                assert(kept[i] == before[i] && kept[j] == before[j]);
            } else {
                assert(kept[i] == before[i]);
                assert(before.contains(before[i]));
                lemma_filter_members(front, pred, before[i]);
                let t = choose|t: int| 0 <= t < front.len() && front[t] == before[i];
                assert(mark(s[t]) != mark(s[s.len() - 1]));
            }
        }
    }
}

} // verus!
