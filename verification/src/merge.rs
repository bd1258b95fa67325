//! Merging ranked runs of records.

use vstd::prelude::*;
use crate::laws::{lemma_outranks_is_strict_weak, lemma_recency_order_unique};
use crate::recency::{compare_recency, outranks, ranked, recency_order, ties_with, Placement};
use crate::record::{recency_key, Repository};
use crate::stack::reversed;

verus! {

/// The key of the record on top of a stack, if there is one.
fn head_key(stack: &Vec<Repository>) -> (key: Option<(i64, u32)>)
    ensures
        stack@.len() > 0 ==> key == recency_key(stack@[stack@.len() - 1]),
        stack@.len() == 0 ==> key is None,
{
    if stack.len() > 0 {
        stack[stack.len() - 1].parse_updated_at()
    } else {
        None
    }
}

/// Merges two ranked runs into one ranked run. Where a record of `left`
/// ties with one of `right`, that of `left` goes first.
pub(crate) fn merge_ranked(left: Vec<Repository>, right: Vec<Repository>) -> (merged: Vec<
    Repository,
>)
    requires
        ranked(left@),
        ranked(right@),
    ensures
        merged@ == recency_order(left@ + right@),
        ranked(merged@),
        forall|key: Option<(i64, u32)>| #[trigger]
            merged@.filter(ties_with(key)) == left@.filter(ties_with(key)) + right@.filter(
                ties_with(key),
            ),
{
    let ghost l = left@;
    let ghost r = right@;
    let mut lstack = reversed(left);
    let mut rstack = reversed(right);
    let mut merged: Vec<Repository> = Vec::new();
    let mut lkey = head_key(&lstack);
    let mut rkey = head_key(&rstack);
    proof {
        assert forall|key: Option<(i64, u32)>| #[trigger]
            merged@.filter(ties_with(key)) == l.subrange(0, 0).filter(ties_with(key))
                + r.subrange(0, 0).filter(ties_with(key)) by {
            merged@.lemma_filter_len(ties_with(key));
            l.subrange(0, 0).lemma_filter_len(ties_with(key));
            r.subrange(0, 0).lemma_filter_len(ties_with(key));
            assert(merged@.filter(ties_with(key)) =~= l.subrange(0, 0).filter(ties_with(key))
                + r.subrange(0, 0).filter(ties_with(key)));
        }
    }
    while lstack.len() > 0 || rstack.len() > 0
        invariant
            ranked(l),
            ranked(r),
            lstack@.len() <= l.len(),
            rstack@.len() <= r.len(),
            forall|m: int| 0 <= m < lstack@.len() ==> lstack@[m] == l[l.len() - 1 - m],
            forall|m: int| 0 <= m < rstack@.len() ==> rstack@[m] == r[r.len() - 1 - m],
            ranked(merged@),
            lstack@.len() > 0 ==> lkey == recency_key(l[l.len() - lstack@.len()]),
            rstack@.len() > 0 ==> rkey == recency_key(r[r.len() - rstack@.len()]),
            forall|x: int|
                0 <= x < merged@.len() && lstack@.len() > 0 ==> !outranks(
                    recency_key(l[l.len() - lstack@.len()]),
                    #[trigger] recency_key(merged@[x]),
                ),
            forall|x: int|
                0 <= x < merged@.len() && rstack@.len() > 0 ==> !outranks(
                    recency_key(r[r.len() - rstack@.len()]),
                    #[trigger] recency_key(merged@[x]),
                ),
            forall|m: int|
                0 <= m < r.len() - rstack@.len() && lstack@.len() > 0 ==> outranks(
                    #[trigger] recency_key(r[m]),
                    recency_key(l[l.len() - lstack@.len()]),
                ),
            forall|key: Option<(i64, u32)>| #[trigger]
                merged@.filter(ties_with(key)) == l.subrange(
                    0,
                    l.len() - lstack@.len(),
                ).filter(ties_with(key)) + r.subrange(0, r.len() - rstack@.len()).filter(
                    ties_with(key),
                ),
        decreases lstack.len() + rstack.len(),
    {
        let ghost i: int = l.len() - lstack@.len();
        let ghost j: int = r.len() - rstack@.len();
        let ghost before = merged@;
        let take_right = if lstack.len() == 0 {
            true
        } else if rstack.len() == 0 {
            false
        } else {
            compare_recency(rkey, lkey) == Placement::Ahead
        };
        if take_right {
            let next = rstack.pop().unwrap();
            merged.push(next);
            rkey = head_key(&rstack);
            proof {
                assert(next == r[j]);
                assert(r.subrange(0, j + 1) =~= r.subrange(0, j).push(next));
                assert forall|a: int, b: int| 0 <= a < b < merged@.len() implies !outranks(
                    #[trigger] recency_key(merged@[b]),
                    #[trigger] recency_key(merged@[a]),
                ) by {
                    assert(merged@[a] == before[a]);
                    if b < before.len() {
                        assert(merged@[b] == before[b]);
                    } else {
                        assert(!outranks(recency_key(r[j]), recency_key(before[a])));
                    }
                }
                assert forall|x: int|
                    0 <= x < merged@.len() && lstack@.len() > 0 implies !outranks(
                    recency_key(l[i]),
                    #[trigger] recency_key(merged@[x]),
                ) by {
                    if x < before.len() {
                        assert(merged@[x] == before[x]);
                        assert(!outranks(recency_key(l[i]), recency_key(before[x])));
                    }
                }
                assert forall|x: int|
                    0 <= x < merged@.len() && rstack@.len() > 0 implies !outranks(
                    recency_key(r[j + 1]),
                    #[trigger] recency_key(merged@[x]),
                ) by {
                    assert(!outranks(recency_key(r[j + 1]), recency_key(r[j])));
                    if x < before.len() {
                        assert(merged@[x] == before[x]);
                        assert(!outranks(recency_key(r[j]), recency_key(before[x])));
                        lemma_outranks_is_strict_weak(
                            recency_key(r[j + 1]),
                            recency_key(before[x]),
                            recency_key(r[j]),
                        );
                    }
                }
                assert forall|key: Option<(i64, u32)>| #[trigger]
                    merged@.filter(ties_with(key)) == l.subrange(0, i).filter(ties_with(key))
                        + r.subrange(0, j + 1).filter(ties_with(key)) by {
                    let pick = ties_with(key);
                    assert(before.filter(pick) == l.subrange(0, i).filter(pick) + r.subrange(
                        0,
                        j,
                    ).filter(pick));
                    before.lemma_filter_push(next, pick);
                    r.subrange(0, j).lemma_filter_push(next, pick);
                    assert(merged@.filter(pick) =~= l.subrange(0, i).filter(pick) + r.subrange(
                        0,
                        j + 1,
                    ).filter(pick));
                }
            }
        } else {
            let next = lstack.pop().unwrap();
            merged.push(next);
            lkey = head_key(&lstack);
            proof {
                assert(next == l[i]);
                assert(l.subrange(0, i + 1) =~= l.subrange(0, i).push(next));
                assert forall|a: int, b: int| 0 <= a < b < merged@.len() implies !outranks(
                    #[trigger] recency_key(merged@[b]),
                    #[trigger] recency_key(merged@[a]),
                ) by {
                    assert(merged@[a] == before[a]);
                    if b < before.len() {
                        assert(merged@[b] == before[b]);
                    } else {
                        assert(!outranks(recency_key(l[i]), recency_key(before[a])));
                    }
                }
                assert forall|x: int|
                    0 <= x < merged@.len() && rstack@.len() > 0 implies !outranks(
                    recency_key(r[j]),
                    #[trigger] recency_key(merged@[x]),
                ) by {
                    if x < before.len() {
                        assert(merged@[x] == before[x]);
                        assert(!outranks(recency_key(r[j]), recency_key(before[x])));
                    }
                }
                assert forall|x: int|
                    0 <= x < merged@.len() && lstack@.len() > 0 implies !outranks(
                    recency_key(l[i + 1]),
                    #[trigger] recency_key(merged@[x]),
                ) by {
                    assert(!outranks(recency_key(l[i + 1]), recency_key(l[i])));
                    if x < before.len() {
                        assert(merged@[x] == before[x]);
                        assert(!outranks(recency_key(l[i]), recency_key(before[x])));
                        lemma_outranks_is_strict_weak(
                            recency_key(l[i + 1]),
                            recency_key(before[x]),
                            recency_key(l[i]),
                        );
                    }
                }
                assert forall|m: int| 0 <= m < j && lstack@.len() > 0 implies outranks(
                    #[trigger] recency_key(r[m]),
                    recency_key(l[i + 1]),
                ) by {
                    assert(outranks(recency_key(r[m]), recency_key(l[i])));
                    assert(!outranks(recency_key(l[i + 1]), recency_key(l[i])));
                    lemma_outranks_is_strict_weak(
                        recency_key(r[m]),
                        recency_key(l[i]),
                        recency_key(l[i + 1]),
                    );
                }
                assert forall|key: Option<(i64, u32)>| #[trigger]
                    merged@.filter(ties_with(key)) == l.subrange(0, i + 1).filter(
                        ties_with(key),
                    ) + r.subrange(0, j).filter(ties_with(key)) by {
                    let pick = ties_with(key);
                    let taken = r.subrange(0, j);
                    assert(before.filter(pick) == l.subrange(0, i).filter(pick) + taken.filter(
                        pick,
                    ));
                    before.lemma_filter_push(next, pick);
                    l.subrange(0, i).lemma_filter_push(next, pick);
                    if pick(next) {
                        assert forall|m: int| 0 <= m < taken.len() implies !pick(
                            #[trigger] taken[m],
                        ) by {
                            assert(outranks(recency_key(r[m]), recency_key(l[i])));
                            lemma_outranks_is_strict_weak(
                                recency_key(r[m]),
                                recency_key(l[i]),
                                key,
                            );
                        }
                        assert(taken.all(|repo: Repository| !pick(repo)));
                        taken.lemma_all_neg_filter_empty(pick);
                    }
                    assert(merged@.filter(pick) =~= l.subrange(0, i + 1).filter(pick)
                        + taken.filter(pick));
                }
            }
        }
    }
    proof {
        assert(l.subrange(0, l.len() as int) =~= l);
        assert(r.subrange(0, r.len() as int) =~= r);
        assert forall|key: Option<(i64, u32)>| #[trigger]
            merged@.filter(ties_with(key)) == (l + r).filter(ties_with(key)) by {
            Seq::filter_distributes_over_add(l, r, ties_with(key));
        }
        lemma_recency_order_unique(l + r, merged@);
    }
    merged
}

} // verus!
