//! What holds of the recency order: it is a ranked, stable rearrangement of
//! the records, and the only one.

use vstd::prelude::*;
use crate::recency::{
    keys_of, outranks, place, placement, rank_position, ranked, recency_order, same_ties, ties,
    ties_with, Placement,
};
use crate::record::{recency_key, Repository};

verus! {

/// Outranking is a strict order in which ties are interchangeable: nothing
/// outranks itself or what outranks it, and a key that outranks another
/// outranks or is outranked by every third.
pub proof fn lemma_outranks_is_strict_weak(
    a: Option<(i64, u32)>,
    b: Option<(i64, u32)>,
    c: Option<(i64, u32)>,
)
    ensures
        !outranks(a, a),
        outranks(a, b) ==> !outranks(b, a),
        outranks(a, b) && outranks(b, c) ==> outranks(a, c),
        outranks(a, b) ==> outranks(a, c) || outranks(c, b),
        ties(a, b) && ties(b, c) ==> ties(a, c),
{
}

/// Exchanging the two keys mirrors their placement: what is ahead one way is
/// behind the other way, and what is level stays level.
pub proof fn lemma_placement_mirrors(a: Option<(i64, u32)>, b: Option<(i64, u32)>)
    ensures
        placement(a, b) == placement(b, a).mirrored(),
        placement(a, b) == Placement::Level <==> ties(a, b),
{
}

/// The rank position is within the keys, every key before it outranks `key`,
/// and the key at it does not.
pub proof fn lemma_rank_position_splits(key: Option<(i64, u32)>, keys: Seq<Option<(i64, u32)>>)
    ensures
        0 <= rank_position(key, keys) <= keys.len(),
        forall|i: int| 0 <= i < rank_position(key, keys) ==> outranks(#[trigger] keys[i], key),
        rank_position(key, keys) < keys.len() ==> !outranks(keys[rank_position(key, keys)], key),
    decreases keys.len(),
{
    if keys.len() == 0 || !outranks(keys[0], key) {
    } else {
        let rest = keys.drop_first();
        lemma_rank_position_splits(key, rest);
        assert forall|i: int| 0 <= i < rank_position(key, keys) implies outranks(
            #[trigger] keys[i],
            key,
        ) by {
            if i > 0 {
                assert(keys[i] == rest[i - 1]);
            }
        }
        if rank_position(key, keys) < keys.len() {
            assert(keys[rank_position(key, keys)] == rest[rank_position(key, rest)]);
        }
    }
}

/// Ordering drops no record, adds none and changes none.
pub proof fn lemma_recency_order_permutes(records: Seq<Repository>)
    ensures
        recency_order(records).len() == records.len(),
        recency_order(records).to_multiset() == records.to_multiset(),
    decreases records.len(),
{
    if records.len() == 0 {
        assert(records =~= Seq::empty());
    } else {
        let rest = records.drop_first();
        let inner = recency_order(rest);
        lemma_recency_order_permutes(rest);
        lemma_rank_position_splits(recency_key(records[0]), keys_of(inner));
        assert(keys_of(inner).len() == inner.len());
        vstd::seq_lib::to_multiset_insert(
            inner,
            rank_position(recency_key(records[0]), keys_of(inner)),
            records[0],
        );
        vstd::seq_lib::to_multiset_insert(rest, 0, records[0]);
        assert(rest.insert(0, records[0]) =~= records);
    }
}

/// Placing a record into ranked records leaves them ranked.
pub proof fn lemma_place_keeps_ranked(repo: Repository, records: Seq<Repository>)
    requires
        ranked(records),
    ensures
        ranked(place(repo, records)),
{
    let key = recency_key(repo);
    let keys = keys_of(records);
    let pos: int = rank_position(key, keys);
    let placed = place(repo, records);
    lemma_rank_position_splits(key, keys);
    assert forall|i: int, j: int| 0 <= i < j < placed.len() implies !outranks(
        #[trigger] recency_key(placed[j]),
        #[trigger] recency_key(placed[i]),
    ) by {
        if j < pos {
            assert(placed[i] == records[i] && placed[j] == records[j]);
        } else if j == pos {
            assert(placed[i] == records[i]);
            assert(keys[i] == recency_key(records[i]));
            lemma_outranks_is_strict_weak(keys[i], key, key);
        } else if i == pos {
            assert(placed[j] == records[j - 1]);
            assert(keys[pos] == recency_key(records[pos]));
            assert(keys[j - 1] == recency_key(records[j - 1]));
            if j - 1 > pos {
                assert(!outranks(recency_key(records[j - 1]), recency_key(records[pos])));
            }
            lemma_outranks_is_strict_weak(keys[j - 1], key, keys[pos]);
        } else if i < pos {
            assert(placed[i] == records[i] && placed[j] == records[j - 1]);
        } else {
            assert(placed[i] == records[i - 1] && placed[j] == records[j - 1]);
        }
    }
}

/// The recency order is ranked: later updates first, records without a
/// readable update time last.
pub proof fn lemma_recency_order_ranked(records: Seq<Repository>)
    ensures
        ranked(recency_order(records)),
    decreases records.len(),
{
    if records.len() > 0 {
        lemma_recency_order_ranked(records.drop_first());
        lemma_place_keeps_ranked(records[0], recency_order(records.drop_first()));
    }
}

/// Ordering is stable: the records that tie with any one key stand in the
/// recency order as they stood before, one after the other.
pub proof fn lemma_recency_order_stable(records: Seq<Repository>, key: Option<(i64, u32)>)
    ensures
        recency_order(records).filter(ties_with(key)) == records.filter(ties_with(key)),
    decreases records.len(),
{
    let pick = ties_with(key);
    if records.len() == 0 {
        assert(records =~= Seq::empty());
    } else {
        let head = records[0];
        let rest = records.drop_first();
        let inner = recency_order(rest);
        let pos: int = rank_position(recency_key(head), keys_of(inner));
        lemma_recency_order_stable(rest, key);
        lemma_rank_position_splits(recency_key(head), keys_of(inner));
        let ahead = inner.subrange(0, pos);
        let behind = inner.subrange(pos, inner.len() as int);
        assert(records =~= seq![head] + rest);
        assert(inner =~= ahead + behind);
        assert(recency_order(records) =~= ahead + (seq![head] + behind));
        rest.lemma_filter_prepend(head, pick);
        behind.lemma_filter_prepend(head, pick);
        Seq::filter_distributes_over_add(ahead, behind, pick);
        Seq::filter_distributes_over_add(ahead, seq![head] + behind, pick);
        if pick(head) {
            assert forall|i: int| 0 <= i < ahead.len() implies !pick(#[trigger] ahead[i]) by {
                assert(keys_of(inner)[i] == recency_key(ahead[i]));
                lemma_outranks_is_strict_weak(recency_key(ahead[i]), recency_key(head), key);
            }
            assert(ahead.all(|repo: Repository| !pick(repo)));
            ahead.lemma_all_neg_filter_empty(pick);
            assert(ahead.filter(pick) =~= Seq::empty());
            assert(ahead.filter(pick) + (seq![head] + behind.filter(pick)) =~= seq![head] + (
            ahead.filter(pick) + behind.filter(pick)));
        } else {
            assert(Seq::<Repository>::empty() + behind.filter(pick) =~= behind.filter(pick));
            assert(Seq::<Repository>::empty() + rest.filter(pick) =~= rest.filter(pick));
        }
    }
}

/// Records that are ranked already are in recency order: ordering them
/// changes nothing, so ordering twice gives what ordering once gave.
pub proof fn lemma_ranked_is_fixed(records: Seq<Repository>)
    requires
        ranked(records),
    ensures
        recency_order(records) == records,
    decreases records.len(),
{
    if records.len() == 0 {
        assert(records =~= Seq::empty());
    } else {
        let rest = records.drop_first();
        lemma_ranked_drop_first(records);
        lemma_ranked_is_fixed(rest);
        if rest.len() > 0 {
            assert(keys_of(rest)[0] == recency_key(records[1]));
        }
        assert(rest.insert(0, records[0]) =~= records);
    }
}

/// Ordering the recency order again leaves it as it is.
pub proof fn lemma_recency_order_idempotent(records: Seq<Repository>)
    ensures
        recency_order(recency_order(records)) == recency_order(records),
{
    lemma_recency_order_ranked(records);
    lemma_ranked_is_fixed(recency_order(records));
}

/// What follows the first record of ranked records is ranked.
proof fn lemma_ranked_drop_first(records: Seq<Repository>)
    requires
        ranked(records),
        records.len() > 0,
    ensures
        ranked(records.drop_first()),
{
    let rest = records.drop_first();
    assert forall|i: int, j: int| 0 <= i < j < rest.len() implies !outranks(
        #[trigger] recency_key(rest[j]),
        #[trigger] recency_key(rest[i]),
    ) by {
        assert(rest[i] == records[i + 1] && rest[j] == records[j + 1]);
    }
}

/// In ranked records with the same ties as `other`, no record of `other`
/// outranks the first.
proof fn lemma_first_is_not_outranked(records: Seq<Repository>, other: Seq<Repository>, at: int)
    requires
        ranked(records),
        same_ties(records, other),
        records.len() > 0,
        0 <= at < other.len(),
    ensures
        !outranks(recency_key(other[at]), recency_key(records[0])),
{
    let pick = ties_with(recency_key(other[at]));
    other.lemma_filter_contains(pick, at);
    assert(records.filter(pick) == other.filter(pick));
    records.lemma_filter_contains_rev(pick, other[at]);
    let m: int = choose|m: int| 0 <= m < records.len() && records[m] == other[at];
    if m > 0 {
        assert(!outranks(recency_key(records[m]), recency_key(records[0])));
    }
}

/// Two ranked sequences with the same ties are one sequence.
pub proof fn lemma_ranked_same_ties_equal(first: Seq<Repository>, second: Seq<Repository>)
    requires
        ranked(first),
        ranked(second),
        same_ties(first, second),
    ensures
        first == second,
    decreases first.len(),
{
    if first.len() == 0 || second.len() == 0 {
        if second.len() > 0 {
            let pick = ties_with(recency_key(second[0]));
            second.lemma_filter_contains(pick, 0);
            first.lemma_filter_len(pick);
            assert(first.filter(pick) == second.filter(pick));
        }
        if first.len() > 0 {
            let pick = ties_with(recency_key(first[0]));
            first.lemma_filter_contains(pick, 0);
            second.lemma_filter_len(pick);
            assert(first.filter(pick) == second.filter(pick));
        }
        assert(first =~= second);
    } else {
        let a = first[0];
        let b = second[0];
        let first_rest = first.drop_first();
        let second_rest = second.drop_first();
        assert(first =~= seq![a] + first_rest);
        assert(second =~= seq![b] + second_rest);
        assert(same_ties(second, first));
        lemma_first_is_not_outranked(first, second, 0);
        lemma_first_is_not_outranked(second, first, 0);
        let own = ties_with(recency_key(a));
        first_rest.lemma_filter_prepend(a, own);
        second_rest.lemma_filter_prepend(b, own);
        assert(first.filter(own) == second.filter(own));
        assert(first.filter(own)[0] == a);
        assert(second.filter(own)[0] == b);
        assert(a == b);
        assert forall|key: Option<(i64, u32)>| #[trigger]
            first_rest.filter(ties_with(key)) == second_rest.filter(ties_with(key)) by {
            let pick = ties_with(key);
            first_rest.lemma_filter_prepend(a, pick);
            second_rest.lemma_filter_prepend(b, pick);
            assert(first.filter(pick) == second.filter(pick));
            let x = first_rest.filter(pick);
            let y = second_rest.filter(pick);
            if pick(a) {
                assert(x =~= (seq![a] + x).drop_first());
                assert(y =~= (seq![a] + y).drop_first());
            } else {
                assert(x =~= Seq::<Repository>::empty() + x);
                assert(y =~= Seq::<Repository>::empty() + y);
            }
        }
        lemma_ranked_drop_first(first);
        lemma_ranked_drop_first(second);
        lemma_ranked_same_ties_equal(first_rest, second_rest);
    }
}

/// The recency order is the one arrangement of the records that is ranked
/// and keeps the records that tie in their order.
pub proof fn lemma_recency_order_unique(records: Seq<Repository>, arranged: Seq<Repository>)
    requires
        ranked(arranged),
        same_ties(arranged, records),
    ensures
        arranged == recency_order(records),
{
    lemma_recency_order_ranked(records);
    assert forall|key: Option<(i64, u32)>| #[trigger]
        arranged.filter(ties_with(key)) == recency_order(records).filter(ties_with(key)) by {
        lemma_recency_order_stable(records, key);
    }
    lemma_ranked_same_ties_equal(arranged, recency_order(records));
}

/// Two records in either order: the one that outranks the other comes
/// first, and where neither does they stay as they were given.
pub proof fn lemma_pair_order(a: Repository, b: Repository)
    ensures
        recency_order(seq![a, b]) == if outranks(recency_key(b), recency_key(a)) {
            seq![b, a]
        } else {
            seq![a, b]
        },
{
    if outranks(recency_key(b), recency_key(a)) {
        let given = seq![a, b];
        let last = seq![b];
        assert(given.drop_first() =~= last);
        lemma_ranked_is_fixed(last);
        assert(keys_of(last) =~= seq![recency_key(b)]);
        assert(keys_of(last).drop_first() =~= Seq::empty());
        assert(rank_position(recency_key(a), keys_of(last)) == 1) by {
            reveal_with_fuel(rank_position, 3);
        }
        assert(recency_order(given) =~= seq![b, a]);
    } else {
        lemma_ranked_is_fixed(seq![a, b]);
    }
}

} // verus!
