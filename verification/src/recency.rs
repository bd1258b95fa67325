//! The ordering policy: most recently updated first, records without a
//! readable update time last, ties in the order they came in.

use vstd::prelude::*;
use crate::laws::{
    lemma_ranked_is_fixed, lemma_recency_order_permutes, lemma_recency_order_ranked,
    lemma_recency_order_stable, lemma_recency_order_unique,
};
use crate::merge::merge_ranked;
use crate::record::{recency_key, Repository};

verus! {

/// What `chrono::DateTime::parse_from_rfc3339` makes of a text, as an instant
/// in UTC: seconds since the Unix epoch and nanoseconds within the second.
/// `None` where chrono rejects the text.
pub uninterp spec fn rfc3339_instant(text: Seq<char>) -> Option<(i64, u32)>;

/// Calls `chrono::DateTime::parse_from_rfc3339` and hands back the parsed
/// moment as `timestamp()` and `timestamp_subsec_nanos()`, both counted in
/// UTC. Believed, not proved: the outcome depends on the text alone. Two
/// moments compare in chrono as these pairs compare, seconds first.
#[verifier::external_body]
pub(crate) fn parse_rfc3339(text: &str) -> (instant: Option<(i64, u32)>)
    ensures
        instant == rfc3339_instant(text@),
{
    match chrono::DateTime::parse_from_rfc3339(text) {
        Ok(moment) => Some((moment.timestamp(), moment.timestamp_subsec_nanos())),
        Err(_) => None,
    }
}

/// `a` is a later instant than `b`.
pub open spec fn later(a: (i64, u32), b: (i64, u32)) -> bool {
    a.0 > b.0 || (a.0 == b.0 && a.1 > b.1)
}

/// A record with key `a` must stand before a record with key `b`: `a` is a
/// later instant, or `a` is an instant and `b` is none.
pub open spec fn outranks(a: Option<(i64, u32)>, b: Option<(i64, u32)>) -> bool {
    match (a, b) {
        (Some(x), Some(y)) => later(x, y),
        (Some(_), None) => true,
        _ => false,
    }
}

/// Neither key must stand before the other.
pub open spec fn ties(a: Option<(i64, u32)>, b: Option<(i64, u32)>) -> bool {
    !outranks(a, b) && !outranks(b, a)
}

/// Where the first of two records stands relative to the second.
#[derive(Debug, Clone, Copy, PartialEq, Eq, Structural)]
pub enum Placement {
    Ahead,
    Level,
    Behind,
}

impl Placement {
    /// The same placement with the two records exchanged.
    pub open spec fn mirrored(self) -> Placement {
        match self {
            Placement::Ahead => Placement::Behind,
            Placement::Level => Placement::Level,
            Placement::Behind => Placement::Ahead,
        }
    }

    /// The placement seen from the other record.
    pub fn reversed(self) -> (r: Placement)
        ensures
            r == self.mirrored(),
    {
        match self {
            Placement::Ahead => Placement::Behind,
            Placement::Level => Placement::Level,
            Placement::Behind => Placement::Ahead,
        }
    }
}

/// Where a record with key `a` stands relative to one with key `b`.
pub open spec fn placement(a: Option<(i64, u32)>, b: Option<(i64, u32)>) -> Placement {
    if outranks(a, b) {
        Placement::Ahead
    } else if outranks(b, a) {
        Placement::Behind
    } else {
        Placement::Level
    }
}

/// Compares two keys: both instants, the later one is ahead; one instant,
/// it is ahead; no instant, they are level.
pub fn compare_recency(a: Option<(i64, u32)>, b: Option<(i64, u32)>) -> (p: Placement)
    ensures
        p == placement(a, b),
        p == placement(b, a).mirrored(),
{
    match (a, b) {
        (Some(x), Some(y)) => {
            if x.0 > y.0 || (x.0 == y.0 && x.1 > y.1) {
                Placement::Ahead
            } else if y.0 > x.0 || (y.0 == x.0 && y.1 > x.1) {
                Placement::Behind
            } else {
                Placement::Level
            }
        },
        (Some(_), None) => Placement::Ahead,
        (None, Some(_)) => Placement::Behind,
        (None, None) => Placement::Level,
    }
}

/// The keys of a sequence of records, in the same order.
pub open spec fn keys_of(records: Seq<Repository>) -> Seq<Option<(i64, u32)>> {
    records.map_values(|r: Repository| recency_key(r))
}

/// The number of leading keys that outrank `key`: where a record with that
/// key goes into records ranked under `keys`, ahead of all it ties with.
pub open spec fn rank_position(key: Option<(i64, u32)>, keys: Seq<Option<(i64, u32)>>) -> int
    decreases keys.len(),
{
    if keys.len() == 0 || !outranks(keys[0], key) {
        0
    } else {
        1 + rank_position(key, keys.drop_first())
    }
}

/// `records` with `repo` put in at its rank position.
pub open spec fn place(repo: Repository, records: Seq<Repository>) -> Seq<Repository> {
    records.insert(rank_position(recency_key(repo), keys_of(records)), repo)
}

/// The records in recency order: the last one alone, and each earlier one
/// placed in turn into the order of those that follow it.
pub open spec fn recency_order(records: Seq<Repository>) -> Seq<Repository>
    decreases records.len(),
{
    if records.len() == 0 {
        Seq::empty()
    } else {
        place(records[0], recency_order(records.drop_first()))
    }
}

/// No record stands behind one that it outranks.
pub open spec fn ranked(records: Seq<Repository>) -> bool {
    forall|i: int, j: int|
        0 <= i < j < records.len() ==> !outranks(
            #[trigger] recency_key(records[j]),
            #[trigger] recency_key(records[i]),
        )
}

/// Picks the records whose key ties with `key`.
pub open spec fn ties_with(key: Option<(i64, u32)>) -> spec_fn(Repository) -> bool {
    |repo: Repository| ties(recency_key(repo), key)
}

/// For every key, the records that tie with it are the same, in the same
/// order, in both sequences.
pub open spec fn same_ties(first: Seq<Repository>, second: Seq<Repository>) -> bool {
    forall|key: Option<(i64, u32)>| #[trigger]
        first.filter(ties_with(key)) == second.filter(ties_with(key))
}

/// Orders records by descending recency of `updated_at`. Records whose
/// `updated_at` is no RFC 3339 date come last; records that tie keep their
/// order.
pub fn sort_by_recency(repos: Vec<Repository>) -> (sorted: Vec<Repository>)
    ensures
        sorted@ == recency_order(repos@),
        sorted@.len() == repos@.len(),
        sorted@.to_multiset() == repos@.to_multiset(),
        ranked(sorted@),
        same_ties(sorted@, repos@),
    decreases repos@.len(),
{
    let ghost all = repos@;
    proof {
        lemma_recency_order_permutes(all);
        lemma_recency_order_ranked(all);
        assert forall|key: Option<(i64, u32)>| #[trigger]
            recency_order(all).filter(ties_with(key)) == all.filter(ties_with(key)) by {
            lemma_recency_order_stable(all, key);
        }
    }
    if repos.len() <= 1 {
        proof {
            lemma_ranked_is_fixed(all);
        }
        return repos;
    }
    let mut left = repos;
    let half: usize = left.len() / 2;
    let right = left.split_off(half);
    let ghost front = left@;
    let ghost back = right@;
    let left_sorted = sort_by_recency(left);
    let right_sorted = sort_by_recency(right);
    let sorted = merge_ranked(left_sorted, right_sorted);
    proof {
        assert(all =~= front + back);
        assert forall|key: Option<(i64, u32)>| #[trigger]
            sorted@.filter(ties_with(key)) == all.filter(ties_with(key)) by {
            let pick = ties_with(key);
            assert(left_sorted@.filter(pick) == front.filter(pick));
            assert(right_sorted@.filter(pick) == back.filter(pick));
            Seq::filter_distributes_over_add(front, back, pick);
        }
        lemma_recency_order_unique(all, sorted@);
    }
    sorted
}

} // verus!
