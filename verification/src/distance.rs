//! The weighted edit distance between two sequences of characters.

use vstd::prelude::*;
use crate::config::Costs;

verus! {

/// The least of three natural numbers.
pub open spec fn least(a: nat, b: nat, c: nat) -> nat {
    if a <= b && a <= c {
        a
    } else if b <= c {
        b
    } else {
        c
    }
}

/// The weighted edit distance from `query` to `candidate`.
///
/// Against an empty candidate every character of the query is deleted, and
/// against an empty query every character of the candidate is inserted.
/// Where the two end in the same character, that character costs nothing.
/// Otherwise the cheapest of three ways is taken: delete the last character
/// of the query, insert the last character of the candidate, or substitute
/// one for the other.
pub open spec fn distance(costs: Costs, query: Seq<char>, candidate: Seq<char>) -> nat
    decreases query.len() + candidate.len(),
{
    if candidate.len() == 0 {
        query.len() * costs.deletion
    } else if query.len() == 0 {
        candidate.len() * costs.insertion
    } else if query.last() == candidate.last() {
        distance(costs, query.drop_last(), candidate.drop_last())
    } else {
        least(
            distance(costs, query.drop_last(), candidate) + costs.deletion,
            distance(costs, query, candidate.drop_last()) + costs.insertion,
            distance(costs, query.drop_last(), candidate.drop_last()) + costs.substitution,
        )
    }
}

/// The distance where one of the strings is empty, one character at a
/// time: nothing between two empty strings, one deletion more for each
/// character of the query, one insertion more for each character of the
/// candidate.
pub proof fn lemma_distance_at_the_edges(costs: Costs, s: Seq<char>)
    ensures
        distance(costs, Seq::empty(), Seq::empty()) == 0,
        s.len() > 0 ==> distance(costs, s, Seq::empty()) == distance(
            costs,
            s.drop_last(),
            Seq::empty(),
        ) + costs.deletion,
        s.len() > 0 ==> distance(costs, Seq::empty(), s) == distance(
            costs,
            Seq::empty(),
            s.drop_last(),
        ) + costs.insertion,
{
    let none = Seq::<char>::empty();
    assert(distance(costs, none, none) == 0) by {
        assert(0 * costs.deletion == 0) by (nonlinear_arith);
    }
    if s.len() > 0 {
        let n = s.drop_last().len();
        assert(s.len() == n + 1);
        assert((n + 1) * costs.deletion == n * costs.deletion + costs.deletion)
            by (nonlinear_arith);
        assert((n + 1) * costs.insertion == n * costs.insertion + costs.insertion)
            by (nonlinear_arith);
        assert(distance(costs, none, s.drop_last()) == n * costs.insertion) by {
            assert(0 * costs.deletion == 0 * costs.insertion) by (nonlinear_arith);
        }
    }
}

/// A string lies at distance 0 from itself, whatever the weights.
pub proof fn lemma_distance_to_self(costs: Costs, s: Seq<char>)
    ensures
        distance(costs, s, s) == 0,
    decreases s.len(),
{
    if s.len() > 0 {
        lemma_distance_to_self(costs, s.drop_last());
    } else {
        lemma_distance_at_the_edges(costs, s);
    }
}

/// Exchanging the two strings together with the weights of insertion and
/// deletion leaves the distance as it was.
pub proof fn lemma_distance_transposed(costs: Costs, query: Seq<char>, candidate: Seq<char>)
    ensures
        distance(costs.transposed(), candidate, query) == distance(costs, query, candidate),
    decreases query.len() + candidate.len(),
{
    if query.len() > 0 && candidate.len() > 0 {
        lemma_distance_transposed(costs, query.drop_last(), candidate.drop_last());
        lemma_distance_transposed(costs, query.drop_last(), candidate);
        lemma_distance_transposed(costs, query, candidate.drop_last());
    } else if query.len() == 0 && candidate.len() == 0 {
        lemma_distance_at_the_edges(costs, query);
        lemma_distance_at_the_edges(costs.transposed(), query);
        assert(query == Seq::<char>::empty());
        assert(candidate == Seq::<char>::empty());
    }
}

} // verus!
