//! Judging one candidate: its distance from the query, computed row by row,
//! and whether that distance is within the threshold.

use vstd::prelude::*;
use crate::config::{Costs, FuzzyConfig};
use crate::distance::{
    distance,
    least,
    lemma_distance_at_the_edges,
    lemma_distance_to_self,
    lemma_distance_transposed,
};

verus! {

/// What the evaluation of one candidate yields under the given weights
/// and threshold: its distance from the query if both strings are non-empty
/// and the distance is within the threshold, and nothing otherwise.
pub open spec fn evaluate(
    costs: Costs,
    threshold: nat,
    query: Seq<char>,
    candidate: Seq<char>,
) -> Option<nat> {
    let d = distance(costs, query, candidate);
    if query.len() > 0 && candidate.len() > 0 && d <= threshold {
        Some(d)
    } else {
        None
    }
}

/// A non-empty string matches itself at distance 0, whatever the weights
/// and the threshold.
pub proof fn lemma_matches_itself(costs: Costs, threshold: nat, s: Seq<char>)
    requires
        s.len() > 0,
    ensures
        evaluate(costs, threshold, s, s) == Some(0nat),
{
    lemma_distance_to_self(costs, s);
}

/// An empty string matches nothing and is matched by nothing, whatever the
/// weights and the threshold.
pub proof fn lemma_empty_never_matches(costs: Costs, threshold: nat, other: Seq<char>)
    ensures
        evaluate(costs, threshold, Seq::empty(), other) is None,
        evaluate(costs, threshold, other, Seq::empty()) is None,
{
}

/// A candidate whose distance is exactly the threshold matches, and one
/// whose distance is one more does not. In general a candidate matches
/// under exactly those thresholds that are no less than its distance.
pub proof fn lemma_threshold_boundary(
    costs: Costs,
    threshold: nat,
    query: Seq<char>,
    candidate: Seq<char>,
)
    requires
        query.len() > 0,
        candidate.len() > 0,
    ensures
        distance(costs, query, candidate) == threshold ==> evaluate(
            costs,
            threshold,
            query,
            candidate,
        ) == Some(threshold),
        distance(costs, query, candidate) == threshold + 1 ==> evaluate(
            costs,
            threshold,
            query,
            candidate,
        ) is None,
        evaluate(costs, threshold, query, candidate) is Some <==> distance(
            costs,
            query,
            candidate,
        ) <= threshold,
{
}

/// Exchanging the query with the candidate, and in the configuration the
/// weight of an insertion with that of a deletion, leaves the outcome as it
/// was.
pub proof fn lemma_evaluate_transposed(
    config: FuzzyConfig,
    query: Seq<char>,
    candidate: Seq<char>,
)
    ensures
        config.transposed().costs() == config.costs().transposed(),
        evaluate(
            config.transposed().costs(),
            config.transposed().threshold as nat,
            candidate,
            query,
        ) == evaluate(config.costs(), config.threshold as nat, query, candidate),
{
    lemma_distance_transposed(config.costs(), query, candidate);
}

/// A cost as a cell of a row holds it: the number itself while a machine
/// word can hold it, and nothing once it cannot. A cost that is not held
/// exceeds every threshold.
spec fn held(cost: nat) -> Option<usize> {
    if cost <= usize::MAX {
        Some(cost as usize)
    } else {
        None
    }
}

/// A held cost raised by the weight of one more edit.
spec fn charged(cell: Option<usize>, weight: usize) -> Option<usize> {
    match cell {
        Some(cost) => held((cost + weight) as nat),
        None => None,
    }
}

/// The smaller of two held costs, a cost that is not held being the larger.
spec fn lesser_of(a: Option<usize>, b: Option<usize>) -> Option<usize> {
    match (a, b) {
        (Some(x), Some(y)) => if x <= y {
            a
        } else {
            b
        },
        (Some(_), None) => a,
        (None, _) => b,
    }
}

/// `row` is the row of distances reached once the characters `seen` of the
/// candidate are consumed: its cell `i` holds the distance from the first
/// `i` characters of the query to `seen`.
spec fn is_row(row: Seq<Option<usize>>, costs: Costs, query: Seq<char>, seen: Seq<char>) -> bool {
    &&& row.len() == query.len() + 1
    &&& forall|i: int|
        0 <= i <= query.len() ==> #[trigger] row[i] == held(
            distance(costs, query.take(i), seen),
        )
}

/// How the distance to a candidate grown by `c` follows from the distances
/// one character back.
proof fn lemma_distance_step(costs: Costs, query: Seq<char>, seen: Seq<char>, c: char, i: int)
    requires
        0 <= i < query.len(),
    ensures
        distance(costs, query.take(i + 1), seen.push(c)) == if query[i] == c {
            distance(costs, query.take(i), seen)
        } else {
            least(
                distance(costs, query.take(i), seen.push(c)) + costs.deletion,
                distance(costs, query.take(i + 1), seen) + costs.insertion,
                distance(costs, query.take(i), seen) + costs.substitution,
            )
        },
{
    assert(query.take(i + 1).drop_last() == query.take(i));
    assert(seen.push(c).drop_last() == seen);
}

/// The characters of a string, in order.
fn chars_of(s: &str) -> (chars: Vec<char>)
    ensures
        chars@ == s@,
{
    let mut chars: Vec<char> = Vec::new();
    for c in it: s.chars()
        invariant
            it.seq() == s@,
            chars@ == it.seq().take(it.index() as int),
    {
        chars.push(c);
    }
    chars
}

/// Raises a held cost by the weight of one more edit.
fn charge(cell: Option<usize>, weight: usize) -> (raised: Option<usize>)
    ensures
        raised == charged(cell, weight),
{
    match cell {
        Some(cost) => cost.checked_add(weight),
        None => None,
    }
}

/// Picks the smaller of two held costs.
fn lesser(a: Option<usize>, b: Option<usize>) -> (m: Option<usize>)
    ensures
        m == lesser_of(a, b),
{
    match (a, b) {
        (Some(x), Some(y)) => if x <= y {
            a
        } else {
            b
        },
        (Some(_), None) => a,
        (None, _) => b,
    }
}

/// The row before any character of the candidate: cell `i` holds the cost
/// of deleting the first `i` characters of the query.
fn first_row(query: &Vec<char>, config: &FuzzyConfig) -> (row: Vec<Option<usize>>)
    ensures
        is_row(row@, config.costs(), query@, Seq::empty()),
{
    let deletion: usize = config.deletion_cost();
    let ghost costs = config.costs();
    let mut row: Vec<Option<usize>> = Vec::new();
    row.push(Some(0));
    proof {
        lemma_distance_at_the_edges(costs, query@);
        assert(query@.take(0) == Seq::<char>::empty());
    }
    for i in 0..query.len()
        invariant
            deletion == costs.deletion,
            row.len() == i + 1,
            forall|k: int|
                0 <= k <= i ==> #[trigger] row[k] == held(
                    distance(costs, query@.take(k), Seq::empty()),
                ),
    {
        proof {
            lemma_distance_at_the_edges(costs, query@.take(i + 1));
            assert(query@.take(i + 1).drop_last() == query@.take(i as int));
        }
        let cell = charge(row[i], deletion);
        row.push(cell);
    }
    row
}

/// The row after one more character `c` of the candidate, from the row
/// before it.
fn next_row(
    prev: &Vec<Option<usize>>,
    query: &Vec<char>,
    c: char,
    config: &FuzzyConfig,
    Ghost(seen): Ghost<Seq<char>>,
) -> (row: Vec<Option<usize>>)
    requires
        is_row(prev@, config.costs(), query@, seen),
    ensures
        is_row(row@, config.costs(), query@, seen.push(c)),
{
    let insertion: usize = config.insertion_cost();
    let deletion: usize = config.deletion_cost();
    let substitution: usize = config.substitution_cost();
    let ghost costs = config.costs();
    let ghost grown = seen.push(c);
    let mut row: Vec<Option<usize>> = Vec::new();
    proof {
        lemma_distance_at_the_edges(costs, grown);
        assert(grown.drop_last() == seen);
        assert(query@.take(0) == Seq::<char>::empty());
    }
    let first = charge(prev[0], insertion);
    row.push(first);
    for i in 0..query.len()
        invariant
            insertion == costs.insertion,
            deletion == costs.deletion,
            substitution == costs.substitution,
            grown == seen.push(c),
            is_row(prev@, costs, query@, seen),
            row.len() == i + 1,
            forall|k: int|
                0 <= k <= i ==> #[trigger] row[k] == held(
                    distance(costs, query@.take(k), grown),
                ),
    {
        proof {
            lemma_distance_step(costs, query@, seen, c, i as int);
        }
        let cell = if query[i] == c {
            prev[i]
        } else {
            lesser(
                lesser(charge(row[i], deletion), charge(prev[i + 1], insertion)),
                charge(prev[i], substitution),
            )
        };
        row.push(cell);
    }
    row
}

/// Judges one candidate against the query.
///
/// Returns the candidate with its distance from `needle` when both strings
/// are non-empty and the distance does not exceed `config.threshold`, and
/// `None` otherwise. An empty string never matches, whatever the threshold.
///
/// The distance is exact for every input: a cost that no machine word
/// holds is carried as such, and no threshold admits it.
pub fn check<'a>(needle: &'a String, candidate: &'a String, config: FuzzyConfig) -> (res: Option<
    (&'a String, usize),
>)
    ensures
        res is Some <==> evaluate(
            config.costs(),
            config.threshold as nat,
            needle@,
            candidate@,
        ) is Some,
        res matches Some(hit) ==> hit.0 == candidate && evaluate(
            config.costs(),
            config.threshold as nat,
            needle@,
            candidate@,
        ) == Some(hit.1 as nat),
        needle@.len() == 0 || candidate@.len() == 0 ==> res is None,
{
    if needle.as_str().is_empty() || candidate.as_str().is_empty() {
        return None;
    }
    let query = chars_of(needle.as_str());
    let mut row = first_row(&query, &config);
    for c in it: candidate.as_str().chars()
        invariant
            it.seq() == candidate@,
            query@ == needle@,
            is_row(row@, config.costs(), query@, candidate@.take(it.index() as int)),
    {
        proof {
            assert(candidate@.take(it.index() + 1) == candidate@.take(it.index() as int).push(c));
        }
        row = next_row(&row, &query, c, &config, Ghost(candidate@.take(it.index() as int)));
    }
    proof {
        assert(candidate@.take(candidate@.len() as int) == candidate@);
        assert(query@.take(query@.len() as int) == query@);
    }
    match row[query.len()] {
        Some(d) => if d <= config.threshold {
            Some((candidate, d))
        } else {
            None
        },
        None => None,
    }
}

} // verus!
