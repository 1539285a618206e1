//! Edit scripts, and why the distance is the cost of the cheapest one.

use vstd::prelude::*;
use crate::config::Costs;
use crate::distance::{distance, lemma_distance_at_the_edges, lemma_distance_transposed};

verus! {

/// One step of a script that turns a query into a candidate, read from left
/// to right over both strings.
pub enum Edit {
    /// Carries over a character that both strings have at this place.
    Keep,
    /// Replaces a character of the query by one of the candidate.
    Substitute,
    /// Removes a character of the query.
    Delete,
    /// Adds a character of the candidate.
    Insert,
}

/// What one edit costs.
pub open spec fn weight(costs: Costs, edit: Edit) -> nat {
    match edit {
        Edit::Keep => 0,
        Edit::Substitute => costs.substitution,
        Edit::Delete => costs.deletion,
        Edit::Insert => costs.insertion,
    }
}

/// What a script costs: the sum of the weights of its edits.
pub open spec fn script_cost(costs: Costs, script: Seq<Edit>) -> nat
    decreases script.len(),
{
    if script.len() == 0 {
        0
    } else {
        script_cost(costs, script.drop_last()) + weight(costs, script.last())
    }
}

/// Whether `script` turns `query` into `candidate`: its edits use up the
/// characters of both strings, in order, and it keeps a character only
/// where the two strings agree.
pub open spec fn rewrites(script: Seq<Edit>, query: Seq<char>, candidate: Seq<char>) -> bool
    decreases script.len(),
{
    if script.len() == 0 {
        query.len() == 0 && candidate.len() == 0
    } else {
        let rest = script.drop_last();
        match script.last() {
            Edit::Keep => query.len() > 0 && candidate.len() > 0 && query.last()
                == candidate.last() && rewrites(rest, query.drop_last(), candidate.drop_last()),
            Edit::Substitute => query.len() > 0 && candidate.len() > 0 && rewrites(
                rest,
                query.drop_last(),
                candidate.drop_last(),
            ),
            Edit::Delete => query.len() > 0 && rewrites(rest, query.drop_last(), candidate),
            Edit::Insert => candidate.len() > 0 && rewrites(rest, query, candidate.drop_last()),
        }
    }
}

/// Taking the last character off the candidate raises the distance by one
/// deletion at most.
pub proof fn lemma_shorter_candidate(costs: Costs, query: Seq<char>, candidate: Seq<char>)
    requires
        candidate.len() > 0,
    ensures
        distance(costs, query, candidate.drop_last()) <= distance(costs, query, candidate)
            + costs.deletion,
    decreases query.len() + candidate.len(), 0nat,
{
    if query.len() == 0 {
        lemma_distance_at_the_edges(costs, candidate);
        assert(query == Seq::<char>::empty());
    } else {
        lemma_longer_query(costs, query, candidate.drop_last());
        if query.last() != candidate.last() {
            lemma_shorter_candidate(costs, query.drop_last(), candidate);
        }
    }
}

/// One more character at the end of the query raises the distance by one
/// deletion at most.
pub proof fn lemma_longer_query(costs: Costs, query: Seq<char>, candidate: Seq<char>)
    requires
        query.len() > 0,
    ensures
        distance(costs, query, candidate) <= distance(costs, query.drop_last(), candidate)
            + costs.deletion,
    decreases query.len() + candidate.len(), 1nat,
{
    if candidate.len() == 0 {
        lemma_distance_at_the_edges(costs, query);
        assert(candidate == Seq::<char>::empty());
    } else if query.last() == candidate.last() {
        lemma_shorter_candidate(costs, query.drop_last(), candidate);
    }
}

/// One more character at the end of the candidate raises the distance by
/// one insertion at most.
pub proof fn lemma_longer_candidate(costs: Costs, query: Seq<char>, candidate: Seq<char>)
    requires
        candidate.len() > 0,
    ensures
        distance(costs, query, candidate) <= distance(costs, query, candidate.drop_last())
            + costs.insertion,
{
    lemma_distance_transposed(costs, query, candidate);
    lemma_distance_transposed(costs, query, candidate.drop_last());
    lemma_longer_query(costs.transposed(), candidate, query);
}

/// No script that turns the query into the candidate costs less than their
/// distance.
pub proof fn lemma_no_script_is_cheaper(
    costs: Costs,
    script: Seq<Edit>,
    query: Seq<char>,
    candidate: Seq<char>,
)
    requires
        rewrites(script, query, candidate),
    ensures
        distance(costs, query, candidate) <= script_cost(costs, script),
    decreases script.len(),
{
    if script.len() == 0 {
        lemma_distance_at_the_edges(costs, query);
        assert(query == Seq::<char>::empty());
        assert(candidate == Seq::<char>::empty());
    } else {
        let rest = script.drop_last();
        match script.last() {
            Edit::Keep => {
                lemma_no_script_is_cheaper(costs, rest, query.drop_last(), candidate.drop_last());
            },
            Edit::Substitute => {
                lemma_no_script_is_cheaper(costs, rest, query.drop_last(), candidate.drop_last());
            },
            Edit::Delete => {
                lemma_no_script_is_cheaper(costs, rest, query.drop_last(), candidate);
                lemma_longer_query(costs, query, candidate);
            },
            Edit::Insert => {
                lemma_no_script_is_cheaper(costs, rest, query, candidate.drop_last());
                lemma_longer_candidate(costs, query, candidate);
            },
        }
    }
}

/// The script that ends in `edit` after `rest`.
proof fn lemma_script_ending_in(costs: Costs, rest: Seq<Edit>, edit: Edit) -> (script: Seq<Edit>)
    ensures
        script == rest.push(edit),
        script.len() > 0,
        script.last() == edit,
        script.drop_last() == rest,
        script_cost(costs, script) == script_cost(costs, rest) + weight(costs, edit),
{
    let script = rest.push(edit);
    assert(script.drop_last() == rest);
    script
}

/// Some script turns the query into the candidate at exactly their
/// distance.
pub proof fn lemma_some_script_costs_the_distance(
    costs: Costs,
    query: Seq<char>,
    candidate: Seq<char>,
) -> (script: Seq<Edit>)
    ensures
        rewrites(script, query, candidate),
        script_cost(costs, script) == distance(costs, query, candidate),
    decreases query.len() + candidate.len(),
{
    let shorter_query = query.drop_last();
    let shorter_candidate = candidate.drop_last();
    if candidate.len() == 0 && query.len() == 0 {
        lemma_distance_at_the_edges(costs, query);
        assert(query == Seq::<char>::empty());
        assert(candidate == Seq::<char>::empty());
        Seq::empty()
    } else if candidate.len() == 0 {
        lemma_distance_at_the_edges(costs, query);
        assert(candidate == Seq::<char>::empty());
        let rest = lemma_some_script_costs_the_distance(costs, shorter_query, candidate);
        lemma_script_ending_in(costs, rest, Edit::Delete)
    } else if query.len() == 0 {
        lemma_distance_at_the_edges(costs, candidate);
        assert(query == Seq::<char>::empty());
        let rest = lemma_some_script_costs_the_distance(costs, query, shorter_candidate);
        lemma_script_ending_in(costs, rest, Edit::Insert)
    } else if query.last() == candidate.last() {
        let rest = lemma_some_script_costs_the_distance(costs, shorter_query, shorter_candidate);
        lemma_script_ending_in(costs, rest, Edit::Keep)
    } else {
        let by_deletion = distance(costs, shorter_query, candidate) + costs.deletion;
        let by_insertion = distance(costs, query, shorter_candidate) + costs.insertion;
        let by_substitution = distance(costs, shorter_query, shorter_candidate)
            + costs.substitution;
        if by_deletion <= by_insertion && by_deletion <= by_substitution {
            let rest = lemma_some_script_costs_the_distance(costs, shorter_query, candidate);
            lemma_script_ending_in(costs, rest, Edit::Delete)
        } else if by_insertion <= by_substitution {
            let rest = lemma_some_script_costs_the_distance(costs, query, shorter_candidate);
            lemma_script_ending_in(costs, rest, Edit::Insert)
        } else {
            let rest = lemma_some_script_costs_the_distance(
                costs,
                shorter_query,
                shorter_candidate,
            );
            lemma_script_ending_in(costs, rest, Edit::Substitute)
        }
    }
}

} // verus!
