//! Choosing among candidates: one scan in the given order, under a threshold
//! that tightens to the distance of each candidate that matches.

use vstd::prelude::*;
use crate::config::FuzzyConfig;
use crate::distance::distance;
use crate::evaluator::{check, evaluate};

verus! {

/// The labels of the candidates, in order, as sequences of characters.
pub open spec fn labels_of<Value: ?Sized>(haystack: Seq<(String, &Value)>) -> Seq<Seq<char>> {
    Seq::new(haystack.len(), |i: int| haystack[i].0@)
}

/// The threshold in force once the first `n` labels have been scanned: the
/// configured one at the start, and after each label that matches, the
/// distance of that label.
pub open spec fn effective_threshold(
    config: FuzzyConfig,
    query: Seq<char>,
    labels: Seq<Seq<char>>,
    n: nat,
) -> nat
    decreases n,
{
    if n == 0 {
        config.threshold as nat
    } else {
        let before = effective_threshold(config, query, labels, (n - 1) as nat);
        match evaluate(config.costs(), before, query, labels[n - 1]) {
            Some(d) => d,
            None => before,
        }
    }
}

/// Whether the scan accepts the label at position `i`: it matches under the
/// threshold in force when the scan reaches it.
pub open spec fn accepted(
    config: FuzzyConfig,
    query: Seq<char>,
    labels: Seq<Seq<char>>,
    i: int,
) -> bool {
    evaluate(
        config.costs(),
        effective_threshold(config, query, labels, i as nat),
        query,
        labels[i],
    ) is Some
}

/// The position recorded once the first `n` labels have been scanned: that
/// of the last label accepted so far.
pub open spec fn recorded(
    config: FuzzyConfig,
    query: Seq<char>,
    labels: Seq<Seq<char>>,
    n: nat,
) -> Option<int>
    decreases n,
{
    if n == 0 {
        None
    } else if accepted(config, query, labels, n - 1) {
        Some(n - 1)
    } else {
        recorded(config, query, labels, (n - 1) as nat)
    }
}

/// The position that a scan of all the labels settles on, if any.
pub open spec fn winner(config: FuzzyConfig, query: Seq<char>, labels: Seq<Seq<char>>) -> Option<
    int,
> {
    recorded(config, query, labels, labels.len())
}

/// Whether a label matches under the configured threshold itself.
pub open spec fn within(config: FuzzyConfig, query: Seq<char>, label: Seq<char>) -> bool {
    evaluate(config.costs(), config.threshold as nat, query, label) is Some
}

/// Whether `k` is, among the first `n` labels, the last of those nearest
/// the query: its label matches under the configured threshold, no label
/// that matches is nearer, and every later one that matches is farther.
pub open spec fn is_last_nearest(
    config: FuzzyConfig,
    query: Seq<char>,
    labels: Seq<Seq<char>>,
    n: nat,
    k: int,
) -> bool {
    let costs = config.costs();
    &&& 0 <= k < n
    &&& within(config, query, labels[k])
    &&& forall|j: int|
        0 <= j < k && #[trigger] within(config, query, labels[j]) ==> distance(
            costs,
            query,
            labels[k],
        ) <= distance(costs, query, labels[j])
    &&& forall|j: int|
        k < j < n && #[trigger] within(config, query, labels[j]) ==> distance(
            costs,
            query,
            labels[k],
        ) < distance(costs, query, labels[j])
}

/// What a scan of the first `n` labels has reached: the last of the
/// nearest labels is recorded and its distance is the threshold in force,
/// or no label matched and the threshold is still the configured one.
pub proof fn lemma_recorded_is_last_nearest(
    config: FuzzyConfig,
    query: Seq<char>,
    labels: Seq<Seq<char>>,
    n: nat,
)
    requires
        n <= labels.len(),
    ensures
        match recorded(config, query, labels, n) {
            Some(k) => is_last_nearest(config, query, labels, n, k) && effective_threshold(
                config,
                query,
                labels,
                n,
            ) == distance(config.costs(), query, labels[k]),
            None => effective_threshold(config, query, labels, n) == config.threshold
                && forall|j: int| 0 <= j < n ==> !#[trigger] within(config, query, labels[j]),
        },
    decreases n,
{
    if n > 0 {
        lemma_recorded_is_last_nearest(config, query, labels, (n - 1) as nat);
    }
}

/// The threshold in force never loosens as the scan goes on.
pub proof fn lemma_threshold_never_loosens(
    config: FuzzyConfig,
    query: Seq<char>,
    labels: Seq<Seq<char>>,
    m: nat,
    n: nat,
)
    requires
        m <= n <= labels.len(),
    ensures
        effective_threshold(config, query, labels, n) <= effective_threshold(
            config,
            query,
            labels,
            m,
        ),
        effective_threshold(config, query, labels, m) <= config.threshold,
    decreases n,
{
    if m < n {
        lemma_threshold_never_loosens(config, query, labels, m, (n - 1) as nat);
    } else if m > 0 {
        lemma_threshold_never_loosens(config, query, labels, (m - 1) as nat, (n - 1) as nat);
    }
}

/// Of two labels that the scan accepts, the later is no farther from the
/// query than the earlier.
pub proof fn lemma_accepted_distances_descend(
    config: FuzzyConfig,
    query: Seq<char>,
    labels: Seq<Seq<char>>,
    i: int,
    j: int,
)
    requires
        0 <= i < j < labels.len(),
        accepted(config, query, labels, i),
        accepted(config, query, labels, j),
    ensures
        distance(config.costs(), query, labels[j]) <= distance(config.costs(), query, labels[i]),
{
    lemma_threshold_never_loosens(config, query, labels, (i + 1) as nat, j as nat);
}

/// The scan settles on the last of the labels nearest the query among those
/// that match under the configured threshold, and on nothing exactly when
/// no label matches.
pub proof fn lemma_winner_is_last_nearest(
    config: FuzzyConfig,
    query: Seq<char>,
    labels: Seq<Seq<char>>,
    k: int,
)
    ensures
        winner(config, query, labels) == Some(k) <==> is_last_nearest(
            config,
            query,
            labels,
            labels.len(),
            k,
        ),
        winner(config, query, labels) is None <==> forall|j: int|
            0 <= j < labels.len() ==> !#[trigger] within(config, query, labels[j]),
{
    lemma_recorded_is_last_nearest(config, query, labels, labels.len());
}

/// Where two labels match at the same distance, the scan does not settle on
/// the earlier one; and where every other label that matches is farther, it
/// settles on the later one.
pub proof fn lemma_tie_goes_to_the_later(
    config: FuzzyConfig,
    query: Seq<char>,
    labels: Seq<Seq<char>>,
    i: int,
    j: int,
)
    requires
        0 <= i < j < labels.len(),
        within(config, query, labels[i]),
        within(config, query, labels[j]),
        distance(config.costs(), query, labels[i]) == distance(config.costs(), query, labels[j]),
    ensures
        winner(config, query, labels) is Some,
        winner(config, query, labels) != Some(i),
        (forall|k: int|
            0 <= k < labels.len() && k != i && k != j && #[trigger] within(
                config,
                query,
                labels[k],
            ) ==> distance(config.costs(), query, labels[k]) > distance(
                config.costs(),
                query,
                labels[j],
            )) ==> winner(config, query, labels) == Some(j),
{
    lemma_recorded_is_last_nearest(config, query, labels, labels.len());
}

/// Finds the value whose label lies nearest `needle`.
///
/// The candidates are scanned once, in order. Each is judged under the
/// threshold in force, which starts at `config.threshold` and drops to the
/// distance of every candidate that matches; the value of the last
/// candidate that matched is returned, or `None` if none did.
///
/// So the value returned belongs to a candidate that matches under
/// `config.threshold` at the least distance of all, and among several at
/// that distance to the one that comes last.
pub fn fuzzy_match<'a, Value: ?Sized>(
    needle: &'a String,
    haystack: &'a Vec<(String, &'a Value)>,
    config: FuzzyConfig,
) -> (res: Option<&'a Value>)
    ensures
        match winner(config, needle@, labels_of(haystack@)) {
            Some(k) => is_last_nearest(
                config,
                needle@,
                labels_of(haystack@),
                haystack@.len(),
                k,
            ) && res == Some(haystack[k].1),
            None => res is None && forall|j: int|
                0 <= j < haystack.len() ==> !within(config, needle@, #[trigger] haystack[j].0@),
        },
{
    let ghost labels = labels_of(haystack@);
    let mut res: Option<&'a Value> = None;
    let mut threshold: usize = config.threshold;
    for i in 0..haystack.len()
        invariant
            labels == labels_of(haystack@),
            threshold == effective_threshold(config, needle@, labels, i as nat),
            match recorded(config, needle@, labels, i as nat) {
                Some(k) => 0 <= k < i && res == Some(haystack[k].1),
                None => res is None,
            },
    {
        let hay = &haystack[i];
        if let Some(hit) = check(needle, &hay.0, config.with_threshold(threshold)) {
            threshold = hit.1;
            res = Some(hay.1);
        }
    }
    proof {
        lemma_recorded_is_last_nearest(config, needle@, labels, labels.len());
        assert forall|j: int| 0 <= j < haystack.len() implies #[trigger] haystack[j].0@
            == labels[j] by {}
    }
    res
}

} // verus!
