//! The configuration of a search, and the weights it stands for.

use vstd::prelude::*;

verus! {

/// The weight of each edit operation, as natural numbers.
///
/// An insertion adds a character of the candidate, a deletion removes a
/// character of the query, a substitution replaces one by the other.
pub struct Costs {
    pub insertion: nat,
    pub deletion: nat,
    pub substitution: nat,
}

impl Costs {
    /// The weights seen from the other string: what was an insertion is a
    /// deletion there, and the other way round.
    pub open spec fn transposed(self) -> Costs {
        Costs {
            insertion: self.deletion,
            deletion: self.insertion,
            substitution: self.substitution,
        }
    }
}

/// How far a candidate may lie from the query, and what each edit weighs.
///
/// A weight left at `None` takes its default: 1 for an insertion, 1 for a
/// deletion, 2 for a substitution.
#[derive(Clone, Copy)]
pub struct FuzzyConfig {
    pub threshold: usize,
    pub insertion_penalty: Option<usize>,
    pub deletion_penalty: Option<usize>,
    pub substitution_penalty: Option<usize>,
}

impl FuzzyConfig {
    /// The weights in force, defaults filled in.
    pub open spec fn costs(self) -> Costs {
        Costs {
            insertion: match self.insertion_penalty {
                Some(w) => w as nat,
                None => 1,
            },
            deletion: match self.deletion_penalty {
                Some(w) => w as nat,
                None => 1,
            },
            substitution: match self.substitution_penalty {
                Some(w) => w as nat,
                None => 2,
            },
        }
    }

    /// This configuration with the weights of insertion and deletion
    /// exchanged.
    pub open spec fn transposed(self) -> FuzzyConfig {
        FuzzyConfig {
            insertion_penalty: self.deletion_penalty,
            deletion_penalty: self.insertion_penalty,
            ..self
        }
    }

    /// The weight of inserting one character.
    pub fn insertion_cost(&self) -> (w: usize)
        ensures
            w == self.costs().insertion,
    {
        self.insertion_penalty.unwrap_or(1)
    }

    /// The weight of deleting one character.
    pub fn deletion_cost(&self) -> (w: usize)
        ensures
            w == self.costs().deletion,
    {
        self.deletion_penalty.unwrap_or(1)
    }

    /// The weight of substituting one character for another.
    pub fn substitution_cost(&self) -> (w: usize)
        ensures
            w == self.costs().substitution,
    {
        self.substitution_penalty.unwrap_or(2)
    }

    /// This configuration with its threshold replaced.
    pub fn with_threshold(&self, threshold: usize) -> (config: FuzzyConfig)
        ensures
            config == (FuzzyConfig { threshold, ..*self }),
    {
        FuzzyConfig { threshold, ..*self }
    }
}

} // verus!
