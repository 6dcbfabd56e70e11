use vstd::prelude::*;

verus! {

/// The medal that a finished level earns, from best to worst.
#[derive(Clone, Copy, Debug, PartialEq, Eq, Structural)]
pub enum Rank {
    Gold,
    Silver,
    Bronze,
}

impl Rank {
    /// The name under which a rank is shown.
    pub fn as_str(&self) -> (s: &'static str)
        ensures
            s@ == match self {
                Rank::Gold => "Gold"@,
                Rank::Silver => "Silver"@,
                Rank::Bronze => "Bronze"@,
            },
    {
        match self {
            Rank::Gold => "Gold",
            Rank::Silver => "Silver",
            Rank::Bronze => "Bronze",
        }
    }
}

/// How good a rank is: higher is better.
pub open spec fn rank_level(rank: Rank) -> int {
    match rank {
        Rank::Gold => 2,
        Rank::Silver => 1,
        Rank::Bronze => 0,
    }
}

/// The rank of a score. A score is turned back into `100 / score` (the product of the weighted
/// time and command count); at most 7 earns gold, at most 20 silver, anything else bronze. A
/// negative score gives a negative quotient, hence gold; a zero score an infinite one, hence
/// bronze.
pub open spec fn rank_for_score(score: int) -> Rank {
    if score < 0 || 7 * score >= 100 {
        Rank::Gold
    } else if 20 * score >= 100 {
        Rank::Silver
    } else {
        Rank::Bronze
    }
}

/// Assigns the rank that a score earns.
pub fn assign_rank(score: i32) -> (rank: Rank)
    ensures
        rank == rank_for_score(score as int),
{
    if score < 0 || score >= 15 {
        Rank::Gold
    } else if score >= 5 {
        Rank::Silver
    } else {
        Rank::Bronze
    }
}

} // verus!
