//! Resolving each stage's distribution, once, before a run.

use vstd::prelude::*;
use vstd::string::StringExecFns;
use crate::errors::{Error, ErrorView};
use super::models::StageConfig;

verus! {

/// A stage's service-time distribution, resolved from its family name once
/// and with its parameters checked. `Unknown` stands for a family that is not
/// known: such a stage takes no time.
#[derive(Debug, Clone, Copy, PartialEq, Eq)]
pub enum PreparedDist {
    Normal { mean: i64, variance: i64 },
    Exponential { mean: i64 },
    Uniform { min: i64, max: i64 },
    Unknown,
}

/// Why a stage's parameters are refused, if they are: a normal distribution
/// with a negative variance, an exponential one whose mean is not positive,
/// a uniform one whose minimum is not below its maximum.
pub open spec fn stage_rejection(stage: StageConfig) -> Option<ErrorView> {
    if stage.dist_type@ == "normal"@ && stage.p2 < 0 {
        Some(ErrorView::Other("Varianza negativa en "@ + stage.name@))
    } else if stage.dist_type@ == "exponential"@ && stage.p1 <= 0 {
        Some(ErrorView::Other("Beta <= 0 en "@ + stage.name@))
    } else if stage.dist_type@ == "uniform"@ && stage.p1 >= stage.p2 {
        Some(ErrorView::Other("Min >= Max en "@ + stage.name@))
    } else {
        None
    }
}

/// The distribution that a stage with accepted parameters resolves to.
pub open spec fn prepared(stage: StageConfig) -> PreparedDist {
    if stage.dist_type@ == "normal"@ {
        PreparedDist::Normal { mean: stage.p1, variance: stage.p2 }
    } else if stage.dist_type@ == "exponential"@ {
        PreparedDist::Exponential { mean: stage.p1 }
    } else if stage.dist_type@ == "uniform"@ {
        PreparedDist::Uniform { min: stage.p1, max: stage.p2 }
    } else {
        PreparedDist::Unknown
    }
}

/// The first stage among the first `upto` whose parameters are refused, if
/// there is one.
pub open spec fn first_rejected(stages: Seq<StageConfig>, upto: int) -> Option<int>
    decreases upto,
{
    if upto <= 0 {
        None
    } else {
        match first_rejected(stages, upto - 1) {
            Some(i) => Some(i),
            None => if stage_rejection(stages[upto - 1]) is Some {
                Some(upto - 1)
            } else {
                None
            },
        }
    }
}

/// Resolves one stage's family and checks its parameters.
pub fn prepare_stage(stage: &StageConfig) -> (res: Result<PreparedDist, Error>)
    ensures
        match res {
            Ok(dist) => stage_rejection(*stage) is None && dist == prepared(*stage),
            Err(e) => stage_rejection(*stage) == Some(e@),
        },
{
    proof {
        reveal_strlit("normal");
        reveal_strlit("exponential");
        reveal_strlit("uniform");
        assert("normal"@.len() == 6 && "exponential"@.len() == 11 && "uniform"@.len() == 7);
    }
    if stage.dist_type == String::from_str("normal") {
        if stage.p2 < 0 {
            return Err(Error::Other(String::from_str("Varianza negativa en ").concat(stage.name.as_str())));
        }
        Ok(PreparedDist::Normal { mean: stage.p1, variance: stage.p2 })
    } else if stage.dist_type == String::from_str("exponential") {
        if stage.p1 <= 0 {
            return Err(Error::Other(String::from_str("Beta <= 0 en ").concat(stage.name.as_str())));
        }
        Ok(PreparedDist::Exponential { mean: stage.p1 })
    } else if stage.dist_type == String::from_str("uniform") {
        if stage.p1 >= stage.p2 {
            return Err(Error::Other(String::from_str("Min >= Max en ").concat(stage.name.as_str())));
        }
        Ok(PreparedDist::Uniform { min: stage.p1, max: stage.p2 })
    } else {
        Ok(PreparedDist::Unknown)
    }
}

/// Resolves every stage, in order, before anything is simulated; the first
/// stage whose parameters are refused ends it.
pub fn prepare_stages(stages: &Vec<StageConfig>) -> (res: Result<Vec<PreparedDist>, Error>)
    ensures
        match res {
            Ok(dists) => {
                &&& first_rejected(stages@, stages.len() as int) is None
                &&& dists.len() == stages.len()
                &&& forall|i: int| 0 <= i < stages.len() ==> dists[i] == prepared(#[trigger] stages[i])
            },
            Err(e) => {
                &&& first_rejected(stages@, stages.len() as int) matches Some(i)
                &&& stage_rejection(stages[i]) == Some(e@)
            },
        },
{
    let mut dists: Vec<PreparedDist> = Vec::new();
    let mut i: usize = 0;
    while i < stages.len()
        invariant
            i <= stages.len(),
            dists.len() == i,
            first_rejected(stages@, i as int) is None,
            forall|j: int| 0 <= j < i ==> dists[j] == prepared(#[trigger] stages[j]),
        decreases stages.len() - i,
    {
        match prepare_stage(&stages[i]) {
            Ok(dist) => {
                dists.push(dist);
            },
            Err(e) => {
                proof {
                    lemma_first_rejected_stays(stages@, i as int + 1, stages.len() as int);
                }
                return Err(e);
            },
        }
        i = i + 1;
    }
    Ok(dists)
}

/// Once a refused stage has been found among the first `upto`, it stays the
/// first however many more stages are looked at.
pub proof fn lemma_first_rejected_stays(stages: Seq<StageConfig>, upto: int, more: int)
    requires
        first_rejected(stages, upto) is Some,
        upto <= more,
    ensures
        first_rejected(stages, more) == first_rejected(stages, upto),
    decreases more - upto,
{
    if upto < more {
        lemma_first_rejected_stays(stages, upto, more - 1);
    }
}

/// What `first_rejected` finds is a refused stage with none refused before
/// it; it finds none only where every stage is accepted.
pub proof fn lemma_first_rejected_is_first(stages: Seq<StageConfig>, upto: int)
    ensures
        match first_rejected(stages, upto) {
            Some(i) => {
                &&& 0 <= i < upto
                &&& stage_rejection(stages[i]) is Some
                &&& forall|j: int| 0 <= j < i ==> stage_rejection(#[trigger] stages[j]) is None
            },
            None => forall|j: int| 0 <= j < upto ==> stage_rejection(#[trigger] stages[j]) is None,
        },
    decreases upto,
{
    if upto > 0 {
        lemma_first_rejected_is_first(stages, upto - 1);
    }
}

} // verus!
