//! Trigger probabilities: a qualitative likelihood class gated by
//! boolean conditions over the world state.
//!
//! Chances are fixed-point integers out of [`PROB_SCALE`]; an event
//! fires when a uniform draw below `PROB_SCALE` is strictly less
//! than its chance, so chance 0 never fires and chance `PROB_SCALE`
//! always fires.

use vstd::prelude::*;
use crate::state::{State, StateModel};

verus! {

/// Denominator of all fixed-point trigger chances.
pub const PROB_SCALE: u64 = 10000;

/// A qualitative likelihood class.
#[derive(Clone, Copy, PartialEq, Eq, Structural, Debug)]
pub enum Likelihood {
    Impossible,
    Improbable,
    Rare,
    Unlikely,
    Random,
    Likely,
    Guaranteed,
}

impl Likelihood {
    /// The chance this class stands for, out of [`PROB_SCALE`].
    pub open spec fn p_spec(self) -> u64 {
        match self {
            Likelihood::Impossible => 0,
            Likelihood::Improbable => 5,
            Likelihood::Rare => 50,
            Likelihood::Unlikely => 500,
            Likelihood::Random => 2500,
            Likelihood::Likely => 5000,
            Likelihood::Guaranteed => 10000,
        }
    }

    pub fn p(&self) -> (r: u64)
        ensures
            r == self.p_spec(),
            r <= PROB_SCALE,
    {
        match self {
            Likelihood::Impossible => 0,
            Likelihood::Improbable => 5,
            Likelihood::Rare => 50,
            Likelihood::Unlikely => 500,
            Likelihood::Random => 2500,
            Likelihood::Likely => 5000,
            Likelihood::Guaranteed => 10000,
        }
    }
}

/// How a condition compares a state variable against its operand.
#[derive(Clone, Copy, PartialEq, Eq, Structural, Debug)]
pub enum Comparator {
    Less,
    LessEqual,
    Equal,
    NotEqual,
    GreaterEqual,
    Greater,
}

impl Comparator {
    /// Whether `lhs` compared with `rhs` satisfies this comparator.
    pub open spec fn holds_spec(self, lhs: int, rhs: int) -> bool {
        match self {
            Comparator::Less => lhs < rhs,
            Comparator::LessEqual => lhs <= rhs,
            Comparator::Equal => lhs == rhs,
            Comparator::NotEqual => lhs != rhs,
            Comparator::GreaterEqual => lhs >= rhs,
            Comparator::Greater => lhs > rhs,
        }
    }

    pub fn holds(&self, lhs: i64, rhs: i64) -> (r: bool)
        ensures
            r == self.holds_spec(lhs as int, rhs as int),
    {
        match self {
            Comparator::Less => lhs < rhs,
            Comparator::LessEqual => lhs <= rhs,
            Comparator::Equal => lhs == rhs,
            Comparator::NotEqual => lhs != rhs,
            Comparator::GreaterEqual => lhs >= rhs,
            Comparator::Greater => lhs > rhs,
        }
    }
}

/// A named numeric variable of the world state that conditions and
/// effects address.
#[derive(Clone, Copy, PartialEq, Eq, Structural, Debug)]
pub enum WorldVariable {
    Year,
    Population,
    PopulationGrowth,
    Emissions,
    ExtinctionRate,
    Outlook,
    Temperature,
    WaterStress,
    SeaLevelRise,
    SeaLevelRiseRate,
    Precipitation,
}

/// A named numeric variable of the player's standing.
#[derive(Clone, Copy, PartialEq, Eq, Structural, Debug)]
pub enum PlayerVariable {
    PoliticalCapital,
    ResearchPoints,
    YearsToDeath,
}

impl WorldVariable {
    /// Stable key naming this variable, used in effect fingerprints.
    pub fn key(&self) -> (r: &'static str)
        ensures
            r@ == self.key_spec(),
    {
        match self {
            WorldVariable::Year => "Year",
            WorldVariable::Population => "Population",
            WorldVariable::PopulationGrowth => "PopulationGrowth",
            WorldVariable::Emissions => "Emissions",
            WorldVariable::ExtinctionRate => "ExtinctionRate",
            WorldVariable::Outlook => "Outlook",
            WorldVariable::Temperature => "Temperature",
            WorldVariable::WaterStress => "WaterStress",
            WorldVariable::SeaLevelRise => "SeaLevelRise",
            WorldVariable::SeaLevelRiseRate => "SeaLevelRiseRate",
            WorldVariable::Precipitation => "Precipitation",
        }
    }

    pub open spec fn key_spec(self) -> Seq<char> {
        match self {
            WorldVariable::Year => "Year"@,
            WorldVariable::Population => "Population"@,
            WorldVariable::PopulationGrowth => "PopulationGrowth"@,
            WorldVariable::Emissions => "Emissions"@,
            WorldVariable::ExtinctionRate => "ExtinctionRate"@,
            WorldVariable::Outlook => "Outlook"@,
            WorldVariable::Temperature => "Temperature"@,
            WorldVariable::WaterStress => "WaterStress"@,
            WorldVariable::SeaLevelRise => "SeaLevelRise"@,
            WorldVariable::SeaLevelRiseRate => "SeaLevelRiseRate"@,
            WorldVariable::Precipitation => "Precipitation"@,
        }
    }
}

impl PlayerVariable {
    /// Stable key naming this variable, used in effect fingerprints.
    pub fn key(&self) -> (r: &'static str)
        ensures
            r@ == self.key_spec(),
    {
        match self {
            PlayerVariable::PoliticalCapital => "PoliticalCapital",
            PlayerVariable::ResearchPoints => "ResearchPoints",
            PlayerVariable::YearsToDeath => "YearsToDeath",
        }
    }

    pub open spec fn key_spec(self) -> Seq<char> {
        match self {
            PlayerVariable::PoliticalCapital => "PoliticalCapital"@,
            PlayerVariable::ResearchPoints => "ResearchPoints"@,
            PlayerVariable::YearsToDeath => "YearsToDeath"@,
        }
    }
}

/// A boolean predicate evaluated against a snapshot of the state.
#[derive(Clone, PartialEq, Eq, Structural, Debug)]
pub enum Condition {
    /// Compare a world variable against a fixed operand.
    WorldVariable(WorldVariable, Comparator, i64),
    /// Require a global flag to be set.
    HasFlag(crate::effects::Flag),
}

/// A candidate trigger: a likelihood gated by conditions that must
/// all hold for the likelihood to apply.
#[derive(Clone, PartialEq, Eq, Debug)]
pub struct Probability {
    pub likelihood: Likelihood,
    pub conditions: Vec<Condition>,
}

impl Condition {
    /// Whether this condition holds in `s`.
    pub open spec fn holds_in(self, s: StateModel) -> bool {
        match self {
            Condition::WorldVariable(var, cmp, operand) => cmp.holds_spec(
                s.world_variable(var),
                operand as int,
            ),
            Condition::HasFlag(flag) => s.flags.contains(flag),
        }
    }

    pub fn eval(&self, s: &State) -> (r: bool)
        ensures
            r == self.holds_in(s@),
    {
        match self {
            Condition::WorldVariable(var, cmp, operand) => {
                let lhs = s.world_variable(*var);
                cmp.holds(lhs, *operand)
            },
            Condition::HasFlag(flag) => s.has_flag(*flag),
        }
    }
}

impl Probability {
    /// Whether every condition of this probability holds in `s`.
    pub open spec fn conditions_hold(self, s: StateModel) -> bool {
        forall|i: int| 0 <= i < self.conditions@.len() ==> self.conditions@[i].holds_in(s)
    }

    /// The chance this probability contributes in `s`: its
    /// likelihood when every condition holds, otherwise zero.
    pub open spec fn chance(self, s: StateModel) -> u64 {
        if self.conditions_hold(s) {
            self.likelihood.p_spec()
        } else {
            0
        }
    }

    pub fn eval(&self, s: &State) -> (r: u64)
        ensures
            r == self.chance(s@),
            r <= PROB_SCALE,
    {
        let mut i: usize = 0;
        let n = self.conditions.len();
        while i < n
            invariant
                0 <= i <= n,
                n == self.conditions@.len(),
                forall|j: int| 0 <= j < i ==> self.conditions@[j].holds_in(s@),
            decreases n - i,
        {
            if !self.conditions[i].eval(s) {
                return 0;
            }
            i += 1;
        }
        self.likelihood.p()
    }
}

/// The chance of the first probability in `probs` whose conditions
/// all hold in `s`; zero when none matches.
pub open spec fn first_matching_chance(probs: Seq<Probability>, s: StateModel) -> u64
    decreases probs.len(),
{
    if probs.len() == 0 {
        0
    } else if probs[0].conditions_hold(s) {
        probs[0].likelihood.p_spec()
    } else {
        first_matching_chance(probs.drop_first(), s)
    }
}

/// Evaluate a list of candidate probabilities: the first whose
/// conditions all hold decides the chance.
pub fn eval_probabilities(probs: &Vec<Probability>, s: &State) -> (r: u64)
    ensures
        r == first_matching_chance(probs@, s@),
        r <= PROB_SCALE,
{
    let n = probs.len();
    let mut i: usize = 0;
    proof {
        assert(probs@.skip(0) =~= probs@);
    }
    while i < n
        invariant
            0 <= i <= n,
            n == probs@.len(),
            first_matching_chance(probs@, s@) == first_matching_chance(
                probs@.skip(i as int),
                s@,
            ),
            forall|j: int| 0 <= j < i ==> !probs@[j].conditions_hold(s@),
        decreases n - i,
    {
        let ghost rest = probs@.skip(i as int);
        proof {
            assert(rest[0] == probs@[i as int]);
            assert(rest.drop_first() =~= probs@.skip(i as int + 1));
        }
        let mut all_hold = true;
        let m = probs[i].conditions.len();
        let mut j: usize = 0;
        while j < m
            invariant
                0 <= j <= m,
                i < n,
                n == probs@.len(),
                m == probs@[i as int].conditions@.len(),
                all_hold == forall|k: int|
                    0 <= k < j ==> probs@[i as int].conditions@[k].holds_in(s@),
            decreases m - j,
        {
            if !probs[i].conditions[j].eval(s) {
                all_hold = false;
            }
            j += 1;
        }
        if all_hold {
            assert(probs@[i as int].conditions_hold(s@));
            return probs[i].likelihood.p();
        }
        assert(!probs@[i as int].conditions_hold(s@));
        i += 1;
    }
    assert(probs@.skip(n as int) =~= Seq::<Probability>::empty());
    0
}

} // verus!
