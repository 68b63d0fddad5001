//! The project lifecycle: cost computation (fixed or dynamic),
//! incremental build progress, leveling via ordered upgrades, and
//! conditioned outcome selection.

use vstd::prelude::*;
use crate::effects::Effect;
use crate::kinds::{Output, OutputLevels, OutputMap};
use crate::probability::{Likelihood, Probability, PROB_SCALE};
use crate::rng::draw_chance;
use crate::state::{div_toward_zero, lemma_mul_le, NpcModel, State, NPC, NPCRelation};

verus! {

/// Discrete status of a project.
#[derive(Clone, Copy, PartialEq, Eq, Structural, Debug)]
pub enum Status {
    Inactive,
    Building,
    Active,
    Halted,
    Stalled,
    Finished,
}

/// Thematic group of a project.
#[derive(Clone, Copy, PartialEq, Eq, Structural, Debug)]
pub enum Group {
    Other,
    Space,
    Nuclear,
    Restoration,
    Agriculture,
    Food,
    Geoengineering,
    Population,
    Control,
    Protection,
    Electrification,
    Behavior,
    Limits,
    Energy,
    Materials,
    Buildings,
    Cities,
}

/// Kind of player-directed progress a project stands for.
#[derive(Clone, Copy, PartialEq, Eq, Structural, Debug)]
pub enum Type {
    Policy,
    Research,
    Initiative,
}

/// Which world driver a dynamic cost follows.
#[derive(Clone, Copy, PartialEq, Eq, Structural, Debug)]
pub enum Factor {
    /// Years elapsed since the cost epoch.
    Time,
    /// The current regional income level.
    Income,
    /// Current demand for one output.
    Output(Output),
}

/// A [`Factor`] with its payload stripped.
#[derive(Clone, Copy, PartialEq, Eq, Structural, Debug)]
pub enum FactorKind {
    Time,
    Income,
    Output,
}

impl From<FactorKind> for Factor {
    fn from(kind: FactorKind) -> (r: Factor) {
        match kind {
            FactorKind::Time => Factor::Time,
            FactorKind::Income => Factor::Income,
            FactorKind::Output => Factor::Output(Output::Fuel),
        }
    }
}

impl vstd::std_specs::convert::FromSpecImpl<FactorKind> for Factor {
    open spec fn obeys_from_spec() -> bool {
        true
    }

    open spec fn from_spec(kind: FactorKind) -> Factor {
        match kind {
            FactorKind::Time => Factor::Time,
            FactorKind::Income => Factor::Income,
            FactorKind::Output => Factor::Output(Output::Fuel),
        }
    }
}

/// A project's cost model: a fixed integer, or a dynamic value
/// following a factor, scaled by a multiplier in hundredths.
#[derive(Clone, Copy, PartialEq, Eq, Structural, Debug)]
pub enum Cost {
    Fixed(usize),
    /// Multiplier in hundredths, and the driving factor.
    Dynamic(i64, Factor),
}

impl Default for Cost {
    fn default() -> (r: Self)
        ensures
            r == Cost::Fixed(0usize),
    {
        Cost::Fixed(0)
    }
}

/// A branching result of a completed project: effects gated by a
/// probability.
#[derive(Clone, PartialEq, Eq, Debug)]
pub struct Outcome {
    pub effects: Vec<Effect>,
    pub probability: Probability,
}

/// An ordered upgrade of a project, unlocked by leveling up.
#[derive(Clone, PartialEq, Eq, Debug)]
pub struct Upgrade {
    pub cost: usize,
    pub effects: Vec<Effect>,
    pub active: bool,
}

/// Denominator of the build-progress fraction.
pub const PROGRESS_SCALE: u64 = 1000000;

/// First year of the dynamic-cost time factor.
pub const COST_EPOCH_YEAR: i64 = 1980;

/// Ghost model of a [`Project`].
#[verifier::ext_equal]
pub ghost struct ProjectModel {
    pub id: Seq<char>,
    pub name: Seq<char>,
    pub kind: Type,
    pub group: Group,
    pub ongoing: bool,
    pub gradual: bool,
    pub locked: bool,
    pub cost: int,
    pub base_cost: Cost,
    pub cost_modifier: int,
    pub progress: int,
    pub points: int,
    pub estimate: int,
    pub status: Status,
    pub level: int,
    pub completed_at: int,
    pub required_majority: int,
    pub effects: Seq<Effect>,
    pub outcomes: Seq<Outcome>,
    pub upgrades: Seq<Upgrade>,
    pub active_outcome: Option<int>,
    pub supporters: Seq<int>,
    pub opposers: Seq<int>,
}

/// An identified unit of player-directed progress.
///
/// `cost` is political capital for policies, base years to
/// completion for research and initiatives. `progress` is a
/// fraction of [`PROGRESS_SCALE`]; `cost_modifier` and
/// `required_majority` are percentages in hundredths of their
/// natural unit (100 stands for a multiplier of one, 50 for a
/// required majority of one half).
#[derive(Clone, PartialEq, Eq, Debug)]
pub struct Project {
    pub id: String,
    pub name: String,
    pub kind: Type,
    pub group: Group,
    pub ongoing: bool,
    pub gradual: bool,
    pub locked: bool,
    pub cost: usize,
    pub base_cost: Cost,
    pub cost_modifier: i64,
    pub progress: u64,
    pub points: usize,
    pub estimate: usize,
    pub status: Status,
    pub level: usize,
    pub completed_at: usize,
    pub required_majority: i64,
    pub effects: Vec<Effect>,
    pub outcomes: Vec<Outcome>,
    pub upgrades: Vec<Upgrade>,
    pub active_outcome: Option<usize>,
    pub supporters: Vec<usize>,
    pub opposers: Vec<usize>,
}

impl View for Project {
    type V = ProjectModel;

    open spec fn view(&self) -> ProjectModel {
        ProjectModel {
            id: self.id@,
            name: self.name@,
            kind: self.kind,
            group: self.group,
            ongoing: self.ongoing,
            gradual: self.gradual,
            locked: self.locked,
            cost: self.cost as int,
            base_cost: self.base_cost,
            cost_modifier: self.cost_modifier as int,
            progress: self.progress as int,
            points: self.points as int,
            estimate: self.estimate as int,
            status: self.status,
            level: self.level as int,
            completed_at: self.completed_at as int,
            required_majority: self.required_majority as int,
            effects: self.effects@,
            outcomes: self.outcomes@,
            upgrades: self.upgrades@,
            active_outcome: match self.active_outcome {
                Some(i) => Some(i as int),
                None => None,
            },
            supporters: self.supporters@.map_values(|i: usize| i as int),
            opposers: self.opposers@.map_values(|i: usize| i as int),
        }
    }
}

impl Project {
    /// Whether the project is active (online and ongoing).
    pub fn is_active(&self) -> (r: bool)
        ensures
            r == (self@.status == Status::Active),
    {
        self.status == Status::Active
    }

    /// Whether the project has finished building.
    pub fn is_finished(&self) -> (r: bool)
        ensures
            r == (self@.status == Status::Finished),
    {
        self.status == Status::Finished
    }

    /// Whether the project is online: active or finished.
    pub fn is_online(&self) -> (r: bool)
        ensures
            r == (self@.status == Status::Active || self@.status == Status::Finished),
    {
        self.is_active() || self.is_finished()
    }

    /// Whether the project is being built.
    pub fn is_building(&self) -> (r: bool)
        ensures
            r == (self@.status == Status::Building),
    {
        self.status == Status::Building
    }

    /// Whether the project can be halted: online, and a policy or
    /// an ongoing project.
    pub fn is_haltable(&self) -> (r: bool)
        ensures
            r == ((self@.status == Status::Active || self@.status == Status::Finished) && (
            self@.kind == Type::Policy || self@.ongoing)),
    {
        self.is_online() && (self.kind == Type::Policy || self.ongoing)
    }

    /// Whether the project can be downgraded: a policy above level
    /// zero.
    pub fn can_downgrade(&self) -> (r: bool)
        ensures
            r == (self@.kind == Type::Policy && self@.level > 0),
    {
        self.kind == Type::Policy && self.level > 0
    }

    /// Move up one upgrade level, if one is left.
    pub fn upgrade(&mut self) -> (r: bool)
        ensures
            old(self)@.level < old(self)@.upgrades.len() ==> r && final(self)@ == (ProjectModel {
                level: old(self)@.level + 1,
                ..old(self)@
            }),
            old(self)@.level >= old(self)@.upgrades.len() ==> !r && *final(self) == *old(self),
    {
        if self.level < self.upgrades.len() {
            self.level += 1;
            true
        } else {
            false
        }
    }

    /// Move down one upgrade level, if above zero.
    pub fn downgrade(&mut self) -> (r: bool)
        ensures
            old(self)@.level > 0 ==> r && final(self)@ == (ProjectModel {
                level: old(self)@.level - 1,
                ..old(self)@
            }),
            old(self)@.level == 0 ==> !r && *final(self) == *old(self),
    {
        if self.level > 0 {
            self.level -= 1;
            true
        } else {
            false
        }
    }

    /// The upgrade the next level would bring, if any.
    pub fn next_upgrade(&self) -> (r: Option<&Upgrade>)
        ensures
            self@.level < self@.upgrades.len() ==> (r matches Some(u) && *u
                == self.upgrades@[self@.level]),
            self@.level >= self@.upgrades.len() ==> r is None,
    {
        if self.level < self.upgrades.len() {
            Some(&self.upgrades[self.level])
        } else {
            None
        }
    }

    /// The upgrade the current level brought, if any.
    pub fn prev_upgrade(&self) -> (r: Option<&Upgrade>)
        ensures
            0 < self@.level && self@.level <= self@.upgrades.len() ==> (r matches Some(u) && *u
                == self.upgrades@[self@.level - 1]),
            self@.level == 0 || self@.level > self@.upgrades.len() ==> r is None,
    {
        if self.level > 0 && self.level <= self.upgrades.len() {
            Some(&self.upgrades[self.level - 1])
        } else {
            None
        }
    }

    /// The effect set at the current level: the base effects at
    /// level zero, else the level's upgrade's effects. Upgrades
    /// replace the base set, they do not stack with it.
    pub fn active_effects(&self) -> (r: &Vec<Effect>)
        requires
            self@.level <= self@.upgrades.len(),
        ensures
            self@.level == 0 ==> r@ == self@.effects,
            self@.level > 0 ==> r@ == self@.upgrades[self@.level - 1].effects@,
    {
        if self.level == 0 {
            &self.effects
        } else {
            &self.upgrades[self.level - 1].effects
        }
    }
}

/// The eleventh power, written out over squarings.
pub open spec fn pow11(t: int) -> int {
    let t2 = t * t;
    let t4 = t2 * t2;
    let t8 = t4 * t4;
    t8 * t2 * t
}

/// The fourth power.
pub open spec fn pow4(p: int) -> int {
    p * p * p * p
}

/// Whether `t` is the integer eleventh root of `x`.
pub open spec fn is_root11(t: int, x: int) -> bool {
    0 <= t && pow11(t) <= x && x < pow11(t + 1)
}

/// The integer eleventh root of `x`.
pub open spec fn root11(x: int) -> int {
    choose|t: int| is_root11(t, x)
}

/// Ordered nonnegative factors multiply to ordered products.
proof fn lemma_mul_pairs(a1: int, b1: int, a2: int, b2: int)
    by (nonlinear_arith)
    requires
        0 <= a1 <= b1,
        0 <= a2 <= b2,
    ensures
        a1 * a2 <= b1 * b2,
{
}

/// The eleventh power keeps order on nonnegative arguments.
proof fn lemma_pow11_monotone(a: int, b: int)
    requires
        0 <= a <= b,
    ensures
        pow11(a) <= pow11(b),
{
    lemma_mul_pairs(a, b, a, b);
    lemma_mul_pairs(a * a, b * b, a * a, b * b);
    lemma_mul_pairs((a * a) * (a * a), (b * b) * (b * b), (a * a) * (a * a), (b * b) * (b * b));
    assert(0 <= a * a) by (nonlinear_arith);
    assert(0 <= (a * a) * (a * a)) by (nonlinear_arith)
        requires
            0 <= a * a;
    assert(0 <= ((a * a) * (a * a)) * ((a * a) * (a * a))) by (nonlinear_arith)
        requires
            0 <= (a * a) * (a * a);
    lemma_mul_pairs(
        ((a * a) * (a * a)) * ((a * a) * (a * a)),
        ((b * b) * (b * b)) * ((b * b) * (b * b)),
        a * a,
        b * b,
    );
    assert(0 <= (((a * a) * (a * a)) * ((a * a) * (a * a))) * (a * a)) by (nonlinear_arith)
        requires
            0 <= ((a * a) * (a * a)) * ((a * a) * (a * a)),
            0 <= a * a;
    lemma_mul_pairs(
        (((a * a) * (a * a)) * ((a * a) * (a * a))) * (a * a),
        (((b * b) * (b * b)) * ((b * b) * (b * b))) * (b * b),
        a,
        b,
    );
}

/// The fourth power keeps order on nonnegative arguments.
proof fn lemma_pow4_monotone(a: int, b: int)
    requires
        0 <= a <= b,
    ensures
        pow4(a) <= pow4(b),
{
    lemma_mul_pairs(a, b, a, b);
    assert(0 <= a * a) by (nonlinear_arith);
    lemma_mul_pairs(a * a, b * b, a, b);
    assert(0 <= (a * a) * a) by (nonlinear_arith)
        requires
            0 <= a * a,
            0 <= a;
    lemma_mul_pairs((a * a) * a, (b * b) * b, a, b);
    assert(pow4(a) == ((a * a) * a) * a) by (nonlinear_arith);
    assert(pow4(b) == ((b * b) * b) * b) by (nonlinear_arith);
}

/// Every nonnegative integer has an eleventh root.
proof fn lemma_root11_exists(x: int)
    requires
        x >= 0,
    ensures
        is_root11(root11(x), x),
    decreases x,
{
    if x == 0 {
        assert(pow11(0) == 0) by (nonlinear_arith);
        assert(pow11(1) == 1) by (nonlinear_arith);
        assert(is_root11(0, 0));
    } else {
        lemma_root11_exists(x - 1);
        let t = root11(x - 1);
        if x < pow11(t + 1) {
            assert(is_root11(t, x));
        } else {
            assert(pow11(t + 1) <= x);
            assert(x - 1 < pow11(t + 1));
            assert(x == pow11(t + 1));
            assert(pow11(t + 2) > pow11(t + 1)) by {
                lemma_pow11_monotone(t + 1, t + 2);
                assert(pow11(t + 1) < pow11(t + 2) || pow11(t + 1) == pow11(t + 2));
                if pow11(t + 1) == pow11(t + 2) {
                    assert(pow11(t + 2) >= (t + 2)) by (nonlinear_arith)
                        requires
                            t + 2 >= 1;
                    assert(pow11(t + 1) <= x);
                    assert(false) by (nonlinear_arith)
                        requires
                            pow11(t + 1) == pow11(t + 2),
                            t >= 0;
                }
            }
            assert(is_root11(t + 1, x));
        }
    }
    assert(exists|t: int| is_root11(t, x));
}

/// The eleventh root is unique.
proof fn lemma_root11_unique(t1: int, t2: int, x: int)
    requires
        is_root11(t1, x),
        is_root11(t2, x),
    ensures
        t1 == t2,
{
    if t1 < t2 {
        lemma_pow11_monotone(t1 + 1, t2);
        assert(false);
    }
    if t2 < t1 {
        lemma_pow11_monotone(t2 + 1, t1);
        assert(false);
    }
}

/// Fixed-point scale of the eleventh root used by the years
/// formula: roots carry one extra decimal digit.
pub open spec fn root_scale_11th() -> int {
    0x174876E800
}

/// How many years a project takes to complete for the given
/// amount of points: the cost divided by the points raised to
/// `4/11`, rounded to the nearest year, and at least one. The
/// fractional power is computed through a scaled integer eleventh
/// root of the fourth power.
pub open spec fn years_spec(points: int, cost: int) -> int {
    let t = root11(pow4(points) * root_scale_11th());
    let y = (2 * cost * 10 + t) / (2 * t);
    if y < 1 {
        1
    } else {
        y
    }
}

/// Compute the eleventh power of a small argument.
fn pow11_exec(t: u64) -> (r: u128)
    requires
        t <= 2048,
    ensures
        r as int == pow11(t as int),
{
    proof {
        lemma_mul_pairs(t as int, 2048, t as int, 2048);
    }
    let t2: u128 = (t as u128) * (t as u128);
    proof {
        lemma_mul_pairs(t2 as int, 4194304, t2 as int, 4194304);
    }
    let t4: u128 = t2 * t2;
    proof {
        lemma_mul_pairs(t4 as int, 17592186044416, t4 as int, 17592186044416);
    }
    let t8: u128 = t4 * t4;
    proof {
        lemma_mul_pairs(t8 as int, 309485009821345068724781056int, t2 as int, 4194304);
    }
    let t10: u128 = t8 * t2;
    proof {
        lemma_mul_pairs(t10 as int, 1298074214633706907132624082305024int, t as int, 2048);
    }
    let r: u128 = t10 * (t as u128);
    r
}

/// How many years a project takes to complete for the given
/// amount of points; at least one.
pub fn years_for_points(points: usize, cost: usize) -> (r: u64)
    requires
        1 <= points <= 1000000,
        cost <= 1000000000000,
    ensures
        r as int == years_spec(points as int, cost as int),
        r >= 1,
        r as int <= cost + 100,
{
    let p = points as u128;
    proof {
        assert(p * p <= 1000000000000u128 && p * p >= 1) by (nonlinear_arith)
            requires
                1 <= p <= 1000000u128;
        assert((p * p) * (p * p) <= 0xD3C2_1BCE_CCED_A100_0000u128 && (p * p) * (p * p) >= 1)
            by (nonlinear_arith)
            requires
                1 <= p * p <= 1000000000000u128;
        assert(((p * p) * (p * p)) as int == pow4(p as int)) by (nonlinear_arith);
    }
    let p4: u128 = (p * p) * (p * p);
    let x: u128 = p4 * 100000000000;
    let ghost xi = x as int;
    proof {
        assert(x as int == pow4(points as int) * root_scale_11th());
        lemma_root11_exists(xi);
        assert(pow11(10) == 100000000000) by (nonlinear_arith);
        assert(pow11(2000) == 2048000000000000000000000000000000000int) by (nonlinear_arith);
        lemma_pow11_monotone(2000, 2001);
        assert(x >= 100000000000) by {
            assert(p4 >= 1);
            assert(p4 * 100000000000 >= 100000000000) by (nonlinear_arith)
                requires
                    p4 >= 1;
        }
        assert(xi <= 100000000000000000000000000000000000int) by (nonlinear_arith)
            requires
                0 <= p4 as int <= 1000000000000000000000000int,
                xi == (p4 as int) * 100000000000;
        assert(xi < pow11(2001));
    }
    let mut lo: u64 = 10;
    let mut hi: u64 = 2001;
    while lo + 1 < hi
        invariant
            10 <= lo < hi <= 2001,
            pow11(lo as int) <= xi,
            xi < pow11(hi as int),
            xi == x as int,
        decreases hi - lo,
    {
        let mid = lo + (hi - lo) / 2;
        let pw = pow11_exec(mid);
        if pw <= x {
            lo = mid;
        } else {
            hi = mid;
        }
    }
    proof {
        assert(is_root11(lo as int, xi));
        lemma_root11_exists(xi);
        lemma_root11_unique(lo as int, root11(xi), xi);
        assert(lo as int == root11(xi));
    }
    let num: u128 = 2 * (cost as u128) * 10 + (lo as u128);
    let den: u128 = 2 * (lo as u128);
    let y: u128 = num / den;
    proof {
        assert(num as int == 2 * (cost as int) * 10 + lo);
        vstd::arithmetic::div_mod::lemma_div_is_ordered_by_denominator(
            num as int,
            20,
            den as int,
        );
        vstd::arithmetic::div_mod::lemma_div_is_ordered(
            num as int,
            20 * ((cost as int) + 100),
            20,
        );
        vstd::arithmetic::div_mod::lemma_div_by_multiple((cost as int) + 100, 20);
    }
    if y < 1 {
        1
    } else {
        y as u64
    }
}

/// The years formula is monotonically non-increasing in the
/// allocated points for a fixed cost, and always at least one
/// year: more effort never slows a project down.
pub proof fn lemma_years_monotonic(p1: int, p2: int, cost: int)
    requires
        1 <= p1 <= p2,
        0 <= cost,
    ensures
        years_spec(p2, cost) <= years_spec(p1, cost),
        years_spec(p1, cost) >= 1,
{
    let x1 = pow4(p1) * root_scale_11th();
    let x2 = pow4(p2) * root_scale_11th();
    lemma_pow4_monotone(p1, p2);
    lemma_mul_le(root_scale_11th(), pow4(p1), pow4(p2));
    assert(pow4(p1) * root_scale_11th() == root_scale_11th() * pow4(p1)) by (nonlinear_arith);
    assert(pow4(p2) * root_scale_11th() == root_scale_11th() * pow4(p2)) by (nonlinear_arith);
    assert(pow4(p1) >= 1) by (nonlinear_arith)
        requires
            p1 >= 1;
    assert(x1 >= root_scale_11th()) by (nonlinear_arith)
        requires
            x1 == pow4(p1) * root_scale_11th(),
            pow4(p1) >= 1;
    lemma_root11_exists(x1);
    lemma_root11_exists(x2);
    let t1 = root11(x1);
    let t2 = root11(x2);
    assert(t1 <= t2) by {
        if t2 < t1 {
            lemma_pow11_monotone(t2 + 1, t1);
            assert(false);
        }
    }
    assert(t1 >= 1) by {
        if t1 < 1 {
            lemma_pow11_monotone(t1 + 1, 1);
            assert(pow11(1) == 1) by (nonlinear_arith);
            assert(x1 < 1);
            assert(false);
        }
    }
    let y2 = (2 * cost * 10 + t2) / (2 * t2);
    let y1 = (2 * cost * 10 + t1) / (2 * t1);
    assert(y2 >= 0) by {
        vstd::arithmetic::div_mod::lemma_div_pos_is_pos(2 * cost * 10 + t2, 2 * t2);
    }
    if y2 >= 1 {
        vstd::arithmetic::div_mod::lemma_fundamental_div_mod(2 * cost * 10 + t2, 2 * t2);
        let rem = (2 * cost * 10 + t2) % (2 * t2);
        assert(2 * cost * 10 + t2 == (2 * t2) * y2 + rem);
        assert(rem >= 0) by {
            vstd::arithmetic::div_mod::lemma_remainder_lower(2 * cost * 10 + t2, 2 * t2);
        }
        assert((2 * y2 - 1) * t2 <= 2 * cost * 10) by (nonlinear_arith)
            requires
                2 * cost * 10 + t2 == (2 * t2) * y2 + rem,
                rem >= 0,
                t2 >= 1,
                y2 >= 1;
        assert((2 * y2 - 1) * t1 <= (2 * y2 - 1) * t2) by (nonlinear_arith)
            requires
                1 <= t1 <= t2,
                y2 >= 1;
        assert((2 * t1) * y2 <= 2 * cost * 10 + t1) by (nonlinear_arith)
            requires
                (2 * y2 - 1) * t1 <= 2 * cost * 10,
                t1 >= 1;
        assert(y1 >= y2) by {
            vstd::arithmetic::div_mod::lemma_div_is_ordered(
                (2 * t1) * y2,
                2 * cost * 10 + t1,
                2 * t1,
            );
            vstd::arithmetic::div_mod::lemma_div_by_multiple(y2, 2 * t1);
            assert((2 * t1) * y2 == y2 * (2 * t1)) by (nonlinear_arith);
        }
    }
}

/// How much of the progress fraction one build call adds: the
/// fraction's scale split over the years the project takes, and at
/// least one unit, so building always terminates.
pub open spec fn build_increment(points: int, cost: int) -> int {
    let raw = PROGRESS_SCALE as int / years_spec(points, cost);
    if raw < 1 {
        1
    } else {
        raw
    }
}

/// Integer division rounding to the nearest, halves away from
/// zero; the divisor is positive.
pub open spec fn round_div(a: int, b: int) -> int {
    if a >= 0 {
        (a + b / 2) / b
    } else {
        -(((-a) + b / 2) / b)
    }
}

/// Bounds on the cost drivers and modifiers under which the
/// fixed-point cost computation is defined.
pub open spec fn cost_inputs_ok(
    p: ProjectModel,
    year: int,
    income_level: int,
    demand: OutputLevels,
    modifier: int,
) -> bool {
    &&& -1000000 <= p.cost_modifier <= 1000000
    &&& -1000000 <= modifier <= 1000000
    &&& -1000 <= income_level <= 1000
    &&& (forall|o: Output| -1000000000000 <= #[trigger] demand.index(o) <= 1000000000000)
    &&& match p.base_cost {
        Cost::Dynamic(m, f) => -1000000 <= m <= 1000000 && (f == Factor::Time
            ==> COST_EPOCH_YEAR as int <= year <= 1000000000),
        _ => true,
    }
}

/// The recomputed cost of a project: the base cost resolved
/// against the world drivers, scaled by the project's own cost
/// modifier and the supplied global modifier (both in hundredths),
/// floored at zero.
pub open spec fn update_cost_spec(
    p: ProjectModel,
    year: int,
    income_level: int,
    demand: OutputLevels,
    modifier: int,
) -> int {
    let base = match p.base_cost {
        Cost::Fixed(c) => c as int,
        Cost::Dynamic(m, factor) => {
            let v = match factor {
                Factor::Time => year - COST_EPOCH_YEAR as int,
                Factor::Income => 1 + income_level,
                Factor::Output(o) => demand.index(o),
            };
            let raw = round_div(m * v, 100);
            if raw < 0 {
                0
            } else {
                raw
            }
        },
    };
    let total = round_div(base * p.cost_modifier * modifier, 10000);
    if total < 0 {
        0
    } else {
        total
    }
}

/// Count of listed opposer factions that are unlocked and not
/// allied with the player.
pub open spec fn count_active_opposers(ids: Seq<int>, npcs: Seq<NpcModel>) -> int
    decreases ids.len(),
{
    if ids.len() == 0 {
        0
    } else {
        count_active_opposers(ids.drop_last(), npcs) + (if !npcs[ids.last()].locked
            && npcs[ids.last()].relation() != NPCRelation::Ally {
            1int
        } else {
            0int
        })
    }
}

/// Count of listed supporter factions that are unlocked.
pub open spec fn count_active_supporters(ids: Seq<int>, npcs: Seq<NpcModel>) -> int
    decreases ids.len(),
{
    if ids.len() == 0 {
        0
    } else {
        count_active_supporters(ids.drop_last(), npcs) + (if !npcs[ids.last()].locked {
            1int
        } else {
            0int
        })
    }
}

impl Project {
    /// Advance this project's implementation by one turn's worth
    /// of progress. Valid only while building: any other status,
    /// and an allocation of zero points, is a no-op returning
    /// false. Each effective call advances progress by at least
    /// one unit of the fraction, so a building project always
    /// reaches the transition after finitely many calls; once
    /// accumulated progress reaches the whole fraction, the
    /// project transitions to `Active` if it is ongoing and to
    /// `Finished` otherwise, and the call reports the transition.
    pub fn build(&mut self) -> (r: bool)
        requires
            old(self)@.status == Status::Building && old(self)@.points >= 1 ==> old(self)@.points
                <= 1000000 && old(self)@.cost <= 1000000000000 && old(self)@.progress
                <= PROGRESS_SCALE,
        ensures
            old(self)@.status != Status::Building ==> !r && *final(self) == *old(self),
            old(self)@.status == Status::Building && old(self)@.points == 0 ==> !r
                && *final(self) == *old(self),
            old(self)@.status == Status::Building && old(self)@.points >= 1 ==> {
                let np = old(self)@.progress + build_increment(old(self)@.points, old(self)@.cost);
                &&& (np < PROGRESS_SCALE as int ==> !r && final(self)@ == (ProjectModel {
                    progress: np,
                    ..old(self)@
                }))
                &&& (np >= PROGRESS_SCALE as int ==> r && final(self)@ == (ProjectModel {
                    progress: np,
                    status: if old(self)@.ongoing {
                        Status::Active
                    } else {
                        Status::Finished
                    },
                    ..old(self)@
                }))
            },
    {
        match self.status {
            Status::Building => {
                if self.points == 0 {
                    return false;
                }
                let years = years_for_points(self.points, self.cost);
                let mut inc = PROGRESS_SCALE / years;
                if inc == 0 {
                    inc = 1;
                }
                self.progress = self.progress + inc;
                if self.progress >= PROGRESS_SCALE {
                    self.status = if self.ongoing {
                        Status::Active
                    } else {
                        Status::Finished
                    };
                    true
                } else {
                    false
                }
            },
            _ => false,
        }
    }

    /// Allocate effort points and refresh the completion-time
    /// estimate accordingly.
    pub fn set_points(&mut self, points: usize)
        requires
            1 <= points <= 1000000,
            old(self)@.cost <= 1000000000,
        ensures
            final(self)@ == (ProjectModel {
                points: points as int,
                estimate: years_spec(points as int, old(self)@.cost),
                ..old(self)@
            }),
    {
        self.points = points;
        let years = years_for_points(self.points, self.cost);
        self.estimate = years as usize;
    }

    /// Recompute `cost` from the base cost and the current world
    /// drivers. Driver values and modifiers are bounded so the
    /// fixed-point products stay representable, and the result
    /// must fit the cost word.
    pub fn update_cost(&mut self, year: i64, income_level: i64, demand: &OutputMap, modifier: i64)
        requires
            cost_inputs_ok(old(self)@, year as int, income_level as int, demand@, modifier as int),
            update_cost_spec(old(self)@, year as int, income_level as int, demand@, modifier as int)
                <= usize::MAX,
        ensures
            final(self)@ == (ProjectModel {
                cost: update_cost_spec(
                    old(self)@,
                    year as int,
                    income_level as int,
                    demand@,
                    modifier as int,
                ),
                ..old(self)@
            }),
    {
        let base: i128 = match self.base_cost {
            Cost::Fixed(c) => c as i128,
            Cost::Dynamic(m, factor) => {
                let v: i128 = match factor {
                    Factor::Time => (year as i128) - (COST_EPOCH_YEAR as i128),
                    Factor::Income => 1 + (income_level as i128),
                    Factor::Output(o) => demand.get(o) as i128,
                };
                proof {
                    lemma_mul_pairs(
                        if m as int >= 0 {
                            m as int
                        } else {
                            -(m as int)
                        },
                        1000000,
                        if v as int >= 0 {
                            v as int
                        } else {
                            -(v as int)
                        },
                        1000000000000,
                    );
                    assert((m as int) * (v as int) <= 1000000000000000000
                        && -((1000000000000000000int)) <= (m as int) * (v as int))
                        by (nonlinear_arith)
                        requires
                            -1000000 <= m as int <= 1000000,
                            -1000000000000 <= v as int <= 1000000000000;
                }
                let prod: i128 = (m as i128) * v;
                let raw: i128 = if prod >= 0 {
                    (prod + 50) / 100
                } else {
                    -(((-prod) + 50) / 100)
                };
                if raw < 0 {
                    0
                } else {
                    raw
                }
            },
        };
        proof {
            lemma_update_cost_products(base as int, self.cost_modifier as int, modifier as int);
        }
        let prod2: i128 = base * (self.cost_modifier as i128) * (modifier as i128);
        let total: i128 = if prod2 >= 0 {
            (prod2 + 5000) / 10000
        } else {
            -(((-prod2) + 5000) / 10000)
        };
        let cost: i128 = if total < 0 {
            0
        } else {
            total
        };
        proof {
            assert(cost as int == update_cost_spec(
                old(self)@,
                year as int,
                income_level as int,
                demand@,
                modifier as int,
            ));
        }
        self.cost = cost as usize;
    }

    /// Resolve this project's outcomes against the state: walk
    /// them in declaration order, and the first whose conditions
    /// all hold and whose likelihood survives the draw is
    /// selected. Conditions act as gates; an unconditioned
    /// guaranteed outcome is a catch-all default. Returns the
    /// selected index, or none when nothing matched.
    pub fn roll_outcome(&self, state: &State, rng: &mut rand::rngs::StdRng) -> (r: Option<usize>)
        ensures
            r matches Some(i) ==> i < self@.outcomes.len()
                && self@.outcomes[i as int].probability.conditions_hold(state@)
                && self@.outcomes[i as int].probability.likelihood.p_spec() > 0 && forall|j: int|
                0 <= j < i ==> !(self@.outcomes[j].probability.conditions_hold(state@)
                    && self@.outcomes[j].probability.likelihood == Likelihood::Guaranteed),
            r is None ==> forall|j: int|
                0 <= j < self@.outcomes.len() ==> !(self@.outcomes[j].probability.conditions_hold(
                    state@,
                ) && self@.outcomes[j].probability.likelihood == Likelihood::Guaranteed),
    {
        let n = self.outcomes.len();
        let mut i: usize = 0;
        while i < n
            invariant
                0 <= i <= n,
                n == self@.outcomes.len(),
                forall|j: int|
                    0 <= j < i ==> !(self@.outcomes[j].probability.conditions_hold(state@)
                        && self@.outcomes[j].probability.likelihood == Likelihood::Guaranteed),
            decreases n - i,
        {
            let p = self.outcomes[i].probability.eval(state);
            if p > 0 {
                let draw = draw_chance(rng);
                if draw < p {
                    return Some(i);
                }
            }
            proof {
                assert(!(self@.outcomes[i as int].probability.conditions_hold(state@)
                    && self@.outcomes[i as int].probability.likelihood
                    == Likelihood::Guaranteed));
            }
            i += 1;
        }
        None
    }

    /// The active effect set together with the resolved outcome's
    /// effects, when the project is online; empty otherwise.
    pub fn active_effects_with_outcomes(&self) -> (r: Vec<Effect>)
        requires
            self@.level <= self@.upgrades.len(),
            self@.active_outcome matches Some(i) ==> i < self@.outcomes.len(),
        ensures
            (self@.status == Status::Active || self@.status == Status::Finished) ==> r@
                == crate::effects::level_effects(self@) + (match self@.active_outcome {
                Some(i) => self@.outcomes[i].effects@,
                None => Seq::<Effect>::empty(),
            }),
            !(self@.status == Status::Active || self@.status == Status::Finished) ==> r@
                == Seq::<Effect>::empty(),
    {
        let mut out: Vec<Effect> = Vec::new();
        if self.is_online() {
            let base = self.active_effects();
            let n = base.len();
            let mut i: usize = 0;
            while i < n
                invariant
                    0 <= i <= n,
                    n == base@.len(),
                    base@ == crate::effects::level_effects(self@),
                    out@ == crate::effects::level_effects(self@).take(i as int),
                decreases n - i,
            {
                out.push(base[i].clone());
                proof {
                    assert(out@ =~= crate::effects::level_effects(self@).take(i as int + 1));
                }
                i += 1;
            }
            proof {
                assert(crate::effects::level_effects(self@).take(n as int)
                    =~= crate::effects::level_effects(self@));
            }
            match self.active_outcome {
                Some(id) => {
                    let fx = &self.outcomes[id].effects;
                    let m = fx.len();
                    let mut k: usize = 0;
                    while k < m
                        invariant
                            0 <= k <= m,
                            self@.active_outcome == Some(id as int),
                            id < self@.outcomes.len(),
                            m == fx@.len(),
                            fx@ == self@.outcomes[id as int].effects@,
                            out@ == crate::effects::level_effects(self@) + self@.outcomes[
                                id as int
                            ].effects@.take(k as int),
                        decreases m - k,
                    {
                        out.push(fx[k].clone());
                        proof {
                            assert(out@ =~= crate::effects::level_effects(self@) + self@.outcomes[
                                id as int
                            ].effects@.take(k as int + 1));
                        }
                        k += 1;
                    }
                    proof {
                        assert(self@.outcomes[id as int].effects@.take(m as int)
                            =~= self@.outcomes[id as int].effects@);
                    }
                },
                None => {
                    proof {
                        assert(out@ =~= crate::effects::level_effects(self@)
                            + Seq::<Effect>::empty());
                    }
                },
            }
        }
        out
    }

    /// Derive the majority-support requirement from the unlocked
    /// opposer and supporter factions: when opposers strictly
    /// outnumber supporters a one-half majority (fifty hundredths)
    /// is required, otherwise none.
    pub fn update_required_majority(&mut self, npcs: &Vec<NPC>)
        requires
            forall|j: int|
                0 <= j < old(self)@.opposers.len() ==> 0 <= #[trigger] old(self)@.opposers[j]
                    < npcs@.len(),
            forall|j: int|
                0 <= j < old(self)@.supporters.len() ==> 0 <= #[trigger] old(self)@.supporters[j]
                    < npcs@.len(),
        ensures
            final(self)@ == (ProjectModel {
                required_majority: if count_active_opposers(
                    old(self)@.opposers,
                    crate::state::npcs_model(npcs@),
                ) > count_active_supporters(
                    old(self)@.supporters,
                    crate::state::npcs_model(npcs@),
                ) {
                    50int
                } else {
                    0int
                },
                ..old(self)@
            }),
    {
        let ghost nm = crate::state::npcs_model(npcs@);
        let ghost ops = self@.opposers;
        let ghost sups = self@.supporters;
        let n = self.opposers.len();
        let mut opposers: usize = 0;
        let mut i: usize = 0;
        while i < n
            invariant
                0 <= i <= n,
                n == self.opposers@.len(),
                ops == self@.opposers,
                sups == self@.supporters,
                nm == crate::state::npcs_model(npcs@),
                ops.len() == n,
                forall|j: int| 0 <= j < n ==> 0 <= #[trigger] ops[j] < nm.len(),
                opposers <= i,
                opposers as int == count_active_opposers(ops.take(i as int), nm),
            decreases n - i,
        {
            proof {
                assert(ops.take(i as int + 1).drop_last() =~= ops.take(i as int));
                assert(ops.take(i as int + 1).last() == ops[i as int]);
                assert(nm[ops[i as int]] == (npcs@[ops[i as int]])@);
            }
            let id = self.opposers[i];
            if !npcs[id].locked && !matches!(npcs[id].relation(), NPCRelation::Ally) {
                opposers += 1;
            }
            i += 1;
        }
        proof {
            assert(ops.take(n as int) =~= ops);
        }
        let m = self.supporters.len();
        let mut supporters: usize = 0;
        let mut k: usize = 0;
        while k < m
            invariant
                0 <= k <= m,
                m == self.supporters@.len(),
                ops == self@.opposers,
                sups == self@.supporters,
                nm == crate::state::npcs_model(npcs@),
                sups.len() == m,
                forall|j: int| 0 <= j < m ==> 0 <= #[trigger] sups[j] < nm.len(),
                supporters <= k,
                supporters as int == count_active_supporters(sups.take(k as int), nm),
                opposers as int == count_active_opposers(ops, nm),
            decreases m - k,
        {
            proof {
                assert(sups.take(k as int + 1).drop_last() =~= sups.take(k as int));
                assert(sups.take(k as int + 1).last() == sups[k as int]);
                assert(nm[sups[k as int]] == (npcs@[sups[k as int]])@);
            }
            let id = self.supporters[k];
            if !npcs[id].locked {
                supporters += 1;
            }
            k += 1;
        }
        proof {
            assert(sups.take(m as int) =~= sups);
        }
        self.required_majority = if opposers > supporters {
            50
        } else {
            0
        };
    }
}

/// Bound on the three-way cost product, so the fixed-point
/// arithmetic stays inside the doubled word.
proof fn lemma_update_cost_products(base: int, cm: int, m: int)
    by (nonlinear_arith)
    requires
        0 <= base <= 0x7fff_ffff_ffff_ffff_ffff,
        -1000000 <= cm <= 1000000,
        -1000000 <= m <= 1000000,
    ensures
        -0x1000_0000_0000_0000_0000_0000_0000_0000 < base * cm,
        base * cm < 0x1000_0000_0000_0000_0000_0000_0000_0000,
        -0x4000_0000_0000_0000_0000_0000_0000_0000 < base * cm * m,
        base * cm * m < 0x4000_0000_0000_0000_0000_0000_0000_0000,
{
}

} // verus!
