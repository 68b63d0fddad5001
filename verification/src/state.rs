//! The shared world state that effects read and mutate.
//!
//! The full world schema is owned by the surrounding game; this
//! module holds the narrow set of fields the rule engine addresses,
//! as fixed-point integers, together with ghost models over `int`
//! used by every contract.

use vstd::prelude::*;
use crate::effects::{Effect, Flag, Request};
use crate::events::EventPool;
use crate::kinds::{
    ByproductLevels, ByproductMap, FeedstockLevels, FeedstockMap, Income, Latitude,
    OutputLevels, OutputMap, ProcessFeature, ResourceLevels, ResourceMap,
};
use crate::probability::WorldVariable;
use crate::projects::Project;

verus! {

/// An NPC faction's relation to the player.
#[derive(Clone, Copy, PartialEq, Eq, Structural, Debug)]
pub enum NPCRelation {
    Nemesis,
    Neutral,
    Ally,
}

/// Relationship score at or above which a faction is an ally.
pub const ALLY_RELATIONSHIP: i64 = 5;

/// Relationship score at or below which a faction is a nemesis.
pub const NEMESIS_RELATIONSHIP: i64 = 1;

/// Ghost model of an [`NPC`].
#[verifier::ext_equal]
pub ghost struct NpcModel {
    pub name: Seq<char>,
    pub relationship: int,
    pub locked: bool,
    pub seats: int,
}

impl NpcModel {
    /// The relation this relationship score stands for.
    pub open spec fn relation(self) -> NPCRelation {
        if self.relationship >= ALLY_RELATIONSHIP as int {
            NPCRelation::Ally
        } else if self.relationship <= NEMESIS_RELATIONSHIP as int {
            NPCRelation::Nemesis
        } else {
            NPCRelation::Neutral
        }
    }
}

/// A non-player faction with a relationship to the player.
#[derive(Clone, PartialEq, Eq, Debug)]
pub struct NPC {
    pub name: String,
    pub relationship: i64,
    pub locked: bool,
    pub seats: i64,
}

impl View for NPC {
    type V = NpcModel;

    open spec fn view(&self) -> NpcModel {
        NpcModel {
            name: self.name@,
            relationship: self.relationship as int,
            locked: self.locked,
            seats: self.seats as int,
        }
    }
}

impl NPC {
    /// This faction's relation to the player, derived from its
    /// relationship score.
    pub fn relation(&self) -> (r: NPCRelation)
        ensures
            r == self@.relation(),
    {
        if self.relationship >= ALLY_RELATIONSHIP {
            NPCRelation::Ally
        } else if self.relationship <= NEMESIS_RELATIONSHIP {
            NPCRelation::Nemesis
        } else {
            NPCRelation::Neutral
        }
    }
}

/// Ghost model of a [`Region`].
#[verifier::ext_equal]
pub ghost struct RegionModel {
    pub id: int,
    pub population: int,
    pub latitude: Latitude,
    pub base_habitability: int,
    pub outlook: int,
    pub income: Income,
    pub demand_levels: OutputLevels,
    pub seceded: bool,
    pub flags: Seq<Seq<char>>,
}

impl RegionModel {
    /// The income band as a small integer level.
    pub open spec fn income_level(self) -> int {
        match self.income {
            Income::Low => 0,
            Income::LowerMiddle => 1,
            Income::UpperMiddle => 2,
            Income::High => 3,
        }
    }
}

/// One world region.
#[derive(Clone, PartialEq, Eq, Debug)]
pub struct Region {
    pub id: usize,
    pub population: i64,
    pub latitude: Latitude,
    pub base_habitability: i64,
    pub outlook: i64,
    pub income: Income,
    /// Demand intensity per output, maintained by the surrounding
    /// game; the engine only reads it.
    pub demand_levels: OutputMap,
    pub seceded: bool,
    pub flags: Vec<String>,
}

impl View for Region {
    type V = RegionModel;

    open spec fn view(&self) -> RegionModel {
        RegionModel {
            id: self.id as int,
            population: self.population as int,
            latitude: self.latitude,
            base_habitability: self.base_habitability as int,
            outlook: self.outlook as int,
            income: self.income,
            demand_levels: self.demand_levels@,
            seceded: self.seceded,
            flags: self.flags@.map_values(|f: String| f@),
        }
    }
}

impl Region {
    /// The income band as a small integer level.
    pub fn income_level(&self) -> (r: i64)
        ensures
            r == self@.income_level(),
    {
        match self.income {
            Income::Low => 0,
            Income::LowerMiddle => 1,
            Income::UpperMiddle => 2,
            Income::High => 3,
        }
    }

    /// The region's habitability; currently its base value.
    pub fn habitability(&self) -> (r: i64)
        ensures
            r == self@.base_habitability,
    {
        self.base_habitability
    }
}

/// Ghost model of a [`Process`].
#[verifier::ext_equal]
pub ghost struct ProcessModel {
    pub id: int,
    pub locked: bool,
    pub features: Seq<ProcessFeature>,
    pub output_modifier: int,
    pub byproduct_modifiers: ByproductLevels,
    pub limit: Option<int>,
}

/// One production process.
#[derive(Clone, PartialEq, Eq, Debug)]
pub struct Process {
    pub id: usize,
    pub locked: bool,
    pub features: Vec<ProcessFeature>,
    pub output_modifier: i64,
    pub byproduct_modifiers: ByproductMap,
    pub limit: Option<i64>,
}

impl View for Process {
    type V = ProcessModel;

    open spec fn view(&self) -> ProcessModel {
        ProcessModel {
            id: self.id as int,
            locked: self.locked,
            features: self.features@,
            output_modifier: self.output_modifier as int,
            byproduct_modifiers: self.byproduct_modifiers@,
            limit: match self.limit {
                Some(l) => Some(l as int),
                None => None,
            },
        }
    }
}

impl Process {
    /// Whether this process has the given feature.
    pub fn has_feature(&self, feat: ProcessFeature) -> (r: bool)
        ensures
            r == self@.features.contains(feat),
    {
        let n = self.features.len();
        let mut i: usize = 0;
        while i < n
            invariant
                0 <= i <= n,
                n == self.features@.len(),
                forall|j: int| 0 <= j < i ==> self.features@[j] != feat,
            decreases n - i,
        {
            if self.features[i] == feat {
                return true;
            }
            i += 1;
        }
        false
    }
}

/// Ghost model of an [`Industry`].
#[verifier::ext_equal]
pub ghost struct IndustryModel {
    pub id: int,
    pub byproduct_modifiers: ByproductLevels,
    pub resource_modifiers: ResourceLevels,
    pub resources: ResourceLevels,
    pub demand_modifier: int,
}

/// One industry.
#[derive(Clone, PartialEq, Eq, Debug)]
pub struct Industry {
    pub id: usize,
    pub byproduct_modifiers: ByproductMap,
    pub resource_modifiers: ResourceMap,
    pub resources: ResourceMap,
    pub demand_modifier: i64,
}

impl View for Industry {
    type V = IndustryModel;

    open spec fn view(&self) -> IndustryModel {
        IndustryModel {
            id: self.id as int,
            byproduct_modifiers: self.byproduct_modifiers@,
            resource_modifiers: self.resource_modifiers@,
            resources: self.resources@,
            demand_modifier: self.demand_modifier as int,
        }
    }
}

/// Ghost model of the [`World`].
#[verifier::ext_equal]
pub ghost struct WorldModel {
    pub year: int,
    pub population: int,
    pub base_outlook: int,
    pub temperature: int,
    pub extinction_rate: int,
    pub sea_level_rise: int,
    pub output_demand: OutputLevels,
    pub regions: Seq<RegionModel>,
    pub processes: Seq<ProcessModel>,
    pub industries: Seq<IndustryModel>,
    pub projects: Seq<crate::projects::ProjectModel>,
}

/// The world document: global quantities plus the collections the
/// engine addresses by identifier.
#[derive(Clone, PartialEq, Eq, Debug)]
pub struct World {
    pub year: i64,
    pub population: i64,
    pub base_outlook: i64,
    pub temperature: i64,
    pub extinction_rate: i64,
    pub sea_level_rise: i64,
    pub output_demand: OutputMap,
    pub regions: Vec<Region>,
    pub processes: Vec<Process>,
    pub industries: Vec<Industry>,
    pub projects: Vec<Project>,
}

impl View for World {
    type V = WorldModel;

    open spec fn view(&self) -> WorldModel {
        WorldModel {
            year: self.year as int,
            population: self.population as int,
            base_outlook: self.base_outlook as int,
            temperature: self.temperature as int,
            extinction_rate: self.extinction_rate as int,
            sea_level_rise: self.sea_level_rise as int,
            output_demand: self.output_demand@,
            regions: regions_model(self.regions@),
            processes: processes_model(self.processes@),
            industries: industries_model(self.industries@),
            projects: projects_model(self.projects@),
        }
    }
}

/// The ghost models of a sequence of regions.
pub open spec fn regions_model(s: Seq<Region>) -> Seq<RegionModel> {
    s.map_values(|r: Region| r@)
}

/// The ghost models of a sequence of processes.
pub open spec fn processes_model(s: Seq<Process>) -> Seq<ProcessModel> {
    s.map_values(|p: Process| p@)
}

/// The ghost models of a sequence of industries.
pub open spec fn industries_model(s: Seq<Industry>) -> Seq<IndustryModel> {
    s.map_values(|i: Industry| i@)
}

/// The ghost models of a sequence of NPC factions.
pub open spec fn npcs_model(s: Seq<NPC>) -> Seq<NpcModel> {
    s.map_values(|n: NPC| n@)
}

/// The ghost models of a sequence of projects.
pub open spec fn projects_model(s: Seq<Project>) -> Seq<crate::projects::ProjectModel> {
    s.map_values(|p: Project| p@)
}

/// The ghost models of the pending requests.
pub open spec fn requests_model(s: Seq<(Request, usize, bool, usize)>) -> Seq<
    (Request, int, bool, int),
> {
    s.map_values(|r: (Request, usize, bool, usize)| (r.0, r.1 as int, r.2, r.3 as int))
}

/// Integer division rounding toward zero, the integer analogue of
/// taking a mean.
pub open spec fn div_toward_zero(a: int, b: int) -> int {
    if a >= 0 && b >= 0 {
        a / b
    } else if a < 0 && b < 0 {
        (-a) / (-b)
    } else if a < 0 {
        -((-a) / b)
    } else {
        -(a / (-b))
    }
}

/// Sum of the regions' outlook scores.
pub open spec fn sum_region_outlooks(regions: Seq<RegionModel>) -> int
    decreases regions.len(),
{
    if regions.len() == 0 {
        0
    } else {
        regions[0].outlook + sum_region_outlooks(regions.drop_first())
    }
}

/// Sum of the regions' habitability scores.
pub open spec fn sum_region_habitability(regions: Seq<RegionModel>) -> int
    decreases regions.len(),
{
    if regions.len() == 0 {
        0
    } else {
        regions[0].base_habitability + sum_region_habitability(regions.drop_first())
    }
}

/// Ghost model of the whole [`State`].
#[verifier::ext_equal]
pub ghost struct StateModel {
    pub game_over: bool,
    pub political_capital: int,
    pub research_points: int,
    pub population_growth_modifier: int,
    pub temperature_modifier: int,
    pub water_stress: int,
    pub sea_level_rise_modifier: int,
    pub precipitation: int,
    pub co2_emissions: int,
    pub protected_land: int,
    pub byproduct_mods: ByproductLevels,
    pub resources: ResourceLevels,
    pub feedstocks: FeedstockLevels,
    pub output_demand_modifier: OutputLevels,
    pub output_demand_extras: OutputLevels,
    pub output_modifier: OutputLevels,
    pub flags: Seq<Flag>,
    pub requests: Seq<(Request, int, bool, int)>,
    pub npcs: Seq<NpcModel>,
    pub event_pool: Seq<(crate::events::EventModel, crate::events::Status)>,
    pub world: WorldModel,
}

impl StateModel {
    /// The world's mean outlook: the base outlook plus the mean of
    /// the regions' outlook scores (zero with no regions).
    pub open spec fn outlook(self) -> int {
        if self.world.regions.len() == 0 {
            self.world.base_outlook
        } else {
            self.world.base_outlook + div_toward_zero(
                sum_region_outlooks(self.world.regions),
                self.world.regions.len() as int,
            )
        }
    }

    /// Whether the first faction with this name is an ally.
    pub open spec fn is_ally(self, name: Seq<char>) -> bool {
        is_ally_rec(self.npcs, name)
    }

    /// The value of a named world variable.
    pub open spec fn world_variable(self, var: WorldVariable) -> int {
        match var {
            WorldVariable::Year => self.world.year,
            WorldVariable::Population => self.world.population,
            WorldVariable::PopulationGrowth => self.population_growth_modifier,
            WorldVariable::Emissions => self.co2_emissions,
            WorldVariable::ExtinctionRate => self.world.extinction_rate,
            WorldVariable::Outlook => self.world.base_outlook,
            WorldVariable::Temperature => self.temperature_modifier,
            WorldVariable::WaterStress => self.water_stress,
            WorldVariable::SeaLevelRise => self.world.sea_level_rise,
            WorldVariable::SeaLevelRiseRate => self.sea_level_rise_modifier,
            WorldVariable::Precipitation => self.precipitation,
        }
    }
}

/// Whether the first faction named `name` is an ally.
pub open spec fn is_ally_rec(npcs: Seq<NpcModel>, name: Seq<char>) -> bool
    decreases npcs.len(),
{
    if npcs.len() == 0 {
        false
    } else if npcs[0].name == name {
        npcs[0].relation() == NPCRelation::Ally
    } else {
        is_ally_rec(npcs.drop_first(), name)
    }
}

/// The shared state the engine reads and mutates: player standing,
/// global modifiers, flags, pending requests, the event pool, and
/// the world document.
#[derive(Clone, PartialEq, Eq, Debug)]
pub struct State {
    pub game_over: bool,
    pub political_capital: i64,
    pub research_points: i64,
    pub population_growth_modifier: i64,
    pub temperature_modifier: i64,
    pub water_stress: i64,
    pub sea_level_rise_modifier: i64,
    pub precipitation: i64,
    pub co2_emissions: i64,
    pub protected_land: i64,
    pub byproduct_mods: ByproductMap,
    pub resources: ResourceMap,
    pub feedstocks: FeedstockMap,
    pub output_demand_modifier: OutputMap,
    pub output_demand_extras: OutputMap,
    pub output_modifier: OutputMap,
    pub flags: Vec<Flag>,
    pub requests: Vec<(Request, usize, bool, usize)>,
    pub npcs: Vec<NPC>,
    pub event_pool: EventPool,
    pub world: World,
}

impl View for State {
    type V = StateModel;

    open spec fn view(&self) -> StateModel {
        StateModel {
            game_over: self.game_over,
            political_capital: self.political_capital as int,
            research_points: self.research_points as int,
            population_growth_modifier: self.population_growth_modifier as int,
            temperature_modifier: self.temperature_modifier as int,
            water_stress: self.water_stress as int,
            sea_level_rise_modifier: self.sea_level_rise_modifier as int,
            precipitation: self.precipitation as int,
            co2_emissions: self.co2_emissions as int,
            protected_land: self.protected_land as int,
            byproduct_mods: self.byproduct_mods@,
            resources: self.resources@,
            feedstocks: self.feedstocks@,
            output_demand_modifier: self.output_demand_modifier@,
            output_demand_extras: self.output_demand_extras@,
            output_modifier: self.output_modifier@,
            flags: self.flags@,
            requests: requests_model(self.requests@),
            npcs: npcs_model(self.npcs@),
            event_pool: self.event_pool@,
            world: self.world@,
        }
    }
}

impl State {
    /// The value of a named world variable, read from the state.
    pub fn world_variable(&self, var: WorldVariable) -> (r: i64)
        ensures
            r == self@.world_variable(var),
    {
        match var {
            WorldVariable::Year => self.world.year,
            WorldVariable::Population => self.world.population,
            WorldVariable::PopulationGrowth => self.population_growth_modifier,
            WorldVariable::Emissions => self.co2_emissions,
            WorldVariable::ExtinctionRate => self.world.extinction_rate,
            WorldVariable::Outlook => self.world.base_outlook,
            WorldVariable::Temperature => self.temperature_modifier,
            WorldVariable::WaterStress => self.water_stress,
            WorldVariable::SeaLevelRise => self.world.sea_level_rise,
            WorldVariable::SeaLevelRiseRate => self.sea_level_rise_modifier,
            WorldVariable::Precipitation => self.precipitation,
        }
    }

    /// Whether the given global flag is set.
    pub fn has_flag(&self, flag: Flag) -> (r: bool)
        ensures
            r == self@.flags.contains(flag),
    {
        let n = self.flags.len();
        let mut i: usize = 0;
        while i < n
            invariant
                0 <= i <= n,
                n == self.flags@.len(),
                forall|j: int| 0 <= j < i ==> self.flags@[j] != flag,
            decreases n - i,
        {
            if self.flags[i] == flag {
                return true;
            }
            i += 1;
        }
        false
    }

    /// The world's mean outlook. Summed in 128 bits, so it is total
    /// for every representable state.
    pub fn outlook(&self) -> (r: i128)
        ensures
            r == self@.outlook(),
    {
        let n = self.world.regions.len();
        if n == 0 {
            return self.world.base_outlook as i128;
        }
        let mut sum: i128 = 0;
        let mut i: usize = 0;
        let ghost k: int = 0x8000_0000_0000_0000;
        while i < n
            invariant
                0 <= i <= n,
                n == self.world.regions@.len(),
                k == 0x8000_0000_0000_0000,
                sum == sum_region_outlooks(self@.world.regions.take(i as int)),
                -(k * (i as int)) <= sum as int <= k * (i as int),
            decreases n - i,
        {
            proof {
                assert(self@.world.regions.take(i as int + 1).drop_last() =~= self@.world.regions.take(
                    i as int,
                ));
                lemma_sum_outlooks_take_step(self@.world.regions, i as int);
                lemma_abs_bound_step(sum as int, self.world.regions@[i as int].outlook as int, i as int, k);
                lemma_mul_le(k, i as int + 1, 0x1_0000_0000_0000_0000);
            }
            sum = sum + self.world.regions[i].outlook as i128;
            i += 1;
        }
        proof {
            assert(self@.world.regions.take(n as int) =~= self@.world.regions);
            lemma_mul_le(k, n as int, 0x1_0000_0000_0000_0000);
            if sum >= 0 {
                vstd::arithmetic::div_mod::lemma_div_is_ordered(sum as int, k * (n as int), n as int);
                vstd::arithmetic::div_mod::lemma_div_by_multiple(k, n as int);
            } else {
                vstd::arithmetic::div_mod::lemma_div_is_ordered(-(sum as int), k * (n as int), n as int);
                vstd::arithmetic::div_mod::lemma_div_by_multiple(k, n as int);
                vstd::arithmetic::div_mod::lemma_div_pos_is_pos(-(sum as int), n as int);
            }
        }
        let mean: i128 = if sum >= 0 {
            sum / (n as i128)
        } else {
            -((-sum) / (n as i128))
        };
        self.world.base_outlook as i128 + mean
    }

    /// Whether the first faction with this name is an ally.
    pub fn is_ally(&self, name: &String) -> (r: bool)
        ensures
            r == self@.is_ally(name@),
    {
        let n = self.npcs.len();
        let mut i: usize = 0;
        proof {
            assert(self@.npcs.skip(0) =~= self@.npcs);
        }
        while i < n
            invariant
                0 <= i <= n,
                n == self.npcs@.len(),
                self@.is_ally(name@) == is_ally_rec(self@.npcs.skip(i as int), name@),
            decreases n - i,
        {
            proof {
                assert(self@.npcs.skip(i as int)[0] == self@.npcs[i as int]);
                assert(self@.npcs.skip(i as int).drop_first() =~= self@.npcs.skip(i as int + 1));
            }
            if self.npcs[i].name.eq(name) {
                return self.npcs[i].relationship >= ALLY_RELATIONSHIP;
            }
            i += 1;
        }
        proof {
            assert(self@.npcs.skip(n as int) =~= Seq::<NpcModel>::empty());
        }
        false
    }
}

/// A sum within `k*i` moved by one summand within `k` stays within
/// `k*(i+1)`.
pub proof fn lemma_abs_bound_step(sum: int, x: int, i: int, k: int)
    by (nonlinear_arith)
    requires
        0 <= i,
        0 <= k,
        -(k * i) <= sum,
        sum <= k * i,
        -k <= x,
        x <= k,
    ensures
        -(k * (i + 1)) <= sum + x,
        sum + x <= k * (i + 1),
{
}

/// A sum within `[-(plo*i), hi*i]` moved by one summand within
/// `[-plo, hi]` stays within `[-(plo*(i+1)), hi*(i+1)]`.
pub proof fn lemma_range_bound_step(sum: int, x: int, i: int, plo: int, hi: int)
    by (nonlinear_arith)
    requires
        0 <= i,
        0 <= plo,
        0 <= hi,
        -(plo * i) <= sum,
        sum <= hi * i,
        -plo <= x,
        x <= hi,
    ensures
        -(plo * (i + 1)) <= sum + x,
        sum + x <= hi * (i + 1),
{
}

/// The product of two machine-word values fits the doubled word.
pub proof fn lemma_word_product_bound(a: int, b: int)
    by (nonlinear_arith)
    requires
        -0x8000_0000_0000_0000 <= a <= 0x7fff_ffff_ffff_ffff,
        -0x8000_0000_0000_0000 <= b <= 0x7fff_ffff_ffff_ffff,
    ensures
        -0x4000_0000_0000_0000_0000_0000_0000_0000 <= a * b,
        a * b <= 0x4000_0000_0000_0000_0000_0000_0000_0000,
{
}

/// Multiplication by a nonnegative factor keeps order.
pub proof fn lemma_mul_le(c: int, a: int, b: int)
    by (nonlinear_arith)
    requires
        0 <= c,
        a <= b,
    ensures
        c * a <= c * b,
{
}

/// Adding a region to the front extends the outlook sum by its
/// score; stepping form used by summation loops.
pub proof fn lemma_sum_outlooks_take_step(regions: Seq<RegionModel>, i: int)
    requires
        0 <= i < regions.len(),
    ensures
        sum_region_outlooks(regions.take(i + 1)) == sum_region_outlooks(regions.take(i))
            + regions[i].outlook,
    decreases regions.len(),
{
    lemma_sum_outlooks_last(regions.take(i + 1));
    assert(regions.take(i + 1).drop_last() =~= regions.take(i));
}

/// The outlook sum of a non-empty sequence splits off its last
/// element.
pub proof fn lemma_sum_outlooks_last(regions: Seq<RegionModel>)
    requires
        regions.len() > 0,
    ensures
        sum_region_outlooks(regions) == sum_region_outlooks(regions.drop_last())
            + regions.last().outlook,
    decreases regions.len(),
{
    if regions.len() == 1 {
        assert(regions.drop_last() =~= Seq::<RegionModel>::empty());
        assert(regions.drop_first() =~= Seq::<RegionModel>::empty());
        assert(regions.last() == regions[0]);
    } else {
        lemma_sum_outlooks_last(regions.drop_first());
        assert(regions.drop_first().drop_last() =~= regions.drop_last().drop_first());
        assert(regions.drop_first().last() == regions.last());
        assert(regions.drop_last()[0] == regions[0]);
        assert(sum_region_outlooks(regions.drop_last()) == regions.drop_last()[0].outlook
            + sum_region_outlooks(regions.drop_last().drop_first()));
    }
}

/// Stepping form of the habitability sum, used by summation loops.
pub proof fn lemma_sum_habitability_take_step(regions: Seq<RegionModel>, i: int)
    requires
        0 <= i < regions.len(),
    ensures
        sum_region_habitability(regions.take(i + 1)) == sum_region_habitability(regions.take(i))
            + regions[i].base_habitability,
    decreases regions.len(),
{
    lemma_sum_habitability_last(regions.take(i + 1));
    assert(regions.take(i + 1).drop_last() =~= regions.take(i));
}

/// The habitability sum of a non-empty sequence splits off its last
/// element.
pub proof fn lemma_sum_habitability_last(regions: Seq<RegionModel>)
    requires
        regions.len() > 0,
    ensures
        sum_region_habitability(regions) == sum_region_habitability(regions.drop_last())
            + regions.last().base_habitability,
    decreases regions.len(),
{
    if regions.len() == 1 {
        assert(regions.drop_last() =~= Seq::<RegionModel>::empty());
        assert(regions.drop_first() =~= Seq::<RegionModel>::empty());
        assert(regions.last() == regions[0]);
    } else {
        lemma_sum_habitability_last(regions.drop_first());
        assert(regions.drop_first().drop_last() =~= regions.drop_last().drop_first());
        assert(regions.drop_first().last() == regions.last());
        assert(regions.drop_last()[0] == regions[0]);
        assert(sum_region_habitability(regions.drop_last()) == regions.drop_last()[0].base_habitability
            + sum_region_habitability(regions.drop_last().drop_first()));
    }
}

} // verus!
