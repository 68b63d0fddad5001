//! The effect algebra: a closed set of atomic state mutations, each
//! with an application, an inverse where one exists, a stable
//! fingerprint for grouping, and magnitude scaling.

use vstd::prelude::*;
use crate::events::{pool_has_event, pool_modify_prob, pool_queue, pool_unlock};
use crate::kinds::{Byproduct, Feedstock, Latitude, Output, Resource};
use crate::kinds::ProcessFeature;
use crate::probability::{PlayerVariable, WorldVariable};
use crate::projects::ProjectModel;
use crate::state::{
    div_toward_zero, lemma_abs_bound_step, lemma_mul_le, lemma_range_bound_step,
    lemma_sum_habitability_take_step, lemma_word_product_bound, processes_model, projects_model,
    regions_model,
    sum_region_habitability, NpcModel, Process, ProcessModel, Region, RegionModel, State,
    StateModel, WorldModel,
};

verus! {

/// What a request effect asks the player to do.
#[derive(Clone, Copy, PartialEq, Eq, Structural, Debug)]
pub enum Request {
    Project,
    Process,
}

/// A global boolean modifier that other systems query; flags are
/// added and removed by effects and have no lifecycle of their own.
#[derive(Clone, Copy, PartialEq, Eq, Structural, Debug)]
pub enum Flag {
    RepeatTutorial,
    SkipTutorial,
    Electrified,
    Vegetarian,
    Vegan,
    ClosedBorders,
    HyperResearch,
    StopDevelopment,
    FastDevelopment,
    Degrowth,
    MetalsShortage,
    DeepSeaMining,
    ParliamentSuspended,
    MoreLabor,
    MoreAutomation,
    MoreLeisure,
    EcosystemModeling,
    LaborResistance,
    LaborSabotage,
    AlienEncounter,
    BailedOut,
}

impl Flag {
    /// A short player-facing description of what the flag does.
    pub fn description(&self) -> (r: &'static str)
        ensures
            r@ == self.description_spec(),
    {
        match self {
            Flag::HyperResearch => "Research points are cheaper.",
            Flag::ClosedBorders => "Limits cross-region migration.",
            Flag::AlienEncounter => "Encountered extraterrestrials",
            Flag::ParliamentSuspended => "A parliamentary majority is no longer required for any project.",
            Flag::Electrified => "80% of fuel demand becomes electricity demand.",
            Flag::Vegan => "90% of animal calorie demand is met with plant calories.",
            Flag::BailedOut => "You've been bailed out once",
            Flag::FastDevelopment => "Underdeveloped regions develop more quickly.",
            Flag::Degrowth => "Wealthy regions income levels and consumption will decline.",
            Flag::MetalsShortage => "Infrastructure projects take 20% longer to finish.",
            Flag::MoreLabor => "Projects take less time to complete.",
            Flag::LaborResistance => "Projects take longer to complete.",
            Flag::MoreLeisure => "Projects take more time to complete.",
            Flag::DeepSeaMining => "Stops or prevents metals shortages.",
            Flag::MoreAutomation => "Projects take less time to complete.",
            Flag::Vegetarian => "75% of animal calorie demand is met with plant calories.",
            Flag::StopDevelopment => "Stops regional development throughout the world.",
            Flag::LaborSabotage => "Projects take longer to complete.",
            Flag::EcosystemModeling => "Restoration projects take less time to complete.",
            Flag::RepeatTutorial => "Repeat the tutorial.",
            Flag::SkipTutorial => "Skip the tutorial.",
        }
    }

    pub open spec fn description_spec(self) -> Seq<char> {
        match self {
            Flag::HyperResearch => "Research points are cheaper."@,
            Flag::ClosedBorders => "Limits cross-region migration."@,
            Flag::AlienEncounter => "Encountered extraterrestrials"@,
            Flag::ParliamentSuspended => "A parliamentary majority is no longer required for any project."@,
            Flag::Electrified => "80% of fuel demand becomes electricity demand."@,
            Flag::Vegan => "90% of animal calorie demand is met with plant calories."@,
            Flag::BailedOut => "You've been bailed out once"@,
            Flag::FastDevelopment => "Underdeveloped regions develop more quickly."@,
            Flag::Degrowth => "Wealthy regions income levels and consumption will decline."@,
            Flag::MetalsShortage => "Infrastructure projects take 20% longer to finish."@,
            Flag::MoreLabor => "Projects take less time to complete."@,
            Flag::LaborResistance => "Projects take longer to complete."@,
            Flag::MoreLeisure => "Projects take more time to complete."@,
            Flag::DeepSeaMining => "Stops or prevents metals shortages."@,
            Flag::MoreAutomation => "Projects take less time to complete."@,
            Flag::Vegetarian => "75% of animal calorie demand is met with plant calories."@,
            Flag::StopDevelopment => "Stops regional development throughout the world."@,
            Flag::LaborSabotage => "Projects take longer to complete."@,
            Flag::EcosystemModeling => "Restoration projects take less time to complete."@,
            Flag::RepeatTutorial => "Repeat the tutorial."@,
            Flag::SkipTutorial => "Skip the tutorial."@,
        }
    }
}

/// One atomic mutation of the world state. Magnitudes are
/// fixed-point integers; identifier payloads index the externally
/// owned collections of the state.
#[derive(PartialEq, Eq, Debug)]
pub enum Effect {
    WorldVariable(WorldVariable, i64),
    PlayerVariable(PlayerVariable, i64),
    RegionHabitability(Latitude, i64),

    Resource(Resource, i64),
    Demand(Output, i64),
    Output(Output, i64),
    DemandAmount(Output, i64),
    OutputForFeature(ProcessFeature, i64),
    OutputForProcess(usize, i64),
    CO2ForFeature(ProcessFeature, i64),
    BiodiversityPressureForFeature(ProcessFeature, i64),
    ProcessLimit(usize, i64),
    Feedstock(Feedstock, i64),

    AddEvent(usize),
    TriggerEvent(usize, usize),
    LocksProject(usize),
    UnlocksProject(usize),
    UnlocksProcess(usize),
    UnlocksNPC(usize),

    ProjectRequest(usize, bool, usize),
    ProcessRequest(usize, bool, usize),

    Migration,
    RegionLeave,
    TerminationShock,
    AddRegionFlag(String),

    AddFlag(Flag),
    AutoClick(usize, i64),
    NPCRelationship(usize, i64),

    ModifyProcessByproducts(usize, Byproduct, i64),
    ModifyIndustryByproducts(usize, Byproduct, i64),
    ModifyIndustryResources(usize, Resource, i64),
    ModifyIndustryResourcesAmount(usize, Resource, i64),
    ModifyEventProbability(usize, i64),
    ModifyIndustryDemand(usize, i64),
    DemandOutlookChange(Output, i64),
    IncomeOutlookChange(i64),
    ProjectCostModifier(usize, i64),

    ProtectLand(i64),

    BailOut(u64),
    GameOver,
}

/// Whether a mathematical integer is representable in the engine's
/// fixed-point word.
pub open spec fn fits(x: int) -> bool {
    i64::MIN <= x <= i64::MAX
}

/// `x` moved by `d`, forward or backward.
pub open spec fn shifted(x: int, d: int, neg: bool) -> int {
    if neg {
        x - d
    } else {
        x + d
    }
}

/// The region identifier as a ghost value.
pub open spec fn opt_int(r: Option<usize>) -> Option<int> {
    match r {
        Some(i) => Some(i as int),
        None => None,
    }
}

/// Regions in the given latitude band with their habitability
/// moved by `d`.
pub open spec fn hab_shift(regions: Seq<RegionModel>, lat: Latitude, d: int, neg: bool) -> Seq<
    RegionModel,
> {
    regions.map_values(
        |r: RegionModel|
            if r.latitude == lat {
                RegionModel { base_habitability: shifted(r.base_habitability, d, neg), ..r }
            } else {
                r
            },
    )
}

/// Processes with the given feature with their output modifier
/// moved by `d`.
pub open spec fn output_feature_shift(
    processes: Seq<ProcessModel>,
    feat: ProcessFeature,
    d: int,
    neg: bool,
) -> Seq<ProcessModel> {
    processes.map_values(
        |p: ProcessModel|
            if p.features.contains(feat) {
                ProcessModel { output_modifier: shifted(p.output_modifier, d, neg), ..p }
            } else {
                p
            },
    )
}

/// Processes with the given feature with one byproduct modifier
/// moved by `d`.
pub open spec fn byproduct_feature_shift(
    processes: Seq<ProcessModel>,
    feat: ProcessFeature,
    k: Byproduct,
    d: int,
    neg: bool,
) -> Seq<ProcessModel> {
    processes.map_values(
        |p: ProcessModel|
            if p.features.contains(feat) {
                ProcessModel {
                    byproduct_modifiers: p.byproduct_modifiers.update_index(
                        k,
                        shifted(p.byproduct_modifiers.index(k), d, neg),
                    ),
                    ..p
                }
            } else {
                p
            },
    )
}

/// Every region's outlook moved by `m` times its income level.
pub open spec fn income_outlook_shift(regions: Seq<RegionModel>, m: int, neg: bool) -> Seq<
    RegionModel,
> {
    regions.map_values(
        |r: RegionModel| (RegionModel { outlook: shifted(r.outlook, m * r.income_level(), neg), ..r }),
    )
}

/// Every region's outlook moved by `m` times its demand level for
/// the given output.
pub open spec fn demand_outlook_shift(
    regions: Seq<RegionModel>,
    o: Output,
    m: int,
    neg: bool,
) -> Seq<RegionModel> {
    regions.map_values(
        |r: RegionModel| (RegionModel {
            outlook: shifted(r.outlook, m * r.demand_levels.index(o), neg),
            ..r
        }),
    )
}

/// The share of a migration wave leaving the source region:
/// a tenth of its population, halved under closed borders.
pub open spec fn migration_leave(s: StateModel, id: int) -> int {
    if s.flags.contains(Flag::ClosedBorders) {
        div_toward_zero(s.world.regions[id].population, 20)
    } else {
        div_toward_zero(s.world.regions[id].population, 10)
    }
}

/// Whether a region receives migrants from the wave: any region
/// other than the source whose habitability is above the mean.
pub open spec fn migration_target(r: RegionModel, id: int, mean: int) -> bool {
    r.id != id && r.base_habitability > mean
}

/// How many regions receive migrants from the wave.
pub open spec fn count_targets(regions: Seq<RegionModel>, id: int, mean: int) -> int
    decreases regions.len(),
{
    if regions.len() == 0 {
        0
    } else {
        count_targets(regions.drop_last(), id, mean) + (if migration_target(
            regions.last(),
            id,
            mean,
        ) {
            1int
        } else {
            0int
        })
    }
}

/// Stepping form of the target count, used by counting loops.
pub proof fn lemma_count_targets_take_step(regions: Seq<RegionModel>, id: int, mean: int, i: int)
    requires
        0 <= i < regions.len(),
    ensures
        count_targets(regions.take(i + 1), id, mean) == count_targets(regions.take(i), id, mean)
            + (if migration_target(regions[i], id, mean) {
            1int
        } else {
            0int
        }),
{
    assert(regions.take(i + 1).drop_last() =~= regions.take(i));
    assert(regions.take(i + 1).last() == regions[i]);
}

/// The regions after a migration wave out of region `id`: regions
/// more habitable than the mean split the wave evenly, and the
/// division remainder stays in the source region, so the total
/// population is conserved whenever at least one region receives
/// migrants. With no receiving region the wave leaves the world,
/// as it does in a world with nowhere to go.
pub open spec fn migration_regions(s: StateModel, id: int) -> Seq<RegionModel> {
    let regions = s.world.regions;
    let leave = migration_leave(s, id);
    let mean = div_toward_zero(sum_region_habitability(regions), regions.len() as int);
    let m = count_targets(regions, id, mean);
    let per = if m == 0 {
        0
    } else {
        div_toward_zero(leave, m)
    };
    let gone = if m == 0 {
        leave
    } else {
        per * m
    };
    regions.map(
        |j: int, r: RegionModel|
            if j == id {
                RegionModel { population: r.population - gone, ..r }
            } else if migration_target(r, id, mean) {
                RegionModel { population: r.population + per, ..r }
            } else {
                r
            },
    )
}

/// Total temperature contribution of a list of effects.
pub open spec fn sum_temperature(effects: Seq<Effect>) -> int
    decreases effects.len(),
{
    if effects.len() == 0 {
        0
    } else {
        (match effects[0] {
            Effect::WorldVariable(WorldVariable::Temperature, v) => v as int,
            _ => 0,
        }) + sum_temperature(effects.drop_first())
    }
}

/// Index of the first project with the given name, or -1.
pub open spec fn first_named(projects: Seq<ProjectModel>, name: Seq<char>) -> int
    decreases projects.len(),
{
    if projects.len() == 0 {
        -1
    } else if projects[0].name == name {
        0
    } else {
        let rest = first_named(projects.drop_first(), name);
        if rest == -1 {
            -1
        } else {
            rest + 1
        }
    }
}

/// The effect set a project's level selects.
pub open spec fn level_effects(p: ProjectModel) -> Seq<Effect> {
    if p.level == 0 {
        p.effects
    } else {
        p.upgrades[p.level - 1].effects@
    }
}

/// The flags with the first occurrence of `f` removed.
pub open spec fn remove_first_flag(flags: Seq<Flag>, f: Flag) -> Seq<Flag>
    decreases flags.len(),
{
    if flags.len() == 0 {
        flags
    } else if flags[0] == f {
        flags.drop_first()
    } else {
        seq![flags[0]] + remove_first_flag(flags.drop_first(), f)
    }
}

/// The cross-cutting game-over rule: without the authoritarian
/// faction as an ally, a mean outlook below zero ends the game.
pub open spec fn check_game_over_spec(s: StateModel) -> StateModel {
    if !s.is_ally("The Authoritarian"@) && s.outlook() < 0 {
        StateModel { game_over: true, ..s }
    } else {
        s
    }
}

/// Whether `apply` is defined for this effect on this state:
/// identifier references are valid and the touched words stay
/// representable. Content validation upstream guarantees this for
/// well-formed content.
pub open spec fn can_apply(e: Effect, s: StateModel, region_id: Option<int>) -> bool {
    match e {
        Effect::GameOver => true,
        Effect::AutoClick(_, _) => true,
        Effect::TerminationShock => true,
        Effect::BailOut(a) => fits(
            (if s.political_capital < 0 {
                0
            } else {
                s.political_capital
            }) + a,
        ),
        Effect::WorldVariable(var, c) => match var {
            WorldVariable::Year => fits(
                s.world.year + (if c > 0 {
                    c as int
                } else {
                    0
                }),
            ),
            WorldVariable::Population => fits(s.world.population + c),
            WorldVariable::PopulationGrowth => fits(s.population_growth_modifier + c),
            WorldVariable::Emissions => fits(s.byproduct_mods.co2 + c) && fits(
                s.co2_emissions + c,
            ),
            WorldVariable::ExtinctionRate => fits(s.byproduct_mods.biodiversity - c),
            WorldVariable::Outlook => fits(s.world.base_outlook + c),
            WorldVariable::Temperature => fits(s.temperature_modifier + c),
            WorldVariable::WaterStress => fits(s.water_stress + c),
            WorldVariable::SeaLevelRise => fits(s.world.sea_level_rise + c),
            WorldVariable::SeaLevelRiseRate => fits(s.sea_level_rise_modifier + c),
            WorldVariable::Precipitation => fits(s.precipitation + c),
        },
        Effect::PlayerVariable(var, c) => match var {
            PlayerVariable::PoliticalCapital => fits(s.political_capital + c),
            PlayerVariable::ResearchPoints => fits(s.research_points + c),
            PlayerVariable::YearsToDeath => true,
        },
        Effect::RegionHabitability(lat, c) => forall|j: int|
            0 <= j < s.world.regions.len() && s.world.regions[j].latitude == lat ==> fits(
                s.world.regions[j].base_habitability + c,
            ),
        Effect::Resource(res, a) => fits(s.resources.index(res) + a),
        Effect::Demand(o, c) => fits(s.output_demand_modifier.index(o) + c),
        Effect::DemandAmount(o, c) => fits(s.output_demand_extras.index(o) + c),
        Effect::Output(o, c) => fits(s.output_modifier.index(o) + c),
        Effect::OutputForFeature(feat, c) => forall|j: int|
            0 <= j < s.world.processes.len() && s.world.processes[j].features.contains(feat)
                ==> fits(s.world.processes[j].output_modifier + c),
        Effect::CO2ForFeature(feat, c) => forall|j: int|
            0 <= j < s.world.processes.len() && s.world.processes[j].features.contains(feat)
                ==> fits(s.world.processes[j].byproduct_modifiers.co2 + c),
        Effect::BiodiversityPressureForFeature(feat, c) => forall|j: int|
            0 <= j < s.world.processes.len() && s.world.processes[j].features.contains(feat)
                ==> fits(s.world.processes[j].byproduct_modifiers.biodiversity + c),
        Effect::OutputForProcess(id, c) => id < s.world.processes.len() && fits(
            s.world.processes[id as int].output_modifier + c,
        ),
        Effect::ProcessLimit(id, c) => id < s.world.processes.len() && match s.world.processes[
            id as int
        ].limit {
            Some(l) => fits(l + c),
            None => true,
        },
        Effect::Feedstock(fs, p) => fits(100 + p) && fits(
            div_toward_zero(s.feedstocks.index(fs) * (100 + p), 100),
        ),
        Effect::AddEvent(id) => pool_has_event(s.event_pool, id as int),
        Effect::TriggerEvent(id, _) => pool_has_event(s.event_pool, id as int),
        Effect::ModifyEventProbability(id, c) => pool_has_event(s.event_pool, id as int)
            && forall|j: int|
            0 <= j < s.event_pool.len() && s.event_pool[j].0.id == id as int ==> fits(
                s.event_pool[j].0.prob_modifier + c,
            ),
        Effect::LocksProject(id) => id < s.world.projects.len(),
        Effect::UnlocksProject(id) => id < s.world.projects.len(),
        Effect::UnlocksProcess(id) => id < s.world.processes.len(),
        Effect::UnlocksNPC(id) => id < s.npcs.len(),
        Effect::ProjectRequest(_, _, _) => true,
        Effect::ProcessRequest(_, _, _) => true,
        Effect::Migration => match region_id {
            Some(id) => 0 <= id < s.world.regions.len() && forall|j: int|
                0 <= j < s.world.regions.len() ==> fits(migration_regions(s, id)[j].population),
            None => true,
        },
        Effect::RegionLeave => match region_id {
            Some(id) => 0 <= id < s.world.regions.len(),
            None => true,
        },
        Effect::AddRegionFlag(_) => match region_id {
            Some(id) => 0 <= id < s.world.regions.len(),
            None => true,
        },
        Effect::AddFlag(_) => true,
        Effect::NPCRelationship(id, c) => id < s.npcs.len() && fits(
            s.npcs[id as int].relationship + c,
        ),
        Effect::ModifyProcessByproducts(id, b, c) => id < s.world.processes.len() && fits(
            s.world.processes[id as int].byproduct_modifiers.index(b) + c,
        ),
        Effect::ModifyIndustryByproducts(id, b, c) => id < s.world.industries.len() && fits(
            s.world.industries[id as int].byproduct_modifiers.index(b) + c,
        ),
        Effect::ModifyIndustryResources(id, res, c) => id < s.world.industries.len() && fits(
            s.world.industries[id as int].resource_modifiers.index(res) + c,
        ),
        Effect::ModifyIndustryResourcesAmount(id, res, c) => id < s.world.industries.len()
            && fits(s.world.industries[id as int].resources.index(res) + c),
        Effect::ModifyIndustryDemand(id, c) => id < s.world.industries.len() && fits(
            s.world.industries[id as int].demand_modifier + c,
        ),
        Effect::DemandOutlookChange(o, m) => forall|j: int|
            0 <= j < s.world.regions.len() ==> fits(
                s.world.regions[j].outlook + m * s.world.regions[j].demand_levels.index(o),
            ),
        Effect::IncomeOutlookChange(m) => forall|j: int|
            0 <= j < s.world.regions.len() ==> fits(
                s.world.regions[j].outlook + m * s.world.regions[j].income_level(),
            ),
        Effect::ProjectCostModifier(id, c) => id < s.world.projects.len() && fits(
            s.world.projects[id as int].cost_modifier + c,
        ),
        Effect::ProtectLand(p) => fits(s.protected_land + p),
    }
}

/// The state `apply` yields: the described mutation performed in
/// place, with the game-over hook run after the outlook-moving
/// variants.
pub open spec fn apply_spec(e: Effect, s: StateModel, region_id: Option<int>) -> StateModel {
    match e {
        Effect::GameOver => StateModel { game_over: true, ..s },
        Effect::AutoClick(_, _) => s,
        Effect::TerminationShock => s,
        Effect::BailOut(a) => StateModel {
            political_capital: (if s.political_capital < 0 {
                0
            } else {
                s.political_capital
            }) + a,
            ..s
        },
        Effect::WorldVariable(var, c) => match var {
            WorldVariable::Year => StateModel {
                world: WorldModel {
                    year: s.world.year + (if c > 0 {
                        c as int
                    } else {
                        0
                    }),
                    ..s.world
                },
                ..s
            },
            WorldVariable::Population => StateModel {
                world: WorldModel { population: s.world.population + c, ..s.world },
                ..s
            },
            WorldVariable::PopulationGrowth => StateModel {
                population_growth_modifier: s.population_growth_modifier + c,
                ..s
            },
            WorldVariable::Emissions => StateModel {
                byproduct_mods: s.byproduct_mods.update_index(
                    Byproduct::Co2,
                    s.byproduct_mods.co2 + c,
                ),
                co2_emissions: s.co2_emissions + c,
                ..s
            },
            WorldVariable::ExtinctionRate => StateModel {
                byproduct_mods: s.byproduct_mods.update_index(
                    Byproduct::Biodiversity,
                    s.byproduct_mods.biodiversity - c,
                ),
                ..s
            },
            WorldVariable::Outlook => check_game_over_spec(
                StateModel {
                    world: WorldModel { base_outlook: s.world.base_outlook + c, ..s.world },
                    ..s
                },
            ),
            WorldVariable::Temperature => StateModel {
                temperature_modifier: s.temperature_modifier + c,
                ..s
            },
            WorldVariable::WaterStress => StateModel { water_stress: s.water_stress + c, ..s },
            WorldVariable::SeaLevelRise => StateModel {
                world: WorldModel { sea_level_rise: s.world.sea_level_rise + c, ..s.world },
                ..s
            },
            WorldVariable::SeaLevelRiseRate => StateModel {
                sea_level_rise_modifier: s.sea_level_rise_modifier + c,
                ..s
            },
            WorldVariable::Precipitation => StateModel { precipitation: s.precipitation + c, ..s },
        },
        Effect::PlayerVariable(var, c) => match var {
            PlayerVariable::PoliticalCapital => StateModel {
                political_capital: s.political_capital + c,
                ..s
            },
            PlayerVariable::ResearchPoints => StateModel {
                research_points: s.research_points + c,
                ..s
            },
            PlayerVariable::YearsToDeath => s,
        },
        Effect::RegionHabitability(lat, c) => StateModel {
            world: WorldModel { regions: hab_shift(s.world.regions, lat, c as int, false), ..s.world },
            ..s
        },
        Effect::Resource(res, a) => StateModel {
            resources: s.resources.update_index(res, s.resources.index(res) + a),
            ..s
        },
        Effect::Demand(o, c) => StateModel {
            output_demand_modifier: s.output_demand_modifier.update_index(
                o,
                s.output_demand_modifier.index(o) + c,
            ),
            ..s
        },
        Effect::DemandAmount(o, c) => StateModel {
            output_demand_extras: s.output_demand_extras.update_index(
                o,
                s.output_demand_extras.index(o) + c,
            ),
            ..s
        },
        Effect::Output(o, c) => StateModel {
            output_modifier: s.output_modifier.update_index(o, s.output_modifier.index(o) + c),
            ..s
        },
        Effect::OutputForFeature(feat, c) => StateModel {
            world: WorldModel {
                processes: output_feature_shift(s.world.processes, feat, c as int, false),
                ..s.world
            },
            ..s
        },
        Effect::CO2ForFeature(feat, c) => StateModel {
            world: WorldModel {
                processes: byproduct_feature_shift(
                    s.world.processes,
                    feat,
                    Byproduct::Co2,
                    c as int,
                    false,
                ),
                ..s.world
            },
            ..s
        },
        Effect::BiodiversityPressureForFeature(feat, c) => StateModel {
            world: WorldModel {
                processes: byproduct_feature_shift(
                    s.world.processes,
                    feat,
                    Byproduct::Biodiversity,
                    c as int,
                    false,
                ),
                ..s.world
            },
            ..s
        },
        Effect::OutputForProcess(id, c) => StateModel {
            world: WorldModel {
                processes: s.world.processes.update(
                    id as int,
                    ProcessModel {
                        output_modifier: s.world.processes[id as int].output_modifier + c,
                        ..s.world.processes[id as int]
                    },
                ),
                ..s.world
            },
            ..s
        },
        Effect::ProcessLimit(id, c) => StateModel {
            world: WorldModel {
                processes: s.world.processes.update(
                    id as int,
                    ProcessModel {
                        limit: match s.world.processes[id as int].limit {
                            Some(l) => Some(l + c),
                            None => None,
                        },
                        ..s.world.processes[id as int]
                    },
                ),
                ..s.world
            },
            ..s
        },
        Effect::Feedstock(fs, p) => StateModel {
            feedstocks: s.feedstocks.update_index(
                fs,
                div_toward_zero(s.feedstocks.index(fs) * (100 + p), 100),
            ),
            ..s
        },
        Effect::AddEvent(id) => StateModel {
            event_pool: pool_unlock(s.event_pool, id as int),
            ..s
        },
        Effect::TriggerEvent(id, years) => StateModel {
            event_pool: pool_queue(s.event_pool, id as int, region_id, years as int),
            ..s
        },
        Effect::ModifyEventProbability(id, c) => StateModel {
            event_pool: pool_modify_prob(s.event_pool, id as int, c as int),
            ..s
        },
        Effect::LocksProject(id) => StateModel {
            world: WorldModel {
                projects: s.world.projects.update(
                    id as int,
                    ProjectModel { locked: true, ..s.world.projects[id as int] },
                ),
                ..s.world
            },
            ..s
        },
        Effect::UnlocksProject(id) => StateModel {
            world: WorldModel {
                projects: s.world.projects.update(
                    id as int,
                    ProjectModel { locked: false, ..s.world.projects[id as int] },
                ),
                ..s.world
            },
            ..s
        },
        Effect::UnlocksProcess(id) => StateModel {
            world: WorldModel {
                processes: s.world.processes.update(
                    id as int,
                    ProcessModel { locked: false, ..s.world.processes[id as int] },
                ),
                ..s.world
            },
            ..s
        },
        Effect::UnlocksNPC(id) => StateModel {
            npcs: s.npcs.update(id as int, NpcModel { locked: false, ..s.npcs[id as int] }),
            ..s
        },
        Effect::ProjectRequest(id, active, bounty) => StateModel {
            requests: s.requests.push((Request::Project, id as int, active, bounty as int)),
            ..s
        },
        Effect::ProcessRequest(id, active, bounty) => StateModel {
            requests: s.requests.push((Request::Process, id as int, active, bounty as int)),
            ..s
        },
        Effect::Migration => match region_id {
            Some(id) => StateModel {
                world: WorldModel { regions: migration_regions(s, id), ..s.world },
                ..s
            },
            None => s,
        },
        Effect::RegionLeave => match region_id {
            Some(id) => StateModel {
                world: WorldModel {
                    regions: s.world.regions.update(
                        id,
                        RegionModel { seceded: true, ..s.world.regions[id] },
                    ),
                    ..s.world
                },
                ..s
            },
            None => s,
        },
        Effect::AddRegionFlag(flag) => match region_id {
            Some(id) => StateModel {
                world: WorldModel {
                    regions: s.world.regions.update(
                        id,
                        RegionModel {
                            flags: s.world.regions[id].flags.push(flag@),
                            ..s.world.regions[id]
                        },
                    ),
                    ..s.world
                },
                ..s
            },
            None => s,
        },
        Effect::AddFlag(flag) => StateModel { flags: s.flags.push(flag), ..s },
        Effect::NPCRelationship(id, c) => StateModel {
            npcs: s.npcs.update(
                id as int,
                NpcModel { relationship: s.npcs[id as int].relationship + c, ..s.npcs[id as int] },
            ),
            ..s
        },
        Effect::ModifyProcessByproducts(id, b, c) => StateModel {
            world: WorldModel {
                processes: s.world.processes.update(
                    id as int,
                    ProcessModel {
                        byproduct_modifiers: s.world.processes[
                            id as int
                        ].byproduct_modifiers.update_index(
                            b,
                            s.world.processes[id as int].byproduct_modifiers.index(b) + c,
                        ),
                        ..s.world.processes[id as int]
                    },
                ),
                ..s.world
            },
            ..s
        },
        Effect::ModifyIndustryByproducts(id, b, c) => StateModel {
            world: WorldModel {
                industries: s.world.industries.update(
                    id as int,
                    crate::state::IndustryModel {
                        byproduct_modifiers: s.world.industries[
                            id as int
                        ].byproduct_modifiers.update_index(
                            b,
                            s.world.industries[id as int].byproduct_modifiers.index(b) + c,
                        ),
                        ..s.world.industries[id as int]
                    },
                ),
                ..s.world
            },
            ..s
        },
        Effect::ModifyIndustryResources(id, res, c) => StateModel {
            world: WorldModel {
                industries: s.world.industries.update(
                    id as int,
                    crate::state::IndustryModel {
                        resource_modifiers: s.world.industries[
                            id as int
                        ].resource_modifiers.update_index(
                            res,
                            s.world.industries[id as int].resource_modifiers.index(res) + c,
                        ),
                        ..s.world.industries[id as int]
                    },
                ),
                ..s.world
            },
            ..s
        },
        Effect::ModifyIndustryResourcesAmount(id, res, c) => StateModel {
            world: WorldModel {
                industries: s.world.industries.update(
                    id as int,
                    crate::state::IndustryModel {
                        resources: s.world.industries[id as int].resources.update_index(
                            res,
                            s.world.industries[id as int].resources.index(res) + c,
                        ),
                        ..s.world.industries[id as int]
                    },
                ),
                ..s.world
            },
            ..s
        },
        Effect::ModifyIndustryDemand(id, c) => StateModel {
            world: WorldModel {
                industries: s.world.industries.update(
                    id as int,
                    crate::state::IndustryModel {
                        demand_modifier: s.world.industries[id as int].demand_modifier + c,
                        ..s.world.industries[id as int]
                    },
                ),
                ..s.world
            },
            ..s
        },
        Effect::DemandOutlookChange(o, m) => check_game_over_spec(
            StateModel {
                world: WorldModel {
                    regions: demand_outlook_shift(s.world.regions, o, m as int, false),
                    ..s.world
                },
                ..s
            },
        ),
        Effect::IncomeOutlookChange(m) => check_game_over_spec(
            StateModel {
                world: WorldModel {
                    regions: income_outlook_shift(s.world.regions, m as int, false),
                    ..s.world
                },
                ..s
            },
        ),
        Effect::ProjectCostModifier(id, c) => StateModel {
            world: WorldModel {
                projects: s.world.projects.update(
                    id as int,
                    ProjectModel {
                        cost_modifier: s.world.projects[id as int].cost_modifier + c,
                        ..s.world.projects[id as int]
                    },
                ),
                ..s.world
            },
            ..s
        },
        Effect::ProtectLand(p) => StateModel { protected_land: s.protected_land + p, ..s },
    }
}

/// Whether `unapply` is defined for this effect on this state.
pub open spec fn can_unapply(e: Effect, s: StateModel, region_id: Option<int>) -> bool {
    match e {
        Effect::WorldVariable(var, c) => match var {
            WorldVariable::Year => fits(
                s.world.year - (if c > 0 {
                    c as int
                } else {
                    0
                }),
            ),
            WorldVariable::Population => fits(s.world.population - c),
            WorldVariable::PopulationGrowth => fits(s.population_growth_modifier - c),
            WorldVariable::Emissions => fits(s.byproduct_mods.co2 - c) && fits(
                s.co2_emissions - c,
            ),
            WorldVariable::ExtinctionRate => fits(s.byproduct_mods.biodiversity + c),
            WorldVariable::Outlook => fits(s.world.base_outlook - c),
            WorldVariable::Temperature => fits(s.temperature_modifier - c),
            WorldVariable::WaterStress => fits(s.water_stress - c),
            WorldVariable::SeaLevelRise => fits(s.world.sea_level_rise - c),
            WorldVariable::SeaLevelRiseRate => fits(s.sea_level_rise_modifier - c),
            WorldVariable::Precipitation => fits(s.precipitation - c),
        },
        Effect::PlayerVariable(var, c) => match var {
            PlayerVariable::PoliticalCapital => fits(s.political_capital - c),
            PlayerVariable::ResearchPoints => fits(s.research_points - c),
            PlayerVariable::YearsToDeath => true,
        },
        Effect::RegionHabitability(lat, c) => forall|j: int|
            0 <= j < s.world.regions.len() && s.world.regions[j].latitude == lat ==> fits(
                s.world.regions[j].base_habitability - c,
            ),
        Effect::Resource(res, a) => fits(s.resources.index(res) - a),
        Effect::Demand(o, c) => fits(s.output_demand_modifier.index(o) - c),
        Effect::DemandAmount(o, c) => fits(s.output_demand_extras.index(o) - c),
        Effect::Output(o, c) => fits(s.output_modifier.index(o) - c),
        Effect::OutputForFeature(feat, c) => forall|j: int|
            0 <= j < s.world.processes.len() && s.world.processes[j].features.contains(feat)
                ==> fits(s.world.processes[j].output_modifier - c),
        Effect::CO2ForFeature(feat, c) => forall|j: int|
            0 <= j < s.world.processes.len() && s.world.processes[j].features.contains(feat)
                ==> fits(s.world.processes[j].byproduct_modifiers.co2 - c),
        Effect::BiodiversityPressureForFeature(feat, c) => forall|j: int|
            0 <= j < s.world.processes.len() && s.world.processes[j].features.contains(feat)
                ==> fits(s.world.processes[j].byproduct_modifiers.biodiversity - c),
        Effect::OutputForProcess(id, c) => id < s.world.processes.len() && fits(
            s.world.processes[id as int].output_modifier - c,
        ),
        Effect::ProcessLimit(id, c) => id < s.world.processes.len() && match s.world.processes[
            id as int
        ].limit {
            Some(l) => fits(l - c),
            None => true,
        },
        Effect::Feedstock(fs, p) => 100 + p != 0 && fits(
            div_toward_zero(s.feedstocks.index(fs) * 100, 100 + p),
        ),
        Effect::ModifyEventProbability(id, c) => pool_has_event(s.event_pool, id as int) && fits(
            -(c as int),
        ) && forall|j: int|
            0 <= j < s.event_pool.len() && s.event_pool[j].0.id == id as int ==> fits(
                s.event_pool[j].0.prob_modifier - c,
            ),
        Effect::NPCRelationship(id, c) => id < s.npcs.len() && fits(
            s.npcs[id as int].relationship - c,
        ),
        Effect::ModifyProcessByproducts(id, b, c) => id < s.world.processes.len() && fits(
            s.world.processes[id as int].byproduct_modifiers.index(b) - c,
        ),
        Effect::ModifyIndustryByproducts(id, b, c) => id < s.world.industries.len() && fits(
            s.world.industries[id as int].byproduct_modifiers.index(b) - c,
        ),
        Effect::ModifyIndustryResources(id, res, c) => id < s.world.industries.len() && fits(
            s.world.industries[id as int].resource_modifiers.index(res) - c,
        ),
        Effect::ModifyIndustryResourcesAmount(id, res, c) => id < s.world.industries.len()
            && fits(s.world.industries[id as int].resources.index(res) - c),
        Effect::ModifyIndustryDemand(id, c) => id < s.world.industries.len() && fits(
            s.world.industries[id as int].demand_modifier - c,
        ),
        Effect::DemandOutlookChange(o, m) => forall|j: int|
            0 <= j < s.world.regions.len() ==> fits(
                s.world.regions[j].outlook - m * s.world.regions[j].demand_levels.index(o),
            ),
        Effect::IncomeOutlookChange(m) => forall|j: int|
            0 <= j < s.world.regions.len() ==> fits(
                s.world.regions[j].outlook - m * s.world.regions[j].income_level(),
            ),
        Effect::ProjectCostModifier(id, c) => id < s.world.projects.len() && fits(
            s.world.projects[id as int].cost_modifier - c,
        ),
        Effect::TerminationShock => {
            let j = first_named(s.world.projects, "Solar Radiation Management"@);
            j >= 0 && {
                let p = s.world.projects[j];
                0 <= p.level <= p.upgrades.len() && fits(
                    s.temperature_modifier - sum_temperature(level_effects(p)),
                )
            }
        },
        Effect::ProtectLand(p) => fits(s.protected_land - p),
        Effect::AddFlag(_) => true,
        Effect::LocksProject(id) => id < s.world.projects.len(),
        Effect::UnlocksProject(id) => id < s.world.projects.len(),
        Effect::UnlocksProcess(id) => id < s.world.processes.len(),
        Effect::UnlocksNPC(id) => id < s.npcs.len(),
        _ => true,
    }
}

/// The state `unapply` yields: the literal inverse for reversible
/// variants, and the state unchanged for the documented
/// one-directional ones.
pub open spec fn unapply_spec(e: Effect, s: StateModel, region_id: Option<int>) -> StateModel {
    match e {
        Effect::WorldVariable(var, c) => match var {
            WorldVariable::Year => StateModel {
                world: WorldModel {
                    year: s.world.year - (if c > 0 {
                        c as int
                    } else {
                        0
                    }),
                    ..s.world
                },
                ..s
            },
            WorldVariable::Population => StateModel {
                world: WorldModel { population: s.world.population - c, ..s.world },
                ..s
            },
            WorldVariable::PopulationGrowth => StateModel {
                population_growth_modifier: s.population_growth_modifier - c,
                ..s
            },
            WorldVariable::Emissions => StateModel {
                byproduct_mods: s.byproduct_mods.update_index(
                    Byproduct::Co2,
                    s.byproduct_mods.co2 - c,
                ),
                co2_emissions: s.co2_emissions - c,
                ..s
            },
            WorldVariable::ExtinctionRate => StateModel {
                byproduct_mods: s.byproduct_mods.update_index(
                    Byproduct::Biodiversity,
                    s.byproduct_mods.biodiversity + c,
                ),
                ..s
            },
            WorldVariable::Outlook => StateModel {
                world: WorldModel { base_outlook: s.world.base_outlook - c, ..s.world },
                ..s
            },
            WorldVariable::Temperature => StateModel {
                temperature_modifier: s.temperature_modifier - c,
                ..s
            },
            WorldVariable::WaterStress => StateModel { water_stress: s.water_stress - c, ..s },
            WorldVariable::SeaLevelRise => StateModel {
                world: WorldModel { sea_level_rise: s.world.sea_level_rise - c, ..s.world },
                ..s
            },
            WorldVariable::SeaLevelRiseRate => StateModel {
                sea_level_rise_modifier: s.sea_level_rise_modifier - c,
                ..s
            },
            WorldVariable::Precipitation => StateModel { precipitation: s.precipitation - c, ..s },
        },
        Effect::PlayerVariable(var, c) => match var {
            PlayerVariable::PoliticalCapital => StateModel {
                political_capital: s.political_capital - c,
                ..s
            },
            PlayerVariable::ResearchPoints => StateModel {
                research_points: s.research_points - c,
                ..s
            },
            PlayerVariable::YearsToDeath => s,
        },
        Effect::RegionHabitability(lat, c) => StateModel {
            world: WorldModel { regions: hab_shift(s.world.regions, lat, c as int, true), ..s.world },
            ..s
        },
        Effect::Resource(res, a) => StateModel {
            resources: s.resources.update_index(res, s.resources.index(res) - a),
            ..s
        },
        Effect::Demand(o, c) => StateModel {
            output_demand_modifier: s.output_demand_modifier.update_index(
                o,
                s.output_demand_modifier.index(o) - c,
            ),
            ..s
        },
        Effect::DemandAmount(o, c) => StateModel {
            output_demand_extras: s.output_demand_extras.update_index(
                o,
                s.output_demand_extras.index(o) - c,
            ),
            ..s
        },
        Effect::Output(o, c) => StateModel {
            output_modifier: s.output_modifier.update_index(o, s.output_modifier.index(o) - c),
            ..s
        },
        Effect::OutputForFeature(feat, c) => StateModel {
            world: WorldModel {
                processes: output_feature_shift(s.world.processes, feat, c as int, true),
                ..s.world
            },
            ..s
        },
        Effect::CO2ForFeature(feat, c) => StateModel {
            world: WorldModel {
                processes: byproduct_feature_shift(
                    s.world.processes,
                    feat,
                    Byproduct::Co2,
                    c as int,
                    true,
                ),
                ..s.world
            },
            ..s
        },
        Effect::BiodiversityPressureForFeature(feat, c) => StateModel {
            world: WorldModel {
                processes: byproduct_feature_shift(
                    s.world.processes,
                    feat,
                    Byproduct::Biodiversity,
                    c as int,
                    true,
                ),
                ..s.world
            },
            ..s
        },
        Effect::OutputForProcess(id, c) => StateModel {
            world: WorldModel {
                processes: s.world.processes.update(
                    id as int,
                    ProcessModel {
                        output_modifier: s.world.processes[id as int].output_modifier - c,
                        ..s.world.processes[id as int]
                    },
                ),
                ..s.world
            },
            ..s
        },
        Effect::ProcessLimit(id, c) => StateModel {
            world: WorldModel {
                processes: s.world.processes.update(
                    id as int,
                    ProcessModel {
                        limit: match s.world.processes[id as int].limit {
                            Some(l) => Some(l - c),
                            None => None,
                        },
                        ..s.world.processes[id as int]
                    },
                ),
                ..s.world
            },
            ..s
        },
        Effect::Feedstock(fs, p) => StateModel {
            feedstocks: s.feedstocks.update_index(
                fs,
                div_toward_zero(s.feedstocks.index(fs) * 100, 100 + p),
            ),
            ..s
        },
        Effect::ModifyEventProbability(id, c) => StateModel {
            event_pool: pool_modify_prob(s.event_pool, id as int, -(c as int)),
            ..s
        },
        Effect::NPCRelationship(id, c) => StateModel {
            npcs: s.npcs.update(
                id as int,
                NpcModel { relationship: s.npcs[id as int].relationship - c, ..s.npcs[id as int] },
            ),
            ..s
        },
        Effect::ModifyProcessByproducts(id, b, c) => StateModel {
            world: WorldModel {
                processes: s.world.processes.update(
                    id as int,
                    ProcessModel {
                        byproduct_modifiers: s.world.processes[
                            id as int
                        ].byproduct_modifiers.update_index(
                            b,
                            s.world.processes[id as int].byproduct_modifiers.index(b) - c,
                        ),
                        ..s.world.processes[id as int]
                    },
                ),
                ..s.world
            },
            ..s
        },
        Effect::ModifyIndustryByproducts(id, b, c) => StateModel {
            world: WorldModel {
                industries: s.world.industries.update(
                    id as int,
                    crate::state::IndustryModel {
                        byproduct_modifiers: s.world.industries[
                            id as int
                        ].byproduct_modifiers.update_index(
                            b,
                            s.world.industries[id as int].byproduct_modifiers.index(b) - c,
                        ),
                        ..s.world.industries[id as int]
                    },
                ),
                ..s.world
            },
            ..s
        },
        Effect::ModifyIndustryResources(id, res, c) => StateModel {
            world: WorldModel {
                industries: s.world.industries.update(
                    id as int,
                    crate::state::IndustryModel {
                        resource_modifiers: s.world.industries[
                            id as int
                        ].resource_modifiers.update_index(
                            res,
                            s.world.industries[id as int].resource_modifiers.index(res) - c,
                        ),
                        ..s.world.industries[id as int]
                    },
                ),
                ..s.world
            },
            ..s
        },
        Effect::ModifyIndustryResourcesAmount(id, res, c) => StateModel {
            world: WorldModel {
                industries: s.world.industries.update(
                    id as int,
                    crate::state::IndustryModel {
                        resources: s.world.industries[id as int].resources.update_index(
                            res,
                            s.world.industries[id as int].resources.index(res) - c,
                        ),
                        ..s.world.industries[id as int]
                    },
                ),
                ..s.world
            },
            ..s
        },
        Effect::ModifyIndustryDemand(id, c) => StateModel {
            world: WorldModel {
                industries: s.world.industries.update(
                    id as int,
                    crate::state::IndustryModel {
                        demand_modifier: s.world.industries[id as int].demand_modifier - c,
                        ..s.world.industries[id as int]
                    },
                ),
                ..s.world
            },
            ..s
        },
        Effect::DemandOutlookChange(o, m) => StateModel {
            world: WorldModel {
                regions: demand_outlook_shift(s.world.regions, o, m as int, true),
                ..s.world
            },
            ..s
        },
        Effect::IncomeOutlookChange(m) => StateModel {
            world: WorldModel {
                regions: income_outlook_shift(s.world.regions, m as int, true),
                ..s.world
            },
            ..s
        },
        Effect::ProjectCostModifier(id, c) => StateModel {
            world: WorldModel {
                projects: s.world.projects.update(
                    id as int,
                    ProjectModel {
                        cost_modifier: s.world.projects[id as int].cost_modifier - c,
                        ..s.world.projects[id as int]
                    },
                ),
                ..s.world
            },
            ..s
        },
        Effect::TerminationShock => {
            let j = first_named(s.world.projects, "Solar Radiation Management"@);
            StateModel {
                temperature_modifier: s.temperature_modifier - sum_temperature(
                    level_effects(s.world.projects[j]),
                ),
                ..s
            }
        },
        Effect::ProtectLand(p) => StateModel { protected_land: s.protected_land - p, ..s },
        Effect::AddFlag(flag) => StateModel { flags: remove_first_flag(s.flags, flag), ..s },
        Effect::LocksProject(id) => StateModel {
            world: WorldModel {
                projects: s.world.projects.update(
                    id as int,
                    ProjectModel { locked: false, ..s.world.projects[id as int] },
                ),
                ..s.world
            },
            ..s
        },
        Effect::UnlocksProject(id) => StateModel {
            world: WorldModel {
                projects: s.world.projects.update(
                    id as int,
                    ProjectModel { locked: true, ..s.world.projects[id as int] },
                ),
                ..s.world
            },
            ..s
        },
        Effect::UnlocksProcess(id) => StateModel {
            world: WorldModel {
                processes: s.world.processes.update(
                    id as int,
                    ProcessModel { locked: true, ..s.world.processes[id as int] },
                ),
                ..s.world
            },
            ..s
        },
        Effect::UnlocksNPC(id) => StateModel {
            npcs: s.npcs.update(id as int, NpcModel { locked: true, ..s.npcs[id as int] }),
            ..s
        },
        _ => s,
    }
}

/// Move the habitability of every region in the latitude band.
fn shift_habitability(regions: &mut Vec<Region>, lat: Latitude, d: i64, neg: bool)
    requires
        forall|j: int|
            #![trigger old(regions)@[j]]
            0 <= j < old(regions)@.len() && old(regions)@[j]@.latitude == lat ==> fits(
                shifted(old(regions)@[j]@.base_habitability, d as int, neg),
            ),
    ensures
        regions_model(final(regions)@) == hab_shift(
            regions_model(old(regions)@),
            lat,
            d as int,
            neg,
        ),
{
    let ghost pre = regions_model(regions@);
    let n = regions.len();
    let mut i: usize = 0;
    while i < n
        invariant
            0 <= i <= n,
            n == regions@.len(),
            pre.len() == n,
            pre == regions_model(old(regions)@),
            forall|j: int|
                #![trigger pre[j]]
                0 <= j < n && pre[j].latitude == lat ==> fits(
                    shifted(pre[j].base_habitability, d as int, neg),
                ),
            forall|j: int|
                #![trigger pre[j]]
                0 <= j < i && pre[j].latitude == lat ==> regions_model(regions@)[j] == (
                RegionModel { base_habitability: shifted(pre[j].base_habitability, d as int, neg), ..pre[j] }),
            forall|j: int| 0 <= j < i && pre[j].latitude != lat ==> regions_model(regions@)[j] == pre[j],
            forall|j: int| i <= j < n ==> regions_model(regions@)[j] == pre[j],
        decreases n - i,
    {
        proof {
            assert(regions_model(regions@)[i as int] == pre[i as int]);
        }
        if regions[i].latitude == lat {
            let x = regions[i].base_habitability;
            let v: i64 = if neg {
                x - d
            } else {
                x + d
            };
            regions[i].base_habitability = v;
            proof {
                assert(regions_model(regions@)[i as int] =~= (RegionModel {
                    base_habitability: shifted(pre[i as int].base_habitability, d as int, neg),
                    ..pre[i as int]
                }));
            }
        }
        i += 1;
    }
    proof {
        assert forall|j: int| 0 <= j < pre.len() implies regions_model(regions@)[j] == hab_shift(
            pre,
            lat,
            d as int,
            neg,
        )[j] by {
            if pre[j].latitude == lat {
            } else {
            }
        }
        assert(regions_model(regions@) =~= hab_shift(pre, lat, d as int, neg));
    }
}

/// Move the output modifier of every process with the feature.
fn shift_output_for_feature(processes: &mut Vec<Process>, feat: ProcessFeature, d: i64, neg: bool)
    requires
        forall|j: int|
            #![trigger old(processes)@[j]]
            0 <= j < old(processes)@.len() && old(processes)@[j]@.features.contains(feat) ==> fits(
                shifted(old(processes)@[j]@.output_modifier, d as int, neg),
            ),
    ensures
        processes_model(final(processes)@) == output_feature_shift(
            processes_model(old(processes)@),
            feat,
            d as int,
            neg,
        ),
{
    let ghost pre = processes_model(processes@);
    let n = processes.len();
    let mut i: usize = 0;
    while i < n
        invariant
            0 <= i <= n,
            n == processes@.len(),
            pre.len() == n,
            pre == processes_model(old(processes)@),
            forall|j: int|
                #![trigger pre[j]]
                0 <= j < n && pre[j].features.contains(feat) ==> fits(
                    shifted(pre[j].output_modifier, d as int, neg),
                ),
            forall|j: int|
                #![trigger pre[j]]
                0 <= j < i && pre[j].features.contains(feat) ==> processes_model(processes@)[j]
                    == (ProcessModel { output_modifier: shifted(pre[j].output_modifier, d as int, neg), ..pre[j] }),
            forall|j: int|
                0 <= j < i && !pre[j].features.contains(feat) ==> processes_model(processes@)[j]
                    == pre[j],
            forall|j: int| i <= j < n ==> processes_model(processes@)[j] == pre[j],
        decreases n - i,
    {
        proof {
            assert(processes_model(processes@)[i as int] == pre[i as int]);
        }
        if processes[i].has_feature(feat) {
            let x = processes[i].output_modifier;
            let v: i64 = if neg {
                x - d
            } else {
                x + d
            };
            processes[i].output_modifier = v;
            proof {
                assert(processes_model(processes@)[i as int] =~= (ProcessModel {
                    output_modifier: shifted(pre[i as int].output_modifier, d as int, neg),
                    ..pre[i as int]
                }));
            }
        }
        i += 1;
    }
    proof {
        assert forall|j: int|
            0 <= j < pre.len() implies processes_model(processes@)[j] == output_feature_shift(
            pre,
            feat,
            d as int,
            neg,
        )[j] by {
            if pre[j].features.contains(feat) {
            } else {
            }
        }
        assert(processes_model(processes@) =~= output_feature_shift(pre, feat, d as int, neg));
    }
}

/// Move one byproduct modifier of every process with the feature.
fn shift_byproduct_for_feature(
    processes: &mut Vec<Process>,
    feat: ProcessFeature,
    k: Byproduct,
    d: i64,
    neg: bool,
)
    requires
        forall|j: int|
            #![trigger old(processes)@[j]]
            0 <= j < old(processes)@.len() && old(processes)@[j]@.features.contains(feat) ==> fits(
                shifted(old(processes)@[j]@.byproduct_modifiers.index(k), d as int, neg),
            ),
    ensures
        processes_model(final(processes)@) == byproduct_feature_shift(
            processes_model(old(processes)@),
            feat,
            k,
            d as int,
            neg,
        ),
{
    let ghost pre = processes_model(processes@);
    let n = processes.len();
    let mut i: usize = 0;
    while i < n
        invariant
            0 <= i <= n,
            n == processes@.len(),
            pre.len() == n,
            pre == processes_model(old(processes)@),
            forall|j: int|
                #![trigger pre[j]]
                0 <= j < n && pre[j].features.contains(feat) ==> fits(
                    shifted(pre[j].byproduct_modifiers.index(k), d as int, neg),
                ),
            forall|j: int|
                #![trigger pre[j]]
                0 <= j < i && pre[j].features.contains(feat) ==> processes_model(processes@)[j]
                    == (ProcessModel {
                    byproduct_modifiers: pre[j].byproduct_modifiers.update_index(
                        k,
                        shifted(pre[j].byproduct_modifiers.index(k), d as int, neg),
                    ),
                    ..pre[j]
                }),
            forall|j: int|
                0 <= j < i && !pre[j].features.contains(feat) ==> processes_model(processes@)[j]
                    == pre[j],
            forall|j: int| i <= j < n ==> processes_model(processes@)[j] == pre[j],
        decreases n - i,
    {
        proof {
            assert(processes_model(processes@)[i as int] == pre[i as int]);
        }
        if processes[i].has_feature(feat) {
            let x = processes[i].byproduct_modifiers.get(k);
            let v: i64 = if neg {
                x - d
            } else {
                x + d
            };
            processes[i].byproduct_modifiers.set(k, v);
            proof {
                assert(processes_model(processes@)[i as int] =~= (ProcessModel {
                    byproduct_modifiers: pre[i as int].byproduct_modifiers.update_index(
                        k,
                        shifted(pre[i as int].byproduct_modifiers.index(k), d as int, neg),
                    ),
                    ..pre[i as int]
                }));
            }
        }
        i += 1;
    }
    proof {
        assert forall|j: int|
            0 <= j < pre.len() implies processes_model(processes@)[j] == byproduct_feature_shift(
            pre,
            feat,
            k,
            d as int,
            neg,
        )[j] by {
            if pre[j].features.contains(feat) {
            } else {
            }
        }
        assert(processes_model(processes@) =~= byproduct_feature_shift(pre, feat, k, d as int, neg));
    }
}

/// Move every region's outlook by `m` times its income level.
fn shift_income_outlook(regions: &mut Vec<Region>, m: i64, neg: bool)
    requires
        forall|j: int|
            #![trigger old(regions)@[j]]
            0 <= j < old(regions)@.len() ==> fits(
                shifted(old(regions)@[j]@.outlook, m * old(regions)@[j]@.income_level(), neg),
            ),
    ensures
        regions_model(final(regions)@) == income_outlook_shift(
            regions_model(old(regions)@),
            m as int,
            neg,
        ),
{
    let ghost pre = regions_model(regions@);
    let n = regions.len();
    let mut i: usize = 0;
    while i < n
        invariant
            0 <= i <= n,
            n == regions@.len(),
            pre.len() == n,
            pre == regions_model(old(regions)@),
            forall|j: int|
                #![trigger pre[j]]
                0 <= j < n ==> fits(shifted(pre[j].outlook, m * pre[j].income_level(), neg)),
            forall|j: int|
                #![trigger pre[j]]
                0 <= j < i ==> regions_model(regions@)[j] == (RegionModel {
                    outlook: shifted(pre[j].outlook, m * pre[j].income_level(), neg),
                    ..pre[j]
                }),
            forall|j: int| i <= j < n ==> regions_model(regions@)[j] == pre[j],
        decreases n - i,
    {
        proof {
            assert(regions_model(regions@)[i as int] == pre[i as int]);
        }
        let lvl = regions[i].income_level();
        let x = regions[i].outlook;
        let v128: i128 = if neg {
            x as i128 - (m as i128) * (lvl as i128)
        } else {
            x as i128 + (m as i128) * (lvl as i128)
        };
        let v: i64 = v128 as i64;
        regions[i].outlook = v;
        proof {
            assert(regions_model(regions@)[i as int] =~= (RegionModel {
                outlook: shifted(pre[i as int].outlook, m * pre[i as int].income_level(), neg),
                ..pre[i as int]
            }));
        }
        i += 1;
    }
    proof {
        assert forall|j: int|
            0 <= j < pre.len() implies regions_model(regions@)[j] == income_outlook_shift(
            pre,
            m as int,
            neg,
        )[j] by {}
        assert(regions_model(regions@) =~= income_outlook_shift(pre, m as int, neg));
    }
}

/// Move every region's outlook by `m` times its demand level for
/// the output.
fn shift_demand_outlook(regions: &mut Vec<Region>, o: Output, m: i64, neg: bool)
    requires
        forall|j: int|
            #![trigger old(regions)@[j]]
            0 <= j < old(regions)@.len() ==> fits(
                shifted(
                    old(regions)@[j]@.outlook,
                    m * old(regions)@[j]@.demand_levels.index(o),
                    neg,
                ),
            ),
    ensures
        regions_model(final(regions)@) == demand_outlook_shift(
            regions_model(old(regions)@),
            o,
            m as int,
            neg,
        ),
{
    let ghost pre = regions_model(regions@);
    let n = regions.len();
    let mut i: usize = 0;
    while i < n
        invariant
            0 <= i <= n,
            n == regions@.len(),
            pre.len() == n,
            pre == regions_model(old(regions)@),
            forall|j: int|
                #![trigger pre[j]]
                0 <= j < n ==> fits(
                    shifted(pre[j].outlook, m * pre[j].demand_levels.index(o), neg),
                ),
            forall|j: int|
                #![trigger pre[j]]
                0 <= j < i ==> regions_model(regions@)[j] == (RegionModel {
                    outlook: shifted(pre[j].outlook, m * pre[j].demand_levels.index(o), neg),
                    ..pre[j]
                }),
            forall|j: int| i <= j < n ==> regions_model(regions@)[j] == pre[j],
        decreases n - i,
    {
        proof {
            assert(regions_model(regions@)[i as int] == pre[i as int]);
        }
        let lvl = regions[i].demand_levels.get(o);
        let x = regions[i].outlook;
        let v128: i128 = if neg {
            x as i128 - (m as i128) * (lvl as i128)
        } else {
            x as i128 + (m as i128) * (lvl as i128)
        };
        let v: i64 = v128 as i64;
        regions[i].outlook = v;
        proof {
            assert(regions_model(regions@)[i as int] =~= (RegionModel {
                outlook: shifted(
                    pre[i as int].outlook,
                    m * pre[i as int].demand_levels.index(o),
                    neg,
                ),
                ..pre[i as int]
            }));
        }
        i += 1;
    }
    proof {
        assert forall|j: int|
            0 <= j < pre.len() implies regions_model(regions@)[j] == demand_outlook_shift(
            pre,
            o,
            m as int,
            neg,
        )[j] by {}
        assert(regions_model(regions@) =~= demand_outlook_shift(pre, o, m as int, neg));
    }
}

/// Removing the first occurrence of a present flag at index `idx`
/// agrees with `Seq::remove`.
proof fn lemma_remove_first_at(flags: Seq<Flag>, f: Flag, idx: int)
    requires
        0 <= idx < flags.len(),
        flags[idx] == f,
        forall|j: int| 0 <= j < idx ==> flags[j] != f,
    ensures
        remove_first_flag(flags, f) == flags.remove(idx),
    decreases idx,
{
    if idx == 0 {
        assert(flags.drop_first() =~= flags.remove(0));
    } else {
        lemma_remove_first_at(flags.drop_first(), f, idx - 1);
        assert(seq![flags[0]] + flags.drop_first().remove(idx - 1) =~= flags.remove(idx));
    }
}

/// Removing an absent flag changes nothing.
proof fn lemma_remove_first_absent(flags: Seq<Flag>, f: Flag)
    requires
        forall|j: int| 0 <= j < flags.len() ==> flags[j] != f,
    ensures
        remove_first_flag(flags, f) == flags,
    decreases flags.len(),
{
    if flags.len() > 0 {
        lemma_remove_first_absent(flags.drop_first(), f);
        assert(seq![flags[0]] + flags.drop_first() =~= flags);
    }
}

/// Remove the first occurrence of the flag, if it is present.
fn remove_flag(flags: &mut Vec<Flag>, f: Flag)
    ensures
        final(flags)@ == remove_first_flag(old(flags)@, f),
{
    let ghost pre = flags@;
    let n = flags.len();
    let mut i: usize = 0;
    while i < n
        invariant
            0 <= i <= n,
            n == flags@.len(),
            flags@ == pre,
            pre == old(flags)@,
            forall|j: int| 0 <= j < i ==> pre[j] != f,
        decreases n - i,
    {
        if flags[i] == f {
            flags.remove(i);
            proof {
                lemma_remove_first_at(pre, f, i as int);
            }
            return ;
        }
        i += 1;
    }
    proof {
        lemma_remove_first_absent(pre, f);
    }
}

/// Run the cross-cutting game-over rule: without the authoritarian
/// faction as an ally, a mean outlook below zero ends the game.
pub fn check_game_over(state: &mut State)
    ensures
        final(state)@ == check_game_over_spec(old(state)@),
{
    let name = "The Authoritarian".to_owned();
    let ally = state.is_ally(&name);
    let ol = state.outlook();
    if !ally && ol < 0 {
        state.game_over = true;
    }
}

/// Division toward zero by a positive divisor never grows the
/// magnitude.
proof fn lemma_dtz_bound(x: int, d: int)
    requires
        d >= 1,
    ensures
        x >= 0 ==> 0 <= div_toward_zero(x, d) <= x,
        x < 0 ==> x <= div_toward_zero(x, d) <= 0,
{
    if x >= 0 {
        vstd::arithmetic::div_mod::lemma_div_pos_is_pos(x, d);
        vstd::arithmetic::div_mod::lemma_div_nonincreasing(x, d);
    } else {
        vstd::arithmetic::div_mod::lemma_div_pos_is_pos(-x, d);
        vstd::arithmetic::div_mod::lemma_div_nonincreasing(-x, d);
    }
}

/// Division toward zero times the divisor stays between zero and
/// the dividend.
proof fn lemma_dtz_times_bound(a: int, m: int)
    requires
        m >= 1,
    ensures
        a >= 0 ==> 0 <= div_toward_zero(a, m) * m <= a,
        a < 0 ==> a <= div_toward_zero(a, m) * m <= 0,
{
    if a >= 0 {
        let q = a / m;
        assert(div_toward_zero(a, m) == q);
        vstd::arithmetic::div_mod::lemma_fundamental_div_mod(a, m);
        vstd::arithmetic::div_mod::lemma_remainder_lower(a, m);
        vstd::arithmetic::div_mod::lemma_div_pos_is_pos(a, m);
        assert(q * m == m * q) by (nonlinear_arith);
        assert(m * q <= a);
        assert(q * m >= 0) by (nonlinear_arith)
            requires
                q >= 0,
                m >= 1;
    } else {
        let b = -a;
        let q = b / m;
        assert(div_toward_zero(a, m) == -q);
        vstd::arithmetic::div_mod::lemma_fundamental_div_mod(b, m);
        vstd::arithmetic::div_mod::lemma_remainder_lower(b, m);
        vstd::arithmetic::div_mod::lemma_div_pos_is_pos(b, m);
        assert((-q) * m == -(m * q)) by (nonlinear_arith);
        assert(m * q <= b);
        assert(q * m >= 0) by (nonlinear_arith)
            requires
                q >= 0,
                m >= 1;
        assert(m * q == q * m) by (nonlinear_arith);
    }
}

/// Perform a migration wave out of region `id`: a share of its
/// population leaves and spreads evenly over the regions more
/// habitable than the mean; the division remainder stays with the
/// source region.
fn apply_migration(state: &mut State, id: usize)
    requires
        (id as int) < old(state)@.world.regions.len(),
        forall|j: int|
            0 <= j < old(state)@.world.regions.len() ==> fits(
                migration_regions(old(state)@, id as int)[j].population,
            ),
    ensures
        final(state)@ == (StateModel {
            world: WorldModel {
                regions: migration_regions(old(state)@, id as int),
                ..old(state)@.world
            },
            ..old(state)@
        }),
{
    let ghost s0 = state@;
    let ghost pre = s0.world.regions;
    let has_cb = state.has_flag(Flag::ClosedBorders);
    let d: i128 = if has_cb {
        20
    } else {
        10
    };
    let pop: i64 = state.world.regions[id].population;
    let pop128: i128 = pop as i128;
    let leave128: i128 = if pop128 >= 0 {
        pop128 / d
    } else {
        -((-pop128) / d)
    };
    proof {
        lemma_dtz_bound(pop as int, d as int);
        assert(leave128 == migration_leave(s0, id as int));
    }
    let n = state.world.regions.len();
    let mut sum: i128 = 0;
    let mut i: usize = 0;
    let ghost k: int = 0x8000_0000_0000_0000;
    while i < n
        invariant
            0 <= i <= n,
            n == state.world.regions@.len(),
            regions_model(state.world.regions@) == pre,
            pre.len() == n,
            k == 0x8000_0000_0000_0000,
            sum == sum_region_habitability(pre.take(i as int)),
            -(k * (i as int)) <= sum as int <= k * (i as int),
        decreases n - i,
    {
        proof {
            lemma_sum_habitability_take_step(pre, i as int);
            lemma_abs_bound_step(
                sum as int,
                state.world.regions@[i as int]@.base_habitability,
                i as int,
                k,
            );
            lemma_mul_le(k, i as int + 1, 0x1_0000_0000_0000_0000);
        }
        sum = sum + state.world.regions[i].base_habitability as i128;
        i += 1;
    }
    proof {
        assert(pre.take(n as int) =~= pre);
        lemma_mul_le(k, n as int, 0x1_0000_0000_0000_0000);
    }
    let mean128: i128 = if sum >= 0 {
        sum / (n as i128)
    } else {
        -((-sum) / (n as i128))
    };
    let ghost mean = div_toward_zero(sum_region_habitability(pre), pre.len() as int);
    proof {
        assert(mean128 == mean);
    }
    let mut m: usize = 0;
    let mut j: usize = 0;
    while j < n
        invariant
            0 <= j <= n,
            n == state.world.regions@.len(),
            regions_model(state.world.regions@) == pre,
            pre.len() == n,
            mean == mean128 as int,
            m <= j,
            m as int == count_targets(pre.take(j as int), id as int, mean),
        decreases n - j,
    {
        proof {
            lemma_count_targets_take_step(pre, id as int, mean, j as int);
            assert(pre[j as int] == state.world.regions@[j as int]@);
        }
        let rid = state.world.regions[j].id;
        let hab = state.world.regions[j].base_habitability;
        if rid != id && (hab as i128) > mean128 {
            m += 1;
        }
        j += 1;
    }
    proof {
        assert(pre.take(n as int) =~= pre);
    }
    let ghost mm = count_targets(pre, id as int, mean);
    let per128: i128 = if m == 0 {
        0
    } else {
        let mi = m as i128;
        if leave128 >= 0 {
            leave128 / mi
        } else {
            -((-leave128) / mi)
        }
    };
    proof {
        if m != 0 {
            lemma_dtz_bound(leave128 as int, m as int);
            lemma_dtz_times_bound(leave128 as int, m as int);
        }
    }
    let gone128: i128 = if m == 0 {
        leave128
    } else {
        per128 * (m as i128)
    };
    let mut j: usize = 0;
    while j < n
        invariant
            0 <= j <= n,
            n == state.world.regions@.len(),
            pre.len() == n,
            s0 == old(state)@,
            pre == s0.world.regions,
            (id as int) < n,
            leave128 as int == migration_leave(s0, id as int),
            mean == mean128 as int,
            mean == div_toward_zero(sum_region_habitability(pre), pre.len() as int),
            mm == count_targets(pre, id as int, mean),
            m as int == mm,
            per128 as int == (if mm == 0 {
                0int
            } else {
                div_toward_zero(migration_leave(s0, id as int), mm)
            }),
            gone128 as int == (if mm == 0 {
                migration_leave(s0, id as int)
            } else {
                div_toward_zero(migration_leave(s0, id as int), mm) * mm
            }),
            forall|jj: int|
                0 <= jj < n ==> fits(migration_regions(s0, id as int)[jj].population),
            forall|jj: int|
                #![trigger pre[jj]]
                0 <= jj < j ==> regions_model(state.world.regions@)[jj] == migration_regions(
                    s0,
                    id as int,
                )[jj],
            forall|jj: int|
                j <= jj < n ==> regions_model(state.world.regions@)[jj] == pre[jj],
            state.world.year == old(state).world.year,
            state.world.population == old(state).world.population,
            state.world.base_outlook == old(state).world.base_outlook,
            state.world.temperature == old(state).world.temperature,
            state.world.extinction_rate == old(state).world.extinction_rate,
            state.world.sea_level_rise == old(state).world.sea_level_rise,
            state.world.output_demand == old(state).world.output_demand,
            state.world.processes@ == old(state).world.processes@,
            state.world.industries@ == old(state).world.industries@,
            state.world.projects@ == old(state).world.projects@,
            state.game_over == old(state).game_over,
            state.political_capital == old(state).political_capital,
            state.research_points == old(state).research_points,
            state.population_growth_modifier == old(state).population_growth_modifier,
            state.temperature_modifier == old(state).temperature_modifier,
            state.water_stress == old(state).water_stress,
            state.sea_level_rise_modifier == old(state).sea_level_rise_modifier,
            state.precipitation == old(state).precipitation,
            state.co2_emissions == old(state).co2_emissions,
            state.protected_land == old(state).protected_land,
            state.byproduct_mods == old(state).byproduct_mods,
            state.resources == old(state).resources,
            state.feedstocks == old(state).feedstocks,
            state.output_demand_modifier == old(state).output_demand_modifier,
            state.output_demand_extras == old(state).output_demand_extras,
            state.output_modifier == old(state).output_modifier,
            state.flags@ == old(state).flags@,
            state.requests@ == old(state).requests@,
            state.npcs@ == old(state).npcs@,
            state.event_pool == old(state).event_pool,
        decreases n - j,
    {
        proof {
            assert(regions_model(state.world.regions@)[j as int] == pre[j as int]);
            assert(migration_regions(s0, id as int)[j as int] == (if j as int == id as int {
                RegionModel {
                    population: pre[j as int].population - (if mm == 0 {
                        migration_leave(s0, id as int)
                    } else {
                        div_toward_zero(migration_leave(s0, id as int), mm) * mm
                    }),
                    ..pre[j as int]
                }
            } else if migration_target(pre[j as int], id as int, mean) {
                RegionModel {
                    population: pre[j as int].population + (if mm == 0 {
                        0int
                    } else {
                        div_toward_zero(migration_leave(s0, id as int), mm)
                    }),
                    ..pre[j as int]
                }
            } else {
                pre[j as int]
            }));
        }
        if j == id {
            let x = state.world.regions[j].population;
            let v128: i128 = x as i128 - gone128;
            let v: i64 = v128 as i64;
            state.world.regions[j].population = v;
            proof {
                assert(regions_model(state.world.regions@)[j as int] =~= migration_regions(
                    s0,
                    id as int,
                )[j as int]);
            }
        } else {
            let rid = state.world.regions[j].id;
            let hab = state.world.regions[j].base_habitability;
            if rid != id && (hab as i128) > mean128 {
                let x = state.world.regions[j].population;
                let v128: i128 = x as i128 + per128;
                let v: i64 = v128 as i64;
                state.world.regions[j].population = v;
                proof {
                    assert(regions_model(state.world.regions@)[j as int] =~= migration_regions(
                        s0,
                        id as int,
                    )[j as int]);
                }
            }
        }
        j += 1;
    }
    proof {
        assert(regions_model(state.world.regions@) =~= migration_regions(s0, id as int));
        assert(state@ =~= (StateModel {
            world: WorldModel { regions: migration_regions(s0, id as int), ..s0.world },
            ..s0
        }));
    }
}

/// The first named index exists, carries the name, and nothing
/// before it does.
proof fn lemma_first_named_props(projects: Seq<ProjectModel>, name: Seq<char>)
    requires
        first_named(projects, name) >= 0,
    ensures
        first_named(projects, name) < projects.len(),
        projects[first_named(projects, name)].name == name,
        forall|k: int| 0 <= k < first_named(projects, name) ==> projects[k].name != name,
    decreases projects.len(),
{
    if projects.len() > 0 && projects[0].name != name {
        if first_named(projects.drop_first(), name) >= 0 {
            lemma_first_named_props(projects.drop_first(), name);
            let f = first_named(projects, name);
            assert(projects.drop_first()[f - 1] == projects[f]);
            assert forall|k: int| 0 <= k < f implies projects[k].name != name by {
                if k > 0 {
                    assert(projects.drop_first()[k - 1] == projects[k]);
                }
            }
        }
    }
}

/// A first match at `idx` pins down `first_named`.
proof fn lemma_first_named_at(projects: Seq<ProjectModel>, name: Seq<char>, idx: int)
    requires
        0 <= idx < projects.len(),
        projects[idx].name == name,
        forall|k: int| 0 <= k < idx ==> projects[k].name != name,
    ensures
        first_named(projects, name) == idx,
    decreases idx,
{
    if idx > 0 {
        lemma_first_named_at(projects.drop_first(), name, idx - 1);
    }
}

/// The temperature sum of a non-empty list splits off its last
/// element.
proof fn lemma_sum_temperature_last(effects: Seq<Effect>)
    requires
        effects.len() > 0,
    ensures
        sum_temperature(effects) == sum_temperature(effects.drop_last()) + (
        match effects.last() {
            Effect::WorldVariable(WorldVariable::Temperature, v) => v as int,
            _ => 0int,
        }),
    decreases effects.len(),
{
    if effects.len() == 1 {
        assert(effects.drop_last() =~= Seq::<Effect>::empty());
        assert(effects.drop_first() =~= Seq::<Effect>::empty());
        assert(effects.last() == effects[0]);
    } else {
        lemma_sum_temperature_last(effects.drop_first());
        assert(effects.drop_first().drop_last() =~= effects.drop_last().drop_first());
        assert(effects.drop_first().last() == effects.last());
        assert(effects.drop_last()[0] == effects[0]);
        assert(sum_temperature(effects.drop_last()) == (match effects.drop_last()[0] {
            Effect::WorldVariable(WorldVariable::Temperature, v) => v as int,
            _ => 0int,
        }) + sum_temperature(effects.drop_last().drop_first()));
    }
}

/// Stepping form of the temperature sum, used by summation loops.
proof fn lemma_sum_temperature_take_step(effects: Seq<Effect>, i: int)
    requires
        0 <= i < effects.len(),
    ensures
        sum_temperature(effects.take(i + 1)) == sum_temperature(effects.take(i)) + (
        match effects[i] {
            Effect::WorldVariable(WorldVariable::Temperature, v) => v as int,
            _ => 0int,
        }),
{
    lemma_sum_temperature_last(effects.take(i + 1));
    assert(effects.take(i + 1).drop_last() =~= effects.take(i));
    assert(effects.take(i + 1).last() == effects[i]);
}

/// Back out the temperature contribution of the geoengineering
/// project's active effect set.
fn unapply_termination_shock(state: &mut State)
    requires
        can_unapply(Effect::TerminationShock, old(state)@, None),
    ensures
        final(state)@ == unapply_spec(Effect::TerminationShock, old(state)@, None),
{
    let ghost s0 = state@;
    let ghost nm = "Solar Radiation Management"@;
    let ghost j0 = first_named(s0.world.projects, nm);
    proof {
        lemma_first_named_props(s0.world.projects, nm);
    }
    let target = "Solar Radiation Management".to_owned();
    let nv = state.world.projects.len();
    let mut idx: usize = 0;
    while !state.world.projects[idx].name.eq(&target)
        invariant
            state == old(state),
            s0 == state@,
            nm == "Solar Radiation Management"@,
            target@ == nm,
            j0 == first_named(s0.world.projects, nm),
            0 <= j0 < s0.world.projects.len(),
            s0.world.projects.len() == state.world.projects@.len(),
            nv == state.world.projects@.len(),
            j0 < nv as int,
            s0.world.projects[j0].name == nm,
            forall|kk: int| 0 <= kk < j0 ==> s0.world.projects[kk].name != nm,
            0 <= idx as int <= j0,
            forall|kk: int| 0 <= kk < idx as int ==> s0.world.projects[kk].name != nm,
        decreases j0 - idx as int,
    {
        proof {
            assert(s0.world.projects[idx as int] == (state.world.projects@[idx as int])@);
            assert((idx as int) < j0);
        }
        idx += 1;
    }
    proof {
        lemma_first_named_at(s0.world.projects, nm, idx as int);
        assert(idx as int == j0);
    }
    let p = &state.world.projects[idx];
    let fx: &Vec<Effect> = if p.level == 0 {
        &p.effects
    } else {
        &p.upgrades[p.level - 1].effects
    };
    let ghost fxm = level_effects(s0.world.projects[j0]);
    proof {
        assert(fx@ == fxm);
    }
    let m = fx.len();
    let mut sum: i128 = 0;
    let mut i: usize = 0;
    let ghost k: int = 0x8000_0000_0000_0000;
    while i < m
        invariant
            0 <= i <= m,
            m == fx@.len(),
            fx@ == fxm,
            k == 0x8000_0000_0000_0000,
            sum == sum_temperature(fxm.take(i as int)),
            -(k * (i as int)) <= sum as int <= k * (i as int),
        decreases m - i,
    {
        let c: i64 = match &fx[i] {
            Effect::WorldVariable(WorldVariable::Temperature, v) => *v,
            _ => 0,
        };
        proof {
            lemma_sum_temperature_take_step(fxm, i as int);
            lemma_abs_bound_step(sum as int, c as int, i as int, k);
            lemma_mul_le(k, i as int + 1, 0x1_0000_0000_0000_0000);
        }
        sum = sum + c as i128;
        i += 1;
    }
    proof {
        assert(fxm.take(m as int) =~= fxm);
        assert(sum == sum_temperature(fxm));
    }
    let t = state.temperature_modifier;
    let v128: i128 = t as i128 - sum;
    state.temperature_modifier = v128 as i64;
    proof {
        assert(state@ =~= (StateModel {
            temperature_modifier: s0.temperature_modifier - sum_temperature(
                level_effects(s0.world.projects[j0]),
            ),
            ..s0
        }));
    }
}


/// Apply one of the world-variable effect variants.
fn apply_world_variable(e: &Effect, state: &mut State, region_id: Option<usize>)
    requires
        (e matches Effect::WorldVariable(_, _)),
        can_apply(*e, old(state)@, opt_int(region_id)),
    ensures
        final(state)@ == apply_spec(*e, old(state)@, opt_int(region_id)),
{
    let ghost s0 = old(state)@;
    let ghost r = opt_int(region_id);
    match e {
            Effect::WorldVariable(var, change) => {
                let c = *change;
                match var {
                    WorldVariable::Year => {
                        let clamped: i64 = if c > 0 {
                            c
                        } else {
                            0
                        };
                        state.world.year = state.world.year + clamped;
                        proof {
                            assert(state@ =~= apply_spec(*e, s0, r));
                        }
                    },
                    WorldVariable::Population => {
                        state.world.population = state.world.population + c;
                        proof {
                            assert(state@ =~= apply_spec(*e, s0, r));
                        }
                    },
                    WorldVariable::PopulationGrowth => {
                        state.population_growth_modifier = state.population_growth_modifier + c;
                        proof {
                            assert(state@ =~= apply_spec(*e, s0, r));
                        }
                    },
                    WorldVariable::Emissions => {
                        let v = state.byproduct_mods.get(Byproduct::Co2);
                        state.byproduct_mods.set(Byproduct::Co2, v + c);
                        state.co2_emissions = state.co2_emissions + c;
                        proof {
                            assert(state@ =~= apply_spec(*e, s0, r));
                        }
                    },
                    WorldVariable::ExtinctionRate => {
                        let v = state.byproduct_mods.get(Byproduct::Biodiversity);
                        state.byproduct_mods.set(Byproduct::Biodiversity, v - c);
                        proof {
                            assert(state@ =~= apply_spec(*e, s0, r));
                        }
                    },
                    WorldVariable::Outlook => {
                        state.world.base_outlook = state.world.base_outlook + c;
                        proof {
                            assert(state@ =~= (StateModel {
                                world: WorldModel {
                                    base_outlook: s0.world.base_outlook + c,
                                    ..s0.world
                                },
                                ..s0
                            }));
                        }
                        check_game_over(state);
                    },
                    WorldVariable::Temperature => {
                        state.temperature_modifier = state.temperature_modifier + c;
                        proof {
                            assert(state@ =~= apply_spec(*e, s0, r));
                        }
                    },
                    WorldVariable::WaterStress => {
                        state.water_stress = state.water_stress + c;
                        proof {
                            assert(state@ =~= apply_spec(*e, s0, r));
                        }
                    },
                    WorldVariable::SeaLevelRise => {
                        state.world.sea_level_rise = state.world.sea_level_rise + c;
                        proof {
                            assert(state@ =~= apply_spec(*e, s0, r));
                        }
                    },
                    WorldVariable::SeaLevelRiseRate => {
                        state.sea_level_rise_modifier = state.sea_level_rise_modifier + c;
                        proof {
                            assert(state@ =~= apply_spec(*e, s0, r));
                        }
                    },
                    WorldVariable::Precipitation => {
                        state.precipitation = state.precipitation + c;
                        proof {
                            assert(state@ =~= apply_spec(*e, s0, r));
                        }
                    },
                }
            },
            _ => {
                proof {
                    assert(false);
                }
            },
        }
}

/// Apply one of the scalar and flag effect variants.
fn apply_scalar(e: &Effect, state: &mut State, region_id: Option<usize>)
    requires
        (e matches Effect::GameOver) || (e matches Effect::BailOut(_)) || (e matches Effect::PlayerVariable(_, _)) || (e matches Effect::Resource(_, _)) || (e matches Effect::Demand(_, _)) || (e matches Effect::DemandAmount(_, _)) || (e matches Effect::Output(_, _)) || (e matches Effect::Feedstock(_, _)) || (e matches Effect::AddFlag(_)) || (e matches Effect::ProtectLand(_)),
        can_apply(*e, old(state)@, opt_int(region_id)),
    ensures
        final(state)@ == apply_spec(*e, old(state)@, opt_int(region_id)),
{
    let ghost s0 = old(state)@;
    let ghost r = opt_int(region_id);
    match e {
            Effect::GameOver => {
                state.game_over = true;
                proof {
                    assert(state@ =~= apply_spec(*e, s0, r));
                }
            },
            Effect::BailOut(amount) => {
                if state.political_capital < 0 {
                    state.political_capital = 0;
                }
                state.political_capital = state.political_capital + *amount as i64;
                proof {
                    assert(state@ =~= apply_spec(*e, s0, r));
                }
            },
            Effect::PlayerVariable(var, change) => {
                let c = *change;
                match var {
                    PlayerVariable::PoliticalCapital => {
                        state.political_capital = state.political_capital + c;
                        proof {
                            assert(state@ =~= apply_spec(*e, s0, r));
                        }
                    },
                    PlayerVariable::ResearchPoints => {
                        state.research_points = state.research_points + c;
                        proof {
                            assert(state@ =~= apply_spec(*e, s0, r));
                        }
                    },
                    PlayerVariable::YearsToDeath => {},
                }
            },
            Effect::Resource(res, amount) => {
                let v = state.resources.get(*res);
                state.resources.set(*res, v + *amount);
                proof {
                    assert(state@ =~= apply_spec(*e, s0, r));
                }
            },
            Effect::Demand(o, c) => {
                let v = state.output_demand_modifier.get(*o);
                state.output_demand_modifier.set(*o, v + *c);
                proof {
                    assert(state@ =~= apply_spec(*e, s0, r));
                }
            },
            Effect::DemandAmount(o, c) => {
                let v = state.output_demand_extras.get(*o);
                state.output_demand_extras.set(*o, v + *c);
                proof {
                    assert(state@ =~= apply_spec(*e, s0, r));
                }
            },
            Effect::Output(o, c) => {
                let v = state.output_modifier.get(*o);
                state.output_modifier.set(*o, v + *c);
                proof {
                    assert(state@ =~= apply_spec(*e, s0, r));
                }
            },
            Effect::Feedstock(fs, p) => {
                let v = state.feedstocks.get(*fs);
                let scaled: i128 = (v as i128) * ((100 + *p) as i128);
                let nv: i128 = if scaled >= 0 {
                    scaled / 100
                } else {
                    -((-scaled) / 100)
                };
                state.feedstocks.set(*fs, nv as i64);
                proof {
                    assert(state@ =~= apply_spec(*e, s0, r));
                }
            },
            Effect::AddFlag(flag) => {
                state.flags.push(*flag);
                proof {
                    assert(state@ =~= apply_spec(*e, s0, r));
                }
            },
            Effect::ProtectLand(p) => {
                state.protected_land = state.protected_land + *p;
                proof {
                    assert(state@ =~= apply_spec(*e, s0, r));
                }
            },
            _ => {
                proof {
                    assert(false);
                }
            },
        }
}

/// Apply one of the feature-scoped effect variants.
fn apply_feature_shift(e: &Effect, state: &mut State, region_id: Option<usize>)
    requires
        (e matches Effect::RegionHabitability(_, _)) || (e matches Effect::OutputForFeature(_, _)) || (e matches Effect::CO2ForFeature(_, _)) || (e matches Effect::BiodiversityPressureForFeature(_, _)),
        can_apply(*e, old(state)@, opt_int(region_id)),
    ensures
        final(state)@ == apply_spec(*e, old(state)@, opt_int(region_id)),
{
    let ghost s0 = old(state)@;
    let ghost r = opt_int(region_id);
    match e {
            Effect::RegionHabitability(lat, change) => {
                proof {
                    assert forall|j: int|
                        0 <= j < state.world.regions@.len() && (state.world.regions@[j])@.latitude
                            == *lat implies fits(
                        shifted((state.world.regions@[j])@.base_habitability, *change as int, false),
                    ) by {
                        assert(s0.world.regions[j] == (state.world.regions@[j])@);
                    }
                }
                shift_habitability(&mut state.world.regions, *lat, *change, false);
                proof {
                    assert(state@ =~= apply_spec(*e, s0, r));
                }
            },
            Effect::OutputForFeature(feat, c) => {
                proof {
                    assert forall|j: int|
                        0 <= j < state.world.processes@.len() && (
                        state.world.processes@[j])@.features.contains(*feat) implies fits(
                        shifted((state.world.processes@[j])@.output_modifier, *c as int, false),
                    ) by {
                        assert(s0.world.processes[j] == (state.world.processes@[j])@);
                    }
                }
                shift_output_for_feature(&mut state.world.processes, *feat, *c, false);
                proof {
                    assert(state@ =~= apply_spec(*e, s0, r));
                }
            },
            Effect::CO2ForFeature(feat, c) => {
                proof {
                    assert forall|j: int|
                        0 <= j < state.world.processes@.len() && (
                        state.world.processes@[j])@.features.contains(*feat) implies fits(
                        shifted(
                            (state.world.processes@[j])@.byproduct_modifiers.index(Byproduct::Co2),
                            *c as int,
                            false,
                        ),
                    ) by {
                        assert(s0.world.processes[j] == (state.world.processes@[j])@);
                    }
                }
                shift_byproduct_for_feature(
                    &mut state.world.processes,
                    *feat,
                    Byproduct::Co2,
                    *c,
                    false,
                );
                proof {
                    assert(state@ =~= apply_spec(*e, s0, r));
                }
            },
            Effect::BiodiversityPressureForFeature(feat, c) => {
                proof {
                    assert forall|j: int|
                        0 <= j < state.world.processes@.len() && (
                        state.world.processes@[j])@.features.contains(*feat) implies fits(
                        shifted(
                            (state.world.processes@[j])@.byproduct_modifiers.index(
                                Byproduct::Biodiversity,
                            ),
                            *c as int,
                            false,
                        ),
                    ) by {
                        assert(s0.world.processes[j] == (state.world.processes@[j])@);
                    }
                }
                shift_byproduct_for_feature(
                    &mut state.world.processes,
                    *feat,
                    Byproduct::Biodiversity,
                    *c,
                    false,
                );
                proof {
                    assert(state@ =~= apply_spec(*e, s0, r));
                }
            },
            _ => {
                proof {
                    assert(false);
                }
            },
        }
}

/// Apply one of the identifier-addressed effect variants.
fn apply_indexed(e: &Effect, state: &mut State, region_id: Option<usize>)
    requires
        (e matches Effect::OutputForProcess(_, _)) || (e matches Effect::ProcessLimit(_, _)) || (e matches Effect::LocksProject(_)) || (e matches Effect::UnlocksProject(_)) || (e matches Effect::UnlocksProcess(_)) || (e matches Effect::UnlocksNPC(_)) || (e matches Effect::NPCRelationship(_, _)) || (e matches Effect::ProjectCostModifier(_, _)),
        can_apply(*e, old(state)@, opt_int(region_id)),
    ensures
        final(state)@ == apply_spec(*e, old(state)@, opt_int(region_id)),
{
    let ghost s0 = old(state)@;
    let ghost r = opt_int(region_id);
    match e {
            Effect::OutputForProcess(id, c) => {
                let v = state.world.processes[*id].output_modifier;
                state.world.processes[*id].output_modifier = v + *c;
                proof {
                    assert(processes_model(state.world.processes@) =~= s0.world.processes.update(
                        *id as int,
                        ProcessModel {
                            output_modifier: s0.world.processes[*id as int].output_modifier
                                + *c,
                            ..s0.world.processes[*id as int]
                        },
                    ));
                    assert(state@ =~= apply_spec(*e, s0, r));
                }
            },
            Effect::ProcessLimit(id, c) => {
                match state.world.processes[*id].limit {
                    Some(l) => {
                        state.world.processes[*id].limit = Some(l + *c);
                    },
                    None => {},
                }
                proof {
                    assert(processes_model(state.world.processes@) =~= s0.world.processes.update(
                        *id as int,
                        ProcessModel {
                            limit: match s0.world.processes[*id as int].limit {
                                Some(l) => Some(l + *c),
                                None => None,
                            },
                            ..s0.world.processes[*id as int]
                        },
                    ));
                    assert(state@ =~= apply_spec(*e, s0, r));
                }
            },
            Effect::LocksProject(id) => {
                state.world.projects[*id].locked = true;
                proof {
                    assert(projects_model(state.world.projects@) =~= s0.world.projects.update(
                        *id as int,
                        ProjectModel { locked: true, ..s0.world.projects[*id as int] },
                    ));
                    assert(state@ =~= apply_spec(*e, s0, r));
                }
            },
            Effect::UnlocksProject(id) => {
                state.world.projects[*id].locked = false;
                proof {
                    assert(projects_model(state.world.projects@) =~= s0.world.projects.update(
                        *id as int,
                        ProjectModel { locked: false, ..s0.world.projects[*id as int] },
                    ));
                    assert(state@ =~= apply_spec(*e, s0, r));
                }
            },
            Effect::UnlocksProcess(id) => {
                state.world.processes[*id].locked = false;
                proof {
                    assert(processes_model(state.world.processes@) =~= s0.world.processes.update(
                        *id as int,
                        ProcessModel { locked: false, ..s0.world.processes[*id as int] },
                    ));
                    assert(state@ =~= apply_spec(*e, s0, r));
                }
            },
            Effect::UnlocksNPC(id) => {
                state.npcs[*id].locked = false;
                proof {
                    assert(crate::state::npcs_model(state.npcs@) =~= s0.npcs.update(
                        *id as int,
                        NpcModel { locked: false, ..s0.npcs[*id as int] },
                    ));
                    assert(state@ =~= apply_spec(*e, s0, r));
                }
            },
            Effect::NPCRelationship(id, c) => {
                let v = state.npcs[*id].relationship;
                state.npcs[*id].relationship = v + *c;
                proof {
                    assert(crate::state::npcs_model(state.npcs@) =~= s0.npcs.update(
                        *id as int,
                        NpcModel {
                            relationship: s0.npcs[*id as int].relationship + *c,
                            ..s0.npcs[*id as int]
                        },
                    ));
                    assert(state@ =~= apply_spec(*e, s0, r));
                }
            },
            Effect::ProjectCostModifier(id, c) => {
                let v = state.world.projects[*id].cost_modifier;
                state.world.projects[*id].cost_modifier = v + *c;
                proof {
                    assert(projects_model(state.world.projects@) =~= s0.world.projects.update(
                        *id as int,
                        ProjectModel {
                            cost_modifier: s0.world.projects[*id as int].cost_modifier + *c,
                            ..s0.world.projects[*id as int]
                        },
                    ));
                    assert(state@ =~= apply_spec(*e, s0, r));
                }
            },
            _ => {
                proof {
                    assert(false);
                }
            },
        }
}

/// Apply one of the industry effect variants.
fn apply_industry(e: &Effect, state: &mut State, region_id: Option<usize>)
    requires
        (e matches Effect::ModifyProcessByproducts(_, _, _)) || (e matches Effect::ModifyIndustryByproducts(_, _, _)) || (e matches Effect::ModifyIndustryResources(_, _, _)) || (e matches Effect::ModifyIndustryResourcesAmount(_, _, _)) || (e matches Effect::ModifyIndustryDemand(_, _)),
        can_apply(*e, old(state)@, opt_int(region_id)),
    ensures
        final(state)@ == apply_spec(*e, old(state)@, opt_int(region_id)),
{
    let ghost s0 = old(state)@;
    let ghost r = opt_int(region_id);
    match e {
            Effect::ModifyProcessByproducts(id, b, c) => {
                let v = state.world.processes[*id].byproduct_modifiers.get(*b);
                state.world.processes[*id].byproduct_modifiers.set(*b, v + *c);
                proof {
                    assert(processes_model(state.world.processes@) =~= s0.world.processes.update(
                        *id as int,
                        ProcessModel {
                            byproduct_modifiers: s0.world.processes[
                                *id as int
                            ].byproduct_modifiers.update_index(
                                *b,
                                s0.world.processes[*id as int].byproduct_modifiers.index(*b)
                                    + *c,
                            ),
                            ..s0.world.processes[*id as int]
                        },
                    ));
                    assert(state@ =~= apply_spec(*e, s0, r));
                }
            },
            Effect::ModifyIndustryByproducts(id, b, c) => {
                let v = state.world.industries[*id].byproduct_modifiers.get(*b);
                state.world.industries[*id].byproduct_modifiers.set(*b, v + *c);
                proof {
                    assert(crate::state::industries_model(state.world.industries@)
                        =~= s0.world.industries.update(
                        *id as int,
                        crate::state::IndustryModel {
                            byproduct_modifiers: s0.world.industries[
                                *id as int
                            ].byproduct_modifiers.update_index(
                                *b,
                                s0.world.industries[*id as int].byproduct_modifiers.index(*b)
                                    + *c,
                            ),
                            ..s0.world.industries[*id as int]
                        },
                    ));
                    assert(state@ =~= apply_spec(*e, s0, r));
                }
            },
            Effect::ModifyIndustryResources(id, res, c) => {
                let v = state.world.industries[*id].resource_modifiers.get(*res);
                state.world.industries[*id].resource_modifiers.set(*res, v + *c);
                proof {
                    assert(crate::state::industries_model(state.world.industries@)
                        =~= s0.world.industries.update(
                        *id as int,
                        crate::state::IndustryModel {
                            resource_modifiers: s0.world.industries[
                                *id as int
                            ].resource_modifiers.update_index(
                                *res,
                                s0.world.industries[*id as int].resource_modifiers.index(*res)
                                    + *c,
                            ),
                            ..s0.world.industries[*id as int]
                        },
                    ));
                    assert(state@ =~= apply_spec(*e, s0, r));
                }
            },
            Effect::ModifyIndustryResourcesAmount(id, res, c) => {
                let v = state.world.industries[*id].resources.get(*res);
                state.world.industries[*id].resources.set(*res, v + *c);
                proof {
                    assert(crate::state::industries_model(state.world.industries@)
                        =~= s0.world.industries.update(
                        *id as int,
                        crate::state::IndustryModel {
                            resources: s0.world.industries[*id as int].resources.update_index(
                                *res,
                                s0.world.industries[*id as int].resources.index(*res) + *c,
                            ),
                            ..s0.world.industries[*id as int]
                        },
                    ));
                    assert(state@ =~= apply_spec(*e, s0, r));
                }
            },
            Effect::ModifyIndustryDemand(id, c) => {
                let v = state.world.industries[*id].demand_modifier;
                state.world.industries[*id].demand_modifier = v + *c;
                proof {
                    assert(crate::state::industries_model(state.world.industries@)
                        =~= s0.world.industries.update(
                        *id as int,
                        crate::state::IndustryModel {
                            demand_modifier: s0.world.industries[*id as int].demand_modifier
                                + *c,
                            ..s0.world.industries[*id as int]
                        },
                    ));
                    assert(state@ =~= apply_spec(*e, s0, r));
                }
            },
            _ => {
                proof {
                    assert(false);
                }
            },
        }
}

/// Apply one of the event-pool and request effect variants.
fn apply_pool_and_requests(e: &Effect, state: &mut State, region_id: Option<usize>)
    requires
        (e matches Effect::AddEvent(_)) || (e matches Effect::TriggerEvent(_, _)) || (e matches Effect::ModifyEventProbability(_, _)) || (e matches Effect::ProjectRequest(_, _, _)) || (e matches Effect::ProcessRequest(_, _, _)),
        can_apply(*e, old(state)@, opt_int(region_id)),
    ensures
        final(state)@ == apply_spec(*e, old(state)@, opt_int(region_id)),
{
    let ghost s0 = old(state)@;
    let ghost r = opt_int(region_id);
    match e {
            Effect::AddEvent(id) => {
                state.event_pool.unlock_event(*id);
                proof {
                    assert(state@ =~= apply_spec(*e, s0, r));
                }
            },
            Effect::TriggerEvent(id, years) => {
                state.event_pool.queue_event(*id, region_id, *years);
                proof {
                    assert(state@ =~= apply_spec(*e, s0, r));
                }
            },
            Effect::ModifyEventProbability(id, c) => {
                state.event_pool.modify_event_probability(*id, *c);
                proof {
                    assert(state@ =~= apply_spec(*e, s0, r));
                }
            },
            Effect::ProjectRequest(id, active, bounty) => {
                state.requests.push((Request::Project, *id, *active, *bounty));
                proof {
                    assert(crate::state::requests_model(state.requests@) =~= s0.requests.push(
                        (Request::Project, *id as int, *active, *bounty as int),
                    ));
                    assert(state@ =~= apply_spec(*e, s0, r));
                }
            },
            Effect::ProcessRequest(id, active, bounty) => {
                state.requests.push((Request::Process, *id, *active, *bounty));
                proof {
                    assert(crate::state::requests_model(state.requests@) =~= s0.requests.push(
                        (Request::Process, *id as int, *active, *bounty as int),
                    ));
                    assert(state@ =~= apply_spec(*e, s0, r));
                }
            },
            _ => {
                proof {
                    assert(false);
                }
            },
        }
}

/// Apply one of the region-scoped effect variants.
fn apply_regional(e: &Effect, state: &mut State, region_id: Option<usize>)
    requires
        (e matches Effect::Migration) || (e matches Effect::RegionLeave) || (e matches Effect::AddRegionFlag(_)),
        can_apply(*e, old(state)@, opt_int(region_id)),
    ensures
        final(state)@ == apply_spec(*e, old(state)@, opt_int(region_id)),
{
    let ghost s0 = old(state)@;
    let ghost r = opt_int(region_id);
    match e {
            Effect::Migration => {
                match region_id {
                    Some(id) => {
                        apply_migration(state, id);
                        proof {
                            assert(state@ =~= apply_spec(*e, s0, r));
                        }
                    },
                    None => {},
                }
            },
            Effect::RegionLeave => {
                match region_id {
                    Some(id) => {
                        state.world.regions[id].seceded = true;
                        proof {
                            assert(regions_model(state.world.regions@)
                                =~= s0.world.regions.update(
                                id as int,
                                RegionModel { seceded: true, ..s0.world.regions[id as int] },
                            ));
                            assert(state@ =~= apply_spec(*e, s0, r));
                        }
                    },
                    None => {},
                }
            },
            Effect::AddRegionFlag(flag) => {
                match region_id {
                    Some(id) => {
                        state.world.regions[id].flags.push(flag.clone());
                        proof {
                            assert((state.world.regions@[id as int])@.flags
                                =~= s0.world.regions[id as int].flags.push(flag@));
                            assert((state.world.regions@[id as int])@ =~= (RegionModel {
                                flags: s0.world.regions[id as int].flags.push(flag@),
                                ..s0.world.regions[id as int]
                            }));
                            assert(regions_model(state.world.regions@)
                                =~= s0.world.regions.update(
                                id as int,
                                RegionModel {
                                    flags: s0.world.regions[id as int].flags.push(flag@),
                                    ..s0.world.regions[id as int]
                                },
                            ));
                            assert(state@ =~= apply_spec(*e, s0, r));
                        }
                    },
                    None => {},
                }
            },
            _ => {
                proof {
                    assert(false);
                }
            },
        }
}

/// Apply one of the outlook-moving effect variants.
fn apply_outlook_change(e: &Effect, state: &mut State, region_id: Option<usize>)
    requires
        (e matches Effect::DemandOutlookChange(_, _)) || (e matches Effect::IncomeOutlookChange(_)),
        can_apply(*e, old(state)@, opt_int(region_id)),
    ensures
        final(state)@ == apply_spec(*e, old(state)@, opt_int(region_id)),
{
    let ghost s0 = old(state)@;
    let ghost r = opt_int(region_id);
    match e {
            Effect::DemandOutlookChange(o, m) => {
                proof {
                    assert forall|j: int| 0 <= j < state.world.regions@.len() implies fits(
                        shifted(
                            (state.world.regions@[j])@.outlook,
                            (*m) * (state.world.regions@[j])@.demand_levels.index(*o),
                            false,
                        ),
                    ) by {
                        assert(s0.world.regions[j] == (state.world.regions@[j])@);
                    }
                }
                shift_demand_outlook(&mut state.world.regions, *o, *m, false);
                proof {
                    assert(state@ =~= (StateModel {
                        world: WorldModel {
                            regions: demand_outlook_shift(s0.world.regions, *o, *m as int, false),
                            ..s0.world
                        },
                        ..s0
                    }));
                }
                check_game_over(state);
            },
            Effect::IncomeOutlookChange(m) => {
                proof {
                    assert forall|j: int| 0 <= j < state.world.regions@.len() implies fits(
                        shifted(
                            (state.world.regions@[j])@.outlook,
                            (*m) * (state.world.regions@[j])@.income_level(),
                            false,
                        ),
                    ) by {
                        assert(s0.world.regions[j] == (state.world.regions@[j])@);
                    }
                }
                shift_income_outlook(&mut state.world.regions, *m, false);
                proof {
                    assert(state@ =~= (StateModel {
                        world: WorldModel {
                            regions: income_outlook_shift(s0.world.regions, *m as int, false),
                            ..s0.world
                        },
                        ..s0
                    }));
                }
                check_game_over(state);
            },
            _ => {
                proof {
                    assert(false);
                }
            },
        }
}

impl Effect {
    /// Apply this effect to the state in place. Region-scoped
    /// variants require a region identifier and are a silent no-op
    /// without one; identifier references must be valid, which
    /// content validation guarantees upstream.
    pub fn apply(&self, state: &mut State, region_id: Option<usize>)
        requires
            can_apply(*self, old(state)@, opt_int(region_id)),
        ensures
            final(state)@ == apply_spec(*self, old(state)@, opt_int(region_id)),
    {
        match self {
            Effect::WorldVariable(_, _) => apply_world_variable(self, state, region_id),
            Effect::GameOver | Effect::BailOut(_) | Effect::PlayerVariable(_, _)
                | Effect::Resource(_, _) | Effect::Demand(_, _) | Effect::DemandAmount(_, _)
                | Effect::Output(_, _) | Effect::Feedstock(_, _) | Effect::AddFlag(_)
                | Effect::ProtectLand(_) => apply_scalar(self, state, region_id),
            Effect::RegionHabitability(_, _) | Effect::OutputForFeature(_, _)
                | Effect::CO2ForFeature(_, _) | Effect::BiodiversityPressureForFeature(_, _) => {
                apply_feature_shift(self, state, region_id)
            },
            Effect::OutputForProcess(_, _) | Effect::ProcessLimit(_, _)
                | Effect::LocksProject(_) | Effect::UnlocksProject(_)
                | Effect::UnlocksProcess(_) | Effect::UnlocksNPC(_)
                | Effect::NPCRelationship(_, _) | Effect::ProjectCostModifier(_, _) => {
                apply_indexed(self, state, region_id)
            },
            Effect::ModifyProcessByproducts(_, _, _) | Effect::ModifyIndustryByproducts(_, _, _)
                | Effect::ModifyIndustryResources(_, _, _)
                | Effect::ModifyIndustryResourcesAmount(_, _, _)
                | Effect::ModifyIndustryDemand(_, _) => apply_industry(self, state, region_id),
            Effect::AddEvent(_) | Effect::TriggerEvent(_, _)
                | Effect::ModifyEventProbability(_, _) | Effect::ProjectRequest(_, _, _)
                | Effect::ProcessRequest(_, _, _) => apply_pool_and_requests(
                self,
                state,
                region_id,
            ),
            Effect::Migration | Effect::RegionLeave | Effect::AddRegionFlag(_) => apply_regional(
                self,
                state,
                region_id,
            ),
            Effect::DemandOutlookChange(_, _) | Effect::IncomeOutlookChange(_) => {
                apply_outlook_change(self, state, region_id)
            },
            Effect::TerminationShock => {},
            Effect::AutoClick(_, _) => {},
        }
    }
}

/// Undo one of the world-variable effect variants.
fn unapply_world_variable(e: &Effect, state: &mut State, region_id: Option<usize>)
    requires
        (e matches Effect::WorldVariable(_, _)),
        can_unapply(*e, old(state)@, opt_int(region_id)),
    ensures
        final(state)@ == unapply_spec(*e, old(state)@, opt_int(region_id)),
{
    let ghost s0 = old(state)@;
    let ghost r = opt_int(region_id);
    match e {
        Effect::WorldVariable(var, change) => {
            let c = *change;
            match var {
                WorldVariable::Year => {
                    let clamped: i64 = if c > 0 {
                        c
                    } else {
                        0
                    };
                    state.world.year = state.world.year - clamped;
                    proof {
                        assert(state@ =~= unapply_spec(*e, s0, r));
                    }
                },
                WorldVariable::Population => {
                    state.world.population = state.world.population - c;
                    proof {
                        assert(state@ =~= unapply_spec(*e, s0, r));
                    }
                },
                WorldVariable::PopulationGrowth => {
                    state.population_growth_modifier = state.population_growth_modifier - c;
                    proof {
                        assert(state@ =~= unapply_spec(*e, s0, r));
                    }
                },
                WorldVariable::Emissions => {
                    let v = state.byproduct_mods.get(Byproduct::Co2);
                    state.byproduct_mods.set(Byproduct::Co2, v - c);
                    state.co2_emissions = state.co2_emissions - c;
                    proof {
                        assert(state@ =~= unapply_spec(*e, s0, r));
                    }
                },
                WorldVariable::ExtinctionRate => {
                    let v = state.byproduct_mods.get(Byproduct::Biodiversity);
                    state.byproduct_mods.set(Byproduct::Biodiversity, v + c);
                    proof {
                        assert(state@ =~= unapply_spec(*e, s0, r));
                    }
                },
                WorldVariable::Outlook => {
                    state.world.base_outlook = state.world.base_outlook - c;
                    proof {
                        assert(state@ =~= unapply_spec(*e, s0, r));
                    }
                },
                WorldVariable::Temperature => {
                    state.temperature_modifier = state.temperature_modifier - c;
                    proof {
                        assert(state@ =~= unapply_spec(*e, s0, r));
                    }
                },
                WorldVariable::WaterStress => {
                    state.water_stress = state.water_stress - c;
                    proof {
                        assert(state@ =~= unapply_spec(*e, s0, r));
                    }
                },
                WorldVariable::SeaLevelRise => {
                    state.world.sea_level_rise = state.world.sea_level_rise - c;
                    proof {
                        assert(state@ =~= unapply_spec(*e, s0, r));
                    }
                },
                WorldVariable::SeaLevelRiseRate => {
                    state.sea_level_rise_modifier = state.sea_level_rise_modifier - c;
                    proof {
                        assert(state@ =~= unapply_spec(*e, s0, r));
                    }
                },
                WorldVariable::Precipitation => {
                    state.precipitation = state.precipitation - c;
                    proof {
                        assert(state@ =~= unapply_spec(*e, s0, r));
                    }
                },
            }
        },
        _ => {
            proof {
                assert(false);
            }
        },
    }
}

/// Undo one of the scalar and flag effect variants.
fn unapply_scalar(e: &Effect, state: &mut State, region_id: Option<usize>)
    requires
        (e matches Effect::PlayerVariable(_, _)) || (e matches Effect::Resource(_, _)) || (e
            matches Effect::Demand(_, _)) || (e matches Effect::DemandAmount(_, _)) || (e
            matches Effect::Output(_, _)) || (e matches Effect::Feedstock(_, _)) || (e matches
        Effect::AddFlag(_)) || (e matches Effect::ProtectLand(_)),
        can_unapply(*e, old(state)@, opt_int(region_id)),
    ensures
        final(state)@ == unapply_spec(*e, old(state)@, opt_int(region_id)),
{
    let ghost s0 = old(state)@;
    let ghost r = opt_int(region_id);
    match e {
        Effect::PlayerVariable(var, change) => {
            let c = *change;
            match var {
                PlayerVariable::PoliticalCapital => {
                    state.political_capital = state.political_capital - c;
                    proof {
                        assert(state@ =~= unapply_spec(*e, s0, r));
                    }
                },
                PlayerVariable::ResearchPoints => {
                    state.research_points = state.research_points - c;
                    proof {
                        assert(state@ =~= unapply_spec(*e, s0, r));
                    }
                },
                PlayerVariable::YearsToDeath => {},
            }
        },
        Effect::Resource(res, amount) => {
            let v = state.resources.get(*res);
            state.resources.set(*res, v - *amount);
            proof {
                assert(state@ =~= unapply_spec(*e, s0, r));
            }
        },
        Effect::Demand(o, c) => {
            let v = state.output_demand_modifier.get(*o);
            state.output_demand_modifier.set(*o, v - *c);
            proof {
                assert(state@ =~= unapply_spec(*e, s0, r));
            }
        },
        Effect::DemandAmount(o, c) => {
            let v = state.output_demand_extras.get(*o);
            state.output_demand_extras.set(*o, v - *c);
            proof {
                assert(state@ =~= unapply_spec(*e, s0, r));
            }
        },
        Effect::Output(o, c) => {
            let v = state.output_modifier.get(*o);
            state.output_modifier.set(*o, v - *c);
            proof {
                assert(state@ =~= unapply_spec(*e, s0, r));
            }
        },
        Effect::Feedstock(fs, p) => {
            let v = state.feedstocks.get(*fs);
            let scaled: i128 = (v as i128) * 100;
            let d: i128 = 100 + (*p as i128);
            let nv: i128 = if (scaled >= 0) == (d > 0) {
                let a: i128 = if scaled >= 0 {
                    scaled
                } else {
                    -scaled
                };
                let b: i128 = if d > 0 {
                    d
                } else {
                    -d
                };
                a / b
            } else {
                let a: i128 = if scaled >= 0 {
                    scaled
                } else {
                    -scaled
                };
                let b: i128 = if d > 0 {
                    d
                } else {
                    -d
                };
                -(a / b)
            };
            state.feedstocks.set(*fs, nv as i64);
            proof {
                assert(state@ =~= unapply_spec(*e, s0, r));
            }
        },
        Effect::AddFlag(flag) => {
            remove_flag(&mut state.flags, *flag);
            proof {
                assert(state@ =~= unapply_spec(*e, s0, r));
            }
        },
        Effect::ProtectLand(p) => {
            state.protected_land = state.protected_land - *p;
            proof {
                assert(state@ =~= unapply_spec(*e, s0, r));
            }
        },
        _ => {
            proof {
                assert(false);
            }
        },
    }
}

/// Undo one of the feature-scoped effect variants.
fn unapply_feature_shift(e: &Effect, state: &mut State, region_id: Option<usize>)
    requires
        (e matches Effect::RegionHabitability(_, _)) || (e matches Effect::OutputForFeature(
            _,
            _,
        )) || (e matches Effect::CO2ForFeature(_, _)) || (e matches
        Effect::BiodiversityPressureForFeature(_, _)),
        can_unapply(*e, old(state)@, opt_int(region_id)),
    ensures
        final(state)@ == unapply_spec(*e, old(state)@, opt_int(region_id)),
{
    let ghost s0 = old(state)@;
    let ghost r = opt_int(region_id);
    match e {
        Effect::RegionHabitability(lat, change) => {
            proof {
                assert forall|j: int|
                    0 <= j < state.world.regions@.len() && (state.world.regions@[j])@.latitude
                        == *lat implies fits(
                    shifted((state.world.regions@[j])@.base_habitability, *change as int, true),
                ) by {
                    assert(s0.world.regions[j] == (state.world.regions@[j])@);
                }
            }
            shift_habitability(&mut state.world.regions, *lat, *change, true);
            proof {
                assert(state@ =~= unapply_spec(*e, s0, r));
            }
        },
        Effect::OutputForFeature(feat, c) => {
            proof {
                assert forall|j: int|
                    0 <= j < state.world.processes@.len() && (
                    state.world.processes@[j])@.features.contains(*feat) implies fits(
                    shifted((state.world.processes@[j])@.output_modifier, *c as int, true),
                ) by {
                    assert(s0.world.processes[j] == (state.world.processes@[j])@);
                }
            }
            shift_output_for_feature(&mut state.world.processes, *feat, *c, true);
            proof {
                assert(state@ =~= unapply_spec(*e, s0, r));
            }
        },
        Effect::CO2ForFeature(feat, c) => {
            proof {
                assert forall|j: int|
                    0 <= j < state.world.processes@.len() && (
                    state.world.processes@[j])@.features.contains(*feat) implies fits(
                    shifted(
                        (state.world.processes@[j])@.byproduct_modifiers.index(Byproduct::Co2),
                        *c as int,
                        true,
                    ),
                ) by {
                    assert(s0.world.processes[j] == (state.world.processes@[j])@);
                }
            }
            shift_byproduct_for_feature(
                &mut state.world.processes,
                *feat,
                Byproduct::Co2,
                *c,
                true,
            );
            proof {
                assert(state@ =~= unapply_spec(*e, s0, r));
            }
        },
        Effect::BiodiversityPressureForFeature(feat, c) => {
            proof {
                assert forall|j: int|
                    0 <= j < state.world.processes@.len() && (
                    state.world.processes@[j])@.features.contains(*feat) implies fits(
                    shifted(
                        (state.world.processes@[j])@.byproduct_modifiers.index(
                            Byproduct::Biodiversity,
                        ),
                        *c as int,
                        true,
                    ),
                ) by {
                    assert(s0.world.processes[j] == (state.world.processes@[j])@);
                }
            }
            shift_byproduct_for_feature(
                &mut state.world.processes,
                *feat,
                Byproduct::Biodiversity,
                *c,
                true,
            );
            proof {
                assert(state@ =~= unapply_spec(*e, s0, r));
            }
        },
        _ => {
            proof {
                assert(false);
            }
        },
    }
}

/// Undo one of the identifier-addressed effect variants.
fn unapply_indexed(e: &Effect, state: &mut State, region_id: Option<usize>)
    requires
        (e matches Effect::OutputForProcess(_, _)) || (e matches Effect::ProcessLimit(_, _))
            || (e matches Effect::LocksProject(_)) || (e matches Effect::UnlocksProject(_))
            || (e matches Effect::UnlocksProcess(_)) || (e matches Effect::UnlocksNPC(_)) || (
        e matches Effect::NPCRelationship(_, _)) || (e matches Effect::ProjectCostModifier(
            _,
            _,
        )),
        can_unapply(*e, old(state)@, opt_int(region_id)),
    ensures
        final(state)@ == unapply_spec(*e, old(state)@, opt_int(region_id)),
{
    let ghost s0 = old(state)@;
    let ghost r = opt_int(region_id);
    match e {
        Effect::OutputForProcess(id, c) => {
            let v = state.world.processes[*id].output_modifier;
            state.world.processes[*id].output_modifier = v - *c;
            proof {
                assert(processes_model(state.world.processes@) =~= s0.world.processes.update(
                    *id as int,
                    ProcessModel {
                        output_modifier: s0.world.processes[*id as int].output_modifier - *c,
                        ..s0.world.processes[*id as int]
                    },
                ));
                assert(state@ =~= unapply_spec(*e, s0, r));
            }
        },
        Effect::ProcessLimit(id, c) => {
            match state.world.processes[*id].limit {
                Some(l) => {
                    state.world.processes[*id].limit = Some(l - *c);
                },
                None => {},
            }
            proof {
                assert(processes_model(state.world.processes@) =~= s0.world.processes.update(
                    *id as int,
                    ProcessModel {
                        limit: match s0.world.processes[*id as int].limit {
                            Some(l) => Some(l - *c),
                            None => None,
                        },
                        ..s0.world.processes[*id as int]
                    },
                ));
                assert(state@ =~= unapply_spec(*e, s0, r));
            }
        },
        Effect::LocksProject(id) => {
            state.world.projects[*id].locked = false;
            proof {
                assert(projects_model(state.world.projects@) =~= s0.world.projects.update(
                    *id as int,
                    ProjectModel { locked: false, ..s0.world.projects[*id as int] },
                ));
                assert(state@ =~= unapply_spec(*e, s0, r));
            }
        },
        Effect::UnlocksProject(id) => {
            state.world.projects[*id].locked = true;
            proof {
                assert(projects_model(state.world.projects@) =~= s0.world.projects.update(
                    *id as int,
                    ProjectModel { locked: true, ..s0.world.projects[*id as int] },
                ));
                assert(state@ =~= unapply_spec(*e, s0, r));
            }
        },
        Effect::UnlocksProcess(id) => {
            state.world.processes[*id].locked = true;
            proof {
                assert(processes_model(state.world.processes@) =~= s0.world.processes.update(
                    *id as int,
                    ProcessModel { locked: true, ..s0.world.processes[*id as int] },
                ));
                assert(state@ =~= unapply_spec(*e, s0, r));
            }
        },
        Effect::UnlocksNPC(id) => {
            state.npcs[*id].locked = true;
            proof {
                assert(crate::state::npcs_model(state.npcs@) =~= s0.npcs.update(
                    *id as int,
                    NpcModel { locked: true, ..s0.npcs[*id as int] },
                ));
                assert(state@ =~= unapply_spec(*e, s0, r));
            }
        },
        Effect::NPCRelationship(id, c) => {
            let v = state.npcs[*id].relationship;
            state.npcs[*id].relationship = v - *c;
            proof {
                assert(crate::state::npcs_model(state.npcs@) =~= s0.npcs.update(
                    *id as int,
                    NpcModel {
                        relationship: s0.npcs[*id as int].relationship - *c,
                        ..s0.npcs[*id as int]
                    },
                ));
                assert(state@ =~= unapply_spec(*e, s0, r));
            }
        },
        Effect::ProjectCostModifier(id, c) => {
            let v = state.world.projects[*id].cost_modifier;
            state.world.projects[*id].cost_modifier = v - *c;
            proof {
                assert(projects_model(state.world.projects@) =~= s0.world.projects.update(
                    *id as int,
                    ProjectModel {
                        cost_modifier: s0.world.projects[*id as int].cost_modifier - *c,
                        ..s0.world.projects[*id as int]
                    },
                ));
                assert(state@ =~= unapply_spec(*e, s0, r));
            }
        },
        _ => {
            proof {
                assert(false);
            }
        },
    }
}

/// Undo one of the industry effect variants.
fn unapply_industry(e: &Effect, state: &mut State, region_id: Option<usize>)
    requires
        (e matches Effect::ModifyProcessByproducts(_, _, _)) || (e matches
        Effect::ModifyIndustryByproducts(_, _, _)) || (e matches Effect::ModifyIndustryResources(
            _,
            _,
            _,
        )) || (e matches Effect::ModifyIndustryResourcesAmount(_, _, _)) || (e matches
        Effect::ModifyIndustryDemand(_, _)),
        can_unapply(*e, old(state)@, opt_int(region_id)),
    ensures
        final(state)@ == unapply_spec(*e, old(state)@, opt_int(region_id)),
{
    let ghost s0 = old(state)@;
    let ghost r = opt_int(region_id);
    match e {
        Effect::ModifyProcessByproducts(id, b, c) => {
            let v = state.world.processes[*id].byproduct_modifiers.get(*b);
            state.world.processes[*id].byproduct_modifiers.set(*b, v - *c);
            proof {
                assert(processes_model(state.world.processes@) =~= s0.world.processes.update(
                    *id as int,
                    ProcessModel {
                        byproduct_modifiers: s0.world.processes[
                            *id as int
                        ].byproduct_modifiers.update_index(
                            *b,
                            s0.world.processes[*id as int].byproduct_modifiers.index(*b) - *c,
                        ),
                        ..s0.world.processes[*id as int]
                    },
                ));
                assert(state@ =~= unapply_spec(*e, s0, r));
            }
        },
        Effect::ModifyIndustryByproducts(id, b, c) => {
            let v = state.world.industries[*id].byproduct_modifiers.get(*b);
            state.world.industries[*id].byproduct_modifiers.set(*b, v - *c);
            proof {
                assert(crate::state::industries_model(state.world.industries@)
                    =~= s0.world.industries.update(
                    *id as int,
                    crate::state::IndustryModel {
                        byproduct_modifiers: s0.world.industries[
                            *id as int
                        ].byproduct_modifiers.update_index(
                            *b,
                            s0.world.industries[*id as int].byproduct_modifiers.index(*b) - *c,
                        ),
                        ..s0.world.industries[*id as int]
                    },
                ));
                assert(state@ =~= unapply_spec(*e, s0, r));
            }
        },
        Effect::ModifyIndustryResources(id, res, c) => {
            let v = state.world.industries[*id].resource_modifiers.get(*res);
            state.world.industries[*id].resource_modifiers.set(*res, v - *c);
            proof {
                assert(crate::state::industries_model(state.world.industries@)
                    =~= s0.world.industries.update(
                    *id as int,
                    crate::state::IndustryModel {
                        resource_modifiers: s0.world.industries[
                            *id as int
                        ].resource_modifiers.update_index(
                            *res,
                            s0.world.industries[*id as int].resource_modifiers.index(*res)
                                - *c,
                        ),
                        ..s0.world.industries[*id as int]
                    },
                ));
                assert(state@ =~= unapply_spec(*e, s0, r));
            }
        },
        Effect::ModifyIndustryResourcesAmount(id, res, c) => {
            let v = state.world.industries[*id].resources.get(*res);
            state.world.industries[*id].resources.set(*res, v - *c);
            proof {
                assert(crate::state::industries_model(state.world.industries@)
                    =~= s0.world.industries.update(
                    *id as int,
                    crate::state::IndustryModel {
                        resources: s0.world.industries[*id as int].resources.update_index(
                            *res,
                            s0.world.industries[*id as int].resources.index(*res) - *c,
                        ),
                        ..s0.world.industries[*id as int]
                    },
                ));
                assert(state@ =~= unapply_spec(*e, s0, r));
            }
        },
        Effect::ModifyIndustryDemand(id, c) => {
            let v = state.world.industries[*id].demand_modifier;
            state.world.industries[*id].demand_modifier = v - *c;
            proof {
                assert(crate::state::industries_model(state.world.industries@)
                    =~= s0.world.industries.update(
                    *id as int,
                    crate::state::IndustryModel {
                        demand_modifier: s0.world.industries[*id as int].demand_modifier - *c,
                        ..s0.world.industries[*id as int]
                    },
                ));
                assert(state@ =~= unapply_spec(*e, s0, r));
            }
        },
        _ => {
            proof {
                assert(false);
            }
        },
    }
}

/// Undo one of the outlook-moving effect variants; the game-over
/// latch is not reversed.
fn unapply_outlook_change(e: &Effect, state: &mut State, region_id: Option<usize>)
    requires
        (e matches Effect::DemandOutlookChange(_, _)) || (e matches Effect::IncomeOutlookChange(
            _,
        )),
        can_unapply(*e, old(state)@, opt_int(region_id)),
    ensures
        final(state)@ == unapply_spec(*e, old(state)@, opt_int(region_id)),
{
    let ghost s0 = old(state)@;
    let ghost r = opt_int(region_id);
    match e {
        Effect::DemandOutlookChange(o, m) => {
            proof {
                assert forall|j: int| 0 <= j < state.world.regions@.len() implies fits(
                    shifted(
                        (state.world.regions@[j])@.outlook,
                        (*m) * (state.world.regions@[j])@.demand_levels.index(*o),
                        true,
                    ),
                ) by {
                    assert(s0.world.regions[j] == (state.world.regions@[j])@);
                }
            }
            shift_demand_outlook(&mut state.world.regions, *o, *m, true);
            proof {
                assert(state@ =~= unapply_spec(*e, s0, r));
            }
        },
        Effect::IncomeOutlookChange(m) => {
            proof {
                assert forall|j: int| 0 <= j < state.world.regions@.len() implies fits(
                    shifted(
                        (state.world.regions@[j])@.outlook,
                        (*m) * (state.world.regions@[j])@.income_level(),
                        true,
                    ),
                ) by {
                    assert(s0.world.regions[j] == (state.world.regions@[j])@);
                }
            }
            shift_income_outlook(&mut state.world.regions, *m, true);
            proof {
                assert(state@ =~= unapply_spec(*e, s0, r));
            }
        },
        _ => {
            proof {
                assert(false);
            }
        },
    }
}

impl Effect {
    /// Undo this effect in place: the literal inverse for
    /// reversible variants, and a documented no-op for the
    /// one-directional ones.
    pub fn unapply(&self, state: &mut State, region_id: Option<usize>)
        requires
            can_unapply(*self, old(state)@, opt_int(region_id)),
        ensures
            final(state)@ == unapply_spec(*self, old(state)@, opt_int(region_id)),
    {
        match self {
            Effect::WorldVariable(_, _) => unapply_world_variable(self, state, region_id),
            Effect::PlayerVariable(_, _) | Effect::Resource(_, _) | Effect::Demand(_, _)
                | Effect::DemandAmount(_, _) | Effect::Output(_, _) | Effect::Feedstock(_, _)
                | Effect::AddFlag(_) | Effect::ProtectLand(_) => unapply_scalar(
                self,
                state,
                region_id,
            ),
            Effect::RegionHabitability(_, _) | Effect::OutputForFeature(_, _)
                | Effect::CO2ForFeature(_, _) | Effect::BiodiversityPressureForFeature(_, _) => {
                unapply_feature_shift(self, state, region_id)
            },
            Effect::OutputForProcess(_, _) | Effect::ProcessLimit(_, _)
                | Effect::LocksProject(_) | Effect::UnlocksProject(_)
                | Effect::UnlocksProcess(_) | Effect::UnlocksNPC(_)
                | Effect::NPCRelationship(_, _) | Effect::ProjectCostModifier(_, _) => {
                unapply_indexed(self, state, region_id)
            },
            Effect::ModifyProcessByproducts(_, _, _) | Effect::ModifyIndustryByproducts(_, _, _)
                | Effect::ModifyIndustryResources(_, _, _)
                | Effect::ModifyIndustryResourcesAmount(_, _, _)
                | Effect::ModifyIndustryDemand(_, _) => unapply_industry(self, state, region_id),
            Effect::ModifyEventProbability(id, c) => {
                state.event_pool.modify_event_probability(*id, -*c);
                proof {
                    assert(state@ =~= unapply_spec(*self, old(state)@, opt_int(region_id)));
                }
            },
            Effect::DemandOutlookChange(_, _) | Effect::IncomeOutlookChange(_) => {
                unapply_outlook_change(self, state, region_id)
            },
            Effect::TerminationShock => {
                unapply_termination_shock(state);
                proof {
                    assert(final(state)@ == unapply_spec(
                        Effect::TerminationShock,
                        old(state)@,
                        None,
                    ));
                    assert(unapply_spec(Effect::TerminationShock, old(state)@, None)
                        == unapply_spec(*self, old(state)@, opt_int(region_id)));
                }
            },
            _ => {},
        }
    }
}

/// Which effect variants are reversible: `unapply` after `apply`
/// restores the state exactly. The one-directional variants
/// (state transitions, one-shot unlocks, requests, region waves)
/// and the approximate multiplicative feedstock variant are not in
/// the set.
pub open spec fn reversible(e: Effect) -> bool {
    match e {
        Effect::WorldVariable(_, _) => true,
        Effect::PlayerVariable(_, _) => true,
        Effect::RegionHabitability(_, _) => true,
        Effect::Resource(_, _) => true,
        Effect::Demand(_, _) => true,
        Effect::DemandAmount(_, _) => true,
        Effect::Output(_, _) => true,
        Effect::OutputForFeature(_, _) => true,
        Effect::OutputForProcess(_, _) => true,
        Effect::CO2ForFeature(_, _) => true,
        Effect::BiodiversityPressureForFeature(_, _) => true,
        Effect::ProcessLimit(_, _) => true,
        Effect::NPCRelationship(_, _) => true,
        Effect::ModifyProcessByproducts(_, _, _) => true,
        Effect::ModifyIndustryByproducts(_, _, _) => true,
        Effect::ModifyIndustryResources(_, _, _) => true,
        Effect::ModifyIndustryResourcesAmount(_, _, _) => true,
        Effect::ModifyEventProbability(_, _) => true,
        Effect::ModifyIndustryDemand(_, _) => true,
        Effect::DemandOutlookChange(_, _) => true,
        Effect::IncomeOutlookChange(_) => true,
        Effect::ProjectCostModifier(_, _) => true,
        Effect::ProtectLand(_) => true,
        Effect::AddFlag(_) => true,
        Effect::AutoClick(_, _) => true,
        _ => false,
    }
}

/// Removing a flag that was just pushed onto a list not holding it
/// restores the list.
proof fn lemma_remove_after_push(flags: Seq<Flag>, f: Flag)
    requires
        !flags.contains(f),
    ensures
        remove_first_flag(flags.push(f), f) == flags,
    decreases flags.len(),
{
    if flags.len() == 0 {
        assert(flags.push(f)[0] == f);
        assert(flags.push(f).drop_first() =~= flags);
    } else {
        assert(flags.push(f)[0] == flags[0]);
        assert(flags[0] != f);
        assert(flags.push(f).drop_first() =~= flags.drop_first().push(f));
        assert(!flags.drop_first().contains(f)) by {
            assert forall|j: int| 0 <= j < flags.drop_first().len() implies flags.drop_first()[j]
                != f by {
                assert(flags.drop_first()[j] == flags[j + 1]);
            }
        }
        lemma_remove_after_push(flags.drop_first(), f);
        assert(seq![flags[0]] + flags.drop_first() =~= flags);
    }
}

/// Round-trip law of the effect algebra: for every reversible
/// effect variant and every state on which applying it is defined,
/// unapplying the effect after applying it restores the state
/// exactly. The inputs left out are the two documented
/// asymmetries: a flag added when the same flag was already set
/// (removal then strips the earlier copy), and an outlook change
/// that newly trips the game-over latch (the latch is never
/// reversed).
#[verifier::rlimit(100)]
#[verifier::spinoff_prover]
pub proof fn lemma_effect_round_trip(e: Effect, s: StateModel, region_id: Option<int>)
    requires
        reversible(e),
        can_apply(e, s, region_id),
        apply_spec(e, s, region_id).game_over == s.game_over,
        forall|f: Flag| e == Effect::AddFlag(f) ==> !s.flags.contains(f),
    ensures
        unapply_spec(e, apply_spec(e, s, region_id), region_id) == s,
{
    let a = apply_spec(e, s, region_id);
    let u = unapply_spec(e, a, region_id);
    match e {
        Effect::WorldVariable(var, c) => {
            match var {
                WorldVariable::Outlook => {
                    let mid = StateModel {
                        world: WorldModel { base_outlook: s.world.base_outlook + c, ..s.world },
                        ..s
                    };
                    assert(a == check_game_over_spec(mid));
                    assert(a.game_over == s.game_over);
                    assert(a =~= mid);
                    assert(u =~= s);
                },
                _ => {
                    assert(u =~= s);
                },
            }
        },
        Effect::PlayerVariable(_, _) => {
            assert(u =~= s);
        },
        Effect::RegionHabitability(lat, c) => {
            assert forall|j: int| 0 <= j < s.world.regions.len() implies hab_shift(
                hab_shift(s.world.regions, lat, c as int, false),
                lat,
                c as int,
                true,
            )[j] == s.world.regions[j] by {
                assert(hab_shift(
                    hab_shift(s.world.regions, lat, c as int, false),
                    lat,
                    c as int,
                    true,
                )[j] =~= s.world.regions[j]);
            }
            assert(u.world.regions =~= s.world.regions);
            assert(u =~= s);
        },
        Effect::Resource(_, _) | Effect::Demand(_, _) | Effect::DemandAmount(_, _)
            | Effect::Output(_, _) | Effect::ProtectLand(_) => {
            assert(u =~= s);
        },
        Effect::OutputForFeature(feat, c) => {
            assert forall|j: int| 0 <= j < s.world.processes.len() implies output_feature_shift(
                output_feature_shift(s.world.processes, feat, c as int, false),
                feat,
                c as int,
                true,
            )[j] == s.world.processes[j] by {
                assert(output_feature_shift(
                    output_feature_shift(s.world.processes, feat, c as int, false),
                    feat,
                    c as int,
                    true,
                )[j] =~= s.world.processes[j]);
            }
            assert(u.world.processes =~= s.world.processes);
            assert(u =~= s);
        },
        Effect::CO2ForFeature(feat, c) => {
            assert forall|j: int|
                0 <= j < s.world.processes.len() implies byproduct_feature_shift(
                byproduct_feature_shift(s.world.processes, feat, Byproduct::Co2, c as int, false),
                feat,
                Byproduct::Co2,
                c as int,
                true,
            )[j] == s.world.processes[j] by {
                assert(byproduct_feature_shift(
                    byproduct_feature_shift(
                        s.world.processes,
                        feat,
                        Byproduct::Co2,
                        c as int,
                        false,
                    ),
                    feat,
                    Byproduct::Co2,
                    c as int,
                    true,
                )[j] =~= s.world.processes[j]);
            }
            assert(u.world.processes =~= s.world.processes);
            assert(u =~= s);
        },
        Effect::BiodiversityPressureForFeature(feat, c) => {
            assert forall|j: int|
                0 <= j < s.world.processes.len() implies byproduct_feature_shift(
                byproduct_feature_shift(
                    s.world.processes,
                    feat,
                    Byproduct::Biodiversity,
                    c as int,
                    false,
                ),
                feat,
                Byproduct::Biodiversity,
                c as int,
                true,
            )[j] == s.world.processes[j] by {
                assert(byproduct_feature_shift(
                    byproduct_feature_shift(
                        s.world.processes,
                        feat,
                        Byproduct::Biodiversity,
                        c as int,
                        false,
                    ),
                    feat,
                    Byproduct::Biodiversity,
                    c as int,
                    true,
                )[j] =~= s.world.processes[j]);
            }
            assert(u.world.processes =~= s.world.processes);
            assert(u =~= s);
        },
        Effect::OutputForProcess(id, c) => {
            assert(a.world.processes[id as int] =~= (ProcessModel {
                output_modifier: s.world.processes[id as int].output_modifier + c,
                ..s.world.processes[id as int]
            }));
            assert(u.world.processes =~= s.world.processes);
            assert(u =~= s);
        },
        Effect::ProcessLimit(id, c) => {
            assert(u.world.processes[id as int] =~= s.world.processes[id as int]);
            assert(u.world.processes =~= s.world.processes);
            assert(u =~= s);
        },
        Effect::NPCRelationship(id, c) => {
            assert(u.npcs =~= s.npcs);
            assert(u =~= s);
        },
        Effect::ModifyProcessByproducts(id, b, c) => {
            assert(u.world.processes[id as int] =~= s.world.processes[id as int]);
            assert(u.world.processes =~= s.world.processes);
            assert(u =~= s);
        },
        Effect::ModifyIndustryByproducts(id, b, c) => {
            assert(u.world.industries[id as int] =~= s.world.industries[id as int]);
            assert(u.world.industries =~= s.world.industries);
            assert(u =~= s);
        },
        Effect::ModifyIndustryResources(id, res, c) => {
            assert(u.world.industries[id as int] =~= s.world.industries[id as int]);
            assert(u.world.industries =~= s.world.industries);
            assert(u =~= s);
        },
        Effect::ModifyIndustryResourcesAmount(id, res, c) => {
            assert(u.world.industries[id as int] =~= s.world.industries[id as int]);
            assert(u.world.industries =~= s.world.industries);
            assert(u =~= s);
        },
        Effect::ModifyIndustryDemand(id, c) => {
            assert(u.world.industries[id as int] =~= s.world.industries[id as int]);
            assert(u.world.industries =~= s.world.industries);
            assert(u =~= s);
        },
        Effect::ModifyEventProbability(id, c) => {
            assert forall|j: int| 0 <= j < s.event_pool.len() implies pool_modify_prob(
                pool_modify_prob(s.event_pool, id as int, c as int),
                id as int,
                -(c as int),
            )[j] == s.event_pool[j] by {
                assert(pool_modify_prob(
                    pool_modify_prob(s.event_pool, id as int, c as int),
                    id as int,
                    -(c as int),
                )[j].0 =~= s.event_pool[j].0);
                assert(pool_modify_prob(
                    pool_modify_prob(s.event_pool, id as int, c as int),
                    id as int,
                    -(c as int),
                )[j].1 == s.event_pool[j].1);
            }
            assert(u.event_pool =~= s.event_pool);
            assert(u =~= s);
        },
        Effect::DemandOutlookChange(o, m) => {
            let mid = StateModel {
                world: WorldModel {
                    regions: demand_outlook_shift(s.world.regions, o, m as int, false),
                    ..s.world
                },
                ..s
            };
            assert(a == check_game_over_spec(mid));
            assert(a.game_over == s.game_over);
            assert(a =~= mid);
            assert forall|j: int| 0 <= j < s.world.regions.len() implies demand_outlook_shift(
                demand_outlook_shift(s.world.regions, o, m as int, false),
                o,
                m as int,
                true,
            )[j] == s.world.regions[j] by {
                assert(demand_outlook_shift(
                    demand_outlook_shift(s.world.regions, o, m as int, false),
                    o,
                    m as int,
                    true,
                )[j] =~= s.world.regions[j]);
            }
            assert(u.world.regions =~= s.world.regions);
            assert(u =~= s);
        },
        Effect::IncomeOutlookChange(m) => {
            let mid = StateModel {
                world: WorldModel {
                    regions: income_outlook_shift(s.world.regions, m as int, false),
                    ..s.world
                },
                ..s
            };
            assert(a == check_game_over_spec(mid));
            assert(a.game_over == s.game_over);
            assert(a =~= mid);
            assert forall|j: int| 0 <= j < s.world.regions.len() implies income_outlook_shift(
                income_outlook_shift(s.world.regions, m as int, false),
                m as int,
                true,
            )[j] == s.world.regions[j] by {
                assert(income_outlook_shift(
                    income_outlook_shift(s.world.regions, m as int, false),
                    m as int,
                    true,
                )[j] =~= s.world.regions[j]);
            }
            assert(u.world.regions =~= s.world.regions);
            assert(u =~= s);
        },
        Effect::ProjectCostModifier(id, c) => {
            assert(u.world.projects[id as int] =~= s.world.projects[id as int]);
            assert(u.world.projects =~= s.world.projects);
            assert(u =~= s);
        },
        Effect::AddFlag(f) => {
            lemma_remove_after_push(s.flags, f);
            assert(u =~= s);
        },
        Effect::AutoClick(_, _) => {
            assert(u =~= s);
        },
        _ => {},
    }
}

/// The magnitude `v` scaled by `factor` hundredths.
pub open spec fn scaled_mag(v: int, factor: int) -> int {
    div_toward_zero(v * factor, 100)
}

/// The effect with its numeric magnitude multiplied by `factor`
/// hundredths; variants without a meaningful magnitude are
/// returned unchanged.
pub open spec fn scale_spec(e: Effect, factor: int) -> Effect {
    match e {
        Effect::WorldVariable(var, v) => Effect::WorldVariable(
            var,
            scaled_mag(v as int, factor) as i64,
        ),
        Effect::PlayerVariable(var, v) => Effect::PlayerVariable(
            var,
            scaled_mag(v as int, factor) as i64,
        ),
        Effect::Resource(res, v) => Effect::Resource(res, scaled_mag(v as int, factor) as i64),
        Effect::Demand(o, v) => Effect::Demand(o, scaled_mag(v as int, factor) as i64),
        Effect::Output(o, v) => Effect::Output(o, scaled_mag(v as int, factor) as i64),
        Effect::DemandAmount(o, v) => Effect::DemandAmount(
            o,
            scaled_mag(v as int, factor) as i64,
        ),
        Effect::OutputForFeature(f, v) => Effect::OutputForFeature(
            f,
            scaled_mag(v as int, factor) as i64,
        ),
        Effect::OutputForProcess(id, v) => Effect::OutputForProcess(
            id,
            scaled_mag(v as int, factor) as i64,
        ),
        Effect::Feedstock(fs, v) => Effect::Feedstock(fs, scaled_mag(v as int, factor) as i64),
        Effect::ModifyIndustryByproducts(id, b, v) => Effect::ModifyIndustryByproducts(
            id,
            b,
            scaled_mag(v as int, factor) as i64,
        ),
        Effect::ModifyIndustryResources(id, r, v) => Effect::ModifyIndustryResources(
            id,
            r,
            scaled_mag(v as int, factor) as i64,
        ),
        Effect::ModifyIndustryResourcesAmount(id, r, v) => Effect::ModifyIndustryResourcesAmount(
            id,
            r,
            scaled_mag(v as int, factor) as i64,
        ),
        Effect::ModifyIndustryDemand(id, v) => Effect::ModifyIndustryDemand(
            id,
            scaled_mag(v as int, factor) as i64,
        ),
        Effect::ModifyEventProbability(id, v) => Effect::ModifyEventProbability(
            id,
            scaled_mag(v as int, factor) as i64,
        ),
        Effect::DemandOutlookChange(o, v) => Effect::DemandOutlookChange(
            o,
            scaled_mag(v as int, factor) as i64,
        ),
        Effect::IncomeOutlookChange(v) => Effect::IncomeOutlookChange(
            scaled_mag(v as int, factor) as i64,
        ),
        Effect::ProjectCostModifier(id, v) => Effect::ProjectCostModifier(
            id,
            scaled_mag(v as int, factor) as i64,
        ),
        Effect::ProtectLand(v) => Effect::ProtectLand(scaled_mag(v as int, factor) as i64),
        _ => e,
    }
}

/// Whether every scaled magnitude stays representable.
pub open spec fn can_scale(e: Effect, factor: int) -> bool {
    match e {
        Effect::WorldVariable(_, v) | Effect::PlayerVariable(_, v) | Effect::Resource(_, v)
            | Effect::Demand(_, v) | Effect::Output(_, v) | Effect::DemandAmount(_, v)
            | Effect::OutputForFeature(_, v) | Effect::OutputForProcess(_, v)
            | Effect::Feedstock(_, v) | Effect::ModifyIndustryByproducts(_, _, v)
            | Effect::ModifyIndustryResources(_, _, v)
            | Effect::ModifyIndustryResourcesAmount(_, _, v)
            | Effect::ModifyIndustryDemand(_, v) | Effect::ModifyEventProbability(_, v)
            | Effect::DemandOutlookChange(_, v) | Effect::IncomeOutlookChange(v)
            | Effect::ProjectCostModifier(_, v) | Effect::ProtectLand(v) => fits(
            scaled_mag(v as int, factor),
        ),
        _ => true,
    }
}

/// Scale an `i64` magnitude by `factor` hundredths, toward zero.
fn scale_value(v: i64, factor: i64) -> (r: i64)
    requires
        fits(scaled_mag(v as int, factor as int)),
    ensures
        r as int == scaled_mag(v as int, factor as int),
{
    let prod: i128 = (v as i128) * (factor as i128);
    let q: i128 = if prod >= 0 {
        prod / 100
    } else {
        -((-prod) / 100)
    };
    q as i64
}

impl Effect {
    /// A copy of this effect with its numeric magnitude multiplied
    /// by `factor` hundredths (100 is the identity); variants
    /// without a magnitude come back unchanged.
    pub fn scale(&self, factor: i64) -> (r: Effect)
        requires
            can_scale(*self, factor as int),
        ensures
            r == scale_spec(*self, factor as int),
    {
        match self {
            Effect::WorldVariable(var, v) => Effect::WorldVariable(*var, scale_value(*v, factor)),
            Effect::PlayerVariable(var, v) => Effect::PlayerVariable(
                *var,
                scale_value(*v, factor),
            ),
            Effect::Resource(res, v) => Effect::Resource(*res, scale_value(*v, factor)),
            Effect::Demand(o, v) => Effect::Demand(*o, scale_value(*v, factor)),
            Effect::Output(o, v) => Effect::Output(*o, scale_value(*v, factor)),
            Effect::DemandAmount(o, v) => Effect::DemandAmount(*o, scale_value(*v, factor)),
            Effect::OutputForFeature(f, v) => Effect::OutputForFeature(
                *f,
                scale_value(*v, factor),
            ),
            Effect::OutputForProcess(id, v) => Effect::OutputForProcess(
                *id,
                scale_value(*v, factor),
            ),
            Effect::Feedstock(fs, v) => Effect::Feedstock(*fs, scale_value(*v, factor)),
            Effect::ModifyIndustryByproducts(id, b, v) => Effect::ModifyIndustryByproducts(
                *id,
                *b,
                scale_value(*v, factor),
            ),
            Effect::ModifyIndustryResources(id, res, v) => Effect::ModifyIndustryResources(
                *id,
                *res,
                scale_value(*v, factor),
            ),
            Effect::ModifyIndustryResourcesAmount(id, res, v) => {
                Effect::ModifyIndustryResourcesAmount(*id, *res, scale_value(*v, factor))
            },
            Effect::ModifyIndustryDemand(id, v) => Effect::ModifyIndustryDemand(
                *id,
                scale_value(*v, factor),
            ),
            Effect::ModifyEventProbability(id, v) => Effect::ModifyEventProbability(
                *id,
                scale_value(*v, factor),
            ),
            Effect::DemandOutlookChange(o, v) => Effect::DemandOutlookChange(
                *o,
                scale_value(*v, factor),
            ),
            Effect::IncomeOutlookChange(v) => Effect::IncomeOutlookChange(
                scale_value(*v, factor),
            ),
            Effect::ProjectCostModifier(id, v) => Effect::ProjectCostModifier(
                *id,
                scale_value(*v, factor),
            ),
            Effect::ProtectLand(v) => Effect::ProtectLand(scale_value(*v, factor)),
            Effect::RegionHabitability(lat, v) => Effect::RegionHabitability(*lat, *v),
            Effect::CO2ForFeature(f, v) => Effect::CO2ForFeature(*f, *v),
            Effect::BiodiversityPressureForFeature(f, v) => {
                Effect::BiodiversityPressureForFeature(*f, *v)
            },
            Effect::ProcessLimit(id, v) => Effect::ProcessLimit(*id, *v),
            Effect::AddEvent(id) => Effect::AddEvent(*id),
            Effect::TriggerEvent(id, y) => Effect::TriggerEvent(*id, *y),
            Effect::LocksProject(id) => Effect::LocksProject(*id),
            Effect::UnlocksProject(id) => Effect::UnlocksProject(*id),
            Effect::UnlocksProcess(id) => Effect::UnlocksProcess(*id),
            Effect::UnlocksNPC(id) => Effect::UnlocksNPC(*id),
            Effect::ProjectRequest(id, a, b) => Effect::ProjectRequest(*id, *a, *b),
            Effect::ProcessRequest(id, a, b) => Effect::ProcessRequest(*id, *a, *b),
            Effect::Migration => Effect::Migration,
            Effect::RegionLeave => Effect::RegionLeave,
            Effect::TerminationShock => Effect::TerminationShock,
            Effect::AddRegionFlag(f) => Effect::AddRegionFlag(f.clone()),
            Effect::AddFlag(f) => Effect::AddFlag(*f),
            Effect::AutoClick(id, v) => Effect::AutoClick(*id, *v),
            Effect::NPCRelationship(id, v) => Effect::NPCRelationship(*id, *v),
            Effect::ModifyProcessByproducts(id, b, v) => Effect::ModifyProcessByproducts(
                *id,
                *b,
                *v,
            ),
            Effect::BailOut(a) => Effect::BailOut(*a),
            Effect::GameOver => Effect::GameOver,
        }
    }

    /// The variant tag of this effect's fingerprint.
    pub open spec fn tag_spec(self) -> Seq<char> {
        match self {
            Effect::WorldVariable(_, _) => "WorldVariable"@,
            Effect::PlayerVariable(_, _) => "PlayerVariable"@,
            Effect::RegionHabitability(_, _) => "RegionHabitability"@,
            Effect::Resource(_, _) => "Resource"@,
            Effect::Demand(_, _) => "Demand"@,
            Effect::Output(_, _) => "Output"@,
            Effect::DemandAmount(_, _) => "DemandAmount"@,
            Effect::OutputForFeature(_, _) => "OutputForFeature"@,
            Effect::OutputForProcess(_, _) => "OutputForProcess"@,
            Effect::CO2ForFeature(_, _) => "CO2ForFeature"@,
            Effect::BiodiversityPressureForFeature(_, _) => "BiodiversityPressureForFeature"@,
            Effect::ProcessLimit(_, _) => "ProcessLimit"@,
            Effect::Feedstock(_, _) => "Feedstock"@,
            Effect::AddEvent(_) => "AddEvent"@,
            Effect::TriggerEvent(_, _) => "TriggerEvent"@,
            Effect::LocksProject(_) => "LocksProject"@,
            Effect::UnlocksProject(_) => "UnlocksProject"@,
            Effect::UnlocksProcess(_) => "UnlocksProcess"@,
            Effect::UnlocksNPC(_) => "UnlocksNPC"@,
            Effect::ProjectRequest(_, _, _) => "ProjectRequest"@,
            Effect::ProcessRequest(_, _, _) => "ProcessRequest"@,
            Effect::Migration => "Migration"@,
            Effect::RegionLeave => "RegionLeave"@,
            Effect::TerminationShock => "TerminationShock"@,
            Effect::AddRegionFlag(_) => "AddRegionFlag"@,
            Effect::AddFlag(_) => "AddFlag"@,
            Effect::AutoClick(_, _) => "AutoClick"@,
            Effect::NPCRelationship(_, _) => "NPCRelationship"@,
            Effect::ModifyProcessByproducts(_, _, _) => "ModifyProcessByproducts"@,
            Effect::ModifyIndustryByproducts(_, _, _) => "ModifyIndustryByproducts"@,
            Effect::ModifyIndustryResources(_, _, _) => "ModifyIndustryResources"@,
            Effect::ModifyIndustryResourcesAmount(_, _, _) => "ModifyIndustryResourcesAmount"@,
            Effect::ModifyEventProbability(_, _) => "ModifyEventProbability"@,
            Effect::ModifyIndustryDemand(_, _) => "ModifyIndustryDemand"@,
            Effect::DemandOutlookChange(_, _) => "DemandOutlookChange"@,
            Effect::IncomeOutlookChange(_) => "IncomeOutlookChange"@,
            Effect::ProjectCostModifier(_, _) => "ProjectCostModifier"@,
            Effect::ProtectLand(_) => "ProtectLand"@,
            Effect::BailOut(_) => "BailOut"@,
            Effect::GameOver => "GameOver"@,
        }
    }

    /// The sub-key of this effect's fingerprint: the key of its
    /// target enumeration member, where one applies.
    pub open spec fn subkind_spec(self) -> Seq<char> {
        match self {
            Effect::WorldVariable(var, _) => var.key_spec(),
            Effect::PlayerVariable(var, _) => var.key_spec(),
            Effect::RegionHabitability(lat, _) => lat.key_spec(),
            Effect::Resource(res, _) => res.key_spec(),
            Effect::Demand(o, _) => o.key_spec(),
            Effect::Output(o, _) => o.key_spec(),
            Effect::DemandAmount(o, _) => o.key_spec(),
            Effect::OutputForFeature(f, _) => f.key_spec(),
            Effect::CO2ForFeature(f, _) => f.key_spec(),
            Effect::BiodiversityPressureForFeature(f, _) => f.key_spec(),
            Effect::Feedstock(fs, _) => fs.key_spec(),
            Effect::ModifyProcessByproducts(_, b, _) => b.key_spec(),
            Effect::ModifyIndustryByproducts(_, b, _) => b.key_spec(),
            Effect::ModifyIndustryResources(_, r, _) => r.key_spec(),
            Effect::ModifyIndustryResourcesAmount(_, r, _) => r.key_spec(),
            Effect::DemandOutlookChange(o, _) => o.key_spec(),
            _ => ""@,
        }
    }

    /// The stable key of this effect: variant tag and target
    /// sub-key.
    pub open spec fn fingerprint_spec(self) -> Seq<char> {
        self.tag_spec() + ":"@ + self.subkind_spec()
    }

    /// A stable key composed of the effect's variant tag plus,
    /// where applicable, the key of its target enumeration member.
    /// Groups effects that are the same kind of lever: two
    /// `Resource` effects on different resources get different
    /// keys.
    pub fn fingerprint(&self) -> (r: String)
        ensures
            r@ == self.fingerprint_spec(),
    {
        let tag: &'static str = match self {
            Effect::WorldVariable(_, _) => "WorldVariable",
            Effect::PlayerVariable(_, _) => "PlayerVariable",
            Effect::RegionHabitability(_, _) => "RegionHabitability",
            Effect::Resource(_, _) => "Resource",
            Effect::Demand(_, _) => "Demand",
            Effect::Output(_, _) => "Output",
            Effect::DemandAmount(_, _) => "DemandAmount",
            Effect::OutputForFeature(_, _) => "OutputForFeature",
            Effect::OutputForProcess(_, _) => "OutputForProcess",
            Effect::CO2ForFeature(_, _) => "CO2ForFeature",
            Effect::BiodiversityPressureForFeature(_, _) => "BiodiversityPressureForFeature",
            Effect::ProcessLimit(_, _) => "ProcessLimit",
            Effect::Feedstock(_, _) => "Feedstock",
            Effect::AddEvent(_) => "AddEvent",
            Effect::TriggerEvent(_, _) => "TriggerEvent",
            Effect::LocksProject(_) => "LocksProject",
            Effect::UnlocksProject(_) => "UnlocksProject",
            Effect::UnlocksProcess(_) => "UnlocksProcess",
            Effect::UnlocksNPC(_) => "UnlocksNPC",
            Effect::ProjectRequest(_, _, _) => "ProjectRequest",
            Effect::ProcessRequest(_, _, _) => "ProcessRequest",
            Effect::Migration => "Migration",
            Effect::RegionLeave => "RegionLeave",
            Effect::TerminationShock => "TerminationShock",
            Effect::AddRegionFlag(_) => "AddRegionFlag",
            Effect::AddFlag(_) => "AddFlag",
            Effect::AutoClick(_, _) => "AutoClick",
            Effect::NPCRelationship(_, _) => "NPCRelationship",
            Effect::ModifyProcessByproducts(_, _, _) => "ModifyProcessByproducts",
            Effect::ModifyIndustryByproducts(_, _, _) => "ModifyIndustryByproducts",
            Effect::ModifyIndustryResources(_, _, _) => "ModifyIndustryResources",
            Effect::ModifyIndustryResourcesAmount(_, _, _) => "ModifyIndustryResourcesAmount",
            Effect::ModifyEventProbability(_, _) => "ModifyEventProbability",
            Effect::ModifyIndustryDemand(_, _) => "ModifyIndustryDemand",
            Effect::DemandOutlookChange(_, _) => "DemandOutlookChange",
            Effect::IncomeOutlookChange(_) => "IncomeOutlookChange",
            Effect::ProjectCostModifier(_, _) => "ProjectCostModifier",
            Effect::ProtectLand(_) => "ProtectLand",
            Effect::BailOut(_) => "BailOut",
            Effect::GameOver => "GameOver",
        };
        let subkind: &'static str = match self {
            Effect::WorldVariable(var, _) => var.key(),
            Effect::PlayerVariable(var, _) => var.key(),
            Effect::RegionHabitability(lat, _) => lat.key(),
            Effect::Resource(res, _) => res.key(),
            Effect::Demand(o, _) => o.key(),
            Effect::Output(o, _) => o.key(),
            Effect::DemandAmount(o, _) => o.key(),
            Effect::OutputForFeature(f, _) => f.key(),
            Effect::CO2ForFeature(f, _) => f.key(),
            Effect::BiodiversityPressureForFeature(f, _) => f.key(),
            Effect::Feedstock(fs, _) => fs.key(),
            Effect::ModifyProcessByproducts(_, b, _) => b.key(),
            Effect::ModifyIndustryByproducts(_, b, _) => b.key(),
            Effect::ModifyIndustryResources(_, r, _) => r.key(),
            Effect::ModifyIndustryResourcesAmount(_, r, _) => r.key(),
            Effect::DemandOutlookChange(o, _) => o.key(),
            _ => "",
        };
        let mut out = tag.to_owned();
        out.append(":");
        out.append(subkind);
        out
    }
}

impl Clone for Effect {
    /// An exact copy: effects are pure data.
    fn clone(&self) -> (r: Self)
        ensures
            r == *self,
    {
        match self {
            Effect::WorldVariable(var, v) => Effect::WorldVariable(*var, *v),
            Effect::PlayerVariable(var, v) => Effect::PlayerVariable(*var, *v),
            Effect::RegionHabitability(lat, v) => Effect::RegionHabitability(*lat, *v),
            Effect::Resource(res, v) => Effect::Resource(*res, *v),
            Effect::Demand(o, v) => Effect::Demand(*o, *v),
            Effect::Output(o, v) => Effect::Output(*o, *v),
            Effect::DemandAmount(o, v) => Effect::DemandAmount(*o, *v),
            Effect::OutputForFeature(f, v) => Effect::OutputForFeature(*f, *v),
            Effect::OutputForProcess(id, v) => Effect::OutputForProcess(*id, *v),
            Effect::CO2ForFeature(f, v) => Effect::CO2ForFeature(*f, *v),
            Effect::BiodiversityPressureForFeature(f, v) => {
                Effect::BiodiversityPressureForFeature(*f, *v)
            },
            Effect::ProcessLimit(id, v) => Effect::ProcessLimit(*id, *v),
            Effect::Feedstock(fs, v) => Effect::Feedstock(*fs, *v),
            Effect::AddEvent(id) => Effect::AddEvent(*id),
            Effect::TriggerEvent(id, y) => Effect::TriggerEvent(*id, *y),
            Effect::LocksProject(id) => Effect::LocksProject(*id),
            Effect::UnlocksProject(id) => Effect::UnlocksProject(*id),
            Effect::UnlocksProcess(id) => Effect::UnlocksProcess(*id),
            Effect::UnlocksNPC(id) => Effect::UnlocksNPC(*id),
            Effect::ProjectRequest(id, a, b) => Effect::ProjectRequest(*id, *a, *b),
            Effect::ProcessRequest(id, a, b) => Effect::ProcessRequest(*id, *a, *b),
            Effect::Migration => Effect::Migration,
            Effect::RegionLeave => Effect::RegionLeave,
            Effect::TerminationShock => Effect::TerminationShock,
            Effect::AddRegionFlag(f) => Effect::AddRegionFlag(f.clone()),
            Effect::AddFlag(f) => Effect::AddFlag(*f),
            Effect::AutoClick(id, v) => Effect::AutoClick(*id, *v),
            Effect::NPCRelationship(id, v) => Effect::NPCRelationship(*id, *v),
            Effect::ModifyProcessByproducts(id, b, v) => Effect::ModifyProcessByproducts(
                *id,
                *b,
                *v,
            ),
            Effect::ModifyIndustryByproducts(id, b, v) => Effect::ModifyIndustryByproducts(
                *id,
                *b,
                *v,
            ),
            Effect::ModifyIndustryResources(id, res, v) => Effect::ModifyIndustryResources(
                *id,
                *res,
                *v,
            ),
            Effect::ModifyIndustryResourcesAmount(id, res, v) => {
                Effect::ModifyIndustryResourcesAmount(*id, *res, *v)
            },
            Effect::ModifyEventProbability(id, v) => Effect::ModifyEventProbability(*id, *v),
            Effect::ModifyIndustryDemand(id, v) => Effect::ModifyIndustryDemand(*id, *v),
            Effect::DemandOutlookChange(o, v) => Effect::DemandOutlookChange(*o, *v),
            Effect::IncomeOutlookChange(v) => Effect::IncomeOutlookChange(*v),
            Effect::ProjectCostModifier(id, v) => Effect::ProjectCostModifier(*id, *v),
            Effect::ProtectLand(v) => Effect::ProtectLand(*v),
            Effect::BailOut(a) => Effect::BailOut(*a),
            Effect::GameOver => Effect::GameOver,
        }
    }
}

/// Sum over the regions of `m` times the income level.
pub open spec fn sum_income_products(regions: Seq<RegionModel>, m: int) -> int
    decreases regions.len(),
{
    if regions.len() == 0 {
        0
    } else {
        sum_income_products(regions.drop_last(), m) + m * regions.last().income_level()
    }
}

/// Sum over the regions of `m` times the demand level for `o`.
pub open spec fn sum_demand_products(regions: Seq<RegionModel>, o: Output, m: int) -> int
    decreases regions.len(),
{
    if regions.len() == 0 {
        0
    } else {
        sum_demand_products(regions.drop_last(), o, m) + m * regions.last().demand_levels.index(o)
    }
}

/// The mean outlook change an income-outlook effect of this
/// magnitude would bring: the regions' per-level contributions
/// averaged, rounding toward zero.
pub fn mean_income_outlook_change(mult: i64, state: &State) -> (r: i64)
    requires
        state@.world.regions.len() > 0,
        forall|j: int|
            0 <= j < state@.world.regions.len() ==> fits(
                mult * state@.world.regions[j].income_level(),
            ),
    ensures
        r as int == div_toward_zero(
            sum_income_products(state@.world.regions, mult as int),
            state@.world.regions.len() as int,
        ),
{
    let ghost pre = state@.world.regions;
    let n = state.world.regions.len();
    let mut sum: i128 = 0;
    let mut i: usize = 0;
    let ghost plo: int = 0x8000_0000_0000_0000;
    let ghost hi: int = 0x7fff_ffff_ffff_ffff;
    while i < n
        invariant
            0 <= i <= n,
            n == state.world.regions@.len(),
            pre == state@.world.regions,
            pre.len() == n,
            plo == 0x8000_0000_0000_0000,
            hi == 0x7fff_ffff_ffff_ffff,
            forall|j: int| 0 <= j < n ==> fits(mult * pre[j].income_level()),
            sum == sum_income_products(pre.take(i as int), mult as int),
            -(plo * (i as int)) <= sum as int <= hi * (i as int),
        decreases n - i,
    {
        let lvl = state.world.regions[i].income_level();
        proof {
            lemma_word_product_bound(mult as int, lvl as int);
        }
        let t: i128 = (mult as i128) * (lvl as i128);
        proof {
            assert(pre.take(i as int + 1).drop_last() =~= pre.take(i as int));
            assert(pre.take(i as int + 1).last() == pre[i as int]);
            assert(pre[i as int] == (state.world.regions@[i as int])@);
            lemma_range_bound_step(sum as int, t as int, i as int, plo, hi);
            lemma_mul_le(plo, i as int + 1, 0x1_0000_0000_0000_0000);
            lemma_mul_le(hi, i as int + 1, 0x1_0000_0000_0000_0000);
        }
        sum = sum + t;
        i += 1;
    }
    proof {
        assert(pre.take(n as int) =~= pre);
        if sum >= 0 {
            vstd::arithmetic::div_mod::lemma_div_is_ordered(sum as int, hi * (n as int), n as int);
            vstd::arithmetic::div_mod::lemma_div_by_multiple(hi, n as int);
            vstd::arithmetic::div_mod::lemma_div_pos_is_pos(sum as int, n as int);
        } else {
            vstd::arithmetic::div_mod::lemma_div_is_ordered(
                -(sum as int),
                plo * (n as int),
                n as int,
            );
            vstd::arithmetic::div_mod::lemma_div_by_multiple(plo, n as int);
            vstd::arithmetic::div_mod::lemma_div_pos_is_pos(-(sum as int), n as int);
        }
    }
    let q: i128 = if sum >= 0 {
        sum / (n as i128)
    } else {
        -((-sum) / (n as i128))
    };
    q as i64
}

/// The mean outlook change a demand-outlook effect of this
/// magnitude would bring for the given output: the regions'
/// per-level contributions averaged, rounding toward zero.
pub fn mean_demand_outlook_change(mult: i64, output: &Output, state: &State) -> (r: i64)
    requires
        state@.world.regions.len() > 0,
        forall|j: int|
            0 <= j < state@.world.regions.len() ==> fits(
                mult * state@.world.regions[j].demand_levels.index(*output),
            ),
    ensures
        r as int == div_toward_zero(
            sum_demand_products(state@.world.regions, *output, mult as int),
            state@.world.regions.len() as int,
        ),
{
    let ghost pre = state@.world.regions;
    let n = state.world.regions.len();
    let mut sum: i128 = 0;
    let mut i: usize = 0;
    let ghost plo: int = 0x8000_0000_0000_0000;
    let ghost hi: int = 0x7fff_ffff_ffff_ffff;
    while i < n
        invariant
            0 <= i <= n,
            n == state.world.regions@.len(),
            pre == state@.world.regions,
            pre.len() == n,
            plo == 0x8000_0000_0000_0000,
            hi == 0x7fff_ffff_ffff_ffff,
            forall|j: int| 0 <= j < n ==> fits(mult * pre[j].demand_levels.index(*output)),
            sum == sum_demand_products(pre.take(i as int), *output, mult as int),
            -(plo * (i as int)) <= sum as int <= hi * (i as int),
        decreases n - i,
    {
        let lvl = state.world.regions[i].demand_levels.get(*output);
        proof {
            lemma_word_product_bound(mult as int, lvl as int);
        }
        let t: i128 = (mult as i128) * (lvl as i128);
        proof {
            assert(pre.take(i as int + 1).drop_last() =~= pre.take(i as int));
            assert(pre.take(i as int + 1).last() == pre[i as int]);
            assert(pre[i as int] == (state.world.regions@[i as int])@);
            lemma_range_bound_step(sum as int, t as int, i as int, plo, hi);
            lemma_mul_le(plo, i as int + 1, 0x1_0000_0000_0000_0000);
            lemma_mul_le(hi, i as int + 1, 0x1_0000_0000_0000_0000);
        }
        sum = sum + t;
        i += 1;
    }
    proof {
        assert(pre.take(n as int) =~= pre);
        if sum >= 0 {
            vstd::arithmetic::div_mod::lemma_div_is_ordered(sum as int, hi * (n as int), n as int);
            vstd::arithmetic::div_mod::lemma_div_by_multiple(hi, n as int);
            vstd::arithmetic::div_mod::lemma_div_pos_is_pos(sum as int, n as int);
        } else {
            vstd::arithmetic::div_mod::lemma_div_is_ordered(
                -(sum as int),
                plo * (n as int),
                n as int,
            );
            vstd::arithmetic::div_mod::lemma_div_by_multiple(plo, n as int);
            vstd::arithmetic::div_mod::lemma_div_pos_is_pos(-(sum as int), n as int);
        }
    }
    let q: i128 = if sum >= 0 {
        sum / (n as i128)
    } else {
        -((-sum) / (n as i128))
    };
    q as i64
}

} // verus!
