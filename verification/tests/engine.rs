use hes_engine::effects::{Effect, Flag};
use hes_engine::kinds::Output;
use hes_engine::probability::{Comparator, Condition, Likelihood, Probability, WorldVariable};
use hes_engine::projects::{years_for_points, Cost, Group, Outcome, Project, Status, Type};
use hes_engine::events::{Event, EventPool, Status as EventStatus};
use hes_engine::kinds::{ByproductMap, FeedstockMap, OutputMap, ResourceMap};
use hes_engine::kinds::{Income, Latitude};
use hes_engine::state::{Region, State, World};

fn blank_state() -> State {
    State {
        game_over: false,
        political_capital: 0,
        research_points: 0,
        population_growth_modifier: 0,
        temperature_modifier: 0,
        water_stress: 0,
        sea_level_rise_modifier: 0,
        precipitation: 0,
        co2_emissions: 0,
        protected_land: 0,
        byproduct_mods: ByproductMap::zero(),
        resources: ResourceMap::zero(),
        feedstocks: FeedstockMap::zero(),
        output_demand_modifier: OutputMap::zero(),
        output_demand_extras: OutputMap::zero(),
        output_modifier: OutputMap::zero(),
        flags: vec![],
        requests: vec![],
        npcs: vec![],
        event_pool: EventPool::new(),
        world: World {
            year: 2024,
            population: 0,
            base_outlook: 0,
            temperature: 0,
            extinction_rate: 0,
            sea_level_rise: 0,
            output_demand: OutputMap::zero(),
            regions: vec![],
            processes: vec![],
            industries: vec![],
            projects: vec![],
        },
    }
}

fn blank_project() -> Project {
    Project {
        id: String::from("test_project"),
        name: String::from("Test Project"),
        kind: Type::Policy,
        group: Group::Other,
        ongoing: false,
        gradual: false,
        locked: false,
        cost: 1,
        base_cost: Cost::Fixed(1),
        cost_modifier: 100,
        progress: 0,
        points: 1,
        estimate: 0,
        status: Status::Building,
        level: 0,
        completed_at: 0,
        required_majority: 0,
        effects: vec![],
        outcomes: vec![Outcome {
            effects: vec![],
            probability: Probability { likelihood: Likelihood::Guaranteed, conditions: vec![] },
        }],
        upgrades: vec![],
        active_outcome: None,
        supporters: vec![],
        opposers: vec![],
    }
}

#[test]
fn test_build_project() {
    let mut p = blank_project();
    for _ in 0..12 {
        p.build();
    }
    assert!(matches!(p.status, Status::Finished));

    p.ongoing = true;
    p.status = Status::Building;
    p.progress = 0;
    for _ in 0..12 {
        p.build();
    }
    assert!(matches!(p.status, Status::Active));
}

#[test]
fn test_project_estimate() {
    let mut p = blank_project();
    p.cost = 10;
    p.base_cost = Cost::Fixed(10);
    p.points = 0;

    p.set_points(1);
    assert_eq!(p.estimate, 10);
    let prev_estimate = p.estimate;

    p.set_points(10);
    assert!(prev_estimate > p.estimate);
}

#[test]
fn test_project_outcomes() {
    let mut rng: rand::rngs::StdRng = rand::SeedableRng::seed_from_u64(0);
    let mut p = blank_project();
    p.outcomes = vec![
        Outcome {
            effects: vec![],
            probability: Probability {
                likelihood: Likelihood::Guaranteed,
                conditions: vec![Condition::WorldVariable(
                    WorldVariable::Year,
                    Comparator::Equal,
                    10,
                )],
            },
        },
        Outcome {
            effects: vec![],
            probability: Probability { likelihood: Likelihood::Guaranteed, conditions: vec![] },
        },
    ];

    let mut state = blank_state();

    // The first outcome's condition is not met, so the second wins.
    let i = p.roll_outcome(&state, &mut rng).unwrap();
    assert_eq!(i, 1);

    // Once the year matches, the first outcome wins.
    state.world.year = 10;
    let i = p.roll_outcome(&state, &mut rng).unwrap();
    assert_eq!(i, 0);
}

#[test]
fn test_years_for_points() {
    assert_eq!(years_for_points(1, 10), 10);
    assert_eq!(years_for_points(10, 10), 4);
    assert_eq!(years_for_points(1, 1), 1);
    // Always at least one year, and never slower with more points.
    assert_eq!(years_for_points(100, 1), 1);
    let mut prev = years_for_points(1, 100);
    for pts in 2..50usize {
        let y = years_for_points(pts, 100);
        assert!(y <= prev);
        assert!(y >= 1);
        prev = y;
    }
}

#[test]
fn test_effect_round_trip() {
    let mut state = blank_state();
    let e = Effect::WorldVariable(WorldVariable::Temperature, 7);
    e.apply(&mut state, None);
    assert_eq!(state.temperature_modifier, 7);
    e.unapply(&mut state, None);
    assert_eq!(state.temperature_modifier, 0);

    let f = Effect::AddFlag(Flag::ClosedBorders);
    f.apply(&mut state, None);
    assert!(state.flags.contains(&Flag::ClosedBorders));
    f.unapply(&mut state, None);
    assert!(!state.flags.contains(&Flag::ClosedBorders));
}

#[test]
fn test_effect_fingerprint_and_scale() {
    let e = Effect::Demand(Output::Fuel, 40);
    assert_eq!(e.fingerprint(), "Demand:Fuel");
    assert_eq!(Effect::GameOver.fingerprint(), "GameOver:");
    match e.scale(50) {
        Effect::Demand(Output::Fuel, v) => assert_eq!(v, 20),
        _ => panic!("scaling must keep the variant"),
    }
    match Effect::Migration.scale(50) {
        Effect::Migration => {}
        _ => panic!("variants without a magnitude are unchanged"),
    }
}

fn plain_event(id: usize, repeats: bool, guaranteed: bool) -> Event {
    Event {
        name: String::new(),
        locked: false,
        local: false,
        region: None,
        id,
        repeats,
        prob_modifier: 0,
        probabilities: vec![Probability {
            likelihood: if guaranteed { Likelihood::Guaranteed } else { Likelihood::Impossible },
            conditions: vec![],
        }],
        choices: vec![],
        effects: vec![],
    }
}

#[test]
fn test_event_pool() {
    let mut rng: rand::rngs::StdRng = rand::SeedableRng::seed_from_u64(0);
    let mut pool = EventPool::new();

    pool.add_event(plain_event(0, false, true), EventStatus::Random);
    pool.add_event(plain_event(1, true, true), EventStatus::Random);
    pool.add_event(plain_event(2, false, false), EventStatus::Random);
    pool.add_event(plain_event(3, false, true), EventStatus::Queued(2));
    pool.add_event(plain_event(4, false, true), EventStatus::Queued(1));

    let state = blank_state();
    let events = pool.roll(&state, &mut rng);

    // Queued event should have triggered
    assert!(events.iter().any(|id| *id == 4));

    // Random events should have triggered
    assert!(events.iter().any(|id| *id == 0));
    assert!(events.iter().any(|id| *id == 1));

    let events = pool.roll(&state, &mut rng);

    // Should not have triggered
    assert!(events.iter().all(|id| *id != 4));
    assert!(events.iter().all(|id| *id != 0));

    // Should have triggered
    assert!(events.iter().any(|id| *id == 3));
    assert!(events.iter().any(|id| *id == 1));
}

#[test]
fn test_event_pool_zero_chance_and_cleanup() {
    let mut rng: rand::rngs::StdRng = rand::SeedableRng::seed_from_u64(7);
    let mut pool = EventPool::new();
    pool.add_event(plain_event(0, false, false), EventStatus::Random);
    pool.add_event(plain_event(1, false, true), EventStatus::Random);
    let state = blank_state();
    for _ in 0..20 {
        let fired = pool.roll(&state, &mut rng);
        // A zero-chance event never fires, however often it is rolled.
        assert!(fired.iter().all(|id| *id != 0));
    }
    // The non-repeating guaranteed event fired once and was removed.
    assert_eq!(pool.events.len(), 1);
    assert_eq!(pool.events[0].event.id, 0);
}

#[test]
fn test_build_increment_is_at_least_one() {
    // A cost above the progress scale used to stall a project
    // forever; every effective call must now advance progress.
    let mut p = blank_project();
    p.cost = 2000000;
    p.base_cost = Cost::Fixed(2000000);
    p.points = 1;
    assert!(!p.build());
    assert!(!p.build());
    assert_eq!(p.progress, 2);
    assert!(matches!(p.status, Status::Building));
}

#[test]
fn test_build_zero_points_is_noop() {
    let mut p = blank_project();
    p.points = 0;
    assert!(!p.build());
    assert_eq!(p.progress, 0);
    assert!(matches!(p.status, Status::Building));
}

#[test]
fn test_add_event_accepts_duplicate_ids() {
    let mut pool = EventPool::new();
    pool.add_event(plain_event(0, false, true), EventStatus::Random);
    pool.add_event(plain_event(0, false, false), EventStatus::Random);
    assert_eq!(pool.events.len(), 2);
}

fn region(id: usize, population: i64, habitability: i64) -> Region {
    Region {
        id,
        population,
        latitude: Latitude::Temperate,
        base_habitability: habitability,
        outlook: 0,
        income: Income::Low,
        demand_levels: OutputMap::zero(),
        seceded: false,
        flags: vec![],
    }
}

#[test]
fn test_migration_conserves_population() {
    let mut state = blank_state();
    state.world.regions = vec![
        region(0, 1010, 0),
        region(1, 500, 10),
        region(2, 300, 10),
    ];
    let before: i64 = state.world.regions.iter().map(|r| r.population).sum();
    Effect::Migration.apply(&mut state, Some(0));
    // A tenth of the source leaves; the two more habitable regions
    // each receive an equal share, and the division remainder
    // stays with the source.
    assert_eq!(state.world.regions[1].population, 550);
    assert_eq!(state.world.regions[2].population, 350);
    assert_eq!(state.world.regions[0].population, 910);
    let after: i64 = state.world.regions.iter().map(|r| r.population).sum();
    assert_eq!(before, after);
}

#[test]
fn test_trigger_event_carries_region_scope() {
    let mut state = blank_state();
    state.event_pool.add_event(plain_event(0, false, true), EventStatus::Random);
    Effect::TriggerEvent(0, 2).apply(&mut state, Some(3));
    assert!(matches!(state.event_pool.events[0].status, EventStatus::Queued(2)));
    assert_eq!(state.event_pool.events[0].event.region, Some(3));
}

#[test]
fn test_tutorial_advance() {
    let mut t = hes_engine::Tutorial::Projects;
    t.advance();
    assert!(matches!(t, hes_engine::Tutorial::ProjectsBack));
    let mut r = hes_engine::Tutorial::Ready;
    r.advance();
    assert!(matches!(r, hes_engine::Tutorial::Ready));
}
