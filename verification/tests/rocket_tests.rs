use rocketry::engines::Engine;
use rocketry::fuels::Fuel;
use rocketry::rat::Rat;
use rocketry::rocket::{PayloadSearch, Rocket};
use rocketry::stages::{BoostedStage, SimpleStage, Stage};

fn rat(n: i64, d: i64) -> Rat {
    Rat::new(n, d).unwrap()
}

fn as_f64(r: &Rat) -> f64 {
    r.num as f64 / r.den as f64
}

fn engine(isp: i64, thrust: i64, rate: i64, burn: i64) -> Engine {
    let f = Fuel::new("Monoprop".to_string(), rat(1, 1)).unwrap();
    Engine::new(
        "test engine".to_string(),
        vec![(f, rat(rate, 1))],
        rat(isp, 1),
        rat(thrust, 1),
        rat(0, 1),
        rat(burn, 1),
    )
    .unwrap()
}

/// The two-stage rocket used throughout: a core stage (isp 300, dry 500,
/// 1500 of propellant) under an upper stage (isp 400, dry 100, 400 of
/// propellant).
fn two_stage_rocket(payload: i64) -> Rocket {
    let lower = SimpleStage::new(rat(500, 1), vec![engine(300, 10, 15, 100)]).unwrap();
    let upper = SimpleStage::new(rat(100, 1), vec![engine(400, 4, 4, 100)]).unwrap();
    Rocket {
        stages: vec![Stage::Simple(lower), Stage::Simple(upper)],
        payload_mass: rat(payload, 1),
    }
}

fn delta_v(rocket: &Rocket) -> f64 {
    let mut total = 0.0;
    for entry in rocket.stages().unwrap() {
        let isp = as_f64(&entry.isp().unwrap());
        let wet = as_f64(&entry.wet_mass().unwrap());
        let dry = as_f64(&entry.dry_mass().unwrap());
        total += isp * (wet / dry).ln() * 9.82;
    }
    total
}

#[test]
fn flight_sequence_length_counts_booster_separations() {
    // one simple stage and one boosted stage expand into 3 entries
    let core = SimpleStage::new(rat(500, 1), vec![engine(300, 10, 1, 100)]).unwrap();
    let booster = SimpleStage::new(rat(50, 1), vec![engine(250, 20, 1, 40)]).unwrap();
    let boosted = BoostedStage::new(core, booster, 2).unwrap();
    let upper = SimpleStage::new(rat(100, 1), vec![engine(400, 4, 4, 100)]).unwrap();
    let rocket = Rocket {
        stages: vec![Stage::Boosted(boosted), Stage::Simple(upper)],
        payload_mass: Rat::zero(),
    };
    let entries = rocket.stages().unwrap();
    assert_eq!(entries.len(), 3);
    // the empty rocket expands into nothing
    let empty = Rocket { stages: vec![], payload_mass: Rat::zero() };
    assert_eq!(empty.stages().unwrap().len(), 0);
}

#[test]
fn lower_stages_carry_everything_above_them() {
    let rocket = two_stage_rocket(30);
    let entries = rocket.stages().unwrap();
    assert_eq!(entries.len(), 2);
    // the lower stage carries the upper stage's wet mass plus the payload
    let wet0 = entries[0].wet_mass().unwrap();
    assert!(wet0.eq_value(&rat(2000 + 500 + 30, 1)));
    let dry0 = entries[0].dry_mass().unwrap();
    assert!(dry0.eq_value(&rat(500 + 500 + 30, 1)));
    // the upper stage carries only the payload
    let wet1 = entries[1].wet_mass().unwrap();
    assert!(wet1.eq_value(&rat(530, 1)));
    let dry1 = entries[1].dry_mass().unwrap();
    assert!(dry1.eq_value(&rat(130, 1)));
}

#[test]
fn total_delta_v_matches_independent_stage_sums() {
    // P8: the rocket's delta-v is the sum of the two stages' independent
    // Tsiolkovsky contributions, the lower one loaded with the upper's wet
    // mass.
    let rocket = two_stage_rocket(0);
    let total = delta_v(&rocket);
    let lower = 300.0f64 * (2500.0f64 / 1000.0).ln() * 9.82;
    let upper = 400.0f64 * (500.0f64 / 100.0).ln() * 9.82;
    assert!((total - (lower + upper)).abs() < 1e-9);
}

#[test]
fn delta_v_strictly_decreases_with_payload() {
    let dv0 = delta_v(&two_stage_rocket(0));
    let dv100 = delta_v(&two_stage_rocket(100));
    let dv500 = delta_v(&two_stage_rocket(500));
    assert!(dv100 < dv0);
    assert!(dv500 < dv100);
}

#[test]
fn rocket_max_g_force_takes_the_peak_entry() {
    let rocket = two_stage_rocket(0);
    let g = rocket.max_g_force().unwrap();
    // lower entry: 10000 N over 1000 at burnout; upper: 4000 N over 100
    // upper stage peak: 4000 / 100 / 9.82
    assert!(g.eq_value(&rat(4000, 982)));
}

#[test]
fn builders_stack_stages_and_set_payload() {
    let lower = SimpleStage::new(rat(500, 1), vec![engine(300, 10, 15, 100)]).unwrap();
    let upper = SimpleStage::new(rat(100, 1), vec![engine(400, 4, 4, 100)]).unwrap();
    let rocket = Rocket { stages: vec![], payload_mass: rat(999, 1) }
        .with_payload(Stage::Simple(lower))
        .with_payload(Stage::Simple(upper))
        .with_payload_mass(rat(30, 1));
    assert_eq!(rocket.stages.len(), 2);
    assert!(rocket.payload_mass.eq_value(&rat(30, 1)));
    let entries = rocket.stages().unwrap();
    assert!(entries[1].wet_mass().unwrap().eq_value(&rat(530, 1)));
}

#[test]
fn payload_search_follows_the_stepped_schedule() {
    // always above target: the schedule is 0, 10, .., 50, 100, .., 500, 600
    let mut s = PayloadSearch::new();
    let mut probes = vec![];
    for _ in 0..14 {
        probes.push(s.probe);
        assert!(s.step(true).is_none());
    }
    assert_eq!(
        probes,
        vec![0, 10, 20, 30, 40, 50, 100, 150, 200, 250, 300, 350, 400, 450]
    );
    let mut t = PayloadSearch::new();
    assert_eq!(t.step(false), Some(0));
}

#[test]
fn payload_search_returns_last_mass_above_target() {
    // P7: the found payload still beats the target, the next scheduled one
    // does not.
    let target = 8000.0;
    let above = |p: u64| delta_v(&two_stage_rocket(p as i64)) > target;
    let mut search = PayloadSearch::new();
    let found = loop {
        let probe = search.probe;
        if let Some(found) = search.step(above(probe)) {
            break found;
        }
    };
    assert!(found > 0);
    assert!(above(found));
    let next = if found < 50 {
        found + 10
    } else if found < 500 {
        found + 50
    } else {
        found + 100
    };
    assert!(!above(next));
}

#[test]
fn unreachable_target_yields_zero_payload() {
    let above = |p: u64| delta_v(&two_stage_rocket(p as i64)) > 1.0e9;
    let mut search = PayloadSearch::new();
    let probe = search.probe;
    assert_eq!(search.step(above(probe)), Some(0));
}
