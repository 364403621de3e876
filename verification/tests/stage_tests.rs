use rocketry::engines::Engine;
use rocketry::fuels::Fuel;
use rocketry::rat::Rat;
use rocketry::stages::{BoostedStage, SimpleStage, Stage, StageWithPayload};
use rocketry::Error;

fn rat(n: i64, d: i64) -> Rat {
    Rat::new(n, d).unwrap()
}

fn as_f64(r: &Rat) -> f64 {
    r.num as f64 / r.den as f64
}

/// An engine draining `rate` units per second of a unit-density propellant.
fn engine(isp: i64, thrust_n: i64, thrust_d: i64, rate: i64, burn: i64) -> Engine {
    let f = Fuel::new("Monoprop".to_string(), rat(1, 1)).unwrap();
    Engine::new(
        "test engine".to_string(),
        vec![(f, rat(rate, 1))],
        rat(isp, 1),
        rat(thrust_n, thrust_d),
        rat(0, 1),
        rat(burn, 1),
    )
    .unwrap()
}

#[test]
fn simple_stage_wet_minus_dry_is_loaded_propellant() {
    // dry 1000, one engine draining 20/s over 100 s: 2000 of propellant
    let s = SimpleStage::new(rat(1000, 1), vec![engine(300, 1, 1, 20, 100)]).unwrap();
    let wet = s.wet_mass().unwrap();
    assert!(wet.eq_value(&rat(3000, 1)));
    let diff = wet.checked_sub(&s.dry_mass()).unwrap();
    assert!(diff.eq_value(&rat(2000, 1)));
}

#[test]
fn stage_constructors_report_each_error() {
    assert_eq!(
        SimpleStage::new(Rat::zero(), vec![engine(300, 1, 1, 1, 10)]).unwrap_err(),
        Error::NonPositiveDryMass
    );
    assert_eq!(
        SimpleStage::new(rat(10, 1), vec![]).unwrap_err(),
        Error::NoEngines
    );
    let core = SimpleStage::new(rat(500, 1), vec![engine(300, 10, 1, 1, 50)]).unwrap();
    let booster = SimpleStage::new(rat(50, 1), vec![engine(250, 20, 1, 1, 80)]).unwrap();
    // boosters may not outburn the core
    assert_eq!(
        BoostedStage::new(core, booster, 2).unwrap_err(),
        Error::BoosterBurnExceedsCore
    );
}

#[test]
fn tsiolkovsky_factors_of_a_single_engine_stage() {
    // isp 300 s, dry 1000, wet 3000: delta-v is 300 * ln(3) * 9.82
    let s = SimpleStage::new(rat(1000, 1), vec![engine(300, 1, 1, 20, 100)]).unwrap();
    let stage = Stage::Simple(s);
    let isp = stage.isp().unwrap();
    assert!(isp.eq_value(&rat(300, 1)));
    let wet = stage.wet_mass().unwrap();
    let dry = stage.dry_mass().unwrap();
    assert!(wet.eq_value(&rat(3000, 1)));
    assert!(dry.eq_value(&rat(1000, 1)));
    let dv = as_f64(&isp) * (as_f64(&wet) / as_f64(&dry)).ln() * 9.82;
    let expected = 300.0f64 * 3.0f64.ln() * 9.82;
    assert!((dv - expected).abs() < 1e-9);
    assert!(dv > 3236.0 && dv < 3237.0);
}

#[test]
fn combined_isp_is_thrust_weighted() {
    // 300 s at thrust 9 and 200 s at thrust 3:
    // (9 + 3) / (9/300 + 3/200) = 12 / 0.045 = 266.66..
    let e1 = engine(300, 9, 1, 1, 100);
    let e2 = engine(200, 3, 1, 1, 100);
    let s = SimpleStage::new(rat(100, 1), vec![e1, e2]).unwrap();
    let isp = Stage::Simple(s).isp().unwrap();
    assert!(isp.eq_value(&rat(12000, 45)));
}

#[test]
fn burn_time_is_the_longest_engine_burn() {
    let s = SimpleStage::new(
        rat(100, 1),
        vec![engine(300, 1, 1, 1, 70), engine(300, 1, 1, 1, 120)],
    )
    .unwrap();
    let stage = Stage::Simple(s);
    assert!(stage.burn_time().eq_value(&rat(120, 1)));
}

#[test]
fn boosted_stage_masses_and_burn_time() {
    // core: dry 500, drains 1/s for 100 s -> wet 600
    // booster: dry 50, drains 1/s for 40 s -> wet 90, count 2
    let core = SimpleStage::new(rat(500, 1), vec![engine(300, 10, 1, 1, 100)]).unwrap();
    let booster = SimpleStage::new(rat(50, 1), vec![engine(250, 20, 1, 1, 40)]).unwrap();
    let b = BoostedStage::new(core, booster, 2).unwrap();
    let stage = Stage::Boosted(b);
    // wet: 600 + 2 * 90 = 780
    assert!(stage.wet_mass().unwrap().eq_value(&rat(780, 1)));
    // dry: continuation wet (500 + 60) + 2 * 50 = 660
    assert!(stage.dry_mass().unwrap().eq_value(&rat(660, 1)));
    // the boosted configuration lives until the boosters separate
    assert!(stage.burn_time().eq_value(&rat(40, 1)));
    // engines: core + 2 boosters
    assert_eq!(stage.engines().len(), 3);
}

#[test]
fn booster_separation_round_trip() {
    let core = SimpleStage::new(rat(500, 1), vec![engine(300, 10, 1, 1, 100)]).unwrap();
    let booster = SimpleStage::new(rat(50, 1), vec![engine(250, 20, 1, 1, 40)]).unwrap();
    let b = BoostedStage::new(core, booster, 2).unwrap();
    let sep = b.stage_after_booster_separation().unwrap();
    // the core continues for the remaining 60 s
    let sep_stage = Stage::Simple(sep);
    assert!(sep_stage.burn_time().eq_value(&rat(60, 1)));
    let sep_wet = sep_stage.wet_mass().unwrap();
    // P4: continuation wet mass + separated booster dry mass == boosted dry mass
    let booster_dry_total = b.booster.dry_mass().checked_mul(&rat(2, 1)).unwrap();
    let round_trip = sep_wet.checked_add(&booster_dry_total).unwrap();
    let dry = Stage::Boosted(b).dry_mass().unwrap();
    assert!(round_trip.eq_value(&dry));
}

#[test]
fn payload_decorator_shifts_both_masses_and_keeps_engines() {
    let s = SimpleStage::new(rat(1000, 1), vec![engine(300, 5, 1, 20, 100)]).unwrap();
    let bare = Stage::Simple(s);
    let bare_wet = bare.wet_mass().unwrap();
    let bare_dry = bare.dry_mass().unwrap();
    let bare_isp = bare.isp().unwrap();
    let wrapped = Stage::WithPayload(StageWithPayload {
        stage: Box::new(bare),
        payload_mass: rat(250, 1),
    });
    assert!(wrapped
        .wet_mass()
        .unwrap()
        .eq_value(&bare_wet.checked_add(&rat(250, 1)).unwrap()));
    assert!(wrapped
        .dry_mass()
        .unwrap()
        .eq_value(&bare_dry.checked_add(&rat(250, 1)).unwrap()));
    assert!(wrapped.isp().unwrap().eq_value(&bare_isp));
    // the decorator passes separation events through: a simple stage stays terminal
    assert!(wrapped.next_stage().unwrap().is_none());
}

#[test]
fn twr_and_max_g_force() {
    // thrust 10 kN, wet 2000, dry 1000, g0 = 9.82:
    // twr = 10000 / 2000 / 9.82; end acceleration = 10000 / 1000 / 9.82
    let s = SimpleStage::new(rat(1000, 1), vec![engine(300, 10, 1, 10, 100)]).unwrap();
    let stage = Stage::Simple(s);
    let twr = stage.twr().unwrap();
    assert!(twr.eq_value(&rat(10000, 19640)));
    let max_g = stage.max_g_force().unwrap();
    assert!(max_g.eq_value(&rat(10000, 9820)));
}

#[test]
fn propellants_required_merges_fuels_across_engines() {
    let kerosene = || Fuel::new("Kerosene".to_string(), rat(82, 100)).unwrap();
    let lox = || Fuel::new("LqdOxygen".to_string(), rat(1141, 1000)).unwrap();
    let core_engine = Engine::new(
        "core".to_string(),
        vec![(kerosene(), rat(2, 1))],
        rat(300, 1),
        rat(10, 1),
        rat(0, 1),
        rat(100, 1),
    )
    .unwrap();
    let booster_engine = Engine::new(
        "booster".to_string(),
        vec![(kerosene(), rat(1, 1)), (lox(), rat(1, 1))],
        rat(250, 1),
        rat(20, 1),
        rat(0, 1),
        rat(40, 1),
    )
    .unwrap();
    let core = SimpleStage::new(rat(500, 1), vec![core_engine]).unwrap();
    let booster = SimpleStage::new(rat(50, 1), vec![booster_engine]).unwrap();
    let stage = Stage::Boosted(BoostedStage::new(core, booster, 2).unwrap());
    let req = stage.propellants_required().unwrap();
    assert_eq!(req.len(), 2);
    assert_eq!(req[0].0.name, "Kerosene");
    // 2/s over 100 s from the core, 1/s over 40 s from each of two boosters
    assert!(req[0].1.eq_value(&rat(280, 1)));
    assert_eq!(req[1].0.name, "LqdOxygen");
    assert!(req[1].1.eq_value(&rat(80, 1)));
}

#[test]
fn verniers_are_tied_to_the_first_engine_burn() {
    let s = SimpleStage::new(rat(1000, 1), vec![engine(300, 10, 1, 10, 100)]).unwrap();
    let vernier = engine(238, 4448, 1000, 1, 360);
    let with = s.with_verniers(vernier).unwrap();
    assert_eq!(with.engines.len(), 3);
    assert!(with.engines[1].burn_time.eq_value(&rat(100, 1)));
    assert!(with.engines[2].burn_time.eq_value(&rat(100, 1)));
}
