use rocketry::engines::Engine;
use rocketry::fuels::Fuel;
use rocketry::rat::Rat;
use rocketry::Error;

fn rat(n: i64, d: i64) -> Rat {
    Rat::new(n, d).unwrap()
}

fn fuel(name: &str, num: i64, den: i64) -> Fuel {
    Fuel::new(name.to_string(), rat(num, den)).unwrap()
}

fn engine(
    name: &str,
    cons: Vec<(Fuel, Rat)>,
    isp: Rat,
    thrust: Rat,
    mass: Rat,
    burn: Rat,
) -> Engine {
    Engine::new(name.to_string(), cons, isp, thrust, mass, burn).unwrap()
}

#[test]
fn rat_arithmetic_is_exact() {
    let third = rat(1, 3);
    let sixth = rat(1, 6);
    let half = rat(1, 2);
    assert!(third.checked_add(&sixth).unwrap().eq_value(&half));
    assert!(third.checked_mul(&rat(3, 2)).unwrap().eq_value(&half));
    assert!(half.checked_sub(&sixth).unwrap().eq_value(&third));
    assert!(half.checked_div(&rat(3, 1)).unwrap().eq_value(&sixth));
    assert!(rat(2, 4).eq_value(&rat(1, 2)));
    assert!(rat(-3, -6).eq_value(&half));
    assert!(rat(1, 3).lt(&half));
    assert!(rat(1, 2).le(&half));
}

#[test]
fn rat_reports_overflow_and_zero_division() {
    assert!(Rat::new(1, 0).is_none());
    let big = rat(i64::MAX, 1);
    assert!(big.checked_add(&big).is_none());
    assert!(big.checked_mul(&big).is_none());
    assert!(rat(1, 2).checked_div(&Rat::zero()).is_none());
}

#[test]
fn propellant_mass_per_second_sums_rate_times_density() {
    // density 0.82 at 2 kg-equivalent/s and density 1.141 at 1/s:
    // 0.82 * 2 + 1.141 * 1 = 2.781
    let e = engine(
        "test engine",
        vec![
            (fuel("Kerosene", 82, 100), rat(2, 1)),
            (fuel("LqdOxygen", 1141, 1000), rat(1, 1)),
        ],
        rat(300, 1),
        rat(10, 1),
        rat(100, 1),
        rat(10, 1),
    );
    let mps = e.propellant_mass_per_second().unwrap();
    assert!(mps.eq_value(&rat(2781, 1000)));
}

#[test]
fn full_burn_is_per_second_times_burn_time() {
    let e = engine(
        "test engine",
        vec![
            (fuel("Kerosene", 82, 100), rat(2, 1)),
            (fuel("LqdOxygen", 1141, 1000), rat(1, 1)),
        ],
        rat(300, 1),
        rat(10, 1),
        rat(100, 1),
        rat(10, 1),
    );
    let mps = e.propellant_mass_per_second().unwrap();
    let full = e.propellant_mass_for_full_burn().unwrap();
    let expected = mps.checked_mul(&rat(10, 1)).unwrap();
    assert!(full.eq_value(&expected));
    assert!(full.eq_value(&rat(27810, 1000)));
}

#[test]
fn propellants_required_scales_each_rate_by_burn_time() {
    let e = engine(
        "test engine",
        vec![
            (fuel("UDMH", 791, 1000), rat(3, 1)),
            (fuel("IRFNA-III", 1658, 1000), rat(5, 1)),
        ],
        rat(276, 1),
        rat(67, 1),
        rat(132, 1),
        rat(120, 1),
    );
    let req = e.propellants_required().unwrap();
    assert_eq!(req.len(), 2);
    assert_eq!(req[0].0.name, "UDMH");
    assert!(req[0].1.eq_value(&rat(360, 1)));
    assert_eq!(req[1].0.name, "IRFNA-III");
    assert!(req[1].1.eq_value(&rat(600, 1)));
}

#[test]
fn with_burn_time_changes_only_the_burn_time() {
    let e = engine(
        "test engine",
        vec![(fuel("PSPC", 174, 100), rat(2, 1))],
        rat(235, 1),
        rat(8, 1),
        rat(6, 1),
        rat(100, 1),
    );
    let shorter = e.with_burn_time(rat(40, 1));
    assert_eq!(shorter.name, "test engine");
    assert!(shorter.burn_time.eq_value(&rat(40, 1)));
    assert!(shorter.isp.eq_value(&e.isp));
    assert!(shorter.thrust.eq_value(&e.thrust));
    assert!(shorter.mass.eq_value(&e.mass));
    // the full burn now drains less propellant
    let full = shorter.propellant_mass_for_full_burn().unwrap();
    assert!(full.eq_value(&rat(139200, 1000)));
}

#[test]
fn invalid_engines_and_fuels_are_rejected() {
    assert_eq!(
        Fuel::new("vacuum".to_string(), Rat::zero()).unwrap_err(),
        Error::InvalidEngine
    );
    // zero specific impulse is rejected
    let r = Engine::new(
        "broken".to_string(),
        vec![(fuel("PSPC", 174, 100), rat(1, 1))],
        Rat::zero(),
        rat(8, 1),
        rat(6, 1),
        rat(10, 1),
    );
    assert_eq!(r.unwrap_err(), Error::InvalidEngine);
    // duplicate fuels are rejected
    let r2 = Engine::new(
        "duplicate fuels".to_string(),
        vec![
            (fuel("PSPC", 174, 100), rat(1, 1)),
            (fuel("PSPC", 174, 100), rat(2, 1)),
        ],
        rat(235, 1),
        rat(8, 1),
        rat(6, 1),
        rat(10, 1),
    );
    assert_eq!(r2.unwrap_err(), Error::InvalidEngine);
    // a negative burn time is rejected
    let r3 = Engine::new(
        "time traveller".to_string(),
        vec![(fuel("PSPC", 174, 100), rat(1, 1))],
        rat(235, 1),
        rat(8, 1),
        rat(6, 1),
        rat(-10, 1),
    );
    assert_eq!(r3.unwrap_err(), Error::InvalidEngine);
}
