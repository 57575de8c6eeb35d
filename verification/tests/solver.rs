//! End-to-end tests of the lattice solver against independently computed
//! floating-point references, plus exact checks of the fixed-point model.

use tdr_lattice::config::{
    derive_parameters, ConfigError, ConfigField, LineParameters, CYCLES_CAP, ER_CAP, LEN_CAP,
    V_CAP, Z_CAP,
};
use tdr_lattice::fixed::{fx_div, fx_exp_neg, fx_mul, fx_pow, fx_sqrt, SCALE};
use tdr_lattice::lattice::{solve, solve_all, solve_lane, LatticeState};

const S: f64 = 1e9;

/// The eight-lane bus configuration: lane lengths in mm, impedances in ohms,
/// speed of light in m/s, all scaled to fixed point.
fn scenario() -> LineParameters {
    LineParameters {
        z0: 43_431_230_000,
        z_source: 150_000_000_000,
        z_load: 160_000_000_000,
        v0: 1_600_000_000,
        relative_permittivity: 3_900_000_000,
        speed_of_light: 299_792_458_000_000_000,
        lane_lengths: vec![
            61_667_000_000,
            58_000_000_000,
            58_000_000_000,
            63_667_000_000,
            60_333_000_000,
            59_333_000_000,
            58_667_000_000,
            58_667_000_000,
        ],
        cycles: 8,
    }
}

fn as_f64(x: i64) -> f64 {
    x as f64 / S
}

#[test]
fn derived_scalars_match_the_formulas() {
    let d = derive_parameters(&scenario()).unwrap();
    let v1 = 1.6 * 43.43123 / (150.0 + 43.43123);
    let pg = (150.0 - 43.43123) / (150.0 + 43.43123);
    let pt = (160.0 - 43.43123) / (160.0 + 43.43123);
    assert!((as_f64(d.v1) - v1).abs() < 1e-5);
    assert!((as_f64(d.source_reflection) - pg).abs() < 1e-5);
    assert!((as_f64(d.load_reflection) - pt).abs() < 1e-5);
    assert!((as_f64(d.sqrt_permittivity) - 3.9f64.sqrt()).abs() < 1e-5);
    assert_eq!(d.v1, 359_248_958);
    assert_eq!(d.source_reflection, 550_938_801);
    assert_eq!(d.load_reflection, 573_013_150);
    assert_eq!(d.cycles, 8);
    for (i, (&t, &rt)) in d.delays.iter().zip(d.round_trip_delays.iter()).enumerate() {
        assert!(t > 0, "lane {} delay not positive", i);
        assert_eq!(rt, 2 * t);
    }
}

#[test]
fn p2_seed_correctness() {
    let d = derive_parameters(&scenario()).unwrap();
    let (_, send) = solve_lane(&d, 0);
    let v1 = 1.6 * 43.43123 / (150.0 + 43.43123);
    let pg = (150.0 - 43.43123) / (150.0 + 43.43123);
    let pt = (160.0 - 43.43123) / (160.0 + 43.43123);
    let t = as_f64(d.delays[0]);
    // The cycle-0 amplitude arriving back at the source: one load reflection
    // and one half trip of decay past the seed.
    let a0 = pt * v1 * (-t).exp();
    assert!((as_f64(send[0]) - (v1 + (1.0 + pg) * a0)).abs() < 1e-5);
    assert_eq!(send[0], 678_516_241);
}

#[test]
fn p1_receive_steps_decay_geometrically() {
    let d = derive_parameters(&scenario()).unwrap();
    let (recv, send) = solve_lane(&d, 0);
    let pg = (150.0 - 43.43123) / (150.0 + 43.43123);
    let pt = (160.0 - 43.43123) / (160.0 + 43.43123);
    let mut prev = recv[0];
    let mut prev_diff = i64::MAX;
    for c in 1..recv.len() {
        let diff = recv[c] - prev;
        assert!(diff.abs() < prev_diff.abs(), "cycle {} grew", c);
        if c >= 2 {
            // The decay ratio approaches the product of the reflection
            // coefficients.
            let ratio = diff as f64 / prev_diff as f64;
            assert!((ratio - pg * pt).abs() < 1e-3, "ratio {} at cycle {}", ratio, c);
        }
        prev = recv[c];
        prev_diff = diff;
    }
    let mut prev_s = send[0];
    let mut prev_diff_s = i64::MAX;
    for c in 1..send.len() {
        let diff = send[c] - prev_s;
        assert!(diff.abs() < prev_diff_s.abs());
        prev_s = send[c];
        prev_diff_s = diff;
    }
}

#[test]
fn p3_lane_independence() {
    let p = scenario();
    let d = derive_parameters(&p).unwrap();
    let all = solve_all(&d);
    assert_eq!(all.len(), 8);
    for lane in 0..8 {
        let (recv, send) = solve_lane(&d, lane);
        assert_eq!(recv, all[lane].0, "lane {} receive series differ", lane);
        assert_eq!(send, all[lane].1, "lane {} send series differ", lane);
    }
    // Removing other lanes does not change a lane's series either.
    let mut solo = scenario();
    solo.lane_lengths = vec![p.lane_lengths[3]];
    let d_solo = derive_parameters(&solo).unwrap();
    let (recv, send) = solve_lane(&d_solo, 0);
    assert_eq!(recv, all[3].0);
    assert_eq!(send, all[3].1);
}

#[test]
fn p4_exponents_grow_once_per_cycle() {
    let d = derive_parameters(&scenario()).unwrap();
    let e1 = fx_exp_neg(d.delays[0]);
    let mut st = LatticeState::new(d.source_reflection, d.load_reflection, d.v1, e1);
    assert_eq!(st.source_exponent, 0);
    assert_eq!(st.load_exponent, 0);
    for c in 1..=8 {
        st.step(d.source_reflection, d.load_reflection, d.v1, e1);
        assert_eq!(st.source_exponent, c);
        assert_eq!(st.load_exponent, c);
    }
}

#[test]
fn p5_rejects_source_impedance_of_minus_z0() {
    let mut p = scenario();
    p.z_source = -p.z0;
    match solve(&p) {
        Err(ConfigError::NonPositive { field: ConfigField::SourceImpedance, value }) => {
            assert_eq!(value, -43_431_230_000);
        }
        other => panic!("expected rejection, got {:?}", other.err()),
    }
}

#[test]
fn p6_eight_lane_scenario() {
    let p = scenario();
    let d = derive_parameters(&p).unwrap();
    // Units as in the configuration: lengths in mm against a speed in m/s.
    assert!((as_f64(d.velocity) - 1.5176e8).abs() / 1.5176e8 < 1e-3);
    let delays = &d.delays;
    let max = *delays.iter().max().unwrap();
    let min = *delays.iter().min().unwrap();
    assert!(min > 0);
    // Lane delays lie within five percent of one another.
    assert!((max - min) as f64 <= 0.05 * (max + min) as f64);
    let series = solve(&p).unwrap();
    let send7 = as_f64(series[0].1[7]);
    assert!(send7.is_finite());
    let v1 = 1.6 * 43.43123 / (150.0 + 43.43123);
    let pg = (150.0 - 43.43123) / (150.0 + 43.43123);
    let pt = (160.0 - 43.43123) / (160.0 + 43.43123);
    let limit = v1 * (1.0 + pg) * (1.0 + pt) / (1.0 - pg * pt);
    assert!(v1 < send7 && send7 < limit);
    // The original eight-lane bus settles toward 0.8258 volts.
    assert!((send7 - 0.8258).abs() < 1e-3);
}

#[test]
fn series_climb_monotonically() {
    // Both end impedances exceed the line's, so both reflection coefficients
    // are positive and every accumulated series rises toward its limit.
    let d = derive_parameters(&scenario()).unwrap();
    for (recv, send) in solve_all(&d) {
        for c in 1..recv.len() {
            assert!(recv[c - 1] <= recv[c]);
            assert!(send[c - 1] <= send[c]);
        }
    }
}

#[test]
fn full_lane_zero_series_is_pinned() {
    let d = derive_parameters(&scenario()).unwrap();
    let (recv, send) = solve_lane(&d, 0);
    assert_eq!(
        recv,
        vec![
            565_102_880,
            743_503_276,
            799_823_374,
            817_603_341,
            823_216_385,
            824_988_393,
            825_547_805,
            825_724_407,
        ]
    );
    assert_eq!(
        send,
        vec![
            678_516_241,
            779_307_300,
            811_126_524,
            821_171_690,
            824_342_896,
            825_344_026,
            825_660_076,
            825_759_850,
        ]
    );
}

#[test]
fn every_rejection_names_its_field() {
    let base = scenario;
    let mut p = base();
    p.z0 = 0;
    assert!(matches!(
        derive_parameters(&p),
        Err(ConfigError::NonPositive { field: ConfigField::CharacteristicImpedance, value: 0 })
    ));
    p = base();
    p.z0 = Z_CAP + 1;
    assert!(matches!(
        derive_parameters(&p),
        Err(ConfigError::OutOfRange { field: ConfigField::CharacteristicImpedance, .. })
    ));
    p = base();
    p.z_load = -1;
    assert!(matches!(
        derive_parameters(&p),
        Err(ConfigError::NonPositive { field: ConfigField::LoadImpedance, value: -1 })
    ));
    p = base();
    p.v0 = V_CAP + 1;
    assert!(matches!(
        derive_parameters(&p),
        Err(ConfigError::OutOfRange { field: ConfigField::DriveVoltage, .. })
    ));
    p = base();
    p.relative_permittivity = -5;
    assert!(matches!(
        derive_parameters(&p),
        Err(ConfigError::NonPositive { field: ConfigField::Permittivity, value: -5 })
    ));
    p = base();
    p.relative_permittivity = SCALE / 2;
    assert!(matches!(
        derive_parameters(&p),
        Err(ConfigError::OutOfRange { field: ConfigField::Permittivity, .. })
    ));
    p = base();
    p.relative_permittivity = ER_CAP + 1;
    assert!(matches!(
        derive_parameters(&p),
        Err(ConfigError::OutOfRange { field: ConfigField::Permittivity, .. })
    ));
    p = base();
    p.speed_of_light = 0;
    assert!(matches!(
        derive_parameters(&p),
        Err(ConfigError::NonPositive { field: ConfigField::SpeedOfLight, value: 0 })
    ));
    p = base();
    p.cycles = 0;
    assert!(matches!(derive_parameters(&p), Err(ConfigError::TooFewCycles)));
    p = base();
    p.cycles = CYCLES_CAP + 1;
    assert!(matches!(derive_parameters(&p), Err(ConfigError::TooManyCycles { .. })));
    p = base();
    p.lane_lengths = vec![];
    assert!(matches!(derive_parameters(&p), Err(ConfigError::NoLanes)));
    p = base();
    p.lane_lengths[2] = 0;
    assert!(matches!(
        derive_parameters(&p),
        Err(ConfigError::NonPositiveLaneLength { lane: 2, value: 0 })
    ));
    p = base();
    p.lane_lengths[5] = LEN_CAP + 1;
    assert!(matches!(
        derive_parameters(&p),
        Err(ConfigError::LaneLengthOutOfRange { lane: 5, .. })
    ));
    p = base();
    // One billionth of a millimetre: its delay truncates to zero whole units.
    p.lane_lengths[1] = 1;
    assert!(matches!(derive_parameters(&p), Err(ConfigError::DelayUnderflow { lane: 1 })));
}

#[test]
fn fixed_point_operations_truncate_toward_zero() {
    assert_eq!(fx_mul(SCALE, SCALE), SCALE);
    assert_eq!(fx_mul(2_500_000_000, 2_000_000_000), 5_000_000_000);
    assert_eq!(fx_mul(-1_500_000_000, 1_000_000_001), -1_500_000_001);
    assert_eq!(fx_mul(1, 999_999_999), 0);
    assert_eq!(fx_div(1_000_000_000, 3_000_000_000), 333_333_333);
    assert_eq!(fx_div(-1_000_000_000, 3_000_000_000), -333_333_333);
    assert_eq!(fx_sqrt(4_000_000_000), 2_000_000_000);
    assert_eq!(fx_sqrt(0), 0);
    assert_eq!(fx_sqrt(2_000_000_000), 1_414_213_562);
    assert_eq!(fx_pow(500_000_000, 3), 125_000_000);
    assert_eq!(fx_pow(-1_000_000_000, 5), -1_000_000_000);
}

#[test]
fn exponential_decay_matches_the_real_exponential() {
    assert_eq!(fx_exp_neg(0), SCALE);
    // exp(-1), rounded down by the model to within a few billionths.
    let e1 = fx_exp_neg(SCALE);
    assert!((as_f64(e1) - (-1.0f64).exp()).abs() < 1e-6);
    let e25 = fx_exp_neg(2_500_000_000);
    assert!((as_f64(e25) - (-2.5f64).exp()).abs() < 1e-4);
    // A tiny delay decays by almost nothing.
    let e_small = fx_exp_neg(802);
    assert!((as_f64(e_small) - (-802e-9f64).exp()).abs() < 1e-8);
    // Far past any physical delay the decay bottoms out at zero.
    assert_eq!(fx_exp_neg(64 * SCALE), 0);
    assert_eq!(fx_exp_neg(i64::MAX), 0);
}

#[test]
fn solve_rejects_before_producing_any_series() {
    let mut p = scenario();
    p.z_source = 0;
    let out = solve(&p);
    assert!(out.is_err());
}
