//! Line parameters, their validation, and the derived per-lane scalars.
//!
//! All quantities are fixed-point values in units of one billionth (see
//! `crate::fixed`): impedances in ohms, voltages in volts, lane lengths and
//! the speed of light in any consistent pair of length and time units.
//! Validation rejects every configuration the solver cannot serve — with the
//! offending field and value — before any series is computed.

use vstd::prelude::*;
use vstd::arithmetic::div_mod::{
    lemma_div_is_ordered, lemma_div_is_ordered_by_denominator, lemma_multiply_divide_le,
    lemma_multiply_divide_lt, lemma_remainder_lower,
};
use vstd::arithmetic::mul::{
    lemma_mul_inequality, lemma_mul_is_commutative, lemma_mul_nonnegative,
    lemma_mul_strict_inequality, lemma_mul_upper_bound,
};
use crate::fixed::{
    fx_div, fx_mul, fx_sqrt, s_is_isqrt, s_mag, s_tdiv, s_tmul, SCALE,
};

verus! {

/// Largest accepted impedance, one million ohms.
pub const Z_CAP: i64 = 1_000_000_000_000_000;

/// Largest accepted drive-voltage magnitude, one thousand volts.
pub const V_CAP: i64 = 1_000_000_000_000;

/// Largest accepted relative permittivity, one thousand (the smallest is one).
pub const ER_CAP: i64 = 1_000_000_000_000;

/// Largest accepted propagation speed, one billion length units per time unit
/// (the smallest is one).
pub const C_CAP: i64 = 1_000_000_000_000_000_000;

/// Largest accepted lane length, one million length units.
pub const LEN_CAP: i64 = 1_000_000_000_000_000;

/// Largest accepted cycle count.
pub const CYCLES_CAP: usize = 100_000;

/// The transmission-line configuration, as given by the caller.
pub struct LineParameters {
    /// Characteristic impedance of the line, ohms; positive.
    pub z0: i64,
    /// Source-side impedance, ohms; positive.
    pub z_source: i64,
    /// Load-side impedance, ohms; positive.
    pub z_load: i64,
    /// Initially driven voltage at the source, volts.
    pub v0: i64,
    /// Dielectric constant; at least one.
    pub relative_permittivity: i64,
    /// Propagation speed in vacuum, length units per time unit; positive.
    pub speed_of_light: i64,
    /// Physical length of each lane, length units; each positive.
    pub lane_lengths: Vec<i64>,
    /// Number of reflection cycles to compute per lane; at least one.
    pub cycles: usize,
}

/// Which scalar field of the configuration an error speaks of.
#[derive(Clone, Copy, Debug, PartialEq, Eq, Structural)]
pub enum ConfigField {
    CharacteristicImpedance,
    SourceImpedance,
    LoadImpedance,
    DriveVoltage,
    Permittivity,
    SpeedOfLight,
}

/// Rejection of a configuration, raised during parameter derivation and
/// never partway through a series. Each variant carries the offending
/// field and value.
#[derive(Clone, Copy, Debug, PartialEq, Eq, Structural)]
pub enum ConfigError {
    /// A quantity that must be positive is zero or negative. Non-positive
    /// impedances are exactly the configurations whose reflection
    /// coefficients would leave (-1, 1), or whose derivation would divide
    /// by zero.
    NonPositive { field: ConfigField, value: i64 },
    /// A quantity lies outside the range this fixed-point representation
    /// serves.
    OutOfRange { field: ConfigField, value: i64 },
    /// The lane list is empty.
    NoLanes,
    /// A lane length is zero or negative.
    NonPositiveLaneLength { lane: usize, value: i64 },
    /// A lane length lies outside the served range.
    LaneLengthOutOfRange { lane: usize, value: i64 },
    /// A lane is so short against the propagation speed that its delay
    /// rounds to zero whole units.
    DelayUnderflow { lane: usize },
    /// The cycle count is zero.
    TooFewCycles,
    /// The cycle count exceeds the served range.
    TooManyCycles { value: usize },
}

/// The integer square root, where one exists (every nonnegative argument
/// has one; callers witness it through `fx_sqrt`).
pub open spec fn s_isqrt(y: int) -> int {
    choose|r: int| s_is_isqrt(y, r)
}

/// Square root of the relative permittivity, in fixed point.
pub open spec fn s_sqrt_er(p: LineParameters) -> int {
    s_isqrt(p.relative_permittivity as int * SCALE as int)
}

/// Propagation velocity: the speed of light over the square root of the
/// relative permittivity.
pub open spec fn s_velocity(p: LineParameters) -> int {
    s_tdiv(p.speed_of_light as int, s_sqrt_er(p))
}

/// Propagation delay of lane `i`: its length times the square root of the
/// permittivity, over the velocity. (Algebraically the square roots cancel
/// into length times permittivity over speed; the factored form is kept as
/// the model deliberately.)
pub open spec fn s_delay(p: LineParameters, i: int) -> int {
    s_tdiv(s_tmul(p.lane_lengths@[i] as int, s_sqrt_er(p)), s_velocity(p))
}

/// Initial voltage step at the source: `v0 * z0 / (z_source + z0)`.
pub open spec fn s_v1(p: LineParameters) -> int {
    s_tdiv(s_tmul(p.v0 as int, p.z0 as int), p.z_source as int + p.z0 as int)
}

/// Source-side reflection coefficient: `(z_source - z0) / (z_source + z0)`.
pub open spec fn s_gamma_source(p: LineParameters) -> int {
    s_tdiv(p.z_source as int - p.z0 as int, p.z_source as int + p.z0 as int)
}

/// Load-side reflection coefficient: `(z_load - z0) / (z_load + z0)`.
pub open spec fn s_gamma_load(p: LineParameters) -> int {
    s_tdiv(p.z_load as int - p.z0 as int, p.z_load as int + p.z0 as int)
}

/// First error among the lanes from index `i` on: a non-positive or
/// oversized length, or a delay that truncates to zero.
pub open spec fn s_lane_error(p: LineParameters, i: int) -> Option<ConfigError>
    decreases p.lane_lengths@.len() - i,
{
    if i < 0 || i >= p.lane_lengths@.len() {
        None
    } else if p.lane_lengths@[i] <= 0 {
        Some(ConfigError::NonPositiveLaneLength { lane: i as usize, value: p.lane_lengths@[i] })
    } else if p.lane_lengths@[i] > LEN_CAP {
        Some(ConfigError::LaneLengthOutOfRange { lane: i as usize, value: p.lane_lengths@[i] })
    } else if s_delay(p, i) <= 0 {
        Some(ConfigError::DelayUnderflow { lane: i as usize })
    } else {
        s_lane_error(p, i + 1)
    }
}

/// The first error in a configuration, checked in a fixed order; `None`
/// exactly when the configuration is accepted.
pub open spec fn s_config_error(p: LineParameters) -> Option<ConfigError> {
    if p.z0 <= 0 {
        Some(ConfigError::NonPositive { field: ConfigField::CharacteristicImpedance, value: p.z0 })
    } else if p.z0 > Z_CAP {
        Some(ConfigError::OutOfRange { field: ConfigField::CharacteristicImpedance, value: p.z0 })
    } else if p.z_source <= 0 {
        Some(ConfigError::NonPositive { field: ConfigField::SourceImpedance, value: p.z_source })
    } else if p.z_source > Z_CAP {
        Some(ConfigError::OutOfRange { field: ConfigField::SourceImpedance, value: p.z_source })
    } else if p.z_load <= 0 {
        Some(ConfigError::NonPositive { field: ConfigField::LoadImpedance, value: p.z_load })
    } else if p.z_load > Z_CAP {
        Some(ConfigError::OutOfRange { field: ConfigField::LoadImpedance, value: p.z_load })
    } else if p.v0 < -V_CAP || p.v0 > V_CAP {
        Some(ConfigError::OutOfRange { field: ConfigField::DriveVoltage, value: p.v0 })
    } else if p.relative_permittivity <= 0 {
        Some(ConfigError::NonPositive { field: ConfigField::Permittivity, value: p.relative_permittivity })
    } else if p.relative_permittivity < SCALE || p.relative_permittivity > ER_CAP {
        Some(ConfigError::OutOfRange { field: ConfigField::Permittivity, value: p.relative_permittivity })
    } else if p.speed_of_light <= 0 {
        Some(ConfigError::NonPositive { field: ConfigField::SpeedOfLight, value: p.speed_of_light })
    } else if p.speed_of_light < SCALE || p.speed_of_light > C_CAP {
        Some(ConfigError::OutOfRange { field: ConfigField::SpeedOfLight, value: p.speed_of_light })
    } else if p.cycles == 0 {
        Some(ConfigError::TooFewCycles)
    } else if p.cycles > CYCLES_CAP {
        Some(ConfigError::TooManyCycles { value: p.cycles })
    } else if p.lane_lengths@.len() == 0 {
        Some(ConfigError::NoLanes)
    } else {
        s_lane_error(p, 0)
    }
}

/// The scalars and per-lane delays the solver runs on, derived once from an
/// accepted configuration.
pub struct Derived {
    /// Initial voltage step at the source.
    pub v1: i64,
    /// Source-side reflection coefficient, strictly inside (-1, 1).
    pub source_reflection: i64,
    /// Load-side reflection coefficient, strictly inside (-1, 1).
    pub load_reflection: i64,
    /// Square root of the relative permittivity.
    pub sqrt_permittivity: i64,
    /// Propagation velocity.
    pub velocity: i64,
    /// Propagation delay of each lane; each positive.
    pub delays: Vec<i64>,
    /// Round-trip delay of each lane: twice the propagation delay.
    pub round_trip_delays: Vec<i64>,
    /// Number of reflection cycles to compute.
    pub cycles: usize,
}

impl Derived {
    /// Well-formedness: what validation establishes and the solver needs.
    pub open spec fn wf(self) -> bool {
        &&& s_mag(self.source_reflection as int) < SCALE as int
        &&& s_mag(self.load_reflection as int) < SCALE as int
        &&& s_mag(self.v1 as int) <= V_CAP as int
        &&& 1 <= self.cycles <= CYCLES_CAP
        &&& 1 <= self.delays@.len()
        &&& self.round_trip_delays@.len() == self.delays@.len()
        &&& forall|i: int| 0 <= i < self.delays@.len() ==> 0 < #[trigger] self.delays@[i]
    }
}

/// A reflection coefficient of positive impedances lies strictly inside
/// (-1, 1): the numerator's magnitude is below the denominator.
pub proof fn lemma_reflection_range(za: int, zb: int)
    requires
        1 <= za,
        1 <= zb,
    ensures
        s_mag(s_tdiv(za - zb, za + zb)) < SCALE as int,
{
    let num = za - zb;
    let den = za + zb;
    crate::fixed::lemma_tdiv_mag(num, den);
    lemma_mul_inequality(s_mag(num), den - 2, SCALE as int);
    lemma_mul_strict_inequality(den - 2, den, SCALE as int);
    lemma_multiply_divide_lt(s_mag(num) * (SCALE as int), den, SCALE as int);
    lemma_mul_is_commutative(den, SCALE as int);
}

/// The initial step's magnitude never exceeds the drive voltage's, since
/// `z0` is below the full divider `z_source + z0`.
pub proof fn lemma_v1_cap(v0: int, z0: int, den: int)
    requires
        s_mag(v0) <= V_CAP as int,
        1 <= z0 < den,
    ensures
        s_mag(s_tdiv(s_tmul(v0, z0), den)) <= V_CAP as int,
{
    let x = s_mag(v0) * z0;
    let m = s_mag(s_tmul(v0, z0));
    crate::fixed::lemma_tmul_mag(v0, z0);
    lemma_mul_nonnegative(s_mag(v0), z0);
    lemma_remainder_lower(x, SCALE as int);
    assert(m * (SCALE as int) <= x) by {
        lemma_mul_is_commutative(m, SCALE as int);
    }
    crate::fixed::lemma_tdiv_mag(s_tmul(v0, z0), den);
    lemma_div_is_ordered(m * (SCALE as int), x, den);
    lemma_mul_inequality(z0, den, s_mag(v0));
    lemma_mul_is_commutative(z0, s_mag(v0));
    lemma_mul_is_commutative(den, s_mag(v0));
    lemma_multiply_divide_le(x, den, s_mag(v0));
}

/// Validates a configuration and derives the solver's scalars: the initial
/// voltage step, both reflection coefficients, and each lane's propagation
/// and round-trip delay. Returns the first error, in the fixed order of
/// `s_config_error`, and computes nothing for a rejected configuration.
pub fn derive_parameters(p: &LineParameters) -> (out: Result<Derived, ConfigError>)
    ensures
        match out {
            Result::Ok(d) => {
                &&& s_config_error(*p) is None
                &&& d.wf()
                &&& d.sqrt_permittivity as int == s_sqrt_er(*p)
                &&& s_is_isqrt(
                    p.relative_permittivity as int * SCALE as int,
                    d.sqrt_permittivity as int,
                )
                &&& d.velocity as int == s_velocity(*p)
                &&& d.v1 as int == s_v1(*p)
                &&& d.source_reflection as int == s_gamma_source(*p)
                &&& d.load_reflection as int == s_gamma_load(*p)
                &&& d.cycles == p.cycles
                &&& d.delays@.len() == p.lane_lengths@.len()
                &&& forall|i: int|
                    0 <= i < d.delays@.len() ==> #[trigger] d.delays@[i] as int == s_delay(*p, i)
                &&& forall|i: int|
                    0 <= i < d.round_trip_delays@.len() ==> #[trigger] d.round_trip_delays@[i] as int
                        == 2 * s_delay(*p, i)
            },
            Result::Err(e) => s_config_error(*p) == Some(e),
        },
{
    if p.z0 <= 0 {
        return Result::Err(ConfigError::NonPositive {
            field: ConfigField::CharacteristicImpedance,
            value: p.z0,
        });
    }
    if p.z0 > Z_CAP {
        return Result::Err(ConfigError::OutOfRange {
            field: ConfigField::CharacteristicImpedance,
            value: p.z0,
        });
    }
    if p.z_source <= 0 {
        return Result::Err(ConfigError::NonPositive {
            field: ConfigField::SourceImpedance,
            value: p.z_source,
        });
    }
    if p.z_source > Z_CAP {
        return Result::Err(ConfigError::OutOfRange {
            field: ConfigField::SourceImpedance,
            value: p.z_source,
        });
    }
    if p.z_load <= 0 {
        return Result::Err(ConfigError::NonPositive {
            field: ConfigField::LoadImpedance,
            value: p.z_load,
        });
    }
    if p.z_load > Z_CAP {
        return Result::Err(ConfigError::OutOfRange {
            field: ConfigField::LoadImpedance,
            value: p.z_load,
        });
    }
    if p.v0 < -V_CAP || p.v0 > V_CAP {
        return Result::Err(ConfigError::OutOfRange {
            field: ConfigField::DriveVoltage,
            value: p.v0,
        });
    }
    if p.relative_permittivity <= 0 {
        return Result::Err(ConfigError::NonPositive {
            field: ConfigField::Permittivity,
            value: p.relative_permittivity,
        });
    }
    if p.relative_permittivity < SCALE || p.relative_permittivity > ER_CAP {
        return Result::Err(ConfigError::OutOfRange {
            field: ConfigField::Permittivity,
            value: p.relative_permittivity,
        });
    }
    if p.speed_of_light <= 0 {
        return Result::Err(ConfigError::NonPositive {
            field: ConfigField::SpeedOfLight,
            value: p.speed_of_light,
        });
    }
    if p.speed_of_light < SCALE || p.speed_of_light > C_CAP {
        return Result::Err(ConfigError::OutOfRange {
            field: ConfigField::SpeedOfLight,
            value: p.speed_of_light,
        });
    }
    if p.cycles == 0 {
        return Result::Err(ConfigError::TooFewCycles);
    }
    if p.cycles > CYCLES_CAP {
        return Result::Err(ConfigError::TooManyCycles { value: p.cycles });
    }
    if p.lane_lengths.len() == 0 {
        return Result::Err(ConfigError::NoLanes);
    }

    let ghost y: int = p.relative_permittivity as int * SCALE as int;
    let sq: i64 = fx_sqrt(p.relative_permittivity);
    proof {
        assert(s_is_isqrt(y, sq as int));
        assert(s_is_isqrt(y, s_isqrt(y)));
        crate::fixed::lemma_isqrt_unique(y, sq as int, s_isqrt(y));
        assert(sq as int == s_sqrt_er(*p));
        lemma_mul_inequality(SCALE as int, p.relative_permittivity as int, SCALE as int);
        assert(1_000_000_000int <= sq as int) by (nonlinear_arith)
            requires
                0 <= sq as int,
                1_000_000_000int * 1_000_000_000int <= y,
                y < (sq as int + 1) * (sq as int + 1),
        ;
        lemma_mul_upper_bound(p.relative_permittivity as int, ER_CAP as int, SCALE as int, SCALE as int);
        assert(sq as int <= 31_622_776_601int) by (nonlinear_arith)
            requires
                0 <= sq as int,
                (sq as int) * (sq as int) <= y,
                y <= 1_000_000_000_000int * 1_000_000_000int,
        ;
        crate::fixed::lemma_tdiv_cap(p.speed_of_light as int, sq as int, C_CAP as int, SCALE as int);
    }
    let velocity: i64 = fx_div(p.speed_of_light, sq);
    proof {
        assert(velocity as int == s_velocity(*p));
        crate::fixed::lemma_tdiv_mag(p.speed_of_light as int, sq as int);
        lemma_mul_inequality(SCALE as int, p.speed_of_light as int, SCALE as int);
        lemma_div_is_ordered(
            1_000_000_000int * 1_000_000_000int,
            p.speed_of_light as int * SCALE as int,
            sq as int,
        );
        lemma_div_is_ordered_by_denominator(
            1_000_000_000int * 1_000_000_000int,
            sq as int,
            31_622_776_601int,
        );
        assert(velocity as int >= 1_000_000_000_000_000_000int / 31_622_776_601int);
        assert(velocity as int >= 31_622_776int);
    }
    proof {
        lemma_reflection_range(p.z_source as int, p.z0 as int);
        lemma_reflection_range(p.z_load as int, p.z0 as int);
    }
    let source_reflection: i64 = fx_div(p.z_source - p.z0, p.z_source + p.z0);
    let load_reflection: i64 = fx_div(p.z_load - p.z0, p.z_load + p.z0);
    proof {
        crate::fixed::lemma_tmul_cap(p.v0 as int, p.z0 as int, V_CAP as int, Z_CAP as int);
        lemma_v1_cap(p.v0 as int, p.z0 as int, p.z_source as int + p.z0 as int);
    }
    let v1_num: i64 = fx_mul(p.v0, p.z0);
    let v1: i64 = fx_div(v1_num, p.z_source + p.z0);

    let n: usize = p.lane_lengths.len();
    let mut delays: Vec<i64> = Vec::new();
    let mut round_trip_delays: Vec<i64> = Vec::new();
    let mut i: usize = 0;
    while i < n
        invariant
            n == p.lane_lengths@.len(),
            i <= n,
            s_config_error(*p) == s_lane_error(*p, 0),
            s_lane_error(*p, 0) == s_lane_error(*p, i as int),
            sq as int == s_sqrt_er(*p),
            1_000_000_000 <= sq as int <= 31_622_776_601,
            velocity as int == s_velocity(*p),
            31_622_776 <= velocity as int,
            delays@.len() == i,
            round_trip_delays@.len() == i,
            forall|j: int| 0 <= j < i ==> #[trigger] delays@[j] as int == s_delay(*p, j),
            forall|j: int| 0 <= j < i ==> 0 < #[trigger] delays@[j],
            forall|j: int|
                0 <= j < i ==> #[trigger] round_trip_delays@[j] as int == 2 * s_delay(*p, j),
        decreases n - i,
    {
        let length: i64 = p.lane_lengths[i];
        if length <= 0 {
            return Result::Err(ConfigError::NonPositiveLaneLength { lane: i, value: length });
        }
        if length > LEN_CAP {
            return Result::Err(ConfigError::LaneLengthOutOfRange { lane: i, value: length });
        }
        proof {
            crate::fixed::lemma_tmul_cap(length as int, sq as int, LEN_CAP as int, 31_622_776_601int);
            assert((LEN_CAP as int * 31_622_776_601int) / (SCALE as int) == 31_622_776_601_000_000int);
        }
        let delay_num: i64 = fx_mul(length, sq);
        proof {
            crate::fixed::lemma_tdiv_cap(
                delay_num as int,
                velocity as int,
                31_622_776_601_000_000int,
                31_622_776int,
            );
        }
        let delay: i64 = fx_div(delay_num, velocity);
        if delay <= 0 {
            return Result::Err(ConfigError::DelayUnderflow { lane: i });
        }
        proof {
            assert(delay as int == s_delay(*p, i as int));
            assert(s_lane_error(*p, i as int) == s_lane_error(*p, i as int + 1));
        }
        delays.push(delay);
        round_trip_delays.push(2 * delay);
        i = i + 1;
    }
    Result::Ok(Derived {
        v1,
        source_reflection,
        load_reflection,
        sqrt_permittivity: sq,
        velocity,
        delays,
        round_trip_delays,
        cycles: p.cycles,
    })
}

} // verus!
