//! The lattice (bounce) diagram recurrence.
//!
//! A voltage step drives the line; at each reflection cycle the wave picks up
//! one factor of the load-side reflection coefficient at the receiving end
//! and one factor of the source-side coefficient at the sending end, together
//! with one more factor of the lane's exponential decay per half trip. The
//! model functions below state every value of the resulting series exactly,
//! over the truncated fixed-point arithmetic of `crate::fixed`; the solver
//! is proved to return precisely those values.

use vstd::prelude::*;
use crate::fixed::{
    fx_exp_neg, fx_mul, s_exp_neg, s_mag, s_pow, s_tmul, lemma_pow_mag, lemma_tmul_cap,
    lemma_tmul_comm, lemma_tmul_le, lemma_tmul_nonneg, SCALE,
};
use crate::config::{s_config_error, s_delay, s_gamma_load, s_gamma_source, s_v1, ConfigError,
    Derived, LineParameters, V_CAP, CYCLES_CAP, derive_parameters};

verus! {

/// Raw amplitude of the wave arriving at the receiving end in cycle `c`:
/// the seed `v1 * exp(-t)` for the first cycle, and afterwards the initial
/// step times `c` reflections at each end and `c - 1` more half trips of
/// decay. `pg` and `pt` are the source- and load-side reflection
/// coefficients, `v1` the initial step, `e1` the decay `exp(-t)` of one
/// propagation delay `t`.
pub open spec fn s_amp_recv(pg: int, pt: int, v1: int, e1: int, c: nat) -> int {
    if c == 0 {
        s_tmul(v1, e1)
    } else {
        s_tmul(s_tmul(s_tmul(s_pow(pg, c), s_pow(pt, c)), v1), s_pow(e1, (c - 1) as nat))
    }
}

/// Raw amplitude leaving the receiving end toward the sending end in cycle
/// `c`: one more load reflection and one more half trip of decay than the
/// wave that arrived.
pub open spec fn s_amp_send(pg: int, pt: int, v1: int, e1: int, c: nat) -> int {
    s_tmul(s_tmul(s_tmul(s_pow(pg, c), s_pow(pt, (c + 1) as nat)), v1), s_pow(e1, (c + 1) as nat))
}

/// Voltage contribution absorbed at the receiving end in cycle `c`.
pub open spec fn s_recv_inc(pg: int, pt: int, v1: int, e1: int, c: nat) -> int {
    s_tmul(SCALE as int + pt, s_amp_recv(pg, pt, v1, e1, c))
}

/// Voltage contribution absorbed at the sending end in cycle `c`.
pub open spec fn s_send_inc(pg: int, pt: int, v1: int, e1: int, c: nat) -> int {
    s_tmul(SCALE as int + pg, s_amp_send(pg, pt, v1, e1, c))
}

/// Accumulated receiving-end voltage after cycle `c`: the running sum of the
/// per-cycle contributions.
pub open spec fn s_recv_series(pg: int, pt: int, v1: int, e1: int, c: nat) -> int
    decreases c,
{
    if c == 0 {
        s_recv_inc(pg, pt, v1, e1, 0)
    } else {
        s_recv_series(pg, pt, v1, e1, (c - 1) as nat) + s_recv_inc(pg, pt, v1, e1, c)
    }
}

/// Accumulated sending-end voltage after cycle `c`: the original drive step
/// `v1`, counted once, plus the running sum of the per-cycle contributions.
pub open spec fn s_send_series(pg: int, pt: int, v1: int, e1: int, c: nat) -> int
    decreases c,
{
    if c == 0 {
        v1 + s_send_inc(pg, pt, v1, e1, 0)
    } else {
        s_send_series(pg, pt, v1, e1, (c - 1) as nat) + s_send_inc(pg, pt, v1, e1, c)
    }
}

/// Whether the four scalars are ones that validation can produce: reflection
/// coefficients strictly inside (-1, 1), a bounded initial step, and a decay
/// factor inside [0, 1].
pub open spec fn scalars_ok(pg: int, pt: int, v1: int, e1: int) -> bool {
    &&& s_mag(pg) < SCALE as int
    &&& s_mag(pt) < SCALE as int
    &&& s_mag(v1) <= V_CAP as int
    &&& 0 <= e1 <= SCALE as int
}

/// Every amplitude stays within the initial step's cap, every contribution
/// within twice of it, and the accumulated series grow at most linearly with
/// the cycle count.
pub proof fn lemma_model_caps(pg: int, pt: int, v1: int, e1: int, c: nat)
    requires
        scalars_ok(pg, pt, v1, e1),
    ensures
        s_mag(s_amp_recv(pg, pt, v1, e1, c)) <= V_CAP as int,
        s_mag(s_amp_send(pg, pt, v1, e1, c)) <= V_CAP as int,
        s_mag(s_recv_inc(pg, pt, v1, e1, c)) <= 2 * V_CAP as int,
        s_mag(s_send_inc(pg, pt, v1, e1, c)) <= 2 * V_CAP as int,
        s_mag(s_recv_series(pg, pt, v1, e1, c)) <= 2 * V_CAP as int * (c + 1),
        s_mag(s_send_series(pg, pt, v1, e1, c)) <= V_CAP as int + 2 * V_CAP as int * (c + 1),
    decreases c,
{
    lemma_amp_caps(pg, pt, v1, e1, c);
    lemma_inc_caps(pg, pt, v1, e1, c);
    if c > 0 {
        lemma_model_caps(pg, pt, v1, e1, (c - 1) as nat);
        assert(2 * V_CAP as int * (c + 1) == 2 * V_CAP as int * c + 2 * V_CAP as int) by (nonlinear_arith);
    }
}

/// The amplitude caps alone.
proof fn lemma_amp_caps(pg: int, pt: int, v1: int, e1: int, c: nat)
    requires
        scalars_ok(pg, pt, v1, e1),
    ensures
        s_mag(s_amp_recv(pg, pt, v1, e1, c)) <= V_CAP as int,
        s_mag(s_amp_send(pg, pt, v1, e1, c)) <= V_CAP as int,
{
    if c == 0 {
        lemma_tmul_le(v1, e1, V_CAP as int);
    } else {
        lemma_quad_cap(pg, pt, v1, e1, c, c, (c - 1) as nat);
    }
    lemma_quad_cap(pg, pt, v1, e1, c, (c + 1) as nat, (c + 1) as nat);
}

/// Cap on a product of two powers, the initial step, and a decay power.
proof fn lemma_quad_cap(pg: int, pt: int, v1: int, e1: int, a: nat, b: nat, d: nat)
    requires
        scalars_ok(pg, pt, v1, e1),
    ensures
        s_mag(s_tmul(s_tmul(s_tmul(s_pow(pg, a), s_pow(pt, b)), v1), s_pow(e1, d)))
            <= V_CAP as int,
{
    lemma_pow_mag(pg, a);
    lemma_pow_mag(pt, b);
    lemma_pow_mag(e1, d);
    let t1 = s_tmul(s_pow(pg, a), s_pow(pt, b));
    lemma_tmul_le(s_pow(pg, a), s_pow(pt, b), SCALE as int);
    let t2 = s_tmul(t1, v1);
    lemma_tmul_comm(t1, v1);
    lemma_tmul_le(v1, t1, V_CAP as int);
    lemma_tmul_le(t2, s_pow(e1, d), V_CAP as int);
}

/// The contribution caps alone.
proof fn lemma_inc_caps(pg: int, pt: int, v1: int, e1: int, c: nat)
    requires
        scalars_ok(pg, pt, v1, e1),
    ensures
        s_mag(s_recv_inc(pg, pt, v1, e1, c)) <= 2 * V_CAP as int,
        s_mag(s_send_inc(pg, pt, v1, e1, c)) <= 2 * V_CAP as int,
{
    lemma_amp_caps(pg, pt, v1, e1, c);
    lemma_tmul_cap(
        SCALE as int + pt,
        s_amp_recv(pg, pt, v1, e1, c),
        2 * SCALE as int,
        V_CAP as int,
    );
    lemma_tmul_cap(
        SCALE as int + pg,
        s_amp_send(pg, pt, v1, e1, c),
        2 * SCALE as int,
        V_CAP as int,
    );
    assert((2 * SCALE as int * V_CAP as int) / (SCALE as int) == 2 * V_CAP as int);
}

/// Per-lane solver state, created fresh for a lane and discarded once its
/// cycles are done. The exponents count the reflections experienced so far
/// at each end; the running powers carry the corresponding factors; the
/// accumulators carry the series values of the last completed cycle.
pub struct LatticeState {
    /// Reflections experienced at the source end; one more per cycle.
    pub source_exponent: usize,
    /// Reflections experienced at the load end; one more per cycle.
    pub load_exponent: usize,
    /// Accumulated receiving-end voltage so far.
    pub accumulated_receive: i64,
    /// Accumulated sending-end voltage so far.
    pub accumulated_send: i64,
    /// The most recently computed raw reflected-wave amplitude.
    pub amplitude: i64,
    /// The source reflection coefficient raised to `source_exponent`.
    pub source_pow: i64,
    /// The load reflection coefficient raised to `load_exponent`.
    pub load_pow: i64,
    /// The decay factor raised to the completed cycle count.
    pub decay_pow: i64,
}

impl LatticeState {
    /// The state as it stands at the start of cycle `source_exponent`, for
    /// the given scalars: both exponents agree, the running powers match
    /// them, the amplitude is the wave arriving at the receiving end, and
    /// the accumulators hold the previous cycle's series values.
    pub open spec fn wf(self, pg: int, pt: int, v1: int, e1: int) -> bool {
        let c = self.source_exponent as nat;
        &&& self.load_exponent == self.source_exponent
        &&& self.source_pow as int == s_pow(pg, c)
        &&& self.load_pow as int == s_pow(pt, c)
        &&& self.decay_pow as int == s_pow(e1, c)
        &&& self.amplitude as int == s_amp_recv(pg, pt, v1, e1, c)
        &&& self.accumulated_receive as int == if c == 0 {
            0int
        } else {
            s_recv_series(pg, pt, v1, e1, (c - 1) as nat)
        }
        &&& self.accumulated_send as int == if c == 0 {
            0int
        } else {
            s_send_series(pg, pt, v1, e1, (c - 1) as nat)
        }
    }

    /// Fresh state for a lane: no reflections yet, empty accumulators, and
    /// the cycle-0 seed amplitude `v1 * exp(-t)` already on the wire.
    pub fn new(pg: i64, pt: i64, v1: i64, e1: i64) -> (st: LatticeState)
        requires
            scalars_ok(pg as int, pt as int, v1 as int, e1 as int),
        ensures
            st.wf(pg as int, pt as int, v1 as int, e1 as int),
            st.source_exponent == 0,
            st.load_exponent == 0,
    {
        proof {
            lemma_tmul_le(v1 as int, e1 as int, V_CAP as int);
        }
        LatticeState {
            source_exponent: 0,
            load_exponent: 0,
            accumulated_receive: 0,
            accumulated_send: 0,
            amplitude: fx_mul(v1, e1),
            source_pow: SCALE,
            load_pow: SCALE,
            decay_pow: SCALE,
        }
    }

    /// One full reflection cycle: absorb the arriving wave at the receiving
    /// end, reflect it off the load, absorb the returning wave at the
    /// sending end, and reflect it off the source — incrementing each
    /// exponent exactly once and advancing both accumulated series by one
    /// entry.
    pub fn step(&mut self, pg: i64, pt: i64, v1: i64, e1: i64)
        requires
            scalars_ok(pg as int, pt as int, v1 as int, e1 as int),
            old(self).wf(pg as int, pt as int, v1 as int, e1 as int),
            old(self).source_exponent < CYCLES_CAP,
        ensures
            final(self).wf(pg as int, pt as int, v1 as int, e1 as int),
            final(self).source_exponent == old(self).source_exponent + 1,
            final(self).load_exponent == old(self).load_exponent + 1,
            final(self).accumulated_receive as int == s_recv_series(
                pg as int,
                pt as int,
                v1 as int,
                e1 as int,
                old(self).source_exponent as nat,
            ),
            final(self).accumulated_send as int == s_send_series(
                pg as int,
                pt as int,
                v1 as int,
                e1 as int,
                old(self).source_exponent as nat,
            ),
    {
        let ghost gpg: int = pg as int;
        let ghost gpt: int = pt as int;
        let ghost gv1: int = v1 as int;
        let ghost ge1: int = e1 as int;
        let c: usize = self.source_exponent;
        let ghost cn: nat = c as nat;

        // Receiving end: absorb (1 + pt) times the arriving amplitude.
        proof {
            lemma_amp_caps(gpg, gpt, gv1, ge1, cn);
            lemma_tmul_cap(
                SCALE as int + gpt,
                s_amp_recv(gpg, gpt, gv1, ge1, cn),
                2 * SCALE as int,
                V_CAP as int,
            );
            assert((2 * SCALE as int * V_CAP as int) / (SCALE as int) == 2 * V_CAP as int);
            if c > 0 {
                lemma_model_caps(gpg, gpt, gv1, ge1, (cn - 1) as nat);
            }
        }
        let recv_in: i64 = fx_mul(SCALE + pt, self.amplitude);
        self.accumulated_receive = self.accumulated_receive + recv_in;
        proof {
            assert(self.accumulated_receive as int == s_recv_series(gpg, gpt, gv1, ge1, cn));
        }

        // The wave reflects off the load: one more load-side factor, one
        // more half trip of decay.
        self.load_exponent = self.load_exponent + 1;
        proof {
            lemma_pow_mag(gpt, cn);
            lemma_pow_mag(ge1, cn);
            lemma_tmul_le(s_pow(gpt, cn), gpt, SCALE as int);
            lemma_tmul_le(s_pow(ge1, cn), ge1, SCALE as int);
        }
        self.load_pow = fx_mul(self.load_pow, pt);
        let decay_next: i64 = fx_mul(self.decay_pow, e1);
        proof {
            assert(self.load_pow as int == s_pow(gpt, cn + 1));
            assert(decay_next as int == s_pow(ge1, cn + 1));
            lemma_pow_mag(gpg, cn);
            lemma_pow_mag(gpt, cn + 1);
            lemma_pow_mag(ge1, cn + 1);
            lemma_tmul_le(s_pow(gpg, cn), s_pow(gpt, cn + 1), SCALE as int);
            lemma_tmul_comm(s_tmul(s_pow(gpg, cn), s_pow(gpt, cn + 1)), gv1);
            lemma_tmul_le(gv1, s_tmul(s_pow(gpg, cn), s_pow(gpt, cn + 1)), V_CAP as int);
            lemma_tmul_le(
                s_tmul(s_tmul(s_pow(gpg, cn), s_pow(gpt, cn + 1)), gv1),
                s_pow(ge1, cn + 1),
                V_CAP as int,
            );
        }
        let t1: i64 = fx_mul(self.source_pow, self.load_pow);
        let t2: i64 = fx_mul(t1, v1);
        let amp_mid: i64 = fx_mul(t2, decay_next);
        proof {
            assert(amp_mid as int == s_amp_send(gpg, gpt, gv1, ge1, cn));
            lemma_tmul_cap(
                SCALE as int + gpg,
                s_amp_send(gpg, gpt, gv1, ge1, cn),
                2 * SCALE as int,
                V_CAP as int,
            );
            assert((2 * SCALE as int * V_CAP as int) / (SCALE as int) == 2 * V_CAP as int);
        }

        // Sending end: absorb (1 + pg) times the returning amplitude; the
        // original drive step is counted once, in the first cycle.
        let send_in: i64 = fx_mul(SCALE + pg, amp_mid);
        self.accumulated_send = if c == 0 {
            v1 + send_in
        } else {
            self.accumulated_send + send_in
        };
        proof {
            assert(self.accumulated_send as int == s_send_series(gpg, gpt, gv1, ge1, cn));
        }

        // The wave reflects off the source: one more source-side factor; its
        // decay exponent is the completed cycle count.
        self.source_exponent = self.source_exponent + 1;
        proof {
            lemma_pow_mag(gpg, cn);
            lemma_tmul_le(s_pow(gpg, cn), gpg, SCALE as int);
        }
        self.source_pow = fx_mul(self.source_pow, pg);
        proof {
            assert(self.source_pow as int == s_pow(gpg, cn + 1));
            lemma_pow_mag(gpg, cn + 1);
            lemma_tmul_le(s_pow(gpg, cn + 1), s_pow(gpt, cn + 1), SCALE as int);
            lemma_tmul_comm(s_tmul(s_pow(gpg, cn + 1), s_pow(gpt, cn + 1)), gv1);
            lemma_tmul_le(gv1, s_tmul(s_pow(gpg, cn + 1), s_pow(gpt, cn + 1)), V_CAP as int);
            lemma_tmul_le(
                s_tmul(s_tmul(s_pow(gpg, cn + 1), s_pow(gpt, cn + 1)), gv1),
                s_pow(ge1, cn),
                V_CAP as int,
            );
        }
        let u1: i64 = fx_mul(self.source_pow, self.load_pow);
        let u2: i64 = fx_mul(u1, v1);
        let amp_next: i64 = fx_mul(u2, self.decay_pow);
        self.amplitude = amp_next;
        self.decay_pow = decay_next;
        proof {
            assert(self.amplitude as int == s_amp_recv(gpg, gpt, gv1, ge1, cn + 1));
        }
    }
}

/// The receiving-end series value the solver owes for a lane and cycle,
/// straight from the validated configuration.
pub open spec fn s_lane_recv(p: LineParameters, lane: int, c: nat) -> int {
    s_recv_series(
        s_gamma_source(p),
        s_gamma_load(p),
        s_v1(p),
        s_exp_neg(s_delay(p, lane)),
        c,
    )
}

/// The sending-end series value the solver owes for a lane and cycle.
pub open spec fn s_lane_send(p: LineParameters, lane: int, c: nat) -> int {
    s_send_series(
        s_gamma_source(p),
        s_gamma_load(p),
        s_v1(p),
        s_exp_neg(s_delay(p, lane)),
        c,
    )
}

/// Solves one lane: returns the accumulated receiving-end and sending-end
/// voltage, one entry per cycle, each entry exactly the model series value
/// for the lane's own delay and the shared scalars.
pub fn solve_lane(d: &Derived, lane: usize) -> (out: (Vec<i64>, Vec<i64>))
    requires
        d.wf(),
        lane < d.delays@.len(),
    ensures
        out.0@.len() == d.cycles,
        out.1@.len() == d.cycles,
        forall|c: int|
            0 <= c < d.cycles ==> #[trigger] out.0@[c] as int == s_recv_series(
                d.source_reflection as int,
                d.load_reflection as int,
                d.v1 as int,
                s_exp_neg(d.delays@[lane as int] as int),
                c as nat,
            ),
        forall|c: int|
            0 <= c < d.cycles ==> #[trigger] out.1@[c] as int == s_send_series(
                d.source_reflection as int,
                d.load_reflection as int,
                d.v1 as int,
                s_exp_neg(d.delays@[lane as int] as int),
                c as nat,
            ),
{
    let pg: i64 = d.source_reflection;
    let pt: i64 = d.load_reflection;
    let v1: i64 = d.v1;
    let e1: i64 = fx_exp_neg(d.delays[lane]);
    let mut receive: Vec<i64> = Vec::new();
    let mut send: Vec<i64> = Vec::new();
    let mut st: LatticeState = LatticeState::new(pg, pt, v1, e1);
    let mut c: usize = 0;
    let cycles: usize = d.cycles;
    while c < cycles
        invariant
            cycles <= CYCLES_CAP,
            c <= cycles,
            scalars_ok(pg as int, pt as int, v1 as int, e1 as int),
            st.wf(pg as int, pt as int, v1 as int, e1 as int),
            st.source_exponent == c,
            receive@.len() == c,
            send@.len() == c,
            forall|j: int|
                0 <= j < c ==> #[trigger] receive@[j] as int == s_recv_series(
                    pg as int,
                    pt as int,
                    v1 as int,
                    e1 as int,
                    j as nat,
                ),
            forall|j: int|
                0 <= j < c ==> #[trigger] send@[j] as int == s_send_series(
                    pg as int,
                    pt as int,
                    v1 as int,
                    e1 as int,
                    j as nat,
                ),
        decreases cycles - c,
    {
        st.step(pg, pt, v1, e1);
        receive.push(st.accumulated_receive);
        send.push(st.accumulated_send);
        c = c + 1;
    }
    (receive, send)
}

/// Solves every lane independently, in index order: entry `i` of the result
/// is exactly what `solve_lane` yields for lane `i`.
pub fn solve_all(d: &Derived) -> (out: Vec<(Vec<i64>, Vec<i64>)>)
    requires
        d.wf(),
    ensures
        out@.len() == d.delays@.len(),
        forall|i: int|
            0 <= i < out@.len() ==> #[trigger] out@[i].0@.len() == d.cycles
                && out@[i].1@.len() == d.cycles,
        forall|i: int, c: int|
            0 <= i < out@.len() && 0 <= c < d.cycles ==> #[trigger] out@[i].0@[c] as int
                == s_recv_series(
                d.source_reflection as int,
                d.load_reflection as int,
                d.v1 as int,
                s_exp_neg(d.delays@[i] as int),
                c as nat,
            ),
        forall|i: int, c: int|
            0 <= i < out@.len() && 0 <= c < d.cycles ==> #[trigger] out@[i].1@[c] as int
                == s_send_series(
                d.source_reflection as int,
                d.load_reflection as int,
                d.v1 as int,
                s_exp_neg(d.delays@[i] as int),
                c as nat,
            ),
{
    let n: usize = d.delays.len();
    let mut out: Vec<(Vec<i64>, Vec<i64>)> = Vec::new();
    let mut i: usize = 0;
    while i < n
        invariant
            d.wf(),
            n == d.delays@.len(),
            i <= n,
            out@.len() == i,
            forall|k: int|
                0 <= k < i ==> #[trigger] out@[k].0@.len() == d.cycles
                    && out@[k].1@.len() == d.cycles,
            forall|k: int, c: int|
                0 <= k < i && 0 <= c < d.cycles ==> #[trigger] out@[k].0@[c] as int
                    == s_recv_series(
                    d.source_reflection as int,
                    d.load_reflection as int,
                    d.v1 as int,
                    s_exp_neg(d.delays@[k] as int),
                    c as nat,
                ),
            forall|k: int, c: int|
                0 <= k < i && 0 <= c < d.cycles ==> #[trigger] out@[k].1@[c] as int
                    == s_send_series(
                    d.source_reflection as int,
                    d.load_reflection as int,
                    d.v1 as int,
                    s_exp_neg(d.delays@[k] as int),
                    c as nat,
                ),
        decreases n - i,
    {
        let lane: (Vec<i64>, Vec<i64>) = solve_lane(d, i);
        out.push(lane);
        i = i + 1;
    }
    out
}

/// Validates a configuration and solves every lane: the one-call entry
/// point. Rejected configurations yield their first error and no series;
/// accepted ones yield, for each lane and cycle, exactly the model series
/// values derived from the raw parameters.
pub fn solve(p: &LineParameters) -> (out: Result<Vec<(Vec<i64>, Vec<i64>)>, ConfigError>)
    ensures
        match out {
            Result::Ok(series) => {
                &&& s_config_error(*p) is None
                &&& series@.len() == p.lane_lengths@.len()
                &&& forall|i: int|
                    0 <= i < series@.len() ==> #[trigger] series@[i].0@.len() == p.cycles
                        && series@[i].1@.len() == p.cycles
                &&& forall|i: int, c: int|
                    0 <= i < series@.len() && 0 <= c < p.cycles
                        ==> #[trigger] series@[i].0@[c] as int == s_lane_recv(*p, i, c as nat)
                &&& forall|i: int, c: int|
                    0 <= i < series@.len() && 0 <= c < p.cycles
                        ==> #[trigger] series@[i].1@[c] as int == s_lane_send(*p, i, c as nat)
            },
            Result::Err(e) => s_config_error(*p) == Some(e),
        },
{
    match derive_parameters(p) {
        Result::Ok(d) => {
            let series: Vec<(Vec<i64>, Vec<i64>)> = solve_all(&d);
            Result::Ok(series)
        },
        Result::Err(e) => Result::Err(e),
    }
}

/// The truncated product is monotone in the magnitudes of both factors.
proof fn lemma_tmul_mono2(a1: int, b1: int, a2: int, b2: int)
    requires
        s_mag(a1) <= s_mag(a2),
        s_mag(b1) <= s_mag(b2),
    ensures
        s_mag(s_tmul(a1, b1)) <= s_mag(s_tmul(a2, b2)),
{
    crate::fixed::lemma_tmul_mono(a1, a2, b1);
    lemma_tmul_comm(a2, b1);
    lemma_tmul_comm(a2, b2);
    crate::fixed::lemma_tmul_mono(b1, b2, a2);
}

/// One more truncated factor of magnitude at most one never grows a power.
proof fn lemma_pow_step_mag(b: int, n: nat)
    requires
        s_mag(b) <= SCALE as int,
    ensures
        s_mag(s_pow(b, n + 1)) <= s_mag(s_pow(b, n)),
{
    lemma_tmul_le(s_pow(b, n), b, s_mag(s_pow(b, n)));
}

/// Raising every exponent of the four-factor amplitude product by one never
/// grows its magnitude.
proof fn lemma_quad_step(pg: int, pt: int, v1: int, e1: int, a: nat, b: nat, d: nat)
    requires
        scalars_ok(pg, pt, v1, e1),
    ensures
        s_mag(s_tmul(s_tmul(s_tmul(s_pow(pg, a + 1), s_pow(pt, b + 1)), v1), s_pow(e1, d + 1)))
            <= s_mag(s_tmul(s_tmul(s_tmul(s_pow(pg, a), s_pow(pt, b)), v1), s_pow(e1, d))),
{
    lemma_pow_step_mag(pg, a);
    lemma_pow_step_mag(pt, b);
    lemma_pow_step_mag(e1, d);
    lemma_tmul_mono2(s_pow(pg, a + 1), s_pow(pt, b + 1), s_pow(pg, a), s_pow(pt, b));
    lemma_tmul_mono2(
        s_tmul(s_pow(pg, a + 1), s_pow(pt, b + 1)),
        v1,
        s_tmul(s_pow(pg, a), s_pow(pt, b)),
        v1,
    );
    lemma_tmul_mono2(
        s_tmul(s_tmul(s_pow(pg, a + 1), s_pow(pt, b + 1)), v1),
        s_pow(e1, d + 1),
        s_tmul(s_tmul(s_pow(pg, a), s_pow(pt, b)), v1),
        s_pow(e1, d),
    );
}

/// The series accumulate in steps of non-growing magnitude: from the first
/// full round trip on, each receiving-end contribution is at most as large
/// in magnitude as the one before it, since every cycle multiplies the wave
/// by one more factor of each reflection coefficient — both strictly inside
/// (-1, 1) — and one more factor of the decay, inside [0, 1].
pub proof fn lemma_receive_decay(pg: int, pt: int, v1: int, e1: int, c: nat)
    requires
        scalars_ok(pg, pt, v1, e1),
        1 <= c,
    ensures
        s_mag(s_recv_inc(pg, pt, v1, e1, c + 1)) <= s_mag(s_recv_inc(pg, pt, v1, e1, c)),
        s_mag(
            s_recv_series(pg, pt, v1, e1, c + 1) - s_recv_series(pg, pt, v1, e1, c),
        ) <= s_mag(
            s_recv_series(pg, pt, v1, e1, c) - s_recv_series(pg, pt, v1, e1, (c - 1) as nat),
        ),
{
    lemma_quad_step(pg, pt, v1, e1, c, c, (c - 1) as nat);
    lemma_tmul_mono2(
        SCALE as int + pt,
        s_amp_recv(pg, pt, v1, e1, c + 1),
        SCALE as int + pt,
        s_amp_recv(pg, pt, v1, e1, c),
    );
}

/// The sending-end counterpart of `lemma_receive_decay`, holding from the
/// very first cycle.
pub proof fn lemma_send_decay(pg: int, pt: int, v1: int, e1: int, c: nat)
    requires
        scalars_ok(pg, pt, v1, e1),
    ensures
        s_mag(s_send_inc(pg, pt, v1, e1, c + 1)) <= s_mag(s_send_inc(pg, pt, v1, e1, c)),
        1 <= c ==> s_mag(
            s_send_series(pg, pt, v1, e1, c + 1) - s_send_series(pg, pt, v1, e1, c),
        ) <= s_mag(
            s_send_series(pg, pt, v1, e1, c) - s_send_series(pg, pt, v1, e1, (c - 1) as nat),
        ),
{
    lemma_quad_step(pg, pt, v1, e1, c, (c + 1) as nat, (c + 1) as nat);
    lemma_tmul_mono2(
        SCALE as int + pg,
        s_amp_send(pg, pt, v1, e1, c + 1),
        SCALE as int + pg,
        s_amp_send(pg, pt, v1, e1, c),
    );
}

/// Under the consistent sign convention — both reflection coefficients
/// nonnegative, as when both end impedances exceed the line's — every
/// contribution is nonnegative and both series climb monotonically.
pub proof fn lemma_monotone_rise(pg: int, pt: int, v1: int, e1: int, c: nat)
    requires
        scalars_ok(pg, pt, v1, e1),
        0 <= pg,
        0 <= pt,
        0 <= v1,
    ensures
        0 <= s_recv_inc(pg, pt, v1, e1, c),
        0 <= s_send_inc(pg, pt, v1, e1, c),
        s_recv_series(pg, pt, v1, e1, c) <= s_recv_series(pg, pt, v1, e1, c + 1),
        s_send_series(pg, pt, v1, e1, c) <= s_send_series(pg, pt, v1, e1, c + 1),
{
    lemma_amp_nonneg(pg, pt, v1, e1, c);
    lemma_amp_nonneg(pg, pt, v1, e1, c + 1);
    lemma_tmul_nonneg(SCALE as int + pt, s_amp_recv(pg, pt, v1, e1, c));
    lemma_tmul_nonneg(SCALE as int + pg, s_amp_send(pg, pt, v1, e1, c));
    lemma_tmul_nonneg(SCALE as int + pt, s_amp_recv(pg, pt, v1, e1, c + 1));
    lemma_tmul_nonneg(SCALE as int + pg, s_amp_send(pg, pt, v1, e1, c + 1));
}

/// Both raw amplitudes are nonnegative when every scalar is.
proof fn lemma_amp_nonneg(pg: int, pt: int, v1: int, e1: int, c: nat)
    requires
        0 <= pg,
        0 <= pt,
        0 <= v1,
        0 <= e1,
    ensures
        0 <= s_amp_recv(pg, pt, v1, e1, c),
        0 <= s_amp_send(pg, pt, v1, e1, c),
{
    crate::fixed::lemma_pow_nonneg(pg, c);
    crate::fixed::lemma_pow_nonneg(pt, c);
    crate::fixed::lemma_pow_nonneg(pt, (c + 1) as nat);
    crate::fixed::lemma_pow_nonneg(e1, (c + 1) as nat);
    if c == 0 {
        lemma_tmul_nonneg(v1, e1);
    } else {
        crate::fixed::lemma_pow_nonneg(e1, (c - 1) as nat);
        lemma_tmul_nonneg(s_pow(pg, c), s_pow(pt, c));
        lemma_tmul_nonneg(s_tmul(s_pow(pg, c), s_pow(pt, c)), v1);
        lemma_tmul_nonneg(
            s_tmul(s_tmul(s_pow(pg, c), s_pow(pt, c)), v1),
            s_pow(e1, (c - 1) as nat),
        );
    }
    lemma_tmul_nonneg(s_pow(pg, c), s_pow(pt, (c + 1) as nat));
    lemma_tmul_nonneg(s_tmul(s_pow(pg, c), s_pow(pt, (c + 1) as nat)), v1);
    lemma_tmul_nonneg(
        s_tmul(s_tmul(s_pow(pg, c), s_pow(pt, (c + 1) as nat)), v1),
        s_pow(e1, (c + 1) as nat),
    );
}

/// The first sending-end entry is the drive step `v1`, counted once, plus
/// `(1 + pg)` times the amplitude returning from the load in cycle zero; and
/// the wave seeded onto the wire is `v1 * exp(-t)`.
pub proof fn lemma_seed(pg: int, pt: int, v1: int, e1: int)
    ensures
        s_send_series(pg, pt, v1, e1, 0) == v1 + s_tmul(
            SCALE as int + pg,
            s_amp_send(pg, pt, v1, e1, 0),
        ),
        s_amp_recv(pg, pt, v1, e1, 0) == s_tmul(v1, e1),
        s_recv_series(pg, pt, v1, e1, 0) == s_tmul(SCALE as int + pt, s_tmul(v1, e1)),
{
}

/// Lanes are independent: the series of a lane depend only on the shared
/// scalars and that lane's own delay, never on any other lane — extracting
/// lane `i` from a full solve and solving it in isolation agree, entry by
/// entry.
pub proof fn lemma_lane_independence(d1: Derived, d2: Derived, i: int, j: int, c: nat)
    requires
        0 <= i < d1.delays@.len(),
        0 <= j < d2.delays@.len(),
        d1.source_reflection == d2.source_reflection,
        d1.load_reflection == d2.load_reflection,
        d1.v1 == d2.v1,
        d1.delays@[i] == d2.delays@[j],
    ensures
        s_recv_series(
            d1.source_reflection as int,
            d1.load_reflection as int,
            d1.v1 as int,
            s_exp_neg(d1.delays@[i] as int),
            c,
        ) == s_recv_series(
            d2.source_reflection as int,
            d2.load_reflection as int,
            d2.v1 as int,
            s_exp_neg(d2.delays@[j] as int),
            c,
        ),
        s_send_series(
            d1.source_reflection as int,
            d1.load_reflection as int,
            d1.v1 as int,
            s_exp_neg(d1.delays@[i] as int),
            c,
        ) == s_send_series(
            d2.source_reflection as int,
            d2.load_reflection as int,
            d2.v1 as int,
            s_exp_neg(d2.delays@[j] as int),
            c,
        ),
{
}

/// Reflection count at one end of the line after `c` completed cycles:
/// exactly one increment per cycle, as `LatticeState::step` performs at each
/// end.
pub open spec fn s_exponent_after(c: nat) -> nat
    decreases c,
{
    if c == 0 {
        0
    } else {
        s_exponent_after((c - 1) as nat) + 1
    }
}

/// After `c` completed cycles each exponent equals `c`: both ends are
/// incremented exactly once per cycle, so the source and load counts agree
/// with the cycle count and with each other.
pub proof fn lemma_exponent_growth(c: nat)
    ensures
        s_exponent_after(c) == c,
    decreases c,
{
    if c > 0 {
        lemma_exponent_growth((c - 1) as nat);
    }
}

} // verus!
