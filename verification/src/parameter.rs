//! Parameter generators.
//!
//! A parameter is a stateful scalar stream sampled once per rendered frame.
//! Five kinds exist: a constant, a cyclic linear ramp, a cyclic sinusoidal
//! bounce, a round-robin cycle through a fixed pool, and a uniform random
//! choice from a fixed pool.  All values are fixed-point micros (see
//! `fixed`); the sinusoidal envelope is an exact integer rational
//! approximation of `|sin|`, zero at zero degrees and one at ninety.

use crate::fixed::abs_int;
use crate::fixed::lemma_i64_mul_fits;
use crate::fixed::sat64;
use crate::fixed::sat_to_i64;
use crate::fixed::tdiv;
use crate::fixed::tdiv_i128;
use crate::fixed::tdiv_sat64;
use rand::seq::SliceRandom;
use vstd::prelude::*;

verus! {

/// Sampling error: the pool of a cycle generator is empty.
#[derive(Clone, Copy, PartialEq, Eq, Debug)]
pub struct BindingError;

// ---------------------------------------------------------------------------
// Static
// ---------------------------------------------------------------------------
/// A constant stream.
pub struct StaticParameter {
    value: i64,
}

impl View for StaticParameter {
    type V = int;

    closed spec fn view(&self) -> int {
        self.value as int
    }
}

impl StaticParameter {
    pub fn from_val(val: i64) -> (r: Self)
        ensures
            r@ == val as int,
    {
        StaticParameter { value: val }
    }

    /// Every sample is the held value; no state advances.
    pub fn get_next(&mut self) -> (r: i64)
        ensures
            r as int == old(self)@,
            final(self)@ == old(self)@,
    {
        self.value
    }
}

// ---------------------------------------------------------------------------
// Choose
// ---------------------------------------------------------------------------
/// An independent uniform draw from a fixed pool; an empty pool yields zero.
pub struct ChooseParameter {
    items: Vec<i64>,
}

impl View for ChooseParameter {
    type V = Seq<int>;

    closed spec fn view(&self) -> Seq<int> {
        self.items@.map_values(|x: i64| x as int)
    }
}

fn copy_items(seq: &Vec<i64>) -> (r: Vec<i64>)
    ensures
        r@ == seq@,
{
    let mut r: Vec<i64> = Vec::new();
    let mut p: usize = 0;
    while p < seq.len()
        invariant
            p <= seq@.len(),
            r@ == seq@.subrange(0, p as int),
        decreases seq@.len() - p,
    {
        r.push(seq[p]);
        proof {
            assert(r@ =~= seq@.subrange(0, p as int + 1));
        }
        p = p + 1;
    }
    proof {
        assert(r@ =~= seq@);
    }
    r
}

/// Relies on rand's `SliceRandom::choose`: `None` on an empty slice, else
/// `Some` of an element at a uniformly drawn index below the length.
#[verifier::external_body]
fn choose_from(items: &Vec<i64>) -> (r: Option<i64>)
    ensures
        r is Some <==> items@.len() > 0,
        r is Some ==> exists|k: int| 0 <= k < items@.len() && r == Some(items@[k]),
{
    items.as_slice().choose(&mut rand::thread_rng()).copied()
}

impl ChooseParameter {
    pub fn from_seq(seq: &Vec<i64>) -> (r: Self)
        ensures
            r@ == seq@.map_values(|x: i64| x as int),
    {
        ChooseParameter { items: copy_items(seq) }
    }

    /// One draw: zero if the pool is empty, else some element of the pool.
    pub fn get_next(&mut self) -> (r: i64)
        ensures
            final(self)@ == old(self)@,
            old(self)@.len() == 0 ==> r as int == 0,
            old(self)@.len() > 0 ==> exists|k: int|
                0 <= k < old(self)@.len() && r as int == old(self)@[k],
    {
        match choose_from(&self.items) {
            Some(v) => {
                proof {
                    let k = choose|k: int|
                        0 <= k < self.items@.len() && Some(self.items@[k]) == Some(v);
                    assert(self@[k] == v as int);
                }
                v
            },
            None => 0,
        }
    }
}

// ---------------------------------------------------------------------------
// Cycle
// ---------------------------------------------------------------------------
/// The state of a cycle generator: its pool and the next index.
pub ghost struct CycleV {
    pub items: Seq<int>,
    pub index: int,
}

/// Round-robin through a fixed pool; sampling an empty pool is an error.
pub struct CycleParameter {
    items: Vec<i64>,
    index: usize,
}

impl View for CycleParameter {
    type V = CycleV;

    closed spec fn view(&self) -> CycleV {
        CycleV { items: self.items@.map_values(|x: i64| x as int), index: self.index as int }
    }
}

/// The index field always lies within the pool (or at zero for an empty one).
pub open spec fn cycle_wf(v: CycleV) -> bool {
    0 <= v.index && (if v.items.len() == 0 {
        v.index == 0
    } else {
        v.index < v.items.len()
    })
}

impl CycleParameter {
    pub fn from_seq(seq: &Vec<i64>) -> (r: Self)
        ensures
            r@ == (CycleV { items: seq@.map_values(|x: i64| x as int), index: 0 }),
            cycle_wf(r@),
    {
        CycleParameter { items: copy_items(seq), index: 0 }
    }

    /// The element at the current index; the index then advances and wraps.
    /// An empty pool fails with `BindingError` and nothing changes.
    pub fn get_next(&mut self) -> (r: Result<i64, BindingError>)
        requires
            cycle_wf(old(self)@),
        ensures
            cycle_wf(final(self)@),
            final(self)@.items == old(self)@.items,
            match r {
                Result::Ok(v) => old(self)@.items.len() > 0 && v as int
                    == old(self)@.items[old(self)@.index] && final(self)@.index == (old(self)@.index
                    + 1) % (old(self)@.items.len() as int),
                Result::Err(_) => old(self)@.items.len() == 0 && final(self)@ == old(self)@,
            },
    {
        if self.items.len() == 0 {
            return Err(BindingError);
        }
        let item = self.items[self.index];
        self.index = self.index + 1;
        if self.index >= self.items.len() {
            proof {
                vstd::arithmetic::div_mod::lemma_mod_self_0(self.items@.len() as int);
            }
            self.index = 0;
        } else {
            proof {
                vstd::arithmetic::div_mod::lemma_small_mod(
                    self.index as nat,
                    self.items@.len() as nat,
                );
            }
        }
        Ok(item)
    }
}

// ---------------------------------------------------------------------------
// Ramp
// ---------------------------------------------------------------------------
/// The state of a ramp generator.
pub ghost struct RampV {
    pub min: int,
    pub inc: int,
    pub steps: int,
    pub count: int,
}

/// The per-step increment a ramp is built with: `(max - min) / steps`
/// rescaled to micros, truncated toward zero, saturated to `i64`.
pub open spec fn ramp_inc_spec(min: int, max: int, steps: int) -> int {
    if steps == 0 {
        0int
    } else {
        sat64(tdiv((max - min) * 1_000_000, steps))
    }
}

/// The sample a ramp yields at counter `count`.
pub open spec fn ramp_value(min: int, inc: int, count: int) -> int {
    sat64(min + count * inc)
}

/// The counter after a sample: one more, wrapping to zero once it passes
/// `steps` (so a cycle holds one sample more than `steps` whole steps).
pub open spec fn ramp_next_count(count: int, steps: int) -> int {
    if (count + 1) * 1_000_000 > steps {
        0int
    } else {
        count + 1
    }
}

/// A cyclic linear stair-step from `min` toward `max`.
pub struct RampParameter {
    min: i64,
    inc: i64,
    steps: i64,
    step_count: i64,
}

impl View for RampParameter {
    type V = RampV;

    closed spec fn view(&self) -> RampV {
        RampV {
            min: self.min as int,
            inc: self.inc as int,
            steps: self.steps as int,
            count: self.step_count as int,
        }
    }
}

impl RampParameter {
    /// `min`, `max` and `steps` are given in micros; the counter starts at
    /// zero.
    pub fn from_params(min: i64, max: i64, steps: i64) -> (r: Self)
        ensures
            r@ == (RampV {
                min: min as int,
                inc: ramp_inc_spec(min as int, max as int, steps as int),
                steps: steps as int,
                count: 0,
            }),
    {
        let inc: i64 = if steps == 0 {
            0
        } else {
            tdiv_sat64((max as i128 - min as i128) * 1_000_000, steps as i128)
        };
        RampParameter { min, inc, steps, step_count: 0 }
    }

    /// The sample at the current counter; the counter then advances,
    /// wrapping to zero once it passes `steps`.
    pub fn get_next(&mut self) -> (r: i64)
        ensures
            r as int == ramp_value(old(self)@.min, old(self)@.inc, old(self)@.count),
            final(self)@ == (RampV {
                count: ramp_next_count(old(self)@.count, old(self)@.steps),
                ..old(self)@
            }),
    {
        proof {
            lemma_i64_mul_fits(self.step_count as int, self.inc as int);
        }
        let cur128 = self.min as i128 + (self.step_count as i128) * (self.inc as i128);
        let cur = sat_to_i64(cur128);
        proof {
            assert(-10_000_000_000_000_000_000_000_000int <= (self.step_count as int + 1)
                * 1_000_000 <= 10_000_000_000_000_000_000_000_000int) by (nonlinear_arith)
                requires
                    -9223372036854775808int <= self.step_count as int <= 9223372036854775807int,
            ;
        }
        if (self.step_count as i128 + 1) * 1_000_000 > self.steps as i128 {
            self.step_count = 0;
        } else {
            self.step_count = self.step_count + 1;
        }
        cur
    }
}

// ---------------------------------------------------------------------------
// Bounce
// ---------------------------------------------------------------------------
/// The state of a bounce generator.  `count` is the phase counter in micros,
/// kept reduced below `steps`.
pub ghost struct BounceV {
    pub min: int,
    pub range: int,
    pub deg_inc: int,
    pub steps: int,
    pub count: int,
}

/// `|sin|` of `d` micro-degrees, `0 <= d < 180_000_000`, in micros: the
/// rational approximation `16 d (180 - d) / (5 * 180^2 - 4 d (180 - d))`
/// (with `d` in degrees), exact at zero, thirty, ninety and at the ends of
/// the half-turn, and within a fraction of a percent elsewhere.
pub open spec fn half_sin_micros(d: int) -> int {
    (16 * d * (180_000_000 - d) * 1_000_000) / (162_000_000_000_000_000int - 4 * d * (180_000_000
        - d))
}

/// `|sin|` of `d` micro-degrees for a whole turn, `0 <= d < 360_000_000`.
pub open spec fn abs_sin_micros(d: int) -> int {
    if d >= 180_000_000 {
        half_sin_micros(d - 180_000_000)
    } else {
        half_sin_micros(d)
    }
}

/// The degree increment a bounce is built with: a full turn of
/// three hundred sixty degrees divided into `steps` increments.
pub open spec fn bounce_deg_inc_spec(steps: int) -> int {
    if steps == 0 {
        0int
    } else {
        sat64(tdiv(360_000_000_000_000, steps))
    }
}

/// The phase angle at counter `count`, in micro-degrees within one turn.
pub open spec fn bounce_degree(deg_inc: int, count: int) -> int {
    tdiv(deg_inc * count, 1_000_000) % 360_000_000
}

/// The sample a bounce yields at counter `count`: `min` plus the sinusoidal
/// envelope scaled into `range`.  A bounce built with no positive step count
/// stays at `min`.
pub open spec fn bounce_value(v: BounceV) -> int {
    if v.steps <= 0 {
        sat64(v.min)
    } else {
        sat64(v.min + tdiv(abs_sin_micros(bounce_degree(v.deg_inc, v.count)) * v.range, 1_000_000))
    }
}

/// The phase counter after a sample: one micro-step further round the turn.
pub open spec fn bounce_next_count(count: int, steps: int) -> int {
    if steps <= 0 {
        count
    } else {
        (count + 1_000_000) % steps
    }
}

/// The phase counter lies in `[0, steps)` and the degree increment is
/// non-negative whenever the generator runs.
pub open spec fn bounce_wf(v: BounceV) -> bool {
    if v.steps > 0 {
        0 <= v.count < v.steps && v.deg_inc >= 0
    } else {
        v.count == 0
    }
}

proof fn lemma_half_sin_bounds(d: int)
    requires
        0 <= d < 180_000_000,
    ensures
        0 <= half_sin_micros(d) <= 1_000_000,
        d == 0 ==> half_sin_micros(d) == 0,
{
    let q = d * (180_000_000 - d);
    let num = 16 * d * (180_000_000 - d) * 1_000_000;
    let den = 162_000_000_000_000_000int - 4 * q;
    assert(0 <= q <= 8_100_000_000_000_000int) by (nonlinear_arith)
        requires
            q == d * (180_000_000 - d),
            0 <= d < 180_000_000,
    ;
    assert(num == 16 * q * 1_000_000) by (nonlinear_arith)
        requires
            num == 16 * d * (180_000_000 - d) * 1_000_000,
            q == d * (180_000_000 - d),
    ;
    assert(den >= 129_600_000_000_000_000int);
    assert(0 <= num <= den * 1_000_000) by (nonlinear_arith)
        requires
            num == 16 * q * 1_000_000,
            den == 162_000_000_000_000_000int - 4 * q,
            0 <= q <= 8_100_000_000_000_000int,
    ;
    vstd::arithmetic::div_mod::lemma_div_pos_is_pos(num, den);
    vstd::arithmetic::div_mod::lemma_div_is_ordered(num, den * 1_000_000, den);
    vstd::arithmetic::div_mod::lemma_div_by_multiple(1_000_000, den);
    assert(den * 1_000_000 == 1_000_000 * den) by (nonlinear_arith);
    assert(4 * d * (180_000_000 - d) == 4 * q) by (nonlinear_arith)
        requires
            q == d * (180_000_000 - d),
    ;
    assert(half_sin_micros(d) == num / den);
    if d == 0 {
        assert(num == 0) by (nonlinear_arith)
            requires
                num == 16 * 0 * (180_000_000 - 0) * 1_000_000,
        ;
        vstd::arithmetic::div_mod::lemma_div_of0(den);
    }
}

/// The sinusoidal envelope stays within one unit, and starts at zero.
pub proof fn lemma_abs_sin_bounds(d: int)
    requires
        0 <= d < 360_000_000,
    ensures
        0 <= abs_sin_micros(d) <= 1_000_000,
        d == 0 ==> abs_sin_micros(d) == 0,
{
    if d >= 180_000_000 {
        lemma_half_sin_bounds(d - 180_000_000);
    } else {
        lemma_half_sin_bounds(d);
    }
}

/// `|sin|` in micros of `d` micro-degrees.
fn half_sin_x(d: u64) -> (r: i64)
    requires
        d < 180_000_000,
    ensures
        r as int == half_sin_micros(d as int),
        0 <= r <= 1_000_000,
{
    proof {
        lemma_half_sin_bounds(d as int);
    }
    let du = d as u128;
    proof {
        assert(du * (180_000_000 - du) <= 8_100_000_000_000_000int) by (nonlinear_arith)
            requires
                0 <= du < 180_000_000,
        ;
    }
    let q: u128 = du * (180_000_000 - du);
    let num: u128 = 16 * q * 1_000_000;
    let den: u128 = 162_000_000_000_000_000u128 - 4 * q;
    proof {
        assert(16 * (du as int) * (180_000_000 - du as int) * 1_000_000 == 16 * ((du as int) * (
        180_000_000 - du as int)) * 1_000_000) by (nonlinear_arith);
        assert(num as int == 16 * (d as int) * (180_000_000 - d as int) * 1_000_000);
        assert(4 * (d as int) * (180_000_000 - d as int) == 4 * (q as int)) by (nonlinear_arith)
            requires
                q as int == (d as int) * (180_000_000 - d as int),
        ;
        assert(half_sin_micros(d as int) == num as int / den as int);
    }
    let r = (num / den) as i64;
    r
}

/// A cyclic sinusoidal envelope between `min` and `max`.
pub struct BounceParameter {
    min: i64,
    range: i64,
    degree_inc: i64,
    steps: i64,
    step_count: i64,
}

impl View for BounceParameter {
    type V = BounceV;

    closed spec fn view(&self) -> BounceV {
        BounceV {
            min: self.min as int,
            range: self.range as int,
            deg_inc: self.degree_inc as int,
            steps: self.steps as int,
            count: self.step_count as int,
        }
    }
}

impl BounceParameter {
    /// `min`, `max` and `steps` are given in micros; the phase starts at
    /// zero degrees.
    pub fn from_params(min: i64, max: i64, steps: i64) -> (r: Self)
        ensures
            r@ == (BounceV {
                min: min as int,
                range: sat64(max as int - min as int),
                deg_inc: bounce_deg_inc_spec(steps as int),
                steps: steps as int,
                count: 0,
            }),
            bounce_wf(r@),
    {
        let range = sat_to_i64(max as i128 - min as i128);
        let deg_inc: i64 = if steps == 0 {
            0
        } else {
            tdiv_sat64(360_000_000_000_000, steps as i128)
        };
        proof {
            if steps > 0 {
                vstd::arithmetic::div_mod::lemma_div_pos_is_pos(
                    360_000_000_000_000,
                    abs_int(steps as int),
                );
            }
        }
        BounceParameter { min, range, degree_inc: deg_inc, steps, step_count: 0 }
    }

    /// The sample at the current phase; the phase then advances one step
    /// round the turn.
    pub fn get_next(&mut self) -> (r: i64)
        requires
            bounce_wf(old(self)@),
        ensures
            bounce_wf(final(self)@),
            r as int == bounce_value(old(self)@),
            final(self)@ == (BounceV {
                count: bounce_next_count(old(self)@.count, old(self)@.steps),
                ..old(self)@
            }),
    {
        if self.steps <= 0 {
            return self.min;
        }
        let count = self.step_count as u128;
        let deg_inc = self.degree_inc as u128;
        proof {
            lemma_i64_mul_fits(self.degree_inc as int, self.step_count as int);
            assert(deg_inc * count == (self.degree_inc as int) * (self.step_count as int))
                by (nonlinear_arith)
                requires
                    deg_inc == self.degree_inc as int,
                    count == self.step_count as int,
                    deg_inc >= 0,
                    count >= 0,
            ;
        }
        let scaled = (deg_inc * count) / 1_000_000;
        let degree = scaled % 360_000_000;
        proof {
            assert(tdiv((self.degree_inc as int) * (self.step_count as int), 1_000_000) == scaled
                as int);
            vstd::arithmetic::div_mod::lemma_mod_bound(scaled as int, 360_000_000);
        }
        let dd: u64 = if degree >= 180_000_000 {
            (degree - 180_000_000) as u64
        } else {
            degree as u64
        };
        let asin = half_sin_x(dd);
        proof {
            lemma_i64_mul_fits(asin as int, self.range as int);
        }
        let offset = tdiv_i128((asin as i128) * (self.range as i128), 1_000_000);
        let cur = sat_to_i64(self.min as i128 + offset);
        proof {
            vstd::arithmetic::div_mod::lemma_mod_bound(
                self.step_count as int + 1_000_000,
                self.steps as int,
            );
        }
        let newc = ((count + 1_000_000) % (self.steps as u128)) as i64;
        self.step_count = newc;
        cur
    }
}

// ---------------------------------------------------------------------------
// The closed family of generators
// ---------------------------------------------------------------------------
/// The state of any parameter generator, at the specification level.
pub ghost enum ParamV {
    Static(int),
    Ramp(RampV),
    Bounce(BounceV),
    Cycle(CycleV),
    Choose(Seq<int>),
}

/// A parameter: one of the five generator kinds, sampled once per frame.
pub enum Parameter {
    Static(StaticParameter),
    Ramp(RampParameter),
    Bounce(BounceParameter),
    Cycle(CycleParameter),
    Choose(ChooseParameter),
}

impl View for Parameter {
    type V = ParamV;

    open spec fn view(&self) -> ParamV {
        match self {
            Parameter::Static(p) => ParamV::Static(p@),
            Parameter::Ramp(p) => ParamV::Ramp(p@),
            Parameter::Bounce(p) => ParamV::Bounce(p@),
            Parameter::Cycle(p) => ParamV::Cycle(p@),
            Parameter::Choose(p) => ParamV::Choose(p@),
        }
    }
}

pub open spec fn param_wf(p: ParamV) -> bool {
    match p {
        ParamV::Bounce(b) => bounce_wf(b),
        ParamV::Cycle(c) => cycle_wf(c),
        _ => true,
    }
}

/// The generator state after one sample.
pub open spec fn param_next_view(p: ParamV) -> ParamV {
    match p {
        ParamV::Static(v) => ParamV::Static(v),
        ParamV::Ramp(r) => ParamV::Ramp(
            RampV { count: ramp_next_count(r.count, r.steps), ..r },
        ),
        ParamV::Bounce(b) => ParamV::Bounce(
            BounceV { count: bounce_next_count(b.count, b.steps), ..b },
        ),
        ParamV::Cycle(c) => if c.items.len() == 0 {
            ParamV::Cycle(c)
        } else {
            ParamV::Cycle(CycleV { items: c.items, index: (c.index + 1) % (c.items.len() as int) })
        },
        ParamV::Choose(s) => ParamV::Choose(s),
    }
}

/// Sampling fails exactly on a cycle generator with an empty pool.
pub open spec fn param_fails(p: ParamV) -> bool {
    p matches ParamV::Cycle(c) && c.items.len() == 0
}

/// `v` is a sample the generator state `p` can yield.  Every kind but the
/// random choice admits exactly one value.
pub open spec fn param_sample_ok(p: ParamV, v: int) -> bool {
    match p {
        ParamV::Static(x) => v == x,
        ParamV::Ramp(r) => v == ramp_value(r.min, r.inc, r.count),
        ParamV::Bounce(b) => v == bounce_value(b),
        ParamV::Cycle(c) => c.items.len() > 0 && v == c.items[c.index],
        ParamV::Choose(s) => if s.len() == 0 {
            v == 0
        } else {
            exists|k: int| 0 <= k < s.len() && v == s[k]
        },
    }
}

impl Parameter {
    /// Yield the next value of the stream and advance the generator.  Only
    /// a cycle generator with an empty pool fails, with `BindingError`.
    pub fn get_next(&mut self) -> (r: Result<i64, BindingError>)
        requires
            param_wf(old(self)@),
        ensures
            param_wf(final(self)@),
            final(self)@ == param_next_view(old(self)@),
            match r {
                Result::Ok(v) => !param_fails(old(self)@) && param_sample_ok(
                    old(self)@,
                    v as int,
                ),
                Result::Err(_) => param_fails(old(self)@) && final(self)@ == old(self)@,
            },
    {
        match self {
            Parameter::Static(p) => Ok(p.get_next()),
            Parameter::Ramp(p) => Ok(p.get_next()),
            Parameter::Bounce(p) => Ok(p.get_next()),
            Parameter::Cycle(p) => match p.get_next() {
                Ok(v) => Ok(v),
                Err(e) => Err(e),
            },
            Parameter::Choose(p) => Ok(p.get_next()),
        }
    }
}

// ---------------------------------------------------------------------------
// Laws of the generators
// ---------------------------------------------------------------------------
/// The ramp counter after `i` samples of a fresh ramp.
pub open spec fn ramp_count_at(steps: int, i: nat) -> int
    decreases i,
{
    if i == 0 {
        0int
    } else {
        ramp_next_count(ramp_count_at(steps, (i - 1) as nat), steps)
    }
}

/// The phase counter after `i` samples of a fresh bounce.
pub open spec fn bounce_count_at(steps: int, i: nat) -> int
    decreases i,
{
    if i == 0 {
        0int
    } else {
        bounce_next_count(bounce_count_at(steps, (i - 1) as nat), steps)
    }
}

/// The cycle index after `i` samples of a fresh cycle over `len` items.
pub open spec fn cycle_index_at(len: int, i: nat) -> int
    decreases i,
{
    if i == 0 {
        0int
    } else {
        (cycle_index_at(len, (i - 1) as nat) + 1) % len
    }
}

/// A ramp cycles with period one more than its whole step count: after `i`
/// samples the counter stands at `i` modulo `steps + 1` (in whole steps), so
/// one cycle holds `steps + 1` samples, the last of which may pass `max`.
pub proof fn lemma_ramp_counter_periodic(steps: int, i: nat)
    requires
        steps >= 0,
    ensures
        ramp_count_at(steps, i) == (i as int) % (steps / 1_000_000 + 1),
    decreases i,
{
    let k = steps / 1_000_000;
    let m = k + 1;
    vstd::arithmetic::div_mod::lemma_div_pos_is_pos(steps, 1_000_000);
    vstd::arithmetic::div_mod::lemma_fundamental_div_mod(steps, 1_000_000);
    vstd::arithmetic::div_mod::lemma_mod_bound(steps, 1_000_000);
    if i == 0 {
        vstd::arithmetic::div_mod::lemma_mod_bound(0, m);
        vstd::arithmetic::div_mod::lemma_small_mod(0, m as nat);
    } else {
        lemma_ramp_counter_periodic(steps, (i - 1) as nat);
        let c = ramp_count_at(steps, (i - 1) as nat);
        vstd::arithmetic::div_mod::lemma_mod_bound((i - 1) as int, m);
        assert(0 <= c < m);
        if c == k {
            assert((c + 1) * 1_000_000 > steps);
            assert(ramp_count_at(steps, i) == 0);
        } else {
            assert((c + 1) * 1_000_000 <= k * 1_000_000) by (nonlinear_arith)
                requires
                    c + 1 <= k,
            ;
            assert(ramp_count_at(steps, i) == c + 1);
        }
        vstd::arithmetic::div_mod::lemma_add_mod_noop((i - 1) as int, 1, m);
        if m == 1 {
            vstd::arithmetic::div_mod::lemma_mod_bound((i - 1) as int, 1);
            vstd::arithmetic::div_mod::lemma_mod_bound(i as int, 1);
        } else {
            vstd::arithmetic::div_mod::lemma_small_mod(1, m as nat);
            if c + 1 == m {
                vstd::arithmetic::div_mod::lemma_mod_self_0(m);
            } else {
                vstd::arithmetic::div_mod::lemma_small_mod((c + 1) as nat, m as nat);
            }
        }
    }
}

/// The bounce phase counter after `i` samples of a fresh bounce is `i`
/// micro-steps reduced into one turn of `steps`.
pub proof fn lemma_bounce_counter(steps: int, i: nat)
    requires
        steps > 0,
    ensures
        bounce_count_at(steps, i) == ((i as int) * 1_000_000) % steps,
    decreases i,
{
    if i == 0 {
        vstd::arithmetic::div_mod::lemma_small_mod(0, steps as nat);
    } else {
        lemma_bounce_counter(steps, (i - 1) as nat);
        let prev = ((i - 1) as int * 1_000_000) % steps;
        assert(i as int * 1_000_000 == (i - 1) as int * 1_000_000 + 1_000_000);
        vstd::arithmetic::div_mod::lemma_add_mod_noop(
            (i - 1) as int * 1_000_000,
            1_000_000,
            steps,
        );
        vstd::arithmetic::div_mod::lemma_mod_twice(1_000_000, steps);
        vstd::arithmetic::div_mod::lemma_add_mod_noop(prev, 1_000_000int % steps, steps);
        vstd::arithmetic::div_mod::lemma_mod_twice(prev, steps);
        vstd::arithmetic::div_mod::lemma_add_mod_noop(prev, 1_000_000, steps);
    }
}

/// A bounce whose step count is the whole number `n` of micro-steps repeats
/// exactly every `n` samples.
pub proof fn lemma_bounce_periodic(steps: int, n: nat, i: nat)
    requires
        steps == n * 1_000_000,
        n > 0,
    ensures
        bounce_count_at(steps, i + n) == bounce_count_at(steps, i),
{
    assert(steps > 0) by (nonlinear_arith)
        requires
            steps == n * 1_000_000,
            n > 0,
    ;
    lemma_bounce_counter(steps, i + n);
    lemma_bounce_counter(steps, i);
    assert((i + n) as int * 1_000_000 == i as int * 1_000_000 + steps) by (nonlinear_arith)
        requires
            steps == n * 1_000_000,
    ;
    vstd::arithmetic::div_mod::lemma_mod_add_multiples_vanish(i as int * 1_000_000, steps);
}

/// Every bounce sample lies between `min` and `min + range`: the envelope
/// never undershoots its floor nor overshoots its peak.
pub proof fn lemma_bounce_sample_in_range(v: BounceV)
    requires
        bounce_wf(v),
        0 <= v.range,
        i64::MIN as int <= v.min,
        v.min + v.range <= i64::MAX as int,
    ensures
        v.min <= bounce_value(v) <= v.min + v.range,
{
    if v.steps > 0 {
        let deg = bounce_degree(v.deg_inc, v.count);
        vstd::arithmetic::div_mod::lemma_mod_bound(
            tdiv(v.deg_inc * v.count, 1_000_000),
            360_000_000,
        );
        lemma_abs_sin_bounds(deg);
        let asin = abs_sin_micros(deg);
        vstd::arithmetic::mul::lemma_mul_nonnegative(asin, v.range);
        vstd::arithmetic::mul::lemma_mul_inequality(asin, 1_000_000, v.range);
        vstd::arithmetic::div_mod::lemma_div_pos_is_pos(asin * v.range, 1_000_000);
        vstd::arithmetic::div_mod::lemma_div_is_ordered(
            asin * v.range,
            1_000_000 * v.range,
            1_000_000,
        );
        vstd::arithmetic::div_mod::lemma_div_multiples_vanish(v.range, 1_000_000);
        assert(tdiv(asin * v.range, 1_000_000) == (asin * v.range) / 1_000_000);
    }
}

/// The first sample of a fresh bounce equals `min`: the envelope starts at
/// zero degrees, where the sine vanishes.
pub proof fn lemma_bounce_first_sample(v: BounceV)
    requires
        bounce_wf(v),
        v.count == 0,
        i64::MIN as int <= v.min <= i64::MAX as int,
    ensures
        bounce_value(v) == v.min,
{
    if v.steps > 0 {
        vstd::arithmetic::mul::lemma_mul_basics(v.deg_inc);
        assert(tdiv(v.deg_inc * 0, 1_000_000) == 0);
        vstd::arithmetic::div_mod::lemma_small_mod(0, 360_000_000);
        lemma_abs_sin_bounds(0);
        vstd::arithmetic::mul::lemma_mul_basics(v.range);
        assert(tdiv(0 * v.range, 1_000_000) == 0);
    }
}

/// A fresh cycle over a non-empty pool is round-robin: after `i` samples the
/// index stands at `i` modulo the pool size, so the `i`-th sample is
/// `items[i % len]`.
pub proof fn lemma_cycle_round_robin(len: int, i: nat)
    requires
        len > 0,
    ensures
        cycle_index_at(len, i) == (i as int) % len,
    decreases i,
{
    if i == 0 {
        vstd::arithmetic::div_mod::lemma_small_mod(0, len as nat);
    } else {
        lemma_cycle_round_robin(len, (i - 1) as nat);
        let prev = (i - 1) as int % len;
        vstd::arithmetic::div_mod::lemma_add_mod_noop((i - 1) as int, 1, len);
        vstd::arithmetic::div_mod::lemma_mod_twice(1, len);
        vstd::arithmetic::div_mod::lemma_add_mod_noop(prev, 1int % len, len);
        vstd::arithmetic::div_mod::lemma_mod_twice(prev, len);
        vstd::arithmetic::div_mod::lemma_add_mod_noop(prev, 1, len);
    }
}

} // verus!
