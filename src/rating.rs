use vstd::prelude::*;

verus! {

/// Skill values and deviations are fixed-point numbers in thousandths of a rating point.
pub const DEFAULT_VALUE: i64 = 1_500_000;

pub const DEFAULT_DEVIATION: i64 = 250_000;

/// Decay only touches ratings whose deviation is below this ceiling.
pub const DEVIATION_CEILING: i64 = 250_000;

/// No deviation ever exceeds this bound: decay starts below the ceiling and adds
/// less than a point.
pub const DEVIATION_MAX: i64 = 260_000;

/// Skill means are clamped to plus or minus this bound.
pub const VALUE_LIMIT: i64 = 1_000_000_000_000;

/// The base of the logistic-like spread; deviations widen it.
pub const SPREAD_BASE: i64 = 400_000;

/// Win chances are published in parts per million.
pub const PPM: i64 = 1_000_000;

/// A skill estimate: mean and uncertainty.
#[derive(Clone, Copy, Debug, PartialEq, Eq, Structural)]
pub struct Skill {
    pub value: i64,
    pub deviation: i64,
}

/// A probability held exactly as `num / den`.
#[derive(Clone, Copy, Debug, PartialEq, Eq, Structural)]
pub struct Chance {
    pub num: i64,
    pub den: i64,
}

/// The result of rating one match: both new estimates and the chance, before the
/// match, that side A wins.
#[derive(Clone, Copy, Debug, PartialEq, Eq, Structural)]
pub struct RateOutcome {
    pub new_a: Skill,
    pub new_b: Skill,
    pub chance_a: Chance,
}

impl Skill {
    pub open spec fn wf(self) -> bool {
        &&& -VALUE_LIMIT <= self.value <= VALUE_LIMIT
        &&& 0 < self.deviation <= DEVIATION_MAX
    }

    pub fn default_skill() -> (r: Skill)
        ensures
            r.value == DEFAULT_VALUE,
            r.deviation == DEFAULT_DEVIATION,
            r.wf(),
    {
        Skill { value: DEFAULT_VALUE, deviation: DEFAULT_DEVIATION }
    }
}

impl Chance {
    /// The complementary probability `1 - p`.
    pub open spec fn complement(self) -> Chance {
        Chance { num: (self.den - self.num) as i64, den: self.den }
    }

    /// The chance rounded down to parts per million.
    pub open spec fn ppm_spec(self) -> int {
        (self.num as int) * (PPM as int) / (self.den as int)
    }

    pub fn ppm(&self) -> (r: i64)
        requires
            0 < self.num < self.den <= 5_000_000_000_000,
        ensures
            r == self.ppm_spec(),
            0 <= r <= PPM,
    {
        assert(0 <= self.num * PPM <= 5_000_000_000_000 * PPM) by (nonlinear_arith)
            requires
                0 < self.num <= 5_000_000_000_000,
        ;
        assert((self.num as int) * (PPM as int) / (self.den as int) <= PPM) by (nonlinear_arith)
            requires
                0 < self.num < self.den,
        ;
        self.num * PPM / self.den
    }
}

pub open spec fn abs(x: int) -> int {
    if x < 0 {
        -x
    } else {
        x
    }
}

pub open spec fn spread(a: Skill, b: Skill) -> int {
    SPREAD_BASE + a.deviation + b.deviation
}

/// The chance that `a` beats `b`, as `(s + |d| + d) / (2 (s + |d|))` with `d` the
/// difference of means and `s` the spread.
pub open spec fn chance_num(a: Skill, b: Skill) -> int {
    spread(a, b) + abs(a.value - b.value) + (a.value - b.value)
}

pub open spec fn chance_den(a: Skill, b: Skill) -> int {
    2 * (spread(a, b) + abs(a.value - b.value))
}

pub open spec fn chance_of(a: Skill, b: Skill) -> Chance {
    Chance { num: chance_num(a, b) as i64, den: chance_den(a, b) as i64 }
}

/// Whether the outcome went against the means: the lower-rated side won.
pub open spec fn is_upset(own: Skill, opp: Skill, won: bool) -> bool {
    ||| (won && own.value < opp.value)
    ||| (!won && own.value > opp.value)
}

/// How surprising the outcome is to `own`, over `chance_den`: the chance it did
/// not happen.
pub open spec fn surprise(own: Skill, opp: Skill, won: bool) -> int {
    if won {
        chance_den(own, opp) - chance_num(own, opp)
    } else {
        chance_num(own, opp)
    }
}

/// The size of the mean shift of `own`: its deviation over four, times the
/// surprise. It is rounded up after an upset and down otherwise, so an upset
/// always moves both means further than the expected result would.
pub open spec fn magnitude(own: Skill, opp: Skill, won: bool) -> int {
    let a = (own.deviation as int) * surprise(own, opp, won);
    let c = 4 * chance_den(own, opp);
    if is_upset(own, opp, won) {
        (a + c - 1) / c
    } else {
        a / c
    }
}

/// The signed mean shift of `own`.
pub open spec fn gain(own: Skill, opp: Skill, won: bool) -> int {
    if won {
        magnitude(own, opp, won)
    } else {
        -magnitude(own, opp, won)
    }
}

pub open spec fn clamp_value(x: int) -> int {
    if x < -VALUE_LIMIT {
        -(VALUE_LIMIT as int)
    } else if x > VALUE_LIMIT {
        VALUE_LIMIT as int
    } else {
        x
    }
}

/// The deviation after a match: reduced by `dev^2 / (4 * spread)`.
pub open spec fn shrunk(own: Skill, opp: Skill) -> int {
    own.deviation - (own.deviation as int) * (own.deviation as int) / (4 * spread(own, opp))
}

pub open spec fn updated(own: Skill, opp: Skill, won: bool) -> Skill {
    Skill {
        value: clamp_value(own.value + gain(own, opp, won)) as i64,
        deviation: shrunk(own, opp) as i64,
    }
}

pub open spec fn rate_spec(a: Skill, b: Skill, a_wins: bool) -> RateOutcome {
    RateOutcome {
        new_a: updated(a, b, a_wins),
        new_b: updated(b, a, !a_wins),
        chance_a: chance_of(a, b),
    }
}

/// The deviation after one decay step: `dev * 1.003 + 0.01` points.
pub open spec fn decayed(dev: int) -> int {
    dev + dev * 3 / 1000 + 10
}

proof fn lemma_chance_bounds(a: Skill, b: Skill)
    requires
        a.wf(),
        b.wf(),
    ensures
        0 < chance_num(a, b) < chance_den(a, b) <= 5_000_000_000_000,
        chance_num(b, a) == chance_den(a, b) - chance_num(a, b),
        chance_den(b, a) == chance_den(a, b),
{
}

fn chance_exec(a: Skill, b: Skill) -> (r: Chance)
    requires
        a.wf(),
        b.wf(),
    ensures
        r == chance_of(a, b),
        0 < r.num < r.den <= 5_000_000_000_000,
{
    proof {
        lemma_chance_bounds(a, b);
    }
    let s: i64 = SPREAD_BASE + a.deviation + b.deviation;
    let d: i64 = a.value - b.value;
    let ad: i64 = if d < 0 {
        -d
    } else {
        d
    };
    Chance { num: s + ad + d, den: 2 * (s + ad) }
}

fn update_side(own: Skill, opp: Skill, won: bool) -> (r: Skill)
    requires
        own.wf(),
        opp.wf(),
    ensures
        r == updated(own, opp, won),
        r.wf(),
        r.deviation <= own.deviation,
{
    let c = chance_exec(own, opp);
    let dev = own.deviation;
    assert(0 <= dev * c.den <= DEVIATION_MAX * 5_000_000_000_000) by (nonlinear_arith)
        requires
            0 < dev <= DEVIATION_MAX,
            0 < c.den <= 5_000_000_000_000,
    ;
    assert(0 <= dev * (c.den - c.num) <= dev * c.den) by (nonlinear_arith)
        requires
            0 < dev,
            0 < c.num < c.den,
    ;
    assert(0 <= dev * c.num <= dev * c.den) by (nonlinear_arith)
        requires
            0 < dev,
            0 < c.num < c.den,
    ;
    let sur: i64 = if won {
        c.den - c.num
    } else {
        c.num
    };
    let a: i64 = dev * sur;
    let q: i64 = 4 * c.den;
    let upset = (won && own.value < opp.value) || (!won && own.value > opp.value);
    let mag: i64 = if upset {
        (a + q - 1) / q
    } else {
        a / q
    };
    proof {
        lemma_magnitude_bounds(own, opp, won);
    }
    let shift: i64 = if won {
        mag
    } else {
        -mag
    };
    let raw: i64 = own.value + shift;
    let value: i64 = if raw < -VALUE_LIMIT {
        -VALUE_LIMIT
    } else if raw > VALUE_LIMIT {
        VALUE_LIMIT
    } else {
        raw
    };
    let s: i64 = SPREAD_BASE + own.deviation + opp.deviation;
    assert(0 <= dev * dev / (4 * s) < dev) by (nonlinear_arith)
        requires
            0 < dev,
            dev < s,
    ;
    assert(dev * dev <= DEVIATION_MAX * DEVIATION_MAX) by (nonlinear_arith)
        requires
            0 < dev <= DEVIATION_MAX,
    ;
    let deviation: i64 = dev - dev * dev / (4 * s);
    Skill { value, deviation }
}

/// Rates one match between `a` and `b`. Each side moves by its own deviation times
/// the surprise of the outcome, and grows more certain.
pub fn rate(a: Skill, b: Skill, a_wins: bool) -> (r: RateOutcome)
    requires
        a.wf(),
        b.wf(),
    ensures
        r == rate_spec(a, b, a_wins),
        r.new_a.wf(),
        r.new_b.wf(),
        0 < r.chance_a.num < r.chance_a.den <= 5_000_000_000_000,
{
    let new_a = update_side(a, b, a_wins);
    let new_b = update_side(b, a, !a_wins);
    let chance_a = chance_exec(a, b);
    RateOutcome { new_a, new_b, chance_a }
}

/// One decay step of a deviation below the ceiling.
pub fn decay_deviation(dev: i64) -> (r: i64)
    requires
        0 < dev < DEVIATION_CEILING,
    ensures
        r == decayed(dev as int),
        dev < r <= DEVIATION_MAX,
{
    dev + dev * 3 / 1000 + 10
}

/// Swapping the two sides and inverting the outcome swaps the new estimates and
/// turns the chance into its complement.
pub proof fn lemma_rate_symmetric(a: Skill, b: Skill, a_wins: bool)
    requires
        a.wf(),
        b.wf(),
    ensures
        rate_spec(b, a, !a_wins).new_a == rate_spec(a, b, a_wins).new_b,
        rate_spec(b, a, !a_wins).new_b == rate_spec(a, b, a_wins).new_a,
        rate_spec(b, a, !a_wins).chance_a == rate_spec(a, b, a_wins).chance_a.complement(),
{
    lemma_chance_bounds(a, b);
    assert(!!a_wins == a_wins);
}

/// Rating a match never increases either side's deviation, and keeps both
/// estimates well formed.
pub proof fn lemma_rate_deviation_not_increased(a: Skill, b: Skill, a_wins: bool)
    requires
        a.wf(),
        b.wf(),
    ensures
        rate_spec(a, b, a_wins).new_a.deviation <= a.deviation,
        rate_spec(a, b, a_wins).new_b.deviation <= b.deviation,
        rate_spec(a, b, a_wins).new_a.wf(),
        rate_spec(a, b, a_wins).new_b.wf(),
{
    lemma_shrunk_bounds(a, b);
    lemma_shrunk_bounds(b, a);
}

proof fn lemma_shrunk_bounds(own: Skill, opp: Skill)
    requires
        own.wf(),
        opp.wf(),
    ensures
        0 < shrunk(own, opp) <= own.deviation,
{
    let dev = own.deviation as int;
    let s = spread(own, opp);
    assert(0 <= dev * dev / (4 * s) < dev) by (nonlinear_arith)
        requires
            0 < dev,
            dev < s,
    ;
}

/// The win chance lies strictly between 0 and 1.
pub proof fn lemma_chance_in_unit_interval(a: Skill, b: Skill)
    requires
        a.wf(),
        b.wf(),
    ensures
        0 < chance_of(a, b).num < chance_of(a, b).den,
{
    lemma_chance_bounds(a, b);
}

/// With the deviations fixed, the win chance strictly increases with the mean of
/// side A.
pub proof fn lemma_chance_increasing(a: Skill, a2: Skill, b: Skill)
    requires
        a.wf(),
        a2.wf(),
        b.wf(),
        a2.deviation == a.deviation,
        a.value < a2.value,
    ensures
        chance_num(a, b) * chance_den(a2, b) < chance_num(a2, b) * chance_den(a, b),
{
    let s = spread(a, b);
    let d1 = a.value - b.value;
    let d2 = a2.value - b.value;
    assert(spread(a2, b) == s);
    if d1 >= 0 {
        assert((s + 2 * d1) * (2 * (s + d2)) < (s + 2 * d2) * (2 * (s + d1))) by (nonlinear_arith)
            requires
                0 <= d1 < d2,
                0 < s,
        ;
    } else if d2 >= 0 {
        assert(s * (2 * (s + d2)) < (s + 2 * d2) * (2 * (s - d1))) by (nonlinear_arith)
            requires
                d1 < 0 <= d2,
                0 < s,
        ;
    } else {
        assert(s * (2 * (s - d2)) < s * (2 * (s - d1))) by (nonlinear_arith)
            requires
                d1 < d2 < 0,
                0 < s,
        ;
    }
}

proof fn lemma_magnitude_bounds(own: Skill, opp: Skill, won: bool)
    requires
        own.wf(),
        opp.wf(),
    ensures
        0 <= magnitude(own, opp, won) <= own.deviation,
{
    lemma_chance_bounds(own, opp);
    let dev = own.deviation as int;
    let den = chance_den(own, opp);
    let sur = surprise(own, opp, won);
    let a = dev * sur;
    let c = 4 * den;
    assert(0 <= sur <= den);
    assert(0 <= a <= dev * den) by (nonlinear_arith)
        requires
            0 < dev,
            0 <= sur <= den,
            a == dev * sur,
    ;
    assert(a + c - 1 < (dev + 1) * c) by (nonlinear_arith)
        requires
            0 < dev,
            0 < den,
            c == 4 * den,
            a <= dev * den,
    ;
    vstd::arithmetic::div_mod::lemma_div_pos_is_pos(a, c);
    vstd::arithmetic::div_mod::lemma_div_is_ordered(a, a + c - 1, c);
    let q = (a + c - 1) / c;
    vstd::arithmetic::div_mod::lemma_fundamental_div_mod(a + c - 1, c);
    assert(c * q <= a + c - 1) by {
        assert(0 <= (a + c - 1) % c);
    }
    assert(q <= dev) by (nonlinear_arith)
        requires
            0 < c,
            c * q <= a + c - 1,
            a + c - 1 < (dev + 1) * c,
    ;
}

proof fn lemma_ceil_above_floor(a: int, b: int, c: int)
    requires
        0 < c,
        0 <= b < a,
    ensures
        (a + c - 1) / c > b / c,
{
    let qb = b / c;
    assert(qb * c <= b) by (nonlinear_arith)
        requires
            0 < c,
            0 <= b,
            qb == b / c,
    ;
    assert((a + c - 1) / c >= qb + 1) by (nonlinear_arith)
        requires
            0 < c,
            qb * c < a,
    ;
}

/// Upset sensitivity. Let `low` be rated below `high`, with everything else equal
/// and both means far enough from the limit that no clamping applies. Then `low`
/// winning moves its mean strictly further than `high` winning moves `high`'s;
/// and for each side, the upset moves its mean strictly further than the expected
/// result would.
pub proof fn lemma_upset_moves_further(low: Skill, high: Skill)
    requires
        low.wf(),
        high.wf(),
        low.deviation == high.deviation,
        low.value < high.value,
        -VALUE_LIMIT + DEVIATION_MAX <= low.value,
        high.value <= VALUE_LIMIT - DEVIATION_MAX,
    ensures
        updated(low, high, true).value - low.value > updated(high, low, true).value - high.value,
        updated(low, high, true).value - low.value > low.value - updated(low, high, false).value,
        high.value - updated(high, low, false).value > updated(high, low, true).value - high.value,
        updated(high, low, true).value - high.value >= 0,
        low.value - updated(low, high, false).value >= 0,
{
    lemma_chance_bounds(low, high);
    lemma_magnitude_bounds(low, high, true);
    lemma_magnitude_bounds(low, high, false);
    lemma_magnitude_bounds(high, low, true);
    lemma_magnitude_bounds(high, low, false);
    let dev = low.deviation as int;
    let den = chance_den(low, high);
    let c = 4 * den;
    let x = high.value - low.value;
    let sp = spread(low, high);
    assert(chance_den(high, low) == den);
    assert(surprise(low, high, true) == sp + 2 * x);
    assert(surprise(high, low, false) == sp + 2 * x);
    assert(surprise(high, low, true) == sp);
    assert(surprise(low, high, false) == sp);
    assert(dev * sp < dev * (sp + 2 * x)) by (nonlinear_arith)
        requires
            0 < dev,
            0 < x,
    ;
    assert(0 <= dev * sp) by (nonlinear_arith)
        requires
            0 < dev,
            0 < sp,
    ;
    lemma_ceil_above_floor(dev * (sp + 2 * x), dev * sp, c);
}

} // verus!
