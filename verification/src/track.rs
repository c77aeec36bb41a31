//! Curve tracks: sparse keyframe lists sampled at a point in time.
//!
//! A track is a list of `(time, value)` keyframes. Sampling finds the segment
//! that encloses the query time and reports how far through it the time lies,
//! as an exact fraction.

use vstd::prelude::*;

verus! {

/// A ratio `num / den` between zero and one.
#[derive(Clone, Copy, Debug, PartialEq, Eq, Structural)]
pub struct Fraction {
    pub num: u64,
    pub den: u64,
}

impl Fraction {
    /// The denominator is positive and the ratio is at most one.
    pub open spec fn wf(self) -> bool {
        0 < self.den && self.num <= self.den
    }

    /// The ratio has reached one.
    pub open spec fn is_whole(self) -> bool {
        self.num >= self.den
    }

    /// The ratio one, as `1 / 1`.
    pub open spec fn one() -> Fraction {
        Fraction { num: 1, den: 1 }
    }

    /// The ratio one.
    pub fn whole() -> (f: Fraction)
        ensures
            f == Fraction::one(),
    {
        Fraction { num: 1, den: 1 }
    }

    /// Whether the ratio has reached one.
    pub fn reached(&self) -> (b: bool)
        ensures
            b == self.is_whole(),
    {
        self.num >= self.den
    }
}

/// Index of the first keyframe at or after `from` whose time is later than
/// `time`, or the track's length when there is none.
pub open spec fn first_later_from<T>(curve: Seq<(u64, T)>, time: u64, from: int) -> int
    decreases curve.len() - from,
{
    if from < 0 || from >= curve.len() {
        curve.len() as int
    } else if time < curve[from].0 {
        from
    } else {
        first_later_from(curve, time, from + 1)
    }
}

/// Index of the first keyframe whose time is later than `time`, or the
/// track's length when there is none.
pub open spec fn first_later<T>(curve: Seq<(u64, T)>, time: u64) -> int {
    first_later_from(curve, time, 0)
}

/// The segment that encloses `time`: the indices of the keyframes before and
/// after it, and the fraction of the way from the first to the second.
///
/// Before the first keyframe and from the last keyframe on, both indices name
/// that keyframe and the fraction is one. A keyframe's own time belongs to
/// the segment that starts there.
pub open spec fn segment_at<T>(curve: Seq<(u64, T)>, time: u64) -> Option<(int, int, Fraction)> {
    let i = first_later(curve, time);
    if curve.len() == 0 {
        None
    } else if i == curve.len() {
        Some((curve.len() - 1, curve.len() - 1, Fraction::one()))
    } else if i == 0 {
        Some((0, 0, Fraction::one()))
    } else {
        Some(
            (
                i - 1,
                i,
                Fraction {
                    num: (time - curve[i - 1].0) as u64,
                    den: (curve[i].0 - curve[i - 1].0) as u64,
                },
            ),
        )
    }
}

/// The values on both sides of `time` and the fraction between them.
pub open spec fn sample_at<T>(curve: Seq<(u64, T)>, time: u64) -> Option<(T, T, Fraction)> {
    match segment_at(curve, time) {
        Some((a, b, f)) => Some((curve[a].1, curve[b].1, f)),
        None => None,
    }
}

/// Keyframe times never go down along the track.
pub open spec fn times_ordered<T>(curve: Seq<(u64, T)>) -> bool {
    forall|i: int, j: int| 0 <= i <= j < curve.len() ==> curve[i].0 <= curve[j].0
}

/// What `first_later_from` finds: every keyframe it passed is at or before
/// `time`, and the one it stops at is later.
pub proof fn lemma_first_later_from<T>(curve: Seq<(u64, T)>, time: u64, from: int)
    requires
        0 <= from <= curve.len(),
    ensures
        from <= first_later_from(curve, time, from) <= curve.len(),
        forall|j: int| from <= j < first_later_from(curve, time, from) ==> curve[j].0 <= time,
        first_later_from(curve, time, from) < curve.len() ==> time < curve[first_later_from(
            curve,
            time,
            from,
        )].0,
    decreases curve.len() - from,
{
    if from < curve.len() && !(time < curve[from].0) {
        lemma_first_later_from(curve, time, from + 1);
    }
}

/// An index is the first later keyframe exactly when everything before it is
/// at or before `time` and it is itself later, or the end of the track.
pub proof fn lemma_first_later_unique<T>(curve: Seq<(u64, T)>, time: u64, i: int)
    requires
        0 <= i <= curve.len(),
        forall|j: int| 0 <= j < i ==> curve[j].0 <= time,
        i < curve.len() ==> time < curve[i].0,
    ensures
        first_later(curve, time) == i,
{
    lemma_first_later_from(curve, time, 0);
    let k = first_later(curve, time);
    if k < i {
        assert(curve[k].0 <= time);
    } else if k > i {
        assert(curve[i].0 <= time);
    }
}

/// The fraction of every sample is well formed, and the indices are in range
/// and adjacent or equal.
pub proof fn lemma_segment_wf<T>(curve: Seq<(u64, T)>, time: u64)
    ensures
        segment_at(curve, time) is None <==> curve.len() == 0,
        match segment_at(curve, time) {
            Some((a, b, f)) => {
                &&& 0 <= a <= b < curve.len()
                &&& b <= a + 1
                &&& f.wf()
                &&& a < b ==> curve[a].0 <= time < curve[b].0 && f.num == time - curve[a].0 && f.den
                    == curve[b].0 - curve[a].0 && f.num < f.den
                &&& a == b ==> f == Fraction::one()
            },
            None => true,
        },
{
    lemma_first_later_from(curve, time, 0);
    let i = first_later(curve, time);
    if 0 < i < curve.len() {
        assert(curve[i - 1].0 <= time);
    }
}

/// Before the first keyframe a sample is the first value on both sides, with
/// fraction one.
pub proof fn lemma_sample_before_first<T>(curve: Seq<(u64, T)>, time: u64)
    requires
        curve.len() > 0,
        time < curve[0].0,
    ensures
        sample_at(curve, time) == Some((curve[0].1, curve[0].1, Fraction::one())),
{
}

/// At or after the last keyframe of an ordered track a sample is the last
/// value on both sides, with fraction one.
pub proof fn lemma_sample_after_last<T>(curve: Seq<(u64, T)>, time: u64)
    requires
        curve.len() > 0,
        times_ordered(curve),
        time >= curve[curve.len() - 1].0,
    ensures
        sample_at(curve, time) == Some(
            (curve[curve.len() - 1].1, curve[curve.len() - 1].1, Fraction::one()),
        ),
{
    lemma_first_later_unique(curve, time, curve.len() as int);
}

/// Exactly at keyframe `i` of an ordered track, with a later keyframe
/// following, the sample starts the segment from `i` to `i + 1`: keyframe
/// `i` is the value before, and the fraction is zero. The lower end of a
/// segment belongs to it.
pub proof fn lemma_sample_at_keyframe<T>(curve: Seq<(u64, T)>, i: int)
    requires
        times_ordered(curve),
        0 <= i,
        i + 1 < curve.len(),
        curve[i].0 < curve[i + 1].0,
    ensures
        sample_at(curve, curve[i].0) == Some(
            (
                curve[i].1,
                curve[i + 1].1,
                Fraction { num: 0, den: (curve[i + 1].0 - curve[i].0) as u64 },
            ),
        ),
{
    lemma_first_later_unique(curve, curve[i].0, i + 1);
}

/// Strictly inside the segment from keyframe `i` to `i + 1` of an ordered
/// track, the sample is that segment with the elapsed share of its span.
pub proof fn lemma_sample_inside<T>(curve: Seq<(u64, T)>, time: u64, i: int)
    requires
        times_ordered(curve),
        0 <= i,
        i + 1 < curve.len(),
        curve[i].0 <= time < curve[i + 1].0,
    ensures
        sample_at(curve, time) == Some(
            (
                curve[i].1,
                curve[i + 1].1,
                Fraction {
                    num: (time - curve[i].0) as u64,
                    den: (curve[i + 1].0 - curve[i].0) as u64,
                },
            ),
        ),
{
    lemma_first_later_unique(curve, time, i + 1);
}

/// Finds the segment of `curve` that encloses `time`.
///
/// Returns `None` for an empty track, and otherwise the indices of the
/// keyframes before and after `time` with the fraction between them.
pub fn find_segment<T>(curve: &Vec<(u64, T)>, time: u64) -> (r: Option<(usize, usize, Fraction)>)
    ensures
        match r {
            Some((a, b, f)) => segment_at(curve@, time) == Some((a as int, b as int, f)),
            None => segment_at(curve@, time) is None,
        },
{
    if curve.len() == 0 {
        return None;
    }
    let n: usize = curve.len();
    let mut i: usize = 0;
    while i < n
        invariant
            n == curve.len(),
            i <= n,
            first_later(curve@, time) == first_later_from(curve@, time, i as int),
        decreases n - i,
    {
        if time < curve[i].0 {
            if i == 0 {
                return Some((0, 0, Fraction::whole()));
            }
            proof {
                lemma_first_later_from(curve@, time, 0);
            }
            let num: u64 = time - curve[i - 1].0;
            let den: u64 = curve[i].0 - curve[i - 1].0;
            return Some((i - 1, i, Fraction { num, den }));
        }
        i += 1;
    }
    Some((n - 1, n - 1, Fraction::whole()))
}

/// Linear blend of `a` and `b`: `a` at fraction zero, `b` at fraction one,
/// rounded down to a whole number in between.
pub open spec fn lerp_spec(a: int, b: int, f: Fraction) -> int {
    (a * (f.den - f.num) + b * f.num) / (f.den as int)
}

/// Step blend: the new value once the fraction has reached one, the old
/// value until then.
pub open spec fn snap_spec<T>(a: T, b: T, f: Fraction) -> T {
    if f.is_whole() {
        b
    } else {
        a
    }
}

/// Two ways to write the weighted sum of a blend.
proof fn lemma_blend_sum(a: int, b: int, n: int, d: int)
    ensures
        a * (d - n) + b * n == a * d + (b - a) * n,
        a * (d - n) + b * n == b * d + (a - b) * (d - n),
{
    assert(a * (d - n) + b * n == a * d + (b - a) * n) by (nonlinear_arith);
    assert(a * (d - n) + b * n == b * d + (a - b) * (d - n)) by (nonlinear_arith);
}

/// A share `n / d` of a gap, rounded down, is at most the gap.
proof fn lemma_share_bounded(gap: int, n: int, d: int)
    requires
        0 <= gap,
        0 <= n <= d,
        0 < d,
    ensures
        0 <= gap * n <= gap * d,
        0 <= (gap * n) / d <= gap,
{
    assert(0 <= gap * n <= gap * d) by (nonlinear_arith)
        requires
            0 <= gap,
            0 <= n <= d,
    ;
    vstd::arithmetic::div_mod::lemma_div_is_ordered(0, gap * n, d);
    vstd::arithmetic::div_mod::lemma_div_is_ordered(gap * n, gap * d, d);
    vstd::arithmetic::div_mod::lemma_div_multiples_vanish(gap, d);
    assert(gap * d == d * gap) by (nonlinear_arith);
}

/// `base + x / d` is the quotient of `base * d + x`.
proof fn lemma_lerp_shift(base: int, x: int, d: int)
    requires
        0 < d,
    ensures
        (base * d + x) / d == base + x / d,
{
    vstd::arithmetic::div_mod::lemma_hoist_over_denominator(x, base, d as nat);
    assert(x + base * d == base * d + x);
}

/// A blend lies between its two ends, and meets them at fractions zero and
/// one.
pub proof fn lemma_lerp_between(a: int, b: int, f: Fraction)
    requires
        f.wf(),
    ensures
        a <= b ==> a <= lerp_spec(a, b, f) <= b,
        b <= a ==> b <= lerp_spec(a, b, f) <= a,
        f.num == 0 ==> lerp_spec(a, b, f) == a,
        f.num == f.den ==> lerp_spec(a, b, f) == b,
{
    let d = f.den as int;
    let n = f.num as int;
    lemma_blend_sum(a, b, n, d);
    lemma_lerp_shift(a, (b - a) * n, d);
    lemma_lerp_shift(b, (a - b) * (d - n), d);
    if a <= b {
        lemma_share_bounded(b - a, n, d);
    }
    if b <= a {
        lemma_share_bounded(a - b, n, d);
        lemma_share_bounded(a - b, d - n, d);
        assert((a - b) * (d - n) == -((b - a) * (d - n))) by (nonlinear_arith);
    }
    if n == 0 {
        assert((b - a) * n == 0) by (nonlinear_arith)
            requires
                n == 0,
        ;
    }
    if n == d {
        assert((a - b) * (d - n) == 0) by (nonlinear_arith)
            requires
                n == d,
        ;
    }
}

/// The sample at the time of keyframe `i`, where no later keyframe shares
/// that time: either the segment that starts at `i`, with fraction zero, or,
/// for the last keyframe, that keyframe on both sides.
pub proof fn lemma_sample_on_keyframe<T>(curve: Seq<(u64, T)>, i: int)
    requires
        times_ordered(curve),
        0 <= i < curve.len(),
        i + 1 < curve.len() ==> curve[i].0 < curve[i + 1].0,
    ensures
        sample_at(curve, curve[i].0) == if i + 1 < curve.len() {
            Some(
                (
                    curve[i].1,
                    curve[i + 1].1,
                    Fraction { num: 0, den: (curve[i + 1].0 - curve[i].0) as u64 },
                ),
            )
        } else {
            Some((curve[i].1, curve[i].1, Fraction::one()))
        },
{
    if i + 1 < curve.len() {
        lemma_sample_at_keyframe(curve, i);
    } else {
        lemma_sample_after_last(curve, curve[i].0);
    }
}

/// At the time of a keyframe a track has that keyframe's value, blended or
/// stepped: a value is reached at its keyframe's time and not before.
pub proof fn lemma_value_on_keyframe(curve: Seq<(u64, i64)>, i: int)
    requires
        times_ordered(curve),
        0 <= i < curve.len(),
        i + 1 < curve.len() ==> curve[i].0 < curve[i + 1].0,
    ensures
        ({
            let s = sample_at(curve, curve[i].0)->0;
            &&& sample_at(curve, curve[i].0) is Some
            &&& lerp_spec(s.0 as int, s.1 as int, s.2) == curve[i].1
            &&& s.2.wf()
        }),
{
    lemma_sample_on_keyframe(curve, i);
    let s = sample_at(curve, curve[i].0)->0;
    lemma_lerp_between(s.0 as int, s.1 as int, s.2);
}

/// A stepped track has the value of keyframe `i` from that keyframe's time
/// up to the next keyframe's.
pub proof fn lemma_step_holds<T>(curve: Seq<(u64, T)>, time: u64, i: int)
    requires
        times_ordered(curve),
        0 <= i < curve.len(),
        curve[i].0 <= time,
        i + 1 < curve.len() ==> time < curve[i + 1].0,
    ensures
        ({
            let s = sample_at(curve, time)->0;
            sample_at(curve, time) is Some && snap_spec(s.0, s.1, s.2) == curve[i].1
        }),
{
    if i + 1 < curve.len() {
        lemma_sample_inside(curve, time, i);
    } else {
        lemma_sample_after_last(curve, time);
    }
}

/// Blends `a` towards `b` by the fraction `f`, rounding down.
pub fn lerp(a: i64, b: i64, f: Fraction) -> (r: i64)
    requires
        f.wf(),
    ensures
        r == lerp_spec(a as int, b as int, f),
{
    let d: u128 = f.den as u128;
    let n: u128 = f.num as u128;
    proof {
        lemma_blend_sum(a as int, b as int, n as int, d as int);
        lemma_lerp_shift(a as int, (b - a) * n, d as int);
        lemma_lerp_shift(b as int, (a - b) * (d - n), d as int);
    }
    if a <= b {
        let gap: u128 = (b as i128 - a as i128) as u128;
        proof {
            lemma_share_bounded(gap as int, n as int, d as int);
            assert(gap * d <= 0xFFFF_FFFF_FFFF_FFFF * 0xFFFF_FFFF_FFFF_FFFF) by (nonlinear_arith)
                requires
                    0 <= gap <= 0xFFFF_FFFF_FFFF_FFFF,
                    0 <= d <= 0xFFFF_FFFF_FFFF_FFFF,
            ;
        }
        let q: u128 = gap * n / d;
        (a as i128 + q as i128) as i64
    } else {
        let gap: u128 = (a as i128 - b as i128) as u128;
        let m: u128 = d - n;
        proof {
            lemma_share_bounded(gap as int, m as int, d as int);
            assert(gap * d <= 0xFFFF_FFFF_FFFF_FFFF * 0xFFFF_FFFF_FFFF_FFFF) by (nonlinear_arith)
                requires
                    0 <= gap <= 0xFFFF_FFFF_FFFF_FFFF,
                    0 <= d <= 0xFFFF_FFFF_FFFF_FFFF,
            ;
        }
        let q: u128 = gap * m / d;
        (b as i128 + q as i128) as i64
    }
}

/// Picks the new value once the fraction has reached one, the old value
/// until then.
pub fn snap<T: Copy>(a: T, b: T, f: Fraction) -> (r: T)
    ensures
        r == snap_spec(a, b, f),
{
    if f.reached() {
        b
    } else {
        a
    }
}

} // verus!
