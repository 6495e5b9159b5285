//! The pure evaluator: linear interpolation over a schedule's keyframes,
//! with clamp-to-edge extrapolation outside their time range.

use vstd::prelude::*;
use vstd::arithmetic::div_mod::{
    lemma_div_is_ordered, lemma_div_multiples_vanish, lemma_div_pos_is_pos,
    lemma_fundamental_div_mod,
};
use vstd::arithmetic::mul::{lemma_mul_inequality, lemma_mul_nonnegative};
use crate::schedule::{strictly_sorted, wf_seq, Keyframe, Schedule};

verus! {

/// Sampling failure: the evaluator was handed a schedule that cannot define
/// a linear segment. Unreachable for schedules built by
/// `Schedule::from_records`, which always hold at least two keyframes.
#[derive(Clone, Copy, PartialEq, Eq, Structural, Debug)]
pub enum SampleError {
    DegenerateSchedule,
}

/// Exact linear interpolation between `(t0, v0)` and `(t1, v1)` at time `q`:
/// `v0 + (q - t0) * (v1 - v0) / (t1 - t0)`, with the fractional part of the
/// quotient dropped (the result is rounded toward `v0`).
pub open spec fn lerp(t0: int, v0: int, t1: int, v1: int, q: int) -> int
    recommends
        t0 < t1,
        t0 <= q <= t1,
{
    if v1 >= v0 {
        v0 + ((q - t0) * (v1 - v0)) / (t1 - t0)
    } else {
        v0 - ((q - t0) * (v0 - v1)) / (t1 - t0)
    }
}

/// The value of the piecewise-linear curve through the keyframes of `s` at
/// time `q`: the bracketing segment's interpolant within the keyframe range,
/// and the nearest boundary keyframe's value outside it (clamp-to-edge).
pub open spec fn sample_at(s: Seq<Keyframe>, q: int) -> int
    recommends
        wf_seq(s),
    decreases s.len(),
{
    if s.len() == 0 {
        0
    } else if s.len() == 1 {
        s[0].value as int
    } else if q <= s[0].time {
        s[0].value as int
    } else if q <= s[1].time {
        lerp(s[0].time as int, s[0].value as int, s[1].time as int, s[1].value as int, q)
    } else {
        sample_at(s.drop_first(), q)
    }
}

/// At the right end of a segment the interpolant is the right value.
pub proof fn lemma_lerp_right(t0: int, v0: int, t1: int, v1: int)
    requires
        t0 < t1,
    ensures
        lerp(t0, v0, t1, v1, t1) == v1,
{
    let d = t1 - t0;
    if v1 >= v0 {
        lemma_div_multiples_vanish(v1 - v0, d);
    } else {
        lemma_div_multiples_vanish(v0 - v1, d);
    }
}

/// Within a segment the interpolant lies between the segment's endpoint
/// values.
pub proof fn lemma_lerp_bounds(t0: int, v0: int, t1: int, v1: int, q: int)
    requires
        t0 < t1,
        t0 <= q <= t1,
    ensures
        v0 <= v1 ==> v0 <= lerp(t0, v0, t1, v1, q) <= v1,
        v1 <= v0 ==> v1 <= lerp(t0, v0, t1, v1, q) <= v0,
{
    let d = t1 - t0;
    let dq = q - t0;
    if v1 >= v0 {
        let dv = v1 - v0;
        lemma_mul_nonnegative(dq, dv);
        lemma_div_pos_is_pos(dq * dv, d);
        lemma_mul_inequality(dq, d, dv);
        lemma_div_is_ordered(dq * dv, d * dv, d);
        lemma_div_multiples_vanish(dv, d);
    } else {
        let dv = v0 - v1;
        lemma_mul_nonnegative(dq, dv);
        lemma_div_pos_is_pos(dq * dv, d);
        lemma_mul_inequality(dq, d, dv);
        lemma_div_is_ordered(dq * dv, d * dv, d);
        lemma_div_multiples_vanish(dv, d);
    }
}

/// At the exact midpoint of a segment whose time span and value change are
/// both even, the interpolant is the arithmetic mean of the endpoint values.
pub proof fn lemma_lerp_midpoint(t0: int, v0: int, t1: int, v1: int)
    requires
        t0 < t1,
        (t1 - t0) % 2 == 0,
        (v1 - v0) % 2 == 0,
    ensures
        lerp(t0, v0, t1, v1, (t0 + t1) / 2) == (v0 + v1) / 2,
{
    let d = t1 - t0;
    let k = d / 2;
    let q = (t0 + t1) / 2;
    lemma_fundamental_div_mod(d, 2);
    assert(d == 2 * k);
    assert(t0 + t1 == 2 * (t0 + k));
    lemma_div_multiples_vanish(t0 + k, 2);
    assert(q == t0 + k);
    let m = (v1 - v0) / 2;
    lemma_fundamental_div_mod(v1 - v0, 2);
    assert(v1 - v0 == 2 * m);
    if v1 >= v0 {
        assert(k * (2 * m) == d * m) by (nonlinear_arith)
            requires
                d == 2 * k,
        ;
        lemma_div_multiples_vanish(m, d);
        assert(v0 + v1 == 2 * (v0 + m));
        lemma_div_multiples_vanish(v0 + m, 2);
    } else {
        assert(v0 - v1 == 2 * (-m));
        assert(k * (2 * (-m)) == d * (-m)) by (nonlinear_arith)
            requires
                d == 2 * k,
        ;
        lemma_div_multiples_vanish(-m, d);
        assert(v0 + v1 == 2 * (v0 + m));
        lemma_div_multiples_vanish(v0 + m, 2);
    }
}

/// Within the bracketing segment the curve is that segment's interpolant.
pub proof fn lemma_sample_at_segment(s: Seq<Keyframe>, q: int, i: int)
    requires
        strictly_sorted(s),
        0 <= i < s.len() - 1,
        s[i].time < q <= s[i + 1].time,
    ensures
        sample_at(s, q) == lerp(
            s[i].time as int,
            s[i].value as int,
            s[i + 1].time as int,
            s[i + 1].value as int,
            q,
        ),
    decreases i,
{
    if i == 0 {
    } else {
        let t = s.drop_first();
        assert forall|a: int, b: int|
            #![trigger t[a].time, t[b].time]
            0 <= a < b < t.len() implies t[a].time < t[b].time by {
            assert(t[a] == s[a + 1] && t[b] == s[b + 1]);
        }
        assert(s[1].time <= s[i].time);
        assert(t[i - 1] == s[i] && t[i] == s[i + 1]);
        lemma_sample_at_segment(t, q, i - 1);
    }
}

/// Clamp-to-edge below: at or before the first keyframe's time the curve
/// takes the first keyframe's value.
pub proof fn lemma_clamp_before_first(s: Seq<Keyframe>, q: int)
    requires
        s.len() >= 1,
        q <= s[0].time,
    ensures
        sample_at(s, q) == s[0].value,
{
}

/// Clamp-to-edge above: at or after the last keyframe's time the curve
/// takes the last keyframe's value.
pub proof fn lemma_clamp_after_last(s: Seq<Keyframe>, q: int)
    requires
        s.len() >= 1,
        strictly_sorted(s),
        q >= s[s.len() - 1].time,
    ensures
        sample_at(s, q) == s[s.len() - 1].value,
    decreases s.len(),
{
    if s.len() == 1 {
    } else if s.len() == 2 && q == s[1].time {
        lemma_lerp_right(s[0].time as int, s[0].value as int, s[1].time as int, s[1].value as int);
    } else {
        assert(s[1].time < s[s.len() - 1].time || s.len() == 2);
        assert(q > s[1].time);
        let t = s.drop_first();
        assert forall|a: int, b: int|
            #![trigger t[a].time, t[b].time]
            0 <= a < b < t.len() implies t[a].time < t[b].time by {
            assert(t[a] == s[a + 1] && t[b] == s[b + 1]);
        }
        assert(t[t.len() - 1] == s[s.len() - 1]);
        lemma_clamp_after_last(t, q);
    }
}

/// The curve reproduces every keyframe exactly: sampling at a keyframe's
/// time yields that keyframe's value.
pub proof fn lemma_keyframe_reproduction(s: Seq<Keyframe>, i: int)
    requires
        strictly_sorted(s),
        0 <= i < s.len(),
    ensures
        sample_at(s, s[i].time as int) == s[i].value,
{
    if i == 0 {
    } else {
        lemma_sample_at_segment(s, s[i].time as int, i - 1);
        lemma_lerp_right(
            s[i - 1].time as int,
            s[i - 1].value as int,
            s[i].time as int,
            s[i].value as int,
        );
    }
}

/// Between two adjacent keyframes the curve's value lies between the two
/// keyframes' values.
pub proof fn lemma_segment_bounds(s: Seq<Keyframe>, i: int, q: int)
    requires
        strictly_sorted(s),
        0 <= i < s.len() - 1,
        s[i].time < q <= s[i + 1].time,
    ensures
        s[i].value <= s[i + 1].value ==> s[i].value <= sample_at(s, q) <= s[i + 1].value,
        s[i + 1].value <= s[i].value ==> s[i + 1].value <= sample_at(s, q) <= s[i].value,
{
    lemma_sample_at_segment(s, q, i);
    lemma_lerp_bounds(
        s[i].time as int,
        s[i].value as int,
        s[i + 1].time as int,
        s[i + 1].value as int,
        q,
    );
}

/// At the midpoint of a segment whose time span and value change are both
/// even, the curve takes the arithmetic mean of the segment's endpoint
/// values.
pub proof fn lemma_segment_midpoint(s: Seq<Keyframe>, i: int)
    requires
        strictly_sorted(s),
        0 <= i < s.len() - 1,
        (s[i + 1].time - s[i].time) % 2 == 0,
        (s[i + 1].value - s[i].value) % 2 == 0,
    ensures
        sample_at(s, (s[i].time + s[i + 1].time) / 2) == (s[i].value + s[i + 1].value) / 2,
{
    let t0 = s[i].time as int;
    let t1 = s[i + 1].time as int;
    let d = t1 - t0;
    let k = d / 2;
    let q = (t0 + t1) / 2;
    lemma_fundamental_div_mod(d, 2);
    assert(d == 2 * k);
    assert(t0 + t1 == 2 * (t0 + k));
    lemma_div_multiples_vanish(t0 + k, 2);
    assert(q == t0 + k);
    assert(t0 < q <= t1);
    lemma_sample_at_segment(s, q, i);
    lemma_lerp_midpoint(t0, s[i].value as int, t1, s[i + 1].value as int);
}

/// Computes `lerp` exactly, in wider intermediate arithmetic.
fn lerp_exec(t0: i64, v0: i64, t1: i64, v1: i64, q: i64) -> (r: i64)
    requires
        t0 < t1,
        t0 <= q,
        q <= t1,
    ensures
        r as int == lerp(t0 as int, v0 as int, t1 as int, v1 as int, q as int),
{
    let dt = (t1 as i128) - (t0 as i128);
    let dq = (q as i128) - (t0 as i128);
    let dtu = dt as u128;
    let dqu = dq as u128;
    if v1 >= v0 {
        let dvu = ((v1 as i128) - (v0 as i128)) as u128;
        proof {
            assert(dtu <= 0xffff_ffff_ffff_ffffu128 && dqu <= dtu && dvu
                <= 0xffff_ffff_ffff_ffffu128);
            assert(dqu * dvu <= dtu * dvu && dqu * dvu <= 0xffff_ffff_ffff_ffffu128
                * 0xffff_ffff_ffff_ffffu128) by (nonlinear_arith)
                requires
                    dqu <= dtu,
                    dtu <= 0xffff_ffff_ffff_ffffu128,
                    dvu <= 0xffff_ffff_ffff_ffffu128,
                    0 <= dqu,
                    0 <= dvu,
            ;
            lemma_div_is_ordered(dqu as int * dvu as int, dtu as int * dvu as int, dtu as int);
            lemma_div_multiples_vanish(dvu as int, dtu as int);
            lemma_mul_nonnegative(dqu as int, dvu as int);
            lemma_div_pos_is_pos(dqu as int * dvu as int, dtu as int);
        }
        let quot = (dqu * dvu) / dtu;
        let r128 = (v0 as i128) + (quot as i128);
        r128 as i64
    } else {
        let dvu = ((v0 as i128) - (v1 as i128)) as u128;
        proof {
            assert(dtu <= 0xffff_ffff_ffff_ffffu128 && dqu <= dtu && dvu
                <= 0xffff_ffff_ffff_ffffu128);
            assert(dqu * dvu <= dtu * dvu && dqu * dvu <= 0xffff_ffff_ffff_ffffu128
                * 0xffff_ffff_ffff_ffffu128) by (nonlinear_arith)
                requires
                    dqu <= dtu,
                    dtu <= 0xffff_ffff_ffff_ffffu128,
                    dvu <= 0xffff_ffff_ffff_ffffu128,
                    0 <= dqu,
                    0 <= dvu,
            ;
            lemma_div_is_ordered(dqu as int * dvu as int, dtu as int * dvu as int, dtu as int);
            lemma_div_multiples_vanish(dvu as int, dtu as int);
            lemma_mul_nonnegative(dqu as int, dvu as int);
            lemma_div_pos_is_pos(dqu as int * dvu as int, dtu as int);
        }
        let quot = (dqu * dvu) / dtu;
        let r128 = (v0 as i128) - (quot as i128);
        r128 as i64
    }
}

/// The pure evaluator over a validated schedule. It holds no state: the
/// result is a function of the schedule and the query time alone, so
/// repeated calls with equal arguments return equal results.
pub struct Interpolator;

impl Interpolator {
    /// Samples the piecewise-linear curve defined by `schedule` at
    /// `query_time`: the exact keyframe value at a keyframe time, linear
    /// interpolation (per `lerp`) strictly inside a segment, and the nearest
    /// boundary keyframe's value outside the keyframe range.
    pub fn sample(schedule: &Schedule, query_time: i64) -> (r: Result<i64, SampleError>)
        ensures
            r matches Ok(v) && v as int == sample_at(schedule@, query_time as int),
    {
        proof {
            use_type_invariant(schedule);
            schedule.lemma_wf();
        }
        let ghost s = schedule@;
        let n = schedule.len();
        if n < 2 {
            // unreachable: every schedule value holds at least two keyframes
            return Err(SampleError::DegenerateSchedule);
        }
        let first = schedule.frame(0);
        if query_time <= first.time {
            proof {
                lemma_clamp_before_first(s, query_time as int);
            }
            return Ok(first.value);
        }
        let last = schedule.frame(n - 1);
        if query_time >= last.time {
            proof {
                lemma_clamp_after_last(s, query_time as int);
            }
            return Ok(last.value);
        }
        let mut lo: usize = 0;
        let mut hi: usize = n - 1;
        while hi - lo > 1
            invariant
                s == schedule@,
                wf_seq(s),
                n == s.len(),
                lo < hi < n,
                s[lo as int].time < query_time,
                query_time <= s[hi as int].time,
            decreases hi - lo,
        {
            let mid = lo + (hi - lo) / 2;
            if schedule.frame(mid).time < query_time {
                lo = mid;
            } else {
                hi = mid;
            }
        }
        let kf0 = schedule.frame(lo);
        let kf1 = schedule.frame(lo + 1);
        proof {
            lemma_sample_at_segment(s, query_time as int, lo as int);
        }
        let v = lerp_exec(kf0.time, kf0.value, kf1.time, kf1.value, query_time);
        Ok(v)
    }
}

} // verus!
