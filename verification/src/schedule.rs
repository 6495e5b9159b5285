//! The keyframe schedule: an immutable, time-sorted collection of
//! (time, value) control points, validated and normalized from raw
//! `("HH:MM", value)` records.

use vstd::prelude::*;
use vstd::multiset::Multiset;
use crate::clock::{clock_label_ok, clock_seconds_of, parse_clock_time};

verus! {

/// A single control point: a time in seconds since midnight and the
/// value the curve takes at that time.
#[derive(Clone, Copy, PartialEq, Eq, Structural, Debug)]
pub struct Keyframe {
    pub time: i64,
    pub value: i64,
}

/// Why a schedule could not be built from raw records.
#[derive(Clone, Copy, PartialEq, Eq, Structural, Debug)]
pub enum ScheduleError {
    /// A time label does not match 24-hour `"HH:MM"` syntax or denotes
    /// an out-of-range hour or minute.
    InvalidTimeFormat,
    /// Two records denote the same clock time: their order is ambiguous.
    DuplicateTime,
    /// Fewer than two records: no linear segment can be formed.
    InsufficientKeyframes,
}

/// Keyframe times are strictly increasing in sequence order.
pub open spec fn strictly_sorted(s: Seq<Keyframe>) -> bool {
    forall|i: int, j: int|
        #![trigger s[i].time, s[j].time]
        0 <= i < j < s.len() ==> s[i].time < s[j].time
}

/// No two keyframes share a time.
pub open spec fn distinct_times(s: Seq<Keyframe>) -> bool {
    forall|i: int, j: int|
        #![trigger s[i].time, s[j].time]
        0 <= i < j < s.len() ==> s[i].time != s[j].time
}

/// A well-formed schedule: at least two keyframes, times strictly increasing.
pub open spec fn wf_seq(s: Seq<Keyframe>) -> bool {
    s.len() >= 2 && strictly_sorted(s)
}

/// The keyframe denoted by one raw record.
pub open spec fn parsed_frame(rec: (String, i64)) -> Keyframe {
    Keyframe { time: clock_seconds_of(rec.0@) as i64, value: rec.1 }
}

/// The keyframes denoted by a sequence of raw records, in record order.
pub open spec fn parsed_seq(recs: Seq<(String, i64)>) -> Seq<Keyframe> {
    recs.map_values(|rec: (String, i64)| parsed_frame(rec))
}

/// Every record's time label is a well-formed clock time.
pub open spec fn records_ok(recs: Seq<(String, i64)>) -> bool {
    forall|i: int| 0 <= i < recs.len() ==> clock_label_ok(#[trigger] recs[i].0@)
}

/// The immutable, validated schedule. Its view is its keyframe sequence,
/// which always satisfies `wf_seq`.
pub struct Schedule {
    frames: Vec<Keyframe>,
}

impl View for Schedule {
    type V = Seq<Keyframe>;

    closed spec fn view(&self) -> Seq<Keyframe> {
        self.frames@
    }
}

impl Schedule {
    /// Holds of every schedule value: established at construction and kept
    /// by immutability. Callers obtain it with `use_type_invariant`.
    #[verifier::type_invariant]
    pub closed spec fn well_formed(self) -> bool {
        wf_seq(self.frames@)
    }

    /// A well-formed schedule value has a well-formed keyframe sequence.
    pub proof fn lemma_wf(self)
        requires
            self.well_formed(),
        ensures
            wf_seq(self@),
    {
    }

    /// Number of keyframes.
    pub fn len(&self) -> (n: usize)
        ensures
            n == self@.len(),
    {
        self.frames.len()
    }

    /// The keyframe at a position of the time-sorted sequence.
    pub fn frame(&self, i: usize) -> (kf: Keyframe)
        requires
            i < self@.len(),
        ensures
            kf == self@[i as int],
    {
        self.frames[i]
    }

    /// The time-sorted keyframes.
    pub fn keyframes(&self) -> (r: &Vec<Keyframe>)
        ensures
            r@ == self@,
    {
        &self.frames
    }

    /// Builds a schedule from raw records: parses each time label, rejects
    /// fewer than two records or a repeated time, and sorts by time.
    ///
    /// Returns `Err(InvalidTimeFormat)` exactly when some label is not a
    /// well-formed clock time; otherwise `Err(InsufficientKeyframes)` exactly
    /// when fewer than two records were given; otherwise `Err(DuplicateTime)`
    /// exactly when two records denote the same time; otherwise the schedule
    /// holding exactly the denoted keyframes, sorted by time.
    pub fn from_records(records: Vec<(String, i64)>) -> (r: Result<Schedule, ScheduleError>)
        ensures
            match r {
                Ok(s) => {
                    &&& records_ok(records@)
                    &&& records@.len() >= 2
                    &&& distinct_times(parsed_seq(records@))
                    &&& wf_seq(s@)
                    &&& s@.to_multiset() == parsed_seq(records@).to_multiset()
                },
                Err(ScheduleError::InvalidTimeFormat) => !records_ok(records@),
                Err(ScheduleError::InsufficientKeyframes) => records_ok(records@)
                    && records@.len() < 2,
                Err(ScheduleError::DuplicateTime) => records_ok(records@) && records@.len() >= 2
                    && !distinct_times(parsed_seq(records@)),
            },
    {
        let n = records.len();
        let mut frames: Vec<Keyframe> = Vec::new();
        let mut idx: usize = 0;
        while idx < n
            invariant
                n == records@.len(),
                idx <= n,
                frames@.len() == idx,
                forall|k: int| 0 <= k < idx ==> clock_label_ok(#[trigger] records@[k].0@),
                forall|k: int| 0 <= k < idx ==> frames@[k] == parsed_frame(#[trigger] records@[k]),
            decreases n - idx,
        {
            let rec = &records[idx];
            match parse_clock_time(rec.0.as_str()) {
                None => {
                    return Err(ScheduleError::InvalidTimeFormat);
                },
                Some(t) => {
                    frames.push(Keyframe { time: t, value: rec.1 });
                },
            }
            idx += 1;
        }
        proof {
            assert(frames@ =~= parsed_seq(records@));
        }
        if n < 2 {
            return Err(ScheduleError::InsufficientKeyframes);
        }
        let mut i: usize = 0;
        while i < n
            invariant
                n == frames@.len(),
                n == records@.len(),
                n >= 2,
                records_ok(records@),
                frames@ == parsed_seq(records@),
                i <= n,
                forall|a: int, b: int|
                    #![trigger frames@[a].time, frames@[b].time]
                    0 <= a < b < n && a < i ==> frames@[a].time != frames@[b].time,
            decreases n - i,
        {
            let fi = frames[i];
            let mut j: usize = i + 1;
            while j < n
                invariant
                    n == frames@.len(),
                    n == records@.len(),
                    n >= 2,
                    records_ok(records@),
                    frames@ == parsed_seq(records@),
                    i < n,
                    i < j <= n,
                    fi == frames@[i as int],
                    forall|b: int|
                        i < b < j ==> frames@[i as int].time != (#[trigger] frames@[b]).time,
                decreases n - j,
            {
                if fi.time == frames[j].time {
                    proof {
                        assert(frames@[i as int].time == frames@[j as int].time);
                        assert(!distinct_times(frames@));
                    }
                    return Err(ScheduleError::DuplicateTime);
                }
                j += 1;
            }
            i += 1;
        }
        assert(distinct_times(frames@));
        let sorted = sort_frames(frames);
        Ok(Schedule { frames: sorted })
    }
}

/// Sorts keyframes with pairwise-distinct times into strictly increasing
/// time order, keeping exactly the given (time, value) pairs.
fn sort_frames(frames: Vec<Keyframe>) -> (r: Vec<Keyframe>)
    requires
        distinct_times(frames@),
    ensures
        r@.len() == frames@.len(),
        strictly_sorted(r@),
        r@.to_multiset() == frames@.to_multiset(),
{
    let ghost orig = frames@;
    let mut rem = frames;
    let mut out: Vec<Keyframe> = Vec::new();
    proof {
        broadcast use vstd::multiset::group_multiset_axioms;

        assert forall|x: Keyframe| out@.to_multiset().count(x) == 0 by {
            vstd::seq_lib::to_multiset_contains(out@, x);
        }
        assert(out@.to_multiset().add(rem@.to_multiset()) =~= orig.to_multiset());
    }
    while rem.len() > 0
        invariant
            out@.len() + rem@.len() == orig.len(),
            out@.to_multiset().add(rem@.to_multiset()) == orig.to_multiset(),
            strictly_sorted(out@),
            distinct_times(rem@),
            forall|a: int, b: int|
                #![trigger out@[a].time, rem@[b].time]
                0 <= a < out@.len() && 0 <= b < rem@.len() ==> out@[a].time < rem@[b].time,
        decreases rem@.len(),
    {
        let mut min_idx: usize = 0;
        let mut k: usize = 1;
        while k < rem.len()
            invariant
                0 < rem@.len(),
                min_idx < rem@.len(),
                k <= rem@.len(),
                forall|b: int| 0 <= b < k ==> rem@[min_idx as int].time <= #[trigger] rem@[b].time,
            decreases rem@.len() - k,
        {
            if rem[k].time < rem[min_idx].time {
                min_idx = k;
            }
            k += 1;
        }
        let ghost old_out = out@;
        let ghost old_rem = rem@;
        let m = rem.remove(min_idx);
        out.push(m);
        proof {
            broadcast use vstd::multiset::group_multiset_axioms;

            old_rem.remove_ensures(min_idx as int);
            assert(old_rem.contains(m)) by {
                assert(old_rem[min_idx as int] == m);
            }
            vstd::seq_lib::to_multiset_build(old_out, m);
            vstd::seq_lib::to_multiset_remove(old_rem, min_idx as int);
            vstd::seq_lib::to_multiset_contains(old_rem, m);
            assert(out@ == old_out.push(m));
            assert(rem@ == old_rem.remove(min_idx as int));
            assert(out@.to_multiset().add(rem@.to_multiset()) =~= orig.to_multiset());
            assert forall|a: int, b: int|
                #![trigger rem@[a].time, rem@[b].time]
                0 <= a < b < rem@.len() implies rem@[a].time != rem@[b].time by {
                if b < min_idx {
                    assert(rem@[a] == old_rem[a] && rem@[b] == old_rem[b]);
                } else if a < min_idx {
                    assert(rem@[a] == old_rem[a] && rem@[b] == old_rem[b + 1]);
                } else {
                    assert(rem@[a] == old_rem[a + 1] && rem@[b] == old_rem[b + 1]);
                }
            }
            assert forall|a: int, b: int|
                #![trigger out@[a].time, rem@[b].time]
                0 <= a < out@.len() && 0 <= b < rem@.len() implies out@[a].time < rem@[b].time by {
                let ghost bo: int = if b < min_idx {
                    b
                } else {
                    b + 1
                };
                assert(rem@[b] == old_rem[bo]);
                assert(m.time <= old_rem[bo].time);
                assert(m.time != old_rem[bo].time);
                if a < old_out.len() {
                    assert(out@[a] == old_out[a]);
                } else {
                    assert(out@[a] == m);
                }
            }
            assert(strictly_sorted(out@)) by {
                assert forall|a: int, b: int|
                    #![trigger out@[a].time, out@[b].time]
                    0 <= a < b < out@.len() implies out@[a].time < out@[b].time by {
                    if b < old_out.len() {
                        assert(out@[a] == old_out[a] && out@[b] == old_out[b]);
                    } else {
                        assert(out@[b] == m && out@[a] == old_out[a]);
                        assert(old_out[a].time < old_rem[min_idx as int].time);
                    }
                }
            }
        }
    }
    proof {
        broadcast use vstd::multiset::group_multiset_axioms;

        assert(rem@.to_multiset() =~= Multiset::empty()) by {
            assert forall|x: Keyframe| rem@.to_multiset().count(x) == 0 by {
                vstd::seq_lib::to_multiset_contains(rem@, x);
            }
        }
        assert(out@.to_multiset() =~= orig.to_multiset());
    }
    out
}

} // verus!
