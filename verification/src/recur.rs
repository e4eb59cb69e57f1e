//! The recurrence engine: `Every`, `Stop`, `Repeated`, `OptRepeated`.
//!
//! A `Repeated` value produces a lazy sequence of occurrence instants: a
//! cycle of "phase" start times repeated under a step rule.  It is a plain
//! restartable value; cloning it and resuming later reproduces the same
//! sequence from that point.  `next` follows a deterministic algorithm,
//! stated exactly by `rep_next_spec`; when a step would leave the
//! representable range of instants (or no such calendar date exists for a
//! month step), the iterator transitions to `Stop::Stopped` instead of
//! producing a value.

use vstd::prelude::*;

use crate::api::{EveryV, OptRepeatedV, RepeatedV, StopV};
use crate::time::{civil_year_month0, fits_i64, with_year_month0_at, year_month0, set_year_month0,
    DateTime, Duration};

verus! {

/// A step rule: a fixed wall-clock offset, or a calendar-month offset
/// applied via year-carrying month arithmetic.
#[derive(Clone, Copy, Debug, PartialEq, Eq, Structural)]
pub enum Every {
    Time(Duration),
    Month(u32),
}

/// A termination policy; `Stopped` is the terminal sentinel the iterator
/// transitions into.  Only a `Count` of exactly zero stops: any other
/// count decrements and iteration continues (so a negative count never
/// stops by counting, wrapping at the numeric floor).
#[derive(Clone, Copy, Debug, PartialEq, Eq, Structural)]
pub enum Stop {
    Nonstop,
    Stopped,
    Count(i32),
    After(DateTime),
}

/// A recurring schedule: a sorted cycle of phase instants, a step rule and
/// a termination policy, together with the iteration state (`last`
/// produced instant and the phase `index` it came from).
#[derive(Clone, Debug, PartialEq, Eq)]
#[verifier::ext_equal]
pub struct Repeated {
    /// The phase instants of one cycle, sorted ascending.
    pub start: Vec<DateTime>,
    pub every: Every,
    pub stop: Stop,
    /// The instant produced by the latest `next` call, if any.
    pub last: Option<DateTime>,
    /// Index into `start` of the phase `last` was derived from.
    pub index: usize,
}

/// A deadline or start is either a one-off instant or an open recurrence.
#[derive(Clone, Debug, PartialEq, Eq)]
#[verifier::ext_equal]
pub enum OptRepeated {
    Single(DateTime),
    Repeat(Repeated),
}

/// The instants of an optional value, as mathematical integers.
pub open spec fn opt_secs(o: Option<DateTime>) -> Option<int> {
    match o {
        Some(d) => Some(d.secs as int),
        None => None,
    }
}

/// The step `Every::Month(c)` applied to the instant `t`: the zero-based
/// month advances by `c` with the year carrying the overflow, while the
/// day of month and time of day stay; `None` where the resulting calendar
/// date does not exist or leaves the representable range.
pub open spec fn month_advance_spec(t: int, c: int) -> Option<int> {
    match civil_year_month0(t) {
        None => None,
        Some(ym) => {
            let m = ym.1 + c;
            let yd = m / 12;
            let nm = m % 12;
            if i32::MIN <= ym.0 + yd <= i32::MAX {
                with_year_month0_at(t, ym.0 + yd, nm)
            } else {
                None
            }
        },
    }
}

/// What a step rule yields on the instant `t`, or `None` where the result
/// is not representable.
pub open spec fn every_advance_spec(e: EveryV, t: int) -> Option<int> {
    match e {
        EveryV::Time(d) => if fits_i64(t + d) {
            Some(t + d)
        } else {
            None
        },
        EveryV::Month(c) => month_advance_spec(t, c as int),
    }
}

/// The structural invariant iteration relies on: at least one phase, and
/// an index that points into the cycle.
pub open spec fn rep_v_wf(v: RepeatedV) -> bool {
    0 < v.start.len() && v.index < v.start.len()
}

/// One step of the recurrence algorithm, on the mathematical state:
/// 1. `Count(0)` becomes `Stopped`; any other count decrements and
///    iteration continues (a negative count never stops by counting, and
///    wraps at the numeric floor).
/// 2. A `Stopped` iterator yields `None` and never changes again.
/// 3. On the first call the candidate is the first phase instant.
/// 4. At the last phase the candidate wraps: the span of the whole cycle
///    is subtracted from `last` and the step rule is applied; the index
///    resets to the first phase.
/// 5. At an inner phase the candidate preserves the gap to the next phase
///    and the index moves up by one.
/// 6. If the candidate is not representable, the iterator becomes
///    `Stopped` with `last` and `index` unchanged.
/// 7. Under `After(t)`, a candidate beyond `t` is recorded but not
///    produced, and the iterator becomes `Stopped`.
/// 8. Otherwise the candidate is recorded in `last` and produced.
pub open spec fn rep_next_v(v: RepeatedV) -> (RepeatedV, Option<i64>) {
    let stop1 = match v.stop {
        StopV::Count(n) => if n == 0 {
            StopV::Stopped
        } else if n == i32::MIN {
            StopV::Count(i32::MAX)
        } else {
            StopV::Count((n - 1) as i32)
        },
        s => s,
    };
    if stop1 is Stopped {
        (RepeatedV { stop: stop1, ..v }, None)
    } else {
        let cand: Option<int> = match v.last {
            None => Some(v.start[0] as int),
            Some(l) => if v.index == v.start.len() - 1 {
                let span = v.start[v.start.len() - 1] - v.start[0];
                if fits_i64(span) && fits_i64(l - span) {
                    every_advance_spec(v.every, l - span)
                } else {
                    None
                }
            } else {
                let gap = v.start[v.index + 1] - v.start[v.index as int];
                if fits_i64(gap) && fits_i64(l + gap) {
                    Some(l + gap)
                } else {
                    None
                }
            },
        };
        let index1: usize = match v.last {
            None => v.index,
            Some(_) => if v.index == v.start.len() - 1 {
                0
            } else {
                (v.index + 1) as usize
            },
        };
        match cand {
            None => (RepeatedV { stop: StopV::Stopped, ..v }, None),
            Some(c) => if stop1 matches StopV::After(t) && t < c {
                (
                    RepeatedV { stop: StopV::Stopped, last: Some(c as i64), index: index1, ..v },
                    None,
                )
            } else {
                (
                    RepeatedV { stop: stop1, last: Some(c as i64), index: index1, ..v },
                    Some(c as i64),
                )
            },
        }
    }
}

/// The instants produced by up to `k` steps from the state `v` (stopping
/// early when the iterator ends), with the state left behind.
pub open spec fn rep_gen(v: RepeatedV, k: nat) -> (Seq<i64>, RepeatedV)
    decreases k,
{
    if k == 0 {
        (Seq::empty(), v)
    } else {
        let (v2, out) = rep_next_v(v);
        match out {
            None => (Seq::empty(), v2),
            Some(t) => {
                let (rest, vfin) = rep_gen(v2, (k - 1) as nat);
                (seq![t] + rest, vfin)
            },
        }
    }
}

/// Phase instants in ascending order.
pub open spec fn sorted_by_secs(s: Seq<DateTime>) -> bool {
    forall|i: int, j: int| 0 <= i < j < s.len() ==> s[i].secs <= s[j].secs
}

impl Every {
    /// Apply the step rule once to `time`.
    pub fn advance(&self, time: DateTime) -> (r: Option<DateTime>)
        ensures
            opt_secs(r) == every_advance_spec(self@, time.secs as int),
    {
        match self {
            Every::Time(d) => time.checked_add(*d),
            Every::Month(c) => {
                match year_month0(time) {
                    None => None,
                    Some((y, m0)) => {
                        let m: u64 = m0 as u64 + *c as u64;
                        let yd: u64 = m / 12;
                        let nm: u32 = (m % 12) as u32;
                        let y2: i64 = y as i64 + yd as i64;
                        if y2 < i32::MIN as i64 || y2 > i32::MAX as i64 {
                            None
                        } else {
                            set_year_month0(time, y2 as i32, nm)
                        }
                    },
                }
            },
        }
    }
}

impl Repeated {
    /// The structural invariant `next` relies on: at least one phase, and
    /// an index that points into the cycle.
    pub open spec fn wf(self) -> bool {
        rep_v_wf(self@)
    }

    /// Build a schedule; the phase instants are sorted ascending first.
    pub fn new(start: Vec<DateTime>, every: Every, stop: Stop) -> (r: Repeated)
        ensures
            sorted_by_secs(r.start@),
            r.start@.to_multiset() == start@.to_multiset(),
            r.start@.len() == start@.len(),
            r.every == every,
            r.stop == stop,
            r.last is None,
            r.index == 0,
            start@.len() > 0 ==> r.wf(),
    {
        let start = sort_instants(start);
        Repeated { start, every, stop, last: None, index: 0 }
    }

    /// Produce the next occurrence, as `rep_next_v` states.
    pub fn next(&mut self) -> (r: Option<DateTime>)
        requires
            old(self).wf(),
        ensures
            final(self).wf(),
            final(self).start == old(self).start,
            final(self).every == old(self).every,
            ({
                let (v2, out) = rep_next_v(old(self)@);
                final(self)@ == v2 && (match r {
                    Some(d) => Some(d.secs),
                    None => None,
                }) == out
            }),
    {
        match self.stop {
            Stop::Count(n) => {
                if n == 0 {
                    self.stop = Stop::Stopped;
                } else if n == i32::MIN {
                    self.stop = Stop::Count(i32::MAX);
                } else {
                    self.stop = Stop::Count(n - 1);
                }
            },
            _ => {},
        }
        if matches!(self.stop, Stop::Stopped) {
            return None;
        }
        let cand: Option<DateTime> = match self.last {
            None => Some(self.start[0]),
            Some(l) => {
                if self.index == self.start.len() - 1 {
                    let hi = self.start[self.start.len() - 1].secs;
                    let lo = self.start[0].secs;
                    match hi.checked_sub(lo) {
                        None => None,
                        Some(span) => match l.secs.checked_sub(span) {
                            None => None,
                            Some(back) => self.every.advance(DateTime { secs: back }),
                        },
                    }
                } else {
                    match self.start[self.index + 1].secs.checked_sub(self.start[self.index].secs) {
                        None => None,
                        Some(gap) => match l.secs.checked_add(gap) {
                            None => None,
                            Some(c) => Some(DateTime { secs: c }),
                        },
                    }
                }
            },
        };
        match cand {
            None => {
                self.stop = Stop::Stopped;
                None
            },
            Some(c) => {
                match self.last {
                    None => {},
                    Some(_) => {
                        if self.index == self.start.len() - 1 {
                            self.index = 0;
                        } else {
                            self.index = self.index + 1;
                        }
                    },
                }
                self.last = Some(c);
                if let Stop::After(t) = self.stop {
                    if t.secs < c.secs {
                        self.stop = Stop::Stopped;
                        return None;
                    }
                }
                Some(c)
            },
        }
    }
}

/// Insertion sort on instants, ascending by seconds.
fn sort_instants(v: Vec<DateTime>) -> (r: Vec<DateTime>)
    ensures
        sorted_by_secs(r@),
        r@.to_multiset() == v@.to_multiset(),
        r@.len() == v@.len(),
{
    broadcast use vstd::seq_lib::group_to_multiset_ensures;

    let mut v = v;
    let ghost orig = v@;
    let n = v.len();
    if n <= 1 {
        return v;
    }
    let mut i: usize = 1;
    while i < n
        invariant
            1 <= i <= n,
            n == v.len(),
            forall|a: int, b: int| 0 <= a < b < i ==> v@[a].secs <= v@[b].secs,
            v@.to_multiset() == orig.to_multiset(),
        decreases n - i,
    {
        let mut j: usize = i;
        while j > 0 && v[j - 1].secs > v[j].secs
            invariant
                0 <= j <= i < n,
                n == v.len(),
                v@.to_multiset() == orig.to_multiset(),
                forall|a: int, b: int| 0 <= a < b <= i && b != j ==> v@[a].secs <= v@[b].secs,
            decreases j,
        {
            let ghost before = v@;
            let tmp = v[j];
            let prev = v[j - 1];
            v.set(j, prev);
            v.set(j - 1, tmp);
            proof {
                broadcast use vstd::multiset::group_multiset_axioms;

                let mid = before.update(j as int, prev);
                vstd::seq_lib::to_multiset_update(before, j as int, prev);
                vstd::seq_lib::to_multiset_update(mid, j - 1, tmp);
                vstd::seq_lib::to_multiset_contains(before, tmp);
                let m0 = before.to_multiset();
                assert(before[j as int] == tmp && before[j - 1] == prev);
                assert(before.contains(tmp));
                assert(mid[j - 1] == prev);
                assert(v@ == mid.update(j - 1, tmp));
                assert(v@.to_multiset() == m0.insert(prev).remove(tmp).insert(tmp).remove(prev));
                assert(v@.to_multiset() =~= m0);
            }
            j = j - 1;
        }
        i = i + 1;
    }
    v
}

} // verus!
