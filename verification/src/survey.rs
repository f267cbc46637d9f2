//! The geometry of a path, segment by segment.
//!
//! Distances, directions and circles are real arithmetic, so the functions that
//! do it are handed in. What is settled here is which of them a segment needs:
//! where a lit run starts and ends, how long a run-up fits, which points a wiggle
//! has to trace.

use crate::stream::{
    flags, gates, given, in_field, refusal, trace_curve, traced, Course, Lead, Leg, Load, PathError,
    PathOpts, Point, Speed, FULL,
};
use vstd::prelude::*;

verus! {

/// `lead` can be asked for any point beyond a segment.
pub open spec fn can_lead<L: Fn(Point, Point, i64, bool) -> (i64, i64)>(lead: L) -> bool {
    forall|a: Point, b: Point, c: i64, s: bool| call_requires(lead, (a, b, c, s))
}

/// A run-up of `c` counts may end at `p`.
pub open spec fn leads_to<L: Fn(Point, Point, i64, bool) -> (i64, i64)>(
    lead: L,
    a: Point,
    b: Point,
    at_start: bool,
    c: int,
    p: (i64, i64),
) -> bool {
    i64::MIN <= c <= i64::MAX && call_ensures(lead, (a, b, c as i64, at_start), p)
}

/// Where a longer run-up is inside the travel limits, so is a shorter one: the
/// line leaves the field once.
pub open spec fn leaves_once<L: Fn(Point, Point, i64, bool) -> (i64, i64)>(
    lead: L,
    a: Point,
    b: Point,
    at_start: bool,
) -> bool {
    forall|c: int, d: int, p: (i64, i64), q: (i64, i64)|
        0 < c <= d && #[trigger] leads_to(lead, a, b, at_start, c, p) && #[trigger] leads_to(
            lead,
            a,
            b,
            at_start,
            d,
            q,
        ) && in_field(q) ==> in_field(p)
}

/// Of two run-ups on one line the shorter ends, on either axis, between the point
/// that they set out from and the end of the longer.
pub open spec fn runs_straight<L: Fn(Point, Point, i64, bool) -> (i64, i64)>(
    lead: L,
    a: Point,
    b: Point,
    at_start: bool,
) -> bool {
    let o = if at_start {
        a
    } else {
        b
    };
    forall|c: int, d: int, p: (i64, i64), q: (i64, i64)|
        0 < c <= d && #[trigger] leads_to(lead, a, b, at_start, c, p) && #[trigger] leads_to(
            lead,
            a,
            b,
            at_start,
            d,
            q,
        ) ==> {
            &&& o.0 <= p.0 <= q.0 || q.0 <= p.0 <= o.0
            &&& o.1 <= p.1 <= q.1 || q.1 <= p.1 <= o.1
        }
}

/// A straight line leaves the field once, so the run-up that fits it is the longest
/// that does.
pub proof fn law_a_straight_line_leaves_once<L: Fn(Point, Point, i64, bool) -> (i64, i64)>(
    lead: L,
    a: Point,
    b: Point,
    at_start: bool,
)
    requires
        runs_straight(lead, a, b, at_start),
    ensures
        leaves_once(lead, a, b, at_start),
{
}

/// `(at, counts)` is the run-up that fits: it is inside the travel limits, no
/// longer than asked, and one count more would leave them.
pub open spec fn fits<L: Fn(Point, Point, i64, bool) -> (i64, i64)>(
    lead: L,
    a: Point,
    b: Point,
    asked: int,
    at_start: bool,
    at: Point,
    counts: int,
) -> bool {
    &&& 0 <= counts <= asked
    &&& counts == 0 ==> at == if at_start {
        a
    } else {
        b
    }
    &&& counts > 0 ==> leads_to(lead, a, b, at_start, counts, (at.0 as i64, at.1 as i64))
    &&& counts < asked ==> exists|p: (i64, i64)| #[trigger]
        leads_to(lead, a, b, at_start, counts + 1, p) && !in_field(p)
}

/// Longest run-up up to `counts` that stays inside the travel limits. `lead`
/// gives the point that many counts before `p0`, or past `p1`, along the line.
///
/// Shrinking beats refusing: a shorter run-up still marks the requested geometry,
/// while a refusal turns a reachable job into no job.
pub fn fit_overshoot<L: Fn(Point, Point, i64, bool) -> (i64, i64)>(
    p0: Point,
    p1: Point,
    counts: i64,
    at_start: bool,
    lead: &L,
) -> (r: (Point, i64))
    requires
        can_lead(*lead),
    ensures
        counts >= 0 ==> fits(*lead, p0, p1, counts as int, at_start, r.0, r.1 as int),
        counts < 0 ==> r == (if at_start {
            p0
        } else {
            p1
        }, 0i64),
        leaves_once(*lead, p0, p1, at_start) ==> forall|c: int, p: (i64, i64)|
            r.1 < c <= counts && #[trigger] leads_to(*lead, p0, p1, at_start, c, p) ==> !in_field(
                p,
            ),
{
    let start: Point = if at_start {
        p0
    } else {
        p1
    };
    if counts < 0 {
        return (start, 0);
    }
    let mut lo: i64 = 0;
    let mut hi: i64 = counts;
    let mut best: (Point, i64) = (start, 0);
    while lo <= hi
        invariant
            can_lead(*lead),
            counts >= 0,
            start == if at_start {
                p0
            } else {
                p1
            },
            0 <= lo <= hi + 1,
            -1 <= hi <= counts,
            lo == 0 ==> hi >= 0,
            best.1 == if lo == 0 {
                0
            } else {
                lo - 1
            },
            best.1 == 0 ==> best.0 == start,
            best.1 > 0 ==> leads_to(
                *lead,
                p0,
                p1,
                at_start,
                best.1 as int,
                (best.0.0 as i64, best.0.1 as i64),
            ),
            hi < counts ==> exists|p: (i64, i64)| #[trigger]
                leads_to(*lead, p0, p1, at_start, hi + 1, p) && !in_field(p),
        decreases hi - lo + 1,
    {
        let mid: i64 = lo + (hi - lo) / 2;
        if mid == 0 {
            best = (start, 0);
            lo = 1;
        } else {
            let p = lead(p0, p1, mid, at_start);
            assert(leads_to(*lead, p0, p1, at_start, mid as int, p));
            if 0 <= p.0 && p.0 <= FULL && 0 <= p.1 && p.1 <= FULL {
                best = ((p.0 as u16, p.1 as u16), mid);
                if mid == hi {
                    return best;
                }
                lo = mid + 1;
            } else {
                hi = mid - 1;
                assert(leads_to(*lead, p0, p1, at_start, hi + 1, p));
            }
        }
    }
    best
}

/// `us` is the time between two points: asked for where it follows from a feed
/// rate.
pub open spec fn feeds<M: Fn(Point, Point) -> Option<i64>>(
    speed: Speed,
    feed: M,
    a: Point,
    b: Point,
    us: Option<i64>,
) -> bool {
    match speed {
        Speed::Micros(_) => us is None,
        Speed::MmPerSec(_) => call_ensures(feed, (a, b), us),
    }
}

fn feed_time<M: Fn(Point, Point) -> Option<i64>>(speed: Speed, feed: &M, a: Point, b: Point) -> (r:
    Option<i64>)
    requires
        forall|a: Point, b: Point| call_requires(*feed, (a, b)),
    ensures
        feeds(speed, *feed, a, b, r),
{
    match speed {
        Speed::Micros(_) => None,
        Speed::MmPerSec(_) => feed(a, b),
    }
}

/// Where segment `i` needs a run-up, `l` is the one that fits, with the time that
/// it takes.
pub open spec fn run_up_surveyed<
    L: Fn(Point, Point, i64, bool) -> (i64, i64),
    M: Fn(Point, Point) -> Option<i64>,
>(
    speed: Speed,
    lead: L,
    feed: M,
    a: Point,
    b: Point,
    needed: bool,
    asked: int,
    at_start: bool,
    l: Option<Lead>,
) -> bool {
    match l {
        None => !needed,
        Some(l) => {
            &&& needed
            &&& fits(lead, a, b, asked, at_start, l.at, l.counts as int)
            &&& if at_start {
                feeds(speed, feed, l.at, a, l.us)
            } else {
                feeds(speed, feed, b, l.at, l.us)
            }
        },
    }
}

/// `leg` is the geometry of segment `i` of a path.
pub open spec fn is_surveyed<
    L: Fn(Point, Point, i64, bool) -> (i64, i64),
    M: Fn(Point, Point) -> Option<i64>,
    C: Fn(usize) -> Vec<(i64, i64)>,
    T: Fn(usize, &Vec<(i64, i64)>) -> (Vec<Option<i64>>, Option<Load>),
>(c: Course, i: int, lead: L, feed: M, curve: C, times: T, leg: Leg) -> bool {
    let a = c.pts[i];
    let b = c.pts[i + 1];
    let asked = c.o.overshoot as int;
    &&& feeds(c.speed, feed, a, b, leg.feed_us)
    &&& run_up_surveyed(
        c.speed,
        lead,
        feed,
        a,
        b,
        c.runs_up() && c.starts_run(i),
        asked,
        true,
        leg.lead_in,
    )
    &&& run_up_surveyed(
        c.speed,
        lead,
        feed,
        a,
        b,
        c.runs_up() && c.ends_run(i),
        asked,
        false,
        leg.lead_out,
    )
    &&& if c.lit[i] && c.wiggles() {
        exists|k: usize, v: Vec<(i64, i64)>|
            {
                &&& k == i
                &&& #[trigger] call_ensures(curve, (k,), v)
                &&& leg.curve@ == traced(v@, b, c.ends_run(i))
                &&& call_ensures(times, (k, &leg.curve), (leg.curve_us, leg.load))
            }
    } else {
        leg.curve@.len() == 0 && leg.curve_us@.len() == 0 && leg.load is None
    }
}

/// `c` is a course with the geometry of every segment surveyed.
pub open spec fn is_survey<
    L: Fn(Point, Point, i64, bool) -> (i64, i64),
    M: Fn(Point, Point) -> Option<i64>,
    C: Fn(usize) -> Vec<(i64, i64)>,
    T: Fn(usize, &Vec<(i64, i64)>) -> (Vec<Option<i64>>, Option<Load>),
>(c: Course, lead: L, feed: M, curve: C, times: T) -> bool {
    &&& c.wf()
    &&& forall|i: int|
        0 <= i < c.legs.len() ==> is_surveyed(c, i, lead, feed, curve, times, #[trigger] c.legs[i])
}

/// Survey a path: ask for the geometry of each of its segments. `feed` gives the
/// rounded microseconds between two points at the feed rate, `curve` the rounded
/// points that a wiggle traces over a segment, and `times` the microseconds to
/// each of them with what they ask of the mirrors.
pub fn survey<
    L: Fn(Point, Point, i64, bool) -> (i64, i64),
    M: Fn(Point, Point) -> Option<i64>,
    C: Fn(usize) -> Vec<(i64, i64)>,
    T: Fn(usize, &Vec<(i64, i64)>) -> (Vec<Option<i64>>, Option<Load>),
>(
    points: &[Point],
    lit: Option<&[bool]>,
    speed: Speed,
    o: PathOpts,
    lead: L,
    feed: M,
    curve: C,
    times: T,
) -> (r: Result<Vec<Leg>, PathError>)
    requires
        can_lead(lead),
        forall|a: Point, b: Point| call_requires(feed, (a, b)),
        forall|i: usize| call_requires(curve, (i,)),
        forall|i: usize, v: &Vec<(i64, i64)>| call_requires(times, (i, v)),
    ensures
        match r {
            Err(e) => refusal(points@.len(), given(lit), o) == Some(e),
            Ok(legs) => {
                let c = Course {
                    pts: points@,
                    lit: flags(points@.len(), given(lit)),
                    speed,
                    o,
                    legs: legs@,
                };
                &&& refusal(points@.len(), given(lit), o) is None
                &&& is_survey(c, lead, feed, curve, times)
            },
        },
{
    let f = match gates(points, lit, o) {
        Ok(f) => f,
        Err(e) => {
            return Err(e);
        },
    };
    let n: usize = f.len();
    let ghost c = Course {
        pts: points@,
        lit: flags(points@.len(), given(lit)),
        speed,
        o,
        legs: Seq::empty(),
    };
    let mut legs: Vec<Leg> = Vec::new();
    let mut i: usize = 0;
    while i < n
        invariant
            can_lead(lead),
            forall|a: Point, b: Point| call_requires(feed, (a, b)),
            forall|i: usize| call_requires(curve, (i,)),
            forall|i: usize, v: &Vec<(i64, i64)>| call_requires(times, (i, v)),
            n == f@.len(),
            n == points@.len() - 1,
            c.pts == points@,
            c.lit == f@,
            c.o == o,
            c.speed == speed,
            i <= n,
            legs@.len() == i,
            forall|j: int|
                0 <= j < i ==> is_surveyed(c, j, lead, feed, curve, times, #[trigger] legs@[j]),
        decreases n - i,
    {
        let on: bool = f[i];
        let p0: Point = points[i];
        let p1: Point = points[i + 1];
        let starts: bool = on && (i == 0 || !f[i - 1]);
        let ends: bool = on && (i == n - 1 || !f[i + 1]);
        let feed_us: Option<i64> = feed_time(speed, &feed, p0, p1);
        let lead_in: Option<Lead> = if starts && o.overshoot > 0 {
            let (at, counts) = fit_overshoot(p0, p1, o.overshoot, true, &lead);
            Some(Lead { at, counts, us: feed_time(speed, &feed, at, p0) })
        } else {
            None
        };
        let lead_out: Option<Lead> = if ends && o.overshoot > 0 {
            let (at, counts) = fit_overshoot(p0, p1, o.overshoot, false, &lead);
            Some(Lead { at, counts, us: feed_time(speed, &feed, p1, at) })
        } else {
            None
        };
        let mut leg = Leg {
            feed_us,
            lead_in,
            lead_out,
            curve: Vec::new(),
            curve_us: Vec::new(),
            load: None,
        };
        if on && o.wiggle > 0 {
            let v = curve(i);
            let w = trace_curve(&v, p1, ends);
            let (us, load) = times(i, &w);
            leg.curve = w;
            leg.curve_us = us;
            leg.load = load;
            assert(call_ensures(curve, (i,), v));
            assert(call_ensures(times, (i, &leg.curve), (leg.curve_us, leg.load)));
        }
        assert(is_surveyed(c, i as int, lead, feed, curve, times, leg));
        legs.push(leg);
        i = i + 1;
    }
    proof {
        let d = Course { legs: legs@, ..c };
        assert forall|j: int| 0 <= j < legs@.len() implies is_surveyed(
            d,
            j,
            lead,
            feed,
            curve,
            times,
            #[trigger] legs@[j],
        ) by {
            assert(is_surveyed(c, j, lead, feed, curve, times, legs@[j]));
        }
    }
    Ok(legs)
}

} // verus!
