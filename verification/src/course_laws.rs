//! What a path as a whole comes to: what its geometry is asked for, what goes out of it,
//! and what is reported.

use crate::double::Double;
use crate::job::{is_path, is_streamed, segment_course, Setup};
use crate::limits::load_notice;
use crate::pace::{
    flat, join, law_a_batch_splits_into_its_vectors, law_batches_carry_every_vector, total_us,
};
use crate::script::{batches_of, Script};
use crate::stream::{
    are_runs, in_field, traced, Course, Emitted, Leg, Load, PathError, PathOpts, Point, Speed,
    SEG_MIN_US,
};
use crate::stream_laws::{
    law_a_path_is_counted, law_the_shortest_run_up_is_reported,
    law_time_is_the_sum_of_what_is_carried, param_sum,
};
use crate::survey::{fits, is_survey, is_surveyed, leads_to};
use vstd::prelude::*;

verus! {

/// `p` lies within the sixteen bits of both axes.
pub open spec fn reachable(p: (i64, i64)) -> bool {
    0 <= p.0 <= 65535 && 0 <= p.1 <= 65535
}

/// What is reported of a path that is streamed is what goes out of it: as many commands of
/// twelve bytes, and the sum of the microseconds that they carry. A run-up is reported
/// only where one was asked for, and none longer. The exposure is the ratio that was
/// worked out where there is a length to it, and else 1.
pub proof fn law_what_is_reported_of_a_path(
    s: Setup,
    t: Setup,
    c: Course,
    load: Option<Load>,
    straight_mm: Double,
    ratio: Double,
    r: Result<(Script, Emitted), PathError>,
)
    requires
        c.wf(),
        is_streamed(s, t, c, load, straight_mm, ratio, r),
        r is Ok,
    ensures
        ({
            let (script, e) = r->Ok_0;
            let b = join(batches_of(script@));
            let us = param_sum(b, e.commands as int);
            &&& b == flat(c.vectors(c.lit.len() as int))
            &&& b.len() == 12 * e.commands
            &&& us <= u64::MAX ==> e.us == us
            &&& us > u64::MAX ==> e.us == u64::MAX
            &&& c.o.overshoot <= 0 ==> e.overshoot == 0
            &&& c.o.overshoot > 0 ==> e.overshoot <= c.o.overshoot
            &&& 0 < straight_mm.bits <= 0x7FF0_0000_0000_0000 ==> e.exposure == ratio
            &&& straight_mm.bits == 0 || straight_mm.bits > 0x7FF0_0000_0000_0000
                ==> e.exposure.bits == 0x3FF0_0000_0000_0000
            &&& script.lands
        }),
{
    let n = c.lit.len() as int;
    let v = c.vectors(n);
    law_a_path_is_counted(c, n);
    law_time_is_the_sum_of_what_is_carried(v);
    law_batches_carry_every_vector(v, SEG_MIN_US as int);
    law_the_shortest_run_up_is_reported(c, n, 0);
    let g = c.granted(n);
    if c.o.overshoot > 0 && g != c.o.overshoot {
        let k = choose|k: int|
            0 <= k < n && c.lit[k] && ((#[trigger] c.lead_in(k)).counts == g || c.lead_out(k).counts
                == g);
        assert(i64::MIN <= g);
    }
    let (script, e) = r->Ok_0;
    let b = join(batches_of(script@));
    assert(b == flat(v));
    if v.len() > 0 {
        law_a_batch_splits_into_its_vectors(v, 0);
    }
    assert(b.len() == 12 * e.commands);
    assert(total_us(v) == param_sum(b, e.commands as int));
}

/// A path changes nothing of its job but what it is warned of, and takes no warning away;
/// without a wiggle it changes nothing at all. Under a feed rate it is warned of the load
/// that was worked out for it.
pub proof fn law_a_path_leaves_its_job_alone(
    s: Setup,
    t: Setup,
    c: Course,
    load: Option<Load>,
    straight_mm: Double,
    ratio: Double,
    r: Result<(Script, Emitted), PathError>,
)
    requires
        c.wf(),
        is_streamed(s, t, c, load, straight_mm, ratio, r),
    ensures
        t == (Setup { warnings: t.warnings, ..s }),
        t.warnings.len() >= s.warnings.len(),
        t.warnings.take(s.warnings.len() as int) == s.warnings,
        c.o.wiggle <= 0 ==> t == s && r is Ok,
        c.o.wiggle > 0 && c.speed is MmPerSec && load is Some ==> t.warnings == s.warnings
            + load_notice(s.limits, load->0),
        c.o.wiggle > 0 && c.speed is MmPerSec && load is None ==> t == s,
        c.speed is Micros && r is Ok ==> (match c.first_load(c.lit.len() as int) {
            Some(l) => t.warnings == s.warnings + load_notice(s.limits, l),
            None => t == s,
        }),
{
    let n = c.lit.len() as int;
    assert(t.warnings.take(s.warnings.len() as int) =~= s.warnings);
    law_the_first_load_is_warned_of(c, n, 0);
    if c.o.wiggle <= 0 {
        assert(r is Ok);
    }
    if r is Ok {
        match c.first_load(n) {
            Some(l) => {
                if c.speed is Micros {
                    assert(t.warnings =~= s.warnings + load_notice(s.limits, l));
                }
            },
            None => {
                if c.speed is Micros {
                    assert(t.warnings =~= s.warnings);
                }
            },
        }
    }
    if c.o.wiggle <= 0 || (c.speed is MmPerSec && load is None) {
        assert(t.warnings =~= s.warnings);
    }
    if c.o.wiggle > 0 && c.speed is MmPerSec && load is Some {
        assert(t.warnings =~= s.warnings + load_notice(s.limits, load->0));
    }
}

/// The load that is warned of is that of the first wiggled segment that has one.
pub proof fn law_the_first_load_is_warned_of(c: Course, n: int, i: int)
    requires
        c.wf(),
        0 <= n <= c.lit.len(),
    ensures
        c.o.wiggle <= 0 ==> c.first_load(n) is None,
        c.first_load(n) is None ==> (0 <= i < n && c.lit[i] && c.o.wiggle > 0 ==> c.legs[i].load
            is None),
        c.first_load(n) is Some ==> exists|k: int|
            {
                &&& 0 <= k < n && c.lit[k] && c.o.wiggle > 0
                &&& (#[trigger] c.legs[k]).load == c.first_load(n)
                &&& 0 <= i < k && c.lit[i] ==> c.legs[i].load is None
            },
    decreases n,
{
    if n > 0 {
        law_the_first_load_is_warned_of(c, n - 1, i);
        if c.first_load(n) is Some {
            if c.first_load(n - 1) is Some {
                let k = choose|k: int|
                    {
                        &&& 0 <= k < n - 1 && c.lit[k] && c.o.wiggle > 0
                        &&& (#[trigger] c.legs[k]).load == c.first_load(n - 1)
                        &&& 0 <= i < k && c.lit[i] ==> c.legs[i].load is None
                    };
                assert(c.legs[k].load == c.first_load(n));
            } else {
                assert(c.legs[n - 1].load == c.first_load(n));
            }
        }
    }
}

/// A path is streamed only where every point that it traces can be reached; else it is
/// refused with the first that cannot, and nothing before that one is out of reach.
pub proof fn law_a_path_that_strays_is_refused(
    s: Setup,
    t: Setup,
    c: Course,
    load: Option<Load>,
    straight_mm: Double,
    ratio: Double,
    r: Result<(Script, Emitted), PathError>,
    i: int,
    k: int,
)
    requires
        c.wf(),
        is_streamed(s, t, c, load, straight_mm, ratio, r),
        0 <= i < c.lit.len(),
        0 <= k < c.legs[i].curve@.len(),
    ensures
        r is Ok && c.lit[i] && c.o.wiggle > 0 ==> reachable(c.legs[i].curve@[k]) || (k
            == c.legs[i].curve@.len() - 1 && (i + 1 == c.lit.len() || !c.lit[i + 1])),
        r matches Err(e) ==> e is WiggleOutOfField && c.o.wiggle > 0 && !reachable(
            (e->WiggleOutOfField_x, e->WiggleOutOfField_y),
        ) && exists|j: int, m: int|
            {
                &&& 0 <= j < c.lit.len() && c.lit[j]
                &&& 0 <= m < c.legs[j].curve@.len()
                &&& (#[trigger] c.legs[j].curve@[m]) == (
                    e->WiggleOutOfField_x,
                    e->WiggleOutOfField_y,
                )
                &&& i < j && c.lit[i] ==> reachable(c.legs[i].curve@[k]) || (k
                    == c.legs[i].curve@.len() - 1 && !c.lit[i + 1])
                &&& i == j && k < m ==> reachable(c.legs[i].curve@[k])
            },
{
    match r {
        Ok(_) => {
            if c.lit[i] && c.o.wiggle > 0 {
                assert(!c.strays(i));
                assert(in_field(c.chain(i)[k]));
            }
        },
        Err(e) => {
            let (j, m) = choose|j: int, m: int|
                {
                    &&& 0 <= j < c.lit.len()
                    &&& forall|q: int| 0 <= q < j ==> !(#[trigger] c.strays(q))
                    &&& c.lit[j] && c.wiggles()
                    &&& #[trigger] c.first_stray(j, m)
                    &&& e == PathError::WiggleOutOfField { x: c.chain(j)[m].0, y: c.chain(j)[m].1 }
                };
            assert(c.first_stray(j, m));
            assert(!in_field(c.chain(j)[m]));
            let end = c.pts[j + 1];
            assert(in_field((end.0 as i64, end.1 as i64)));
            assert(c.chain(j)[m] == c.legs[j].curve@[m]);
            if i < j && c.lit[i] {
                assert(!c.strays(i));
                assert(in_field(c.chain(i)[k]));
            }
            if i == j && k < m {
                assert(in_field(c.chain(j)[k]));
                assert(c.chain(j)[k] == c.legs[j].curve@[k]);
            }
        },
    }
}

/// What a segment of a surveyed path is asked for. Under a feed rate its time is that
/// between its two points.
pub proof fn law_a_segment_is_timed_end_to_end<
    L: Fn(Point, Point, i64, bool) -> (i64, i64),
    M: Fn(Point, Point) -> Option<i64>,
    C: Fn(usize) -> Vec<(i64, i64)>,
    T: Fn(usize, &Vec<(i64, i64)>) -> (Vec<Option<i64>>, Option<Load>),
>(c: Course, lead: L, feed: M, curve: C, times: T, i: int)
    requires
        is_survey(c, lead, feed, curve, times),
        0 <= i < c.lit.len(),
    ensures
        c.speed is MmPerSec ==> call_ensures(feed, (c.pts[i], c.pts[i + 1]), c.legs[i].feed_us),
        c.speed is Micros ==> c.legs[i].feed_us is None,
{
    assert(is_surveyed(c, i, lead, feed, curve, times, c.legs[i]));
}

/// A lit run has a run-up where one is asked for, at its first segment and behind its last
/// and nowhere else. It is where the line leads, no longer than asked, and one count more
/// would leave the field; one without a length is at the point itself. Under a feed rate
/// its time is that of the way it goes.
pub proof fn law_a_lit_run_has_its_run_ups<
    L: Fn(Point, Point, i64, bool) -> (i64, i64),
    M: Fn(Point, Point) -> Option<i64>,
    C: Fn(usize) -> Vec<(i64, i64)>,
    T: Fn(usize, &Vec<(i64, i64)>) -> (Vec<Option<i64>>, Option<Load>),
>(c: Course, lead: L, feed: M, curve: C, times: T, i: int)
    requires
        is_survey(c, lead, feed, curve, times),
        0 <= i < c.lit.len(),
    ensures
        ({
            let (a, b) = (c.pts[i], c.pts[i + 1]);
            let asked = c.o.overshoot;
            let first = c.lit[i] && (i == 0 || !c.lit[i - 1]);
            let last = c.lit[i] && (i + 1 == c.lit.len() || !c.lit[i + 1]);
            &&& c.legs[i].lead_in is Some <==> first && asked > 0
            &&& c.legs[i].lead_out is Some <==> last && asked > 0
            &&& c.legs[i].lead_in matches Some(l) ==> {
                &&& 0 <= l.counts <= asked
                &&& l.counts == 0 ==> l.at == a
                &&& l.counts > 0 ==> call_ensures(
                    lead,
                    (a, b, l.counts, true),
                    (l.at.0 as i64, l.at.1 as i64),
                )
                &&& l.counts < asked ==> exists|p: (i64, i64)|
                    #[trigger] call_ensures(lead, (a, b, (l.counts + 1) as i64, true), p)
                        && !reachable(p)
                &&& c.speed is MmPerSec ==> call_ensures(feed, (l.at, a), l.us)
                &&& c.speed is Micros ==> l.us is None
            }
            &&& c.legs[i].lead_out matches Some(l) ==> {
                &&& 0 <= l.counts <= asked
                &&& l.counts == 0 ==> l.at == b
                &&& l.counts > 0 ==> call_ensures(
                    lead,
                    (a, b, l.counts, false),
                    (l.at.0 as i64, l.at.1 as i64),
                )
                &&& l.counts < asked ==> exists|p: (i64, i64)|
                    #[trigger] call_ensures(lead, (a, b, (l.counts + 1) as i64, false), p)
                        && !reachable(p)
                &&& c.speed is MmPerSec ==> call_ensures(feed, (b, l.at), l.us)
                &&& c.speed is Micros ==> l.us is None
            }
        }),
{
    assert(is_surveyed(c, i, lead, feed, curve, times, c.legs[i]));
    let (a, b) = (c.pts[i], c.pts[i + 1]);
    let asked = c.o.overshoot as int;
    match c.legs[i].lead_in {
        Some(l) => {
            lemma_one_more_leaves(lead, a, b, asked, true, l.at, l.counts);
        },
        None => {},
    }
    match c.legs[i].lead_out {
        Some(l) => {
            lemma_one_more_leaves(lead, a, b, asked, false, l.at, l.counts);
        },
        None => {},
    }
}

proof fn lemma_one_more_leaves<L: Fn(Point, Point, i64, bool) -> (i64, i64)>(
    lead: L,
    a: Point,
    b: Point,
    asked: int,
    at_start: bool,
    at: Point,
    counts: i64,
)
    requires
        fits(lead, a, b, asked, at_start, at, counts as int),
        asked <= i64::MAX,
    ensures
        counts < asked ==> exists|p: (i64, i64)|
            #[trigger] call_ensures(lead, (a, b, (counts + 1) as i64, at_start), p)
                && !reachable(p),
{
    if counts < asked {
        let p = choose|p: (i64, i64)| #[trigger]
            leads_to(lead, a, b, at_start, counts + 1, p) && !in_field(p);
        assert(call_ensures(lead, (a, b, (counts + 1) as i64, at_start), p) && !reachable(p));
    }
}

/// A wiggled segment traces the points that were worked out for it, with the last of a lit
/// run moved onto the end of the segment, and is timed along those; any other traces none.
pub proof fn law_a_wiggle_is_traced_as_worked_out<
    L: Fn(Point, Point, i64, bool) -> (i64, i64),
    M: Fn(Point, Point) -> Option<i64>,
    C: Fn(usize) -> Vec<(i64, i64)>,
    T: Fn(usize, &Vec<(i64, i64)>) -> (Vec<Option<i64>>, Option<Load>),
>(c: Course, lead: L, feed: M, curve: C, times: T, i: int)
    requires
        is_survey(c, lead, feed, curve, times),
        0 <= i < c.lit.len(),
    ensures
        ({
            let leg = c.legs[i];
            let end = (c.pts[i + 1].0 as i64, c.pts[i + 1].1 as i64);
            let last = i + 1 == c.lit.len() || !c.lit[i + 1];
            &&& !c.lit[i] || c.o.wiggle <= 0 ==> leg.curve@.len() == 0 && leg.curve_us@.len() == 0
                && leg.load is None
            &&& c.lit[i] && c.o.wiggle > 0 ==> exists|k: usize, v: Vec<(i64, i64)>|
                {
                    &&& k == i && #[trigger] call_ensures(curve, (k,), v)
                    &&& call_ensures(times, (k, &leg.curve), (leg.curve_us, leg.load))
                    &&& v@.len() == 0 ==> leg.curve@ == seq![end]
                    &&& v@.len() > 0 ==> leg.curve@.len() == v@.len()
                    &&& forall|m: int| 0 <= m < v@.len() - 1 ==> leg.curve@[m] == #[trigger] v@[m]
                    &&& v@.len() > 0 && last ==> leg.curve@.last() == end
                    &&& v@.len() > 0 && !last ==> leg.curve@.last() == v@.last()
                }
        }),
{
    let leg = c.legs[i];
    let b = c.pts[i + 1];
    assert(is_surveyed(c, i, lead, feed, curve, times, leg));
    if c.lit[i] && c.o.wiggle > 0 {
        let (k, v) = choose|k: usize, v: Vec<(i64, i64)>|
            {
                &&& k == i
                &&& #[trigger] call_ensures(curve, (k,), v)
                &&& leg.curve@ == traced(v@, b, c.ends_run(i))
                &&& call_ensures(times, (k, &leg.curve), (leg.curve_us, leg.load))
            };
        assert(call_ensures(curve, (k,), v));
    }
}

/// A path is surveyed as it stands and then streamed, with the two lengths of that survey
/// in their order.
pub proof fn law_a_path_is_surveyed_and_streamed<
    L: Fn(Point, Point, i64, bool) -> (i64, i64),
    M: Fn(Point, Point) -> Option<i64>,
    C: Fn(usize) -> Vec<(i64, i64)>,
    T: Fn(usize, &Vec<(i64, i64)>) -> (Vec<Option<i64>>, Option<Load>),
    X: Fn(&Vec<Leg>) -> (Double, Double),
>(
    s: Setup,
    t: Setup,
    p: Course,
    lead: L,
    feed: M,
    curve: C,
    times: T,
    load: Option<Load>,
    lengths: X,
    r: Result<(Script, Emitted), PathError>,
    straight_mm: Double,
    ratio: Double,
)
    requires
        is_path(s, t, p, lead, feed, curve, times, load, lengths, r),
        forall|legs: Vec<Leg>, mm: (Double, Double)| #[trigger]
            call_ensures(lengths, (&legs,), mm) ==> mm == (straight_mm, ratio),
    ensures
        r matches Ok((script, e)) ==> {
            &&& 0 < straight_mm.bits <= 0x7FF0_0000_0000_0000 ==> e.exposure == ratio
            &&& straight_mm.bits == 0 || straight_mm.bits > 0x7FF0_0000_0000_0000
                ==> e.exposure.bits == 0x3FF0_0000_0000_0000
            &&& exists|c: Course|
                {
                    &&& #[trigger] is_survey(c, lead, feed, curve, times)
                    &&& c.pts == p.pts && c.lit == p.lit && c.speed == p.speed && c.o == p.o
                    &&& join(batches_of(script@)) == flat(c.vectors(p.lit.len() as int))
                }
        },
        t == (Setup { warnings: t.warnings, ..s }),
        p.o.wiggle <= 0 ==> t == s && r is Ok,
{
    let (legs, mm) = choose|legs: Vec<Leg>, mm: (Double, Double)|
        {
            let c = Course { legs: legs@, ..p };
            &&& is_survey(c, lead, feed, curve, times)
            &&& #[trigger] call_ensures(lengths, (&legs,), mm)
            &&& is_streamed(s, t, c, load, mm.0, mm.1, r)
        };
    let c = Course { legs: legs@, ..p };
    assert(mm == (straight_mm, ratio));
    law_a_path_leaves_its_job_alone(s, t, c, load, mm.0, mm.1, r);
    if r is Ok {
        law_what_is_reported_of_a_path(s, t, c, load, mm.0, mm.1, r);
        assert(is_survey(c, lead, feed, curve, times));
    }
}

/// Disjoint segments are a path through their ends in order, lit along each segment and
/// dark from one to the next.
pub proof fn law_segments_are_lit_and_joined_in_the_dark(
    segs: Seq<(Point, Point)>,
    speed: Speed,
    o: PathOpts,
    j: int,
)
    requires
        0 <= j < segs.len(),
    ensures
        ({
            let c = segment_course(segs, speed, o);
            &&& c.pts.len() == 2 * segs.len() && c.lit.len() == 2 * segs.len() - 1
            &&& c.pts[2 * j] == segs[j].0 && c.pts[2 * j + 1] == segs[j].1
            &&& c.lit[2 * j]
            &&& j + 1 < segs.len() ==> !c.lit[2 * j + 1]
            &&& c.speed == speed && c.o == o
        }),
{
    assert((2 * j) / 2 == j && (2 * j + 1) / 2 == j);
}

/// A segment is lit exactly where it is in one of the lit runs, and each of them ends where
/// the light does.
pub proof fn law_lit_runs_cover_what_is_lit(
    lit: Seq<bool>,
    runs: Seq<(usize, usize)>,
    i: int,
    k: int,
)
    requires
        are_runs(lit, runs),
        0 <= i < lit.len(),
    ensures
        lit[i] <==> exists|m: int| 0 <= m < runs.len() && (#[trigger] runs[m]).0 <= i < runs[m].1,
        0 <= k < runs.len() ==> {
            let (a, b) = runs[k];
            &&& a < b && b <= lit.len()
            &&& a > 0 ==> !lit[a - 1]
            &&& b < lit.len() ==> !lit[b as int]
        },
        0 <= k < runs.len() - 1 ==> runs[k].1 < runs[k + 1].0,
{
    if exists|m: int| 0 <= m < runs.len() && (#[trigger] runs[m]).0 <= i < runs[m].1 {
        let m = choose|m: int| 0 <= m < runs.len() && (#[trigger] runs[m]).0 <= i < runs[m].1;
        assert(lit[i]);
    }
    if 0 <= k < runs.len() - 1 {
        assert(runs[k].1 < runs[k + 1].0);
    }
}

} // verus!
