//! What holds of every path: when the laser is on, where it starts and stops,
//! where the dwell goes, how much run-up is granted.

use crate::pace::whole;
use crate::protocol::{field_at, fields, frame, law_parse_reads_what_cmd_wrote, CMD_JUMP, CMD_MARK};
use crate::stream::{
    at_least_one, entry, jump, mark, straight_us, traced_us, Course, Load, Point, Vector,
};
use crate::survey::{is_survey, is_surveyed};
use vstd::prelude::*;

verus! {

/// The opcode of a vector.
pub open spec fn opcode(v: Vector) -> u16 {
    field_at(v.0, 0)
}

/// Where a vector ends.
pub open spec fn target(v: Vector) -> Point {
    (field_at(v.0, 2), field_at(v.0, 3))
}

/// The dwell at the end of a vector.
pub open spec fn dwell(v: Vector) -> u16 {
    field_at(v.0, 5)
}

/// The duration that a vector carries.
pub open spec fn duration(v: Vector) -> u16 {
    field_at(v.0, 1)
}

/// How many vectors are lit.
pub open spec fn lit_count(v: Seq<Vector>) -> int
    decreases v.len(),
{
    if v.len() == 0 {
        0
    } else {
        lit_count(v.drop_last()) + if opcode(v.last()) == CMD_MARK {
            1int
        } else {
            0
        }
    }
}

/// What the fields of a vector say.
pub proof fn law_vectors_say_what_they_do(us: u16, p: Point, delay: u16)
    ensures
        opcode(jump(us, p, delay)) == CMD_JUMP,
        opcode(mark(us, p, delay)) == CMD_MARK,
        target(jump(us, p, delay)) == p,
        target(mark(us, p, delay)) == p,
        duration(jump(us, p, delay)) == us,
        duration(mark(us, p, delay)) == us,
        dwell(jump(us, p, delay)) == delay,
        dwell(mark(us, p, delay)) == delay,
        jump(us, p, delay).0.len() == 12,
        mark(us, p, delay).0.len() == 12,
        jump(us, p, delay).1 == us,
        mark(us, p, delay).1 == us,
{
    law_parse_reads_what_cmd_wrote(CMD_JUMP, us, p.0, p.1, 0, delay);
    law_parse_reads_what_cmd_wrote(CMD_MARK, us, p.0, p.1, 0, delay);
    let f = fields(frame(CMD_JUMP, us, p.0, p.1, 0, delay));
    let g = fields(frame(CMD_MARK, us, p.0, p.1, 0, delay));
    assert(f[0] == CMD_JUMP && f[1] == us && f[2] == p.0 && f[3] == p.1 && f[5] == delay);
    assert(g[0] == CMD_MARK && g[1] == us && g[2] == p.0 && g[3] == p.1 && g[5] == delay);
}

proof fn lemma_count_add(a: Seq<Vector>, b: Seq<Vector>)
    ensures
        lit_count(a + b) == lit_count(a) + lit_count(b),
    decreases b.len(),
{
    if b.len() == 0 {
        assert(a + b =~= a);
    } else {
        assert((a + b).drop_last() =~= a + b.drop_last());
        lemma_count_add(a, b.drop_last());
    }
}

proof fn lemma_count_none(v: Seq<Vector>)
    requires
        forall|i: int| 0 <= i < v.len() ==> opcode(#[trigger] v[i]) == CMD_JUMP,
    ensures
        lit_count(v) == 0,
    decreases v.len(),
{
    if v.len() > 0 {
        let d = v.drop_last();
        assert forall|i: int| 0 <= i < d.len() implies opcode(#[trigger] d[i]) == CMD_JUMP by {
            assert(d[i] == v[i]);
        }
        lemma_count_none(d);
        assert(opcode(v[v.len() - 1]) == CMD_JUMP);
    }
}

proof fn lemma_count_all(v: Seq<Vector>)
    requires
        forall|i: int| 0 <= i < v.len() ==> opcode(#[trigger] v[i]) == CMD_MARK,
    ensures
        lit_count(v) == v.len(),
    decreases v.len(),
{
    if v.len() > 0 {
        let d = v.drop_last();
        assert forall|i: int| 0 <= i < d.len() implies opcode(#[trigger] d[i]) == CMD_MARK by {
            assert(d[i] == v[i]);
        }
        lemma_count_all(d);
        assert(opcode(v[v.len() - 1]) == CMD_MARK);
    }
}

/// How many lit vectors segment `i` owes: none where it is dark, one where it is
/// straight, one per traced point where it wiggles.
pub open spec fn lit_owed(c: Course, i: int) -> int {
    if !c.lit[i] {
        0
    } else if c.wiggles() {
        c.chain(i).len() as int
    } else {
        1
    }
}

/// The lit vectors that the first `n` segments owe.
pub open spec fn lit_owed_by(c: Course, n: int) -> int
    decreases n,
{
    if n <= 0 {
        0
    } else {
        lit_owed_by(c, n - 1) + lit_owed(c, n - 1)
    }
}

/// The vectors that approach a segment and leave it are dark.
pub proof fn law_run_up_is_dark(c: Course, i: int)
    requires
        c.wf(),
        0 <= i < c.lit.len(),
    ensures
        forall|k: int| 0 <= k < c.approach(i).len() ==> opcode(#[trigger] c.approach(i)[k])
            == CMD_JUMP,
        forall|k: int| 0 <= k < c.run_out(i).len() ==> opcode(#[trigger] c.run_out(i)[k])
            == CMD_JUMP,
{
    assert forall|k: int| 0 <= k < c.approach(i).len() implies opcode(#[trigger] c.approach(i)[k])
        == CMD_JUMP by {
        let l = c.lead_in(i);
        if c.starts_run(i) && c.runs_up() {
            if k == 0 {
                assert(c.approach(i)[k] == jump(c.o.jump_speed, l.at, c.o.jump_delay));
                law_vectors_say_what_they_do(c.o.jump_speed, l.at, c.o.jump_delay);
            } else {
                assert(c.approach(i)[k] == jump(straight_us(c.speed, l.us), c.pts[i], 0));
                law_vectors_say_what_they_do(straight_us(c.speed, l.us), c.pts[i], 0);
            }
        } else {
            assert(c.approach(i)[k] == jump(c.o.jump_speed, c.pts[i], c.o.jump_delay));
            law_vectors_say_what_they_do(c.o.jump_speed, c.pts[i], c.o.jump_delay);
        }
    }
    assert forall|k: int| 0 <= k < c.run_out(i).len() implies opcode(#[trigger] c.run_out(i)[k])
        == CMD_JUMP by {
        let m = c.lead_out(i);
        assert(c.run_out(i)[k] == jump(straight_us(c.speed, m.us), m.at, 0));
        law_vectors_say_what_they_do(straight_us(c.speed, m.us), m.at, 0);
    }
}

/// The laser is gated per segment: of the vectors of a segment, exactly its own
/// are lit, and a dark segment lights none.
pub proof fn law_the_laser_is_gated_per_segment(c: Course, i: int)
    requires
        c.wf(),
        0 <= i < c.lit.len(),
    ensures
        lit_count(c.segment(i)) == lit_owed(c, i),
        forall|k: int|
            0 <= k < c.body(i).len() ==> opcode(#[trigger] c.body(i)[k]) == if c.lit[i] {
                CMD_MARK
            } else {
                CMD_JUMP
            },
{
    law_run_up_is_dark(c, i);
    lemma_count_none(c.approach(i));
    lemma_count_none(c.run_out(i));
    let b = c.body(i);
    assert forall|k: int| 0 <= k < b.len() implies opcode(#[trigger] b[k]) == if c.lit[i] {
        CMD_MARK
    } else {
        CMD_JUMP
    } by {
        lemma_body_vector(c, i, k);
    }
    if c.lit[i] {
        lemma_count_all(b);
    } else {
        lemma_count_none(b);
    }
    lemma_count_add(c.approach(i) + b, c.run_out(i));
    lemma_count_add(c.approach(i), b);
}

/// What vector `k` of a segment's own vectors says.
proof fn lemma_body_vector(c: Course, i: int, k: int)
    requires
        c.wf(),
        0 <= i < c.lit.len(),
        0 <= k < c.body(i).len(),
    ensures
        ({
            let v = c.body(i)[k];
            let last = k == c.body(i).len() - 1;
            &&& v.0.len() == 12
            &&& v.1 >= 0
            &&& opcode(v) == if c.lit[i] {
                CMD_MARK
            } else {
                CMD_JUMP
            }
            &&& c.lit[i] && c.wiggles() ==> {
                &&& c.body(i).len() == c.chain(i).len()
                &&& target(v) == (c.chain(i)[k].0 as u16, c.chain(i)[k].1 as u16)
                &&& dwell(v) == if last && c.ends_run(i) {
                    c.o.delay
                } else {
                    0
                }
            }
            &&& !(c.lit[i] && c.wiggles()) ==> {
                &&& c.body(i).len() == 1
                &&& target(v) == c.pts[i + 1]
            }
            &&& c.lit[i] && !c.wiggles() ==> dwell(v) == if c.ends_run(i) {
                c.o.delay
            } else {
                c.o.corner_delay
            }
        }),
{
    let leg = c.legs[i];
    if c.lit[i] && c.wiggles() {
        let n = c.chain(i).len() as int;
        let us = traced_us(c.speed, entry(leg.curve_us@, k));
        let p = (c.chain(i)[k].0 as u16, c.chain(i)[k].1 as u16);
        let d: u16 = if k == n - 1 && c.ends_run(i) {
            c.o.delay
        } else {
            0
        };
        assert(c.body(i)[k] == mark(us, p, d));
        law_vectors_say_what_they_do(us, p, d);
    } else if c.lit[i] {
        let d: u16 = if c.ends_run(i) {
            c.o.delay
        } else {
            c.o.corner_delay
        };
        law_vectors_say_what_they_do(straight_us(c.speed, leg.feed_us), c.pts[i + 1], d);
    } else if c.o.unlit_at_feed {
        law_vectors_say_what_they_do(straight_us(c.speed, leg.feed_us), c.pts[i + 1], 0);
    } else {
        law_vectors_say_what_they_do(
            at_least_one(c.o.jump_speed),
            c.pts[i + 1],
            c.o.jump_delay,
        );
    }
}

/// Over a whole path, as many vectors are lit as its lit segments owe.
pub proof fn law_a_path_lights_what_its_segments_owe(c: Course, n: int)
    requires
        c.wf(),
        0 <= n <= c.lit.len(),
    ensures
        lit_count(c.vectors(n)) == lit_owed_by(c, n),
    decreases n,
{
    if n > 0 {
        law_a_path_lights_what_its_segments_owe(c, n - 1);
        law_the_laser_is_gated_per_segment(c, n - 1);
        lemma_count_add(c.vectors(n - 1), c.segment(n - 1));
    }
}

/// The dwell goes on the vector that ends a lit run and nowhere else inside a
/// wiggle; at the interior vertices of a plain run goes the corner delay.
pub proof fn law_dwell_lands_where_a_lit_run_ends(c: Course, i: int, k: int)
    requires
        c.wf(),
        0 <= i < c.lit.len(),
        c.lit[i],
        0 <= k < c.body(i).len(),
    ensures
        dwell(c.body(i)[k]) == if k == c.body(i).len() - 1 && c.ends_run(i) {
            c.o.delay
        } else if c.wiggles() {
            0
        } else {
            c.o.corner_delay
        },
{
    lemma_body_vector(c, i, k);
}

/// A lit run ends exactly on its last point, wiggled or not.
pub proof fn law_a_lit_run_ends_on_its_point(c: Course, i: int)
    requires
        c.wf(),
        0 <= i < c.lit.len(),
        c.ends_run(i),
    ensures
        c.body(i).len() > 0,
        target(c.body(i).last()) == c.pts[i + 1],
{
    let n = c.body(i).len() as int;
    let end = c.pts[i + 1];
    if c.wiggles() {
        assert(c.chain(i).len() > 0);
        assert(c.chain(i).last() == (end.0 as i64, end.1 as i64));
    }
    lemma_body_vector(c, i, n - 1);
}

/// A dark segment is a traverse: unless asked otherwise it takes the jump speed
/// and the jump delay, whatever the marking rate is.
pub proof fn law_dark_segments_run_at_jump_speed(c: Course, i: int)
    requires
        c.wf(),
        0 <= i < c.lit.len(),
        !c.lit[i],
    ensures
        c.body(i).len() == 1,
        target(c.body(i)[0]) == c.pts[i + 1],
        !c.o.unlit_at_feed ==> duration(c.body(i)[0]) == at_least_one(c.o.jump_speed) && dwell(
            c.body(i)[0],
        ) == c.o.jump_delay,
        c.o.unlit_at_feed ==> duration(c.body(i)[0]) == straight_us(c.speed, c.legs[i].feed_us)
            && dwell(c.body(i)[0]) == 0,
{
    lemma_body_vector(c, i, 0);
    law_vectors_say_what_they_do(
        straight_us(c.speed, c.legs[i].feed_us),
        c.pts[i + 1],
        0,
    );
    law_vectors_say_what_they_do(at_least_one(c.o.jump_speed), c.pts[i + 1], c.o.jump_delay);
}

/// No run-up is ever longer than asked, and what is reported is granted at every
/// end of every lit run.
pub proof fn law_granted_run_up_is_what_every_end_got(c: Course, n: int, i: int)
    requires
        c.wf(),
        0 <= i < n <= c.lit.len(),
        c.runs_up(),
    ensures
        c.granted(n) <= c.o.overshoot,
        c.starts_run(i) ==> c.granted(n) <= c.lead_in(i).counts,
        c.ends_run(i) ==> c.granted(n) <= c.lead_out(i).counts,
    decreases n,
{
    lemma_granted_asked(c, n - 1);
    if i < n - 1 {
        law_granted_run_up_is_what_every_end_got(c, n - 1, i);
    }
}

proof fn lemma_granted_asked(c: Course, n: int)
    requires
        c.runs_up(),
    ensures
        c.granted(n) <= c.o.overshoot,
    decreases n,
{
    if n > 0 {
        lemma_granted_asked(c, n - 1);
    }
}

/// A run-up without any length starts where the segment does.
pub open spec fn leads_sound(c: Course) -> bool {
    forall|i: int|
        0 <= i < c.lit.len() ==> (#[trigger] c.lead_in(i)).counts <= 0 ==> c.lead_in(i).at
            == c.pts[i]
}

/// Every vector of a path is one whole command, a jump or a mark.
pub proof fn law_a_path_is_jumps_and_marks(c: Course, n: int)
    requires
        c.wf(),
        0 <= n <= c.lit.len(),
    ensures
        whole(c.vectors(n)),
        forall|k: int|
            0 <= k < c.vectors(n).len() ==> opcode(#[trigger] c.vectors(n)[k]) == CMD_JUMP
                || opcode(c.vectors(n)[k]) == CMD_MARK,
    decreases n,
{
    if n > 0 {
        let i = n - 1;
        law_a_path_is_jumps_and_marks(c, i);
        let l = c.lead_in(i);
        let m = c.lead_out(i);
        law_vectors_say_what_they_do(c.o.jump_speed, l.at, c.o.jump_delay);
        law_vectors_say_what_they_do(straight_us(c.speed, l.us), c.pts[i], 0);
        law_vectors_say_what_they_do(c.o.jump_speed, c.pts[i], c.o.jump_delay);
        law_vectors_say_what_they_do(straight_us(c.speed, m.us), m.at, 0);
        let v = c.vectors(n);
        let (a, b, o) = (c.approach(i), c.body(i), c.run_out(i));
        let base = c.vectors(i).len() as int;
        assert forall|k: int| 0 <= k < v.len() implies (#[trigger] v[k]).0.len() == 12 && v[k].1
            >= 0 && (opcode(v[k]) == CMD_JUMP || opcode(v[k]) == CMD_MARK) by {
            if k < base {
                assert(v[k] == c.vectors(i)[k]);
            } else if k < base + a.len() {
                assert(v[k] == a[k - base]);
            } else if k < base + a.len() + b.len() {
                assert(v[k] == b[k - base - a.len()]);
                lemma_body_vector(c, i, k - base - a.len());
            } else {
                assert(v[k] == o[k - base - a.len() - b.len()]);
            }
        }
    }
}

/// The mirrors are where a segment starts before the segment runs: at the start
/// of every lit run, and on a path without a wiggle at the start of every segment.
pub proof fn law_a_segment_starts_on_its_point(c: Course, i: int)
    requires
        c.wf(),
        leads_sound(c),
        0 <= i < c.lit.len(),
        c.starts_run(i) || !c.wiggles(),
    ensures
        (c.vectors(i) + c.approach(i)).len() > 0,
        target((c.vectors(i) + c.approach(i)).last()) == c.pts[i],
{
    let l = c.lead_in(i);
    law_vectors_say_what_they_do(c.o.jump_speed, l.at, c.o.jump_delay);
    law_vectors_say_what_they_do(straight_us(c.speed, l.us), c.pts[i], 0);
    law_vectors_say_what_they_do(c.o.jump_speed, c.pts[i], c.o.jump_delay);
    let v = c.vectors(i) + c.approach(i);
    if c.approach(i).len() > 0 {
        assert(v.last() == c.approach(i).last());
    } else {
        assert(i > 0);
        let j = i - 1;
        let m = c.lead_out(j);
        law_vectors_say_what_they_do(straight_us(c.speed, m.us), m.at, 0);
        let n = c.body(j).len() as int;
        assert(n > 0);
        lemma_body_vector(c, j, n - 1);
        assert(v =~= c.vectors(i));
        assert(c.vectors(i) == c.vectors(j) + c.segment(j));
        if c.runs_out(j) {
            assert(c.vectors(i).last() == c.run_out(j).last());
        } else {
            assert(c.vectors(i).last() == c.body(j).last());
        }
    }
}

/// The run-ups of a surveyed path are between nothing and what was asked, and
/// one of no length starts where its segment does.
pub proof fn law_surveyed_run_ups_are_sound<
    L: Fn(Point, Point, i64, bool) -> (i64, i64),
    M: Fn(Point, Point) -> Option<i64>,
    C: Fn(usize) -> Vec<(i64, i64)>,
    T: Fn(usize, &Vec<(i64, i64)>) -> (Vec<Option<i64>>, Option<Load>),
>(c: Course, lead: L, feed: M, curve: C, times: T)
    requires
        is_survey(c, lead, feed, curve, times),
        c.runs_up(),
    ensures
        leads_sound(c),
        forall|i: int|
            #![trigger c.lead_in(i)]
            #![trigger c.lead_out(i)]
            0 <= i < c.lit.len() ==> 0 <= c.lead_in(i).counts <= c.o.overshoot && 0 <= c.lead_out(
                i,
            ).counts <= c.o.overshoot,
        0 <= c.granted(c.lit.len() as int),
{
    assert forall|i: int|
        #![trigger c.lead_in(i)]
        #![trigger c.lead_out(i)]
        0 <= i < c.lit.len() implies 0 <= c.lead_in(i).counts <= c.o.overshoot && 0
        <= c.lead_out(i).counts <= c.o.overshoot && (c.lead_in(i).counts <= 0 ==> c.lead_in(i).at
        == c.pts[i]) by {
        assert(is_surveyed(c, i, lead, feed, curve, times, c.legs[i]));
    }
    lemma_granted_not_negative(c, c.lit.len() as int);
}

proof fn lemma_granted_not_negative(c: Course, n: int)
    requires
        c.runs_up(),
        n <= c.lit.len(),
        forall|i: int|
            #![trigger c.lead_in(i)]
            #![trigger c.lead_out(i)]
            0 <= i < c.lit.len() ==> 0 <= c.lead_in(i).counts && 0 <= c.lead_out(i).counts,
    ensures
        0 <= c.granted(n),
    decreases n,
{
    if n > 0 {
        lemma_granted_not_negative(c, n - 1);
        assert(0 <= c.lead_in(n - 1).counts && 0 <= c.lead_out(n - 1).counts);
    }
}

} // verus!
