//! What a stream comes to, told from its inputs: one vector for each thing asked for,
//! where it goes, how long it takes, and how long the host waits behind it.

use crate::pace::{
    flat, join, law_a_batch_splits_into_its_vectors, law_batches_carry_every_vector, next_batch,
    pause_ns, paced, saturated, total_us, whole,
};
use crate::script::{batches_of, Deed};
use crate::stream::{
    at_least_one, dot_vectors, entry, flags, in_field, jump, line_vectors, mark, refusal,
    straight_us, traced_us, Course, PathError, PathOpts, Point, Speed, Vector, MAX_SEGS, PACE_NS,
    SEG_MIN_US, SEG_TIME_US,
};
use crate::wire_laws::{law_a_vector_in_words, words};
use vstd::prelude::*;

verus! {

// ---- batches and pauses -----------------------------------------------------

/// Every vector is one command and is counted for the microseconds that it carries.
pub open spec fn counted(v: Seq<Vector>) -> bool {
    forall|i: int|
        0 <= i < v.len() ==> (#[trigger] v[i]).0.len() == 12 && v[i].1 == words(v[i].0, 0)[1]
}

/// The sum of Param0 over the first `n` commands of a batch.
pub open spec fn param_sum(b: Seq<u8>, n: int) -> int
    decreases n,
{
    if n <= 0 {
        0
    } else {
        param_sum(b, n - 1) + words(b, n - 1)[1]
    }
}

proof fn lemma_counted_whole(v: Seq<Vector>)
    requires
        counted(v),
    ensures
        whole(v),
        forall|i: int| 0 <= i < v.len() ==> 0 <= (#[trigger] v[i]).1 <= 0xFFFF,
{
    assert forall|i: int| 0 <= i < v.len() implies (#[trigger] v[i]).0.len() == 12 && 0 <= v[i].1
        <= 0xFFFF by {
        assert(v[i].1 == words(v[i].0, 0)[1]);
    }
}

proof fn lemma_flat_words(v: Seq<Vector>, k: int)
    requires
        whole(v),
        0 <= k < v.len(),
    ensures
        flat(v).len() == 12 * v.len(),
        words(flat(v), k) == words(v[k].0, 0),
{
    law_a_batch_splits_into_its_vectors(v, k);
    let c = flat(v).subrange(12 * k, 12 * k + 12);
    assert(c == v[k].0);
    assert(words(flat(v), k) =~= words(c, 0)) by {
        assert forall|i: int| 0 <= i < 6 implies words(flat(v), k)[i] == words(c, 0)[i] by {
            assert(c[2 * i] == flat(v)[12 * k + 2 * i]);
            assert(c[2 * i + 1] == flat(v)[12 * k + 2 * i + 1]);
        }
    }
}

/// The microseconds that vectors are counted for are those that their commands carry.
pub proof fn law_time_is_the_sum_of_what_is_carried(v: Seq<Vector>)
    requires
        counted(v),
    ensures
        total_us(v) == param_sum(flat(v), v.len() as int),
        0 <= total_us(v) <= 0xFFFF * v.len(),
        total_us(v) <= u64::MAX ==> saturated(total_us(v)) == total_us(v),
    decreases v.len(),
{
    if v.len() > 0 {
        let d = v.drop_last();
        assert(counted(d)) by {
            assert forall|i: int| 0 <= i < d.len() implies (#[trigger] d[i]).0.len() == 12
                && d[i].1 == words(d[i].0, 0)[1] by {
                assert(d[i] == v[i]);
            }
        }
        law_time_is_the_sum_of_what_is_carried(d);
        lemma_counted_whole(v);
        lemma_counted_whole(d);
        lemma_flat_words(v, v.len() - 1);
        lemma_same_sum(v, d.len() as int);
        assert(v[v.len() - 1] == v.last());
    }
}

/// The sum over a prefix does not look behind it.
proof fn lemma_same_sum(v: Seq<Vector>, n: int)
    requires
        whole(v),
        v.len() > 0,
        0 <= n <= v.drop_last().len(),
    ensures
        param_sum(flat(v), n) == param_sum(flat(v.drop_last()), n),
    decreases n,
{
    if n > 0 {
        let d = v.drop_last();
        assert(whole(d)) by {
            assert forall|i: int| 0 <= i < d.len() implies (#[trigger] d[i]).0.len() == 12
                && d[i].1 >= 0 by {
                assert(d[i] == v[i]);
            }
        }
        lemma_same_sum(v, n - 1);
        lemma_flat_words(v, n - 1);
        lemma_flat_words(d, n - 1);
        assert(d[n - 1] == v[n - 1]);
    }
}

/// What goes out on EP 0x02 is the vectors, one command each, in order.
pub proof fn law_commands_go_out_in_order(v: Seq<Vector>, floor_us: int, i: int)
    requires
        counted(v),
        0 <= i < v.len(),
    ensures
        join(batches_of(paced(v, floor_us))).len() == 12 * v.len(),
        words(join(batches_of(paced(v, floor_us))), i) == words(v[i].0, 0),
{
    lemma_counted_whole(v);
    law_batches_carry_every_vector(v, floor_us);
    lemma_flat_words(v, i);
}

/// A stream is a batch and a pause, again and again. A batch is 1 to 1400 commands, and
/// only the last is short. The pause behind it is 92 hundredths of the time that the
/// batch takes: the sum of what its commands carry, or the floor for each of them where
/// that is more.
pub proof fn law_a_pause_follows_the_work(v: Seq<Vector>, floor_us: int, j: int)
    requires
        counted(v),
        0 <= floor_us <= 0x10000,
        0 <= 2 * j < paced(v, floor_us).len(),
    ensures
        ({
            let s = paced(v, floor_us);
            &&& s.len() % 2 == 0
            &&& s[2 * j] is Data && s[2 * j + 1] is Pause
            &&& ({
                let b = s[2 * j]->Data_0;
                let ns = s[2 * j + 1]->Pause_0;
                let n = b.len() as int / 12;
                let us = param_sum(b, n);
                &&& b.len() == 12 * n && 1 <= n <= 1400
                &&& 2 * j + 2 < s.len() ==> n == 1400
                &&& ns >= 920 * us && ns >= 920 * floor_us * n
                &&& ns == 920 * us || ns == 920 * floor_us * n
            })
        }),
    decreases v.len(),
{
    if v.len() > 0 {
        let n = next_batch(v.len());
        let c = v.take(n);
        let rest = v.skip(n);
        assert(counted(c)) by {
            assert forall|i: int| 0 <= i < c.len() implies (#[trigger] c[i]).0.len() == 12
                && c[i].1 == words(c[i].0, 0)[1] by {
                assert(c[i] == v[i]);
            }
        }
        assert(counted(rest)) by {
            assert forall|i: int| 0 <= i < rest.len() implies (#[trigger] rest[i]).0.len() == 12
                && rest[i].1 == words(rest[i].0, 0)[1] by {
                assert(rest[i] == v[n + i]);
            }
        }
        let s = paced(v, floor_us);
        let tail = paced(rest, floor_us);
        assert(s.len() == tail.len() + 2);
        lemma_even(rest, floor_us);
        law_time_is_the_sum_of_what_is_carried(c);
        lemma_counted_whole(c);
        lemma_flat_words(c, 0);
        if j == 0 {
            assert(s[0] == Deed::Data(flat(c)));
            assert(s[1] == Deed::Pause(pause_ns(c, floor_us) as u64));
            let m = if total_us(c) > floor_us * c.len() {
                total_us(c)
            } else {
                floor_us * c.len()
            };
            assert(floor_us * c.len() <= 0x10000 * 1400) by (nonlinear_arith)
                requires
                    0 <= floor_us <= 0x10000,
                    c.len() <= 1400,
            ;
            assert(0xFFFF * c.len() <= 0xFFFF * 1400);
            assert(0 <= floor_us * c.len()) by (nonlinear_arith)
                requires
                    0 <= floor_us,
            ;
            assert(pause_ns(c, floor_us) == 920 * m);
            assert(920 * floor_us * c.len() == 920 * (floor_us * c.len())) by (nonlinear_arith);
            if s.len() > 2 {
                assert(rest.len() > 0);
            }
        } else {
            law_a_pause_follows_the_work(rest, floor_us, j - 1);
            assert(s[2 * j] == tail[2 * (j - 1)]);
            assert(s[2 * j + 1] == tail[2 * (j - 1) + 1]);
        }
    }
}

proof fn lemma_even(v: Seq<Vector>, floor_us: int)
    ensures
        paced(v, floor_us).len() % 2 == 0,
    decreases v.len(),
{
    if v.len() > 0 {
        lemma_even(v.skip(next_batch(v.len())), floor_us);
    }
}

// ---- lines and dots ---------------------------------------------------------

/// Lines light one vector for each point, in order, each ending on its own point, with
/// the duration and the dwell that were asked for.
pub proof fn law_lines_mark_every_point(points: Seq<Point>, us: u16, delay: u16, i: int)
    requires
        0 <= i < points.len(),
    ensures
        line_vectors(points, us, delay).len() == points.len(),
        words(line_vectors(points, us, delay)[i].0, 0) == seq![
            0x0243int,
            us as int,
            points[i].0 as int,
            points[i].1 as int,
            0,
            delay as int,
        ],
        counted(line_vectors(points, us, delay)),
{
    let v = line_vectors(points, us, delay);
    assert forall|k: int| 0 <= k < v.len() implies (#[trigger] v[k]).0.len() == 12 && v[k].1
        == words(v[k].0, 0)[1] by {
        law_a_vector_in_words(us, points[k], delay);
        assert(v[k] == mark(us, points[k], delay));
    }
    law_a_vector_in_words(us, points[i], delay);
    assert(v[i] == mark(us, points[i], delay));
}

/// On the wire: command `i` of what lines send marks point `i`, there are as many as
/// points, and the host waits 920 ns behind each microsecond of them, counting at least
/// 830 microseconds for each.
pub proof fn law_lines_on_the_wire(points: Seq<Point>, us: u16, delay: u16, i: int, j: int)
    requires
        0 <= i < points.len(),
        0 <= 2 * j < paced(line_vectors(points, us, delay), SEG_TIME_US as int).len(),
    ensures
        ({
            let s = paced(line_vectors(points, us, delay), SEG_TIME_US as int);
            let sent = join(batches_of(s));
            &&& sent.len() == 12 * points.len()
            &&& words(sent, i) == seq![
                0x0243int,
                us as int,
                points[i].0 as int,
                points[i].1 as int,
                0,
                delay as int,
            ]
            &&& s[2 * j] is Data && s[2 * j + 1] is Pause
            &&& us <= 830 ==> s[2 * j + 1]->Pause_0 == 920 * 830 * (s[2 * j]->Data_0.len() as int
                / 12)
            &&& us >= 830 ==> s[2 * j + 1]->Pause_0 == 920 * us * (s[2 * j]->Data_0.len() as int
                / 12)
        }),
{
    let v = line_vectors(points, us, delay);
    let s = paced(v, SEG_TIME_US as int);
    law_lines_mark_every_point(points, us, delay, i);
    law_commands_go_out_in_order(v, SEG_TIME_US as int, i);
    law_a_pause_follows_the_work(v, SEG_TIME_US as int, j);
    lemma_even_sum(points, us, delay, j);
    let b = s[2 * j]->Data_0;
    let n = b.len() as int / 12;
    assert(920 * us * n == 920 * (us * n)) by (nonlinear_arith);
    assert(us <= 830 ==> us * n <= 830 * n) by (nonlinear_arith)
        requires
            n >= 0,
    ;
    assert(us >= 830 ==> us * n >= 830 * n) by (nonlinear_arith)
        requires
            n >= 0,
    ;
}

/// Every command of a batch of lines carries the same duration.
proof fn lemma_even_sum(points: Seq<Point>, us: u16, delay: u16, j: int)
    requires
        0 <= 2 * j < paced(line_vectors(points, us, delay), SEG_TIME_US as int).len(),
    ensures
        ({
            let s = paced(line_vectors(points, us, delay), SEG_TIME_US as int);
            let b = s[2 * j]->Data_0;
            s[2 * j] is Data && param_sum(b, b.len() as int / 12) == us * (b.len() as int / 12)
        }),
    decreases points.len(),
{
    let v = line_vectors(points, us, delay);
    let n = next_batch(v.len());
    let s = paced(v, SEG_TIME_US as int);
    if points.len() > 0 {
        let c = v.take(n);
        let head = points.take(n);
        assert(c =~= line_vectors(head, us, delay));
        assert(v.skip(n) =~= line_vectors(points.skip(n), us, delay));
        if j == 0 {
            assert(s[0] == Deed::Data(flat(c)));
            law_lines_mark_every_point(head, us, delay, 0);
            lemma_counted_whole(c);
            lemma_flat_words(c, 0);
            lemma_constant_sum(head, us, delay, n);
        } else {
            lemma_even_sum(points.skip(n), us, delay, j - 1);
            let tail = paced(v.skip(n), SEG_TIME_US as int);
            assert(s[2 * j] == tail[2 * (j - 1)]);
        }
    }
}

proof fn lemma_constant_sum(points: Seq<Point>, us: u16, delay: u16, n: int)
    requires
        0 <= n <= points.len(),
    ensures
        param_sum(flat(line_vectors(points, us, delay)), n) == us * n,
    decreases n,
{
    if n > 0 {
        let v = line_vectors(points, us, delay);
        lemma_constant_sum(points, us, delay, n - 1);
        law_lines_mark_every_point(points, us, delay, n - 1);
        lemma_counted_whole(v);
        lemma_flat_words(v, n - 1);
        assert(words(flat(v), n - 1)[1] == us);
        assert(us * (n - 1) + us == us * n) by (nonlinear_arith);
    } else {
        assert(us * n == 0) by (nonlinear_arith)
            requires
                n == 0,
        ;
    }
}

/// Dots jump to each point, in order, and light a vector there that goes nowhere and
/// takes the dwell.
pub proof fn law_dots_light_every_point(points: Seq<Point>, dwell_us: u16, o: PathOpts, i: int)
    requires
        0 <= i < points.len(),
    ensures
        ({
            let v = dot_vectors(points, dwell_us, o);
            &&& v.len() == 2 * points.len()
            &&& counted(v)
            &&& words(v[2 * i].0, 0) == seq![
                0x0241int,
                o.jump_speed as int,
                points[i].0 as int,
                points[i].1 as int,
                0,
                o.jump_delay as int,
            ]
            &&& words(v[2 * i + 1].0, 0) == seq![
                0x0243int,
                if dwell_us == 0 {
                    1
                } else {
                    dwell_us as int
                },
                points[i].0 as int,
                points[i].1 as int,
                0,
                0,
            ]
        }),
{
    let v = dot_vectors(points, dwell_us, o);
    let d: u16 = if dwell_us == 0 {
        1
    } else {
        dwell_us
    };
    assert forall|k: int| 0 <= k < v.len() implies (#[trigger] v[k]).0.len() == 12 && v[k].1
        == words(v[k].0, 0)[1] by {
        law_a_vector_in_words(o.jump_speed, points[k / 2], o.jump_delay);
        law_a_vector_in_words(d, points[k / 2], 0);
        assert(v[k] == if k % 2 == 0 {
            jump(o.jump_speed, points[k / 2], o.jump_delay)
        } else {
            mark(d, points[k / 2], 0)
        });
    }
    law_a_vector_in_words(o.jump_speed, points[i], o.jump_delay);
    law_a_vector_in_words(d, points[i], 0);
    assert(v[2 * i] == jump(o.jump_speed, points[i], o.jump_delay));
    assert(v[2 * i + 1] == mark(d, points[i], 0));
}

// ---- paths ------------------------------------------------------------------

/// A path is its segments, one behind the other: nothing goes ahead of the first,
/// between two of them or behind the last.
pub proof fn law_a_path_is_its_segments_in_order(c: Course, n: int, i: int)
    requires
        0 <= i < n,
    ensures
        c.vectors(0).len() == 0,
        c.vectors(i).len() <= c.vectors(i + 1).len() <= c.vectors(n).len(),
        c.vectors(n).subrange(c.vectors(i).len() as int, c.vectors(i + 1).len() as int)
            == c.segment(i),
        c.segment(i) == c.approach(i) + c.body(i) + c.run_out(i),
    decreases n,
{
    let v = c.vectors(n);
    assert(v == c.vectors(n - 1) + c.segment(n - 1));
    if i == n - 1 {
        assert(v.subrange(c.vectors(i).len() as int, v.len() as int) =~= c.segment(i));
    } else {
        law_a_path_is_its_segments_in_order(c, n - 1, i);
        let w = c.vectors(n - 1);
        let (a, b) = (c.vectors(i).len() as int, c.vectors(i + 1).len() as int);
        assert(v.subrange(a, b) =~= w.subrange(a, b));
    }
}

/// A lit segment without a wiggle is one mark to its end. It takes the raw duration, or
/// the microseconds that the feed rate comes to, held between 1 and 65535. The end of a
/// lit run has the dwell, any other vertex the corner delay.
pub proof fn law_a_lit_segment_is_one_mark(c: Course, i: int)
    requires
        c.wf(),
        0 <= i < c.lit.len(),
        c.lit[i],
        c.o.wiggle <= 0,
    ensures
        ({
            let v = c.body(i)[0];
            let f = words(v.0, 0);
            let last = i + 1 == c.lit.len() || !c.lit[i + 1];
            &&& c.body(i).len() == 1
            &&& v.0.len() == 12 && v.1 == f[1]
            &&& f[0] == 0x0243 && f[2] == c.pts[i + 1].0 && f[3] == c.pts[i + 1].1 && f[4] == 0
            &&& last ==> f[5] == c.o.delay
            &&& !last ==> f[5] == c.o.corner_delay
            &&& c.speed matches Speed::Micros(us) ==> f[1] == if us == 0 {
                1
            } else {
                us as int
            }
            &&& c.speed is MmPerSec ==> match c.legs[i].feed_us {
                Some(v) => {
                    &&& 1 <= v <= 65535 ==> f[1] == v
                    &&& v < 1 ==> f[1] == 1
                    &&& v > 65535 ==> f[1] == 65535
                },
                None => f[1] == 0,
            }
        }),
{
    let end = c.pts[i + 1];
    let d = if c.ends_run(i) {
        c.o.delay
    } else {
        c.o.corner_delay
    };
    law_a_vector_in_words(straight_us(c.speed, c.legs[i].feed_us), end, d);
    assert(c.body(i)[0] == mark(straight_us(c.speed, c.legs[i].feed_us), end, d));
}

/// A dark segment is one jump to its end: at the jump speed with the jump delay, or, where
/// that is asked for, at the marking rate without a dwell.
pub proof fn law_a_dark_segment_is_one_jump(c: Course, i: int)
    requires
        c.wf(),
        0 <= i < c.lit.len(),
        !c.lit[i],
    ensures
        ({
            let v = c.body(i)[0];
            let f = words(v.0, 0);
            &&& c.body(i).len() == 1
            &&& v.0.len() == 12 && v.1 == f[1]
            &&& f[0] == 0x0241 && f[2] == c.pts[i + 1].0 && f[3] == c.pts[i + 1].1 && f[4] == 0
            &&& !c.o.unlit_at_feed ==> f[5] == c.o.jump_delay && f[1] == if c.o.jump_speed == 0 {
                1
            } else {
                c.o.jump_speed as int
            }
            &&& c.o.unlit_at_feed ==> f[5] == 0
            &&& c.o.unlit_at_feed ==> match c.speed {
                Speed::Micros(us) => f[1] == if us == 0 {
                    1
                } else {
                    us as int
                },
                Speed::MmPerSec(_) => match c.legs[i].feed_us {
                    Some(v) => {
                        &&& 1 <= v <= 65535 ==> f[1] == v
                        &&& v < 1 ==> f[1] == 1
                        &&& v > 65535 ==> f[1] == 65535
                    },
                    None => f[1] == 0,
                },
            }
        }),
{
    let end = c.pts[i + 1];
    law_a_vector_in_words(straight_us(c.speed, c.legs[i].feed_us), end, 0);
    law_a_vector_in_words(at_least_one(c.o.jump_speed), end, c.o.jump_delay);
}

/// A wiggled segment is one mark for each point that it traces, in order: through the
/// points that were worked out, the last of a lit run on the end of the segment. Each
/// takes the microseconds that were worked out for it, held between 1 and 65535, so that
/// the whole is run at the rate that was asked for. Only the end of a lit run has a dwell.
pub proof fn law_a_wiggled_segment_follows_its_points(c: Course, i: int, k: int)
    requires
        c.wf(),
        0 <= i < c.lit.len(),
        c.lit[i],
        c.o.wiggle > 0,
        !c.strays(i),
        0 <= k < c.body(i).len(),
    ensures
        ({
            let leg = c.legs[i];
            let n = leg.curve@.len() as int;
            let end = c.pts[i + 1];
            let last = i + 1 == c.lit.len() || !c.lit[i + 1];
            let v = c.body(i)[k];
            let f = words(v.0, 0);
            &&& c.body(i).len() == if n == 0 {
                1
            } else {
                n
            }
            &&& v.0.len() == 12 && v.1 == f[1]
            &&& f[0] == 0x0243 && f[4] == 0
            &&& n == 0 || (last && k == n - 1) ==> f[2] == end.0 && f[3] == end.1
            &&& n > 0 && !(last && k == n - 1) ==> f[2] == leg.curve@[k].0 && f[3]
                == leg.curve@[k].1
            &&& k < leg.curve_us@.len() && leg.curve_us@[k] is Some ==> ({
                let us = leg.curve_us@[k]->0;
                &&& 1 <= us <= 65535 ==> f[1] == us
                &&& us < 1 ==> f[1] == 1
                &&& us > 65535 ==> f[1] == 65535
            })
            &&& k >= leg.curve_us@.len() || leg.curve_us@[k] is None ==> f[1]
                == if c.speed is Micros {
                1int
            } else {
                0
            }
            &&& f[5] == if last && k == c.body(i).len() - 1 {
                c.o.delay as int
            } else {
                0
            }
        }),
{
    let leg = c.legs[i];
    let chain = c.chain(i);
    let p = (chain[k].0 as u16, chain[k].1 as u16);
    assert(in_field(chain[k]));
    let d: u16 = if k == chain.len() - 1 && c.ends_run(i) {
        c.o.delay
    } else {
        0
    };
    let us = traced_us(c.speed, entry(leg.curve_us@, k));
    law_a_vector_in_words(us, p, d);
    assert(c.body(i)[k] == mark(us, p, d));
    assert(p.0 == chain[k].0 && p.1 == chain[k].1);
}

/// Before a lit run with a run-up the mirrors jump to the start of the run-up, and, where
/// it has any length, cross it dark at the marking rate onto the first point. Before any
/// other segment they jump to its first point, unless they are there already.
pub proof fn law_a_segment_is_approached_in_the_dark(c: Course, i: int, k: int)
    requires
        c.wf(),
        0 <= i < c.lit.len(),
        0 <= k < c.approach(i).len(),
    ensures
        ({
            let first = c.lit[i] && (i == 0 || !c.lit[i - 1]);
            let v = c.approach(i)[k];
            let f = words(v.0, 0);
            let a = c.approach(i);
            &&& v.0.len() == 12 && v.1 == f[1]
            &&& f[0] == 0x0241 && f[4] == 0
            &&& k == 0 ==> f[1] == c.o.jump_speed && f[5] == c.o.jump_delay
            &&& !(first && c.o.overshoot > 0) ==> a.len() == 1 && f[2] == c.pts[i].0 && f[3]
                == c.pts[i].1
            &&& first && c.o.overshoot > 0 ==> match c.legs[i].lead_in {
                Some(l) => {
                    &&& a.len() == if l.counts > 0 {
                        2int
                    } else {
                        1
                    }
                    &&& k == 0 ==> f[2] == l.at.0 && f[3] == l.at.1
                    &&& k == 1 ==> {
                        &&& f[2] == c.pts[i].0 && f[3] == c.pts[i].1 && f[5] == 0
                        &&& c.speed matches Speed::Micros(us) ==> f[1] == if us == 0 {
                            1
                        } else {
                            us as int
                        }
                        &&& c.speed is MmPerSec ==> match l.us {
                            Some(us) => {
                                &&& 1 <= us <= 65535 ==> f[1] == us
                                &&& us < 1 ==> f[1] == 1
                                &&& us > 65535 ==> f[1] == 65535
                            },
                            None => f[1] == 0,
                        }
                    }
                },
                None => a.len() == 1 && f[2] == c.pts[i].0 && f[3] == c.pts[i].1,
            }
        }),
{
    let l = c.lead_in(i);
    law_a_vector_in_words(c.o.jump_speed, l.at, c.o.jump_delay);
    law_a_vector_in_words(straight_us(c.speed, l.us), c.pts[i], 0);
    law_a_vector_in_words(c.o.jump_speed, c.pts[i], c.o.jump_delay);
}

/// When a segment is approached at all: the first of a path always, the first of a lit run
/// with a run-up always, and any other where the one before it was left by a run-out that
/// does not end on this one's first point.
pub proof fn law_no_segment_starts_from_elsewhere(c: Course, i: int)
    requires
        c.wf(),
        0 <= i < c.lit.len(),
    ensures
        i == 0 ==> c.approach(i).len() > 0,
        c.lit[i] && (i == 0 || !c.lit[i - 1]) && c.o.overshoot > 0 ==> c.approach(i).len() > 0,
        i > 0 && c.run_out(i - 1).len() == 0 && !(c.lit[i] && !c.lit[i - 1] && c.o.overshoot > 0)
            ==> c.approach(i).len() == 0,
        i > 0 && c.run_out(i - 1).len() > 0 && !(c.lit[i] && !c.lit[i - 1] && c.o.overshoot > 0)
            ==> (c.approach(i).len() == 0 <==> c.legs[i - 1].lead_out->0.at == c.pts[i]),
{
}

/// A lit run is left by one dark vector at the marking rate, over the run-out that fits,
/// and only where a run-up was asked for and has any length.
pub proof fn law_a_lit_run_is_left_in_the_dark(c: Course, i: int)
    requires
        c.wf(),
        0 <= i < c.lit.len(),
    ensures
        ({
            let last = c.lit[i] && (i + 1 == c.lit.len() || !c.lit[i + 1]);
            let l = c.legs[i].lead_out;
            let r = c.run_out(i);
            &&& r.len() == if last && c.o.overshoot > 0 && l is Some && l->0.counts > 0 {
                1int
            } else {
                0
            }
            &&& r.len() == 1 ==> ({
                let f = words(r[0].0, 0);
                &&& r[0].0.len() == 12 && r[0].1 == f[1]
                &&& f[0] == 0x0241 && f[2] == l->0.at.0 && f[3] == l->0.at.1 && f[4] == 0 && f[5]
                    == 0
                &&& c.speed matches Speed::Micros(us) ==> f[1] == if us == 0 {
                    1
                } else {
                    us as int
                }
                &&& c.speed is MmPerSec ==> match l->0.us {
                    Some(us) => {
                        &&& 1 <= us <= 65535 ==> f[1] == us
                        &&& us < 1 ==> f[1] == 1
                        &&& us > 65535 ==> f[1] == 65535
                    },
                    None => f[1] == 0,
                }
            })
        }),
{
    let l = c.lead_out(i);
    law_a_vector_in_words(straight_us(c.speed, l.us), l.at, 0);
}

/// A plain path is a jump to its first point and then one vector for each segment, to the
/// segment's end, lit where the segment is.
pub proof fn law_a_plain_path_visits_its_points(c: Course, n: int, i: int)
    requires
        c.wf(),
        c.o.wiggle <= 0,
        c.o.overshoot <= 0,
        0 <= i < n <= c.lit.len(),
    ensures
        ({
            let v = c.vectors(n);
            let first = words(v[0].0, 0);
            let f = words(v[i + 1].0, 0);
            &&& v.len() == n + 1
            &&& first == seq![
                0x0241int,
                c.o.jump_speed as int,
                c.pts[0].0 as int,
                c.pts[0].1 as int,
                0,
                c.o.jump_delay as int,
            ]
            &&& f[0] == if c.lit[i] {
                0x0243int
            } else {
                0x0241
            }
            &&& f[2] == c.pts[i + 1].0 && f[3] == c.pts[i + 1].1
            &&& v[i + 1] == c.body(i)[0]
        }),
    decreases n,
{
    let v = c.vectors(n);
    let k = n - 1;
    assert(v == c.vectors(k) + c.segment(k));
    assert(c.run_out(k) =~= Seq::<Vector>::empty());
    law_a_vector_in_words(c.o.jump_speed, c.pts[0], c.o.jump_delay);
    if c.lit[i] {
        law_a_lit_segment_is_one_mark(c, i);
    } else {
        law_a_dark_segment_is_one_jump(c, i);
    }
    if c.lit[k] {
        law_a_lit_segment_is_one_mark(c, k);
    } else {
        law_a_dark_segment_is_one_jump(c, k);
    }
    if k == 0 {
        assert(c.approach(0) =~= seq![jump(c.o.jump_speed, c.pts[0], c.o.jump_delay)]);
        assert(v =~= c.approach(0) + c.body(0));
        assert(v[0] == c.approach(0)[0]);
        assert(v[1] == c.body(0)[0]);
    } else {
        assert(c.approach(k) =~= Seq::<Vector>::empty());
        assert(c.segment(k) =~= c.body(k));
        let j = if i < k {
            i
        } else {
            0
        };
        law_a_plain_path_visits_its_points(c, k, j);
        assert(v[0] == c.vectors(k)[0]);
        if i < k {
            assert(v[i + 1] == c.vectors(k)[i + 1]);
        } else {
            assert(v[n] == c.body(k)[0]);
        }
    }
}

/// Every vector of a path is counted for the microseconds that it carries.
pub proof fn law_a_path_is_counted(c: Course, n: int)
    requires
        c.wf(),
        0 <= n <= c.lit.len(),
    ensures
        counted(c.vectors(n)),
    decreases n,
{
    if n > 0 {
        let i = n - 1;
        law_a_path_is_counted(c, i);
        let (a, b, o) = (c.approach(i), c.body(i), c.run_out(i));
        let v = c.vectors(n);
        let base = c.vectors(i).len() as int;
        assert forall|k: int| 0 <= k < v.len() implies (#[trigger] v[k]).0.len() == 12 && v[k].1
            == words(v[k].0, 0)[1] by {
            if k < base {
                assert(v[k] == c.vectors(i)[k]);
            } else if k < base + a.len() {
                law_a_segment_is_approached_in_the_dark(c, i, k - base);
                assert(v[k] == a[k - base]);
            } else if k < base + a.len() + b.len() {
                let j = k - base - a.len();
                assert(v[k] == b[j]);
                lemma_body_counted(c, i, j);
            } else {
                law_a_lit_run_is_left_in_the_dark(c, i);
                assert(v[k] == o[k - base - a.len() - b.len()]);
            }
        }
    }
}

proof fn lemma_body_counted(c: Course, i: int, k: int)
    requires
        c.wf(),
        0 <= i < c.lit.len(),
        0 <= k < c.body(i).len(),
    ensures
        c.body(i)[k].0.len() == 12,
        c.body(i)[k].1 == words(c.body(i)[k].0, 0)[1],
{
    if c.lit[i] && c.o.wiggle > 0 {
        let chain = c.chain(i);
        let p = (chain[k].0 as u16, chain[k].1 as u16);
        let d: u16 = if k == chain.len() - 1 && c.ends_run(i) {
            c.o.delay
        } else {
            0
        };
        let us = traced_us(c.speed, entry(c.legs[i].curve_us@, k));
        law_a_vector_in_words(us, p, d);
        assert(c.body(i)[k] == mark(us, p, d));
    } else if c.lit[i] {
        law_a_lit_segment_is_one_mark(c, i);
    } else {
        law_a_dark_segment_is_one_jump(c, i);
    }
}

/// The run-up that is reported is the shortest of those that were granted: none is
/// shorter, and it is the one that was asked for or one of them. Without one asked for it
/// is nothing.
pub proof fn law_the_shortest_run_up_is_reported(c: Course, n: int, i: int)
    requires
        c.wf(),
        0 <= n <= c.lit.len(),
    ensures
        c.o.overshoot <= 0 ==> c.granted(n) == 0,
        c.o.overshoot > 0 ==> c.granted(n) <= c.o.overshoot,
        c.o.overshoot > 0 && 0 <= i < n && c.lit[i] && (i == 0 || !c.lit[i - 1])
            && c.legs[i].lead_in is Some ==> c.granted(n) <= c.legs[i].lead_in->0.counts,
        c.o.overshoot > 0 && 0 <= i < n && c.lit[i] && (i + 1 == c.lit.len() || !c.lit[i + 1])
            && c.legs[i].lead_out is Some ==> c.granted(n) <= c.legs[i].lead_out->0.counts,
        c.o.overshoot > 0 ==> c.granted(n) == c.o.overshoot || exists|k: int|
            0 <= k < n && c.lit[k] && ((#[trigger] c.lead_in(k)).counts == c.granted(n)
                || c.lead_out(k).counts == c.granted(n)),
    decreases n,
{
    if n > 0 {
        law_the_shortest_run_up_is_reported(c, n - 1, i);
        let g = c.granted(n - 1);
        let k = n - 1;
        if c.o.overshoot > 0 {
            if c.granted(n) != g {
                assert(c.lit[k]);
                assert(c.lead_in(k).counts == c.granted(n) || c.lead_out(k).counts == c.granted(
                    n,
                ));
            } else if g != c.o.overshoot {
                let m = choose|m: int|
                    0 <= m < n - 1 && c.lit[m] && ((#[trigger] c.lead_in(m)).counts == g
                        || c.lead_out(m).counts == g);
                assert(0 <= m < n && c.lit[m] && (c.lead_in(m).counts == c.granted(n)
                    || c.lead_out(m).counts == c.granted(n)));
            }
        }
    }
}

/// A path that is refused before its geometry is looked at: fewer than two points, a
/// number of flags other than one for each segment, a wiggle without a pitch or with
/// fewer than four points to the circle. Without flags every segment is lit.
pub proof fn law_what_a_path_is_refused_for(
    points: nat,
    lit: Option<Seq<bool>>,
    o: PathOpts,
    i: int,
)
    ensures
        refusal(points, lit, o) is None <==> {
            &&& points >= 2
            &&& lit matches Some(f) ==> f.len() == points - 1
            &&& o.wiggle > 0 ==> o.wiggle_pitch > 0 && o.wiggle_steps >= 4
        },
        points < 2 ==> refusal(points, lit, o) == Some(PathError::TooFewPoints),
        points >= 2 && lit is Some && lit->0.len() != points - 1 ==> refusal(points, lit, o)
            is Some && refusal(points, lit, o)->0 is FlagCount,
        points >= 2 && lit is None && o.wiggle > 0 && o.wiggle_pitch <= 0 ==> refusal(
            points,
            lit,
            o,
        ) == Some(PathError::NoPitch),
        points >= 2 && lit is None && o.wiggle > 0 && o.wiggle_pitch > 0 && o.wiggle_steps < 4
            ==> refusal(points, lit, o) == Some(PathError::TooFewSteps),
        lit matches Some(f) ==> flags(points, lit) == f,
        lit is None && points >= 1 ==> flags(points, lit).len() == points - 1,
        lit is None && 0 <= i < points - 1 ==> flags(points, lit)[i],
{
}

/// The limits that streams are cut and paced by.
pub proof fn law_the_pace_is_the_measured_one()
    ensures
        MAX_SEGS == 1400,
        SEG_TIME_US == 830,
        SEG_MIN_US == 30,
        PACE_NS == 920,
{
}

} // verus!
