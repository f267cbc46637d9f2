//! What holds of every job: which endpoint a command takes, what is left running,
//! what the settings can come to.

use crate::double::Double;
use crate::job::{
    abort_steps, arm_steps, armed_batch, asks, burst_vectors, carried_out, closing, configured,
    driving, headed, header_bytes, idle, is_percent, opened, owes, pulse_frame, pulsed,
    silence_bytes, silence_steps, silenced, tick_frame, tuned, type_frame, Setup, Wanted, Wave,
    FIFTY, HALF_POWER,
};
use crate::laser::{Laser, Power};
use crate::pace::{flat, law_a_batch_splits_into_its_vectors, next_batch, paced, whole};
use crate::path_laws::{law_a_path_is_jumps_and_marks, law_vectors_say_what_they_do, opcode};
use crate::protocol::{
    bare, fields, frame, law_parse_reads_what_cmd_wrote, law_power_frame_carries_the_settings,
    percent_byte, power_frame, Fields, PulseTicks, CMD_ANALOG, CMD_AXIS_COUNT, CMD_AXIS_GO,
    CMD_AXIS_P232, CMD_AXIS_RATE, CMD_CLEAR_CACHE, CMD_ENCRYPT_STATE, CMD_JUMP, CMD_LASER_GATE,
    CMD_LASER_TYPE, CMD_MARK, CMD_MOPA_PULSE, CMD_PORT_OUT, CMD_PORT_OUT_STATE, CMD_PORT_PULSE,
    CMD_PORT_SWITCH, CMD_POWER, CMD_RESET, CMD_RUN, CMD_STATUS, CMD_TICK, MOPA_SPI_HDR, MO_ENABLE,
};
use crate::script::Deed;
use crate::stream::{
    at_least_one, dot_vectors, line_vectors, mark, Course, PathOpts, Point, Vector, CENTRE,
};
use crate::unlock::{
    frame_steps, law_ep2_blob_is_a_jump_to_the_centre, replay, reset_steps, state_steps,
};
use crate::usb::Failure;
use vstd::prelude::*;

verus! {

// ---- the rule that matters ------------------------------------------------

/// A session or control command: its opcode is 0x01xx.
pub open spec fn is_control(c: Seq<u8>) -> bool {
    c.len() == 12 && c[0] == 1
}

/// A batch of job parameters and vectors: none of its commands is a control
/// command.
pub open spec fn is_job_batch(b: Seq<u8>) -> bool {
    b.len() % 12 == 0 && forall|k: int| 0 <= 12 * k < b.len() ==> #[trigger] b[12 * k] != 1
}

/// The step puts each command on the endpoint where it takes effect.
pub open spec fn is_routed(d: Deed) -> bool {
    match d {
        Deed::Ask(c) => is_control(c),
        Deed::Command(c) => is_control(c),
        Deed::Data(b) => is_job_batch(b),
        Deed::Offer(b) => is_job_batch(b),
        Deed::Silence(b) => is_job_batch(b),
        _ => true,
    }
}

/// Every step does.
pub open spec fn all_routed(s: Seq<Deed>) -> bool {
    forall|i: int| 0 <= i < s.len() ==> is_routed(#[trigger] s[i])
}

proof fn lemma_frame_batch(id: u16, p0: u16, p1: u16, p2: u16, p3: u16, p4: u16)
    requires
        id / 256 != 1,
    ensures
        frame(id, p0, p1, p2, p3, p4).len() == 12,
        is_job_batch(frame(id, p0, p1, p2, p3, p4)),
{
    reveal(frame);
    let b = frame(id, p0, p1, p2, p3, p4);
    assert(b[0] == id / 256);
    assert forall|k: int| 0 <= 12 * k < b.len() implies #[trigger] b[12 * k] != 1 by {
        assert(k == 0);
    }
}

proof fn lemma_control(id: u16, p0: u16, p1: u16, p2: u16, p3: u16, p4: u16)
    requires
        id / 256 == 1,
    ensures
        is_control(frame(id, p0, p1, p2, p3, p4)),
{
    reveal(frame);
}

proof fn lemma_batch_add(a: Seq<u8>, b: Seq<u8>)
    requires
        is_job_batch(a),
        is_job_batch(b),
    ensures
        is_job_batch(a + b),
{
    let c = a + b;
    assert forall|k: int| 0 <= 12 * k < c.len() implies #[trigger] c[12 * k] != 1 by {
        if 12 * k < a.len() {
            assert(c[12 * k] == a[12 * k]);
        } else {
            let j = k - a.len() / 12;
            assert(12 * j == 12 * k - a.len());
            assert(c[12 * k] == b[12 * j]);
        }
    }
}

proof fn lemma_power_batch(t: PulseTicks, byte: u8)
    ensures
        is_job_batch(power_frame(t, byte, 0)),
{
    let w = t.width as int % 0x10000;
    lemma_frame_batch(
        CMD_POWER,
        0,
        ((t.half_khz as int % 256) * 256 + (t.period / 256) % 256) as u16,
        ((t.period % 256) * 256 + w / 256) as u16,
        ((w % 256) * 256 + byte) as u16,
        0,
    );
}

proof fn lemma_type_batch(code: u8, pointer: u8, mo: bool)
    ensures
        is_job_batch(type_frame(code, pointer, mo)),
{
    lemma_frame_batch(
        CMD_LASER_TYPE,
        (code * 256 + pointer) as u16,
        if mo {
            MO_ENABLE
        } else {
            0
        },
        0,
        0,
        0,
    );
}

proof fn lemma_tick_batch(on: bool, w: Wave)
    ensures
        is_job_batch(tick_frame(on, w)),
{
    lemma_frame_batch(
        CMD_TICK,
        if on {
            0x0100
        } else {
            0
        },
        w.tick_period,
        w.tick_width,
        0,
        0,
    );
}

proof fn lemma_header_batch(s: Setup, w: Wave)
    ensures
        is_job_batch(header_bytes(s, w)),
{
    let a = type_frame(s.laser.code, 0, s.mo);
    lemma_type_batch(s.laser.code, 0, s.mo);
    let byte = if s.laser.power == Power::Byte {
        s.power_byte
    } else {
        percent_byte(w.pct_255)
    };
    lemma_power_batch(w.mark, byte);
    let b = power_frame(w.mark, byte, 0);
    let c = match s.mopa_pulse {
        Some(ns) => pulse_frame(ns),
        None => Seq::empty(),
    };
    match s.mopa_pulse {
        Some(ns) => {
            lemma_pulse_batch(ns);
        },
        None => {},
    }
    lemma_tick_batch(s.tickle, w);
    lemma_frame_batch(CMD_LASER_GATE, 0, 0, 0, 0, 0);
    lemma_batch_add(a, b);
    lemma_batch_add(a + b, c);
    lemma_batch_add(a + b + c, tick_frame(s.tickle, w));
    lemma_batch_add(a + b + c + tick_frame(s.tickle, w), bare(CMD_LASER_GATE));
}

proof fn lemma_pulse_batch(ns: u32)
    ensures
        is_job_batch(pulse_frame(ns)),
{
    lemma_frame_batch(
        CMD_MOPA_PULSE,
        MOPA_SPI_HDR,
        (ns % 0x10000) as u16,
        0,
        0,
        0,
    );
}

proof fn lemma_armed(b: Seq<u8>)
    requires
        is_job_batch(b),
    ensures
        all_routed(armed_batch(b)),
{
    let s = armed_batch(b);
    lemma_control(CMD_CLEAR_CACHE, 0, 0, 0, 0, 0);
    lemma_control(CMD_RESET, 0, 0, 0, 0, 0);
    lemma_control(CMD_RUN, 0, 0, 0, 0, 0);
    assert(s.len() == 4);
    assert forall|i: int| 0 <= i < s.len() implies is_routed(#[trigger] s[i]) by {
        if i == 3 {
            assert(s[3] == Deed::Data(b));
        } else {
            assert(s[i] == arm_steps()[i]);
        }
    }
}

/// Opening a job puts the parameter header and the jump in one batch on EP 0x02,
/// behind the control commands on EP 0x06.
pub proof fn law_begin_is_routed(s: Setup, w: Wave, start: Point, speed: u16)
    ensures
        all_routed(
            armed_batch(header_bytes(s, w) + frame(CMD_JUMP, speed, start.0, start.1, 0, 500)),
        ),
{
    lemma_header_batch(s, w);
    lemma_frame_batch(CMD_JUMP, speed, start.0, start.1, 0, 500);
    lemma_batch_add(header_bytes(s, w), frame(CMD_JUMP, speed, start.0, start.1, 0, 500));
    lemma_armed(header_bytes(s, w) + frame(CMD_JUMP, speed, start.0, start.1, 0, 500));
}

/// So do the commands that set the laser up outside a job.
pub proof fn law_laser_setup_is_routed(
    s: Setup,
    w: Wave,
    t: PulseTicks,
    ns: u32,
    value: u8,
    pointer: u8,
)
    ensures
        all_routed(armed_batch(header_bytes(s, w) + pulse_frame(ns))),
        all_routed(
            armed_batch(
                type_frame(s.laser.code, 0, false) + power_frame(idle(t), value, 0) + bare(
                    CMD_LASER_GATE,
                ),
            ),
        ),
        all_routed(
            armed_batch(
                type_frame(s.laser.code, pointer, false) + power_frame(
                    w.mark,
                    percent_byte(w.pct_255),
                    0,
                ) + tick_frame(s.tickle, w) + bare(CMD_LASER_GATE),
            ),
        ),
        all_routed(
            armed_batch(
                tick_frame(false, w) + frame(CMD_JUMP, 200, 0x4000, CENTRE, 0, 500),
            ) + seq![Deed::Pause(50_000_000), Deed::Ask(bare(CMD_RESET))],
        ),
{
    lemma_header_batch(s, w);
    lemma_pulse_batch(ns);
    lemma_batch_add(header_bytes(s, w), pulse_frame(ns));
    lemma_armed(header_bytes(s, w) + pulse_frame(ns));

    let a = type_frame(s.laser.code, 0, false);
    let b = power_frame(idle(t), value, 0);
    let g = bare(CMD_LASER_GATE);
    lemma_type_batch(s.laser.code, 0, false);
    lemma_power_batch(idle(t), value);
    lemma_frame_batch(CMD_LASER_GATE, 0, 0, 0, 0, 0);
    lemma_batch_add(a, b);
    lemma_batch_add(a + b, g);
    lemma_armed(a + b + g);

    let c = type_frame(s.laser.code, pointer, false);
    let d = power_frame(w.mark, percent_byte(w.pct_255), 0);
    lemma_type_batch(s.laser.code, pointer, false);
    lemma_power_batch(w.mark, percent_byte(w.pct_255));
    lemma_tick_batch(s.tickle, w);
    lemma_batch_add(c, d);
    lemma_batch_add(c + d, tick_frame(s.tickle, w));
    lemma_batch_add(c + d + tick_frame(s.tickle, w), g);
    lemma_armed(c + d + tick_frame(s.tickle, w) + g);

    let j = frame(CMD_JUMP, 200, 0x4000, CENTRE, 0, 500);
    lemma_tick_batch(false, w);
    lemma_frame_batch(CMD_JUMP, 200, 0x4000, CENTRE, 0, 500);
    lemma_batch_add(tick_frame(false, w), j);
    lemma_armed(tick_frame(false, w) + j);
    let off = armed_batch(tick_frame(false, w) + j);
    let tail = seq![Deed::Pause(50_000_000), Deed::Ask(bare(CMD_RESET))];
    lemma_control(CMD_RESET, 0, 0, 0, 0, 0);
    assert forall|i: int| 0 <= i < (off + tail).len() implies is_routed(
        #[trigger] (off + tail)[i],
    ) by {
        if i < off.len() {
            assert((off + tail)[i] == off[i]);
        } else {
            assert((off + tail)[i] == tail[i - off.len()]);
        }
    }
}

proof fn lemma_flat_batch(c: Seq<Vector>)
    requires
        whole(c),
        forall|i: int| 0 <= i < c.len() ==> opcode(#[trigger] c[i]) / 256 != 1,
    ensures
        is_job_batch(flat(c)),
{
    let b = flat(c);
    if c.len() == 0 {
        assert(b =~= Seq::<u8>::empty());
    } else {
        law_a_batch_splits_into_its_vectors(c, 0);
        assert forall|k: int| 0 <= 12 * k < b.len() implies #[trigger] b[12 * k] != 1 by {
            law_a_batch_splits_into_its_vectors(c, k);
            assert(b.subrange(12 * k, 12 * k + 12)[0] == b[12 * k]);
            assert(c[k].0[0] == b[12 * k]);
            assert(opcode(c[k]) / 256 != 1);
            assert(opcode(c[k]) == c[k].0[0] * 256 + c[k].0[1]);
        }
    }
}

/// Vectors travel in batches on EP 0x02 and nothing else goes with them.
pub proof fn law_vectors_are_routed(v: Seq<Vector>, floor_us: int)
    requires
        whole(v),
        forall|i: int| 0 <= i < v.len() ==> opcode(#[trigger] v[i]) / 256 != 1,
    ensures
        all_routed(paced(v, floor_us)),
    decreases v.len(),
{
    if v.len() > 0 {
        let n = next_batch(v.len());
        let c = v.take(n);
        let rest = v.skip(n);
        assert(whole(c)) by {
            assert forall|i: int| 0 <= i < c.len() implies (#[trigger] c[i]).0.len() == 12
                && c[i].1 >= 0 by {
                assert(v[i].0.len() == 12);
            }
        }
        assert(whole(rest)) by {
            assert forall|i: int| 0 <= i < rest.len() implies (#[trigger] rest[i]).0.len() == 12
                && rest[i].1 >= 0 by {
                assert(v[n + i].0.len() == 12);
            }
        }
        assert forall|i: int| 0 <= i < rest.len() implies opcode(#[trigger] rest[i]) / 256
            != 1 by {
            assert(opcode(v[n + i]) / 256 != 1);
        }
        law_vectors_are_routed(rest, floor_us);
        assert forall|i: int| 0 <= i < c.len() implies opcode(#[trigger] c[i]) / 256 != 1 by {
            assert(opcode(v[i]) / 256 != 1);
        }
        lemma_flat_batch(c);
        let p = paced(v, floor_us);
        let tail = paced(rest, floor_us);
        assert forall|i: int| 0 <= i < p.len() implies is_routed(#[trigger] p[i]) by {
            if i >= 2 {
                assert(p[i] == tail[i - 2]);
            }
        }
    }
}

/// A path, lines, dots and a burst are routed.
pub proof fn law_streams_are_routed(
    c: Course,
    points: Seq<Point>,
    us: u16,
    delay: u16,
    o: PathOpts,
    floor_us: int,
    size: int,
    span: Point,
)
    requires
        c.wf(),
        size >= 0,
    ensures
        all_routed(seq![Deed::Data(flat(burst_vectors(size, us, span)))]),
        all_routed(paced(c.vectors(c.lit.len() as int), floor_us)),
        all_routed(paced(line_vectors(points, us, delay), floor_us)),
        all_routed(paced(dot_vectors(points, us, o), floor_us)),
{
    let n = c.lit.len() as int;
    law_a_path_is_jumps_and_marks(c, n);
    let v = c.vectors(n);
    assert forall|i: int| 0 <= i < v.len() implies opcode(#[trigger] v[i]) / 256 != 1 by {
        assert(opcode(v[i]) == CMD_JUMP || opcode(v[i]) == CMD_MARK);
    }
    law_vectors_are_routed(v, floor_us);
    let l = line_vectors(points, us, delay);
    assert forall|i: int| 0 <= i < l.len() implies opcode(#[trigger] l[i]) / 256 != 1 && l[
        i].0.len() == 12 && l[i].1 >= 0 by {
        assert(l[i] == mark(us, points[i], delay));
        law_vectors_say_what_they_do(us, points[i], delay);
    }
    assert(whole(l));
    law_vectors_are_routed(l, floor_us);
    let d = dot_vectors(points, us, o);
    assert forall|i: int| 0 <= i < d.len() implies opcode(#[trigger] d[i]) / 256 != 1 && d[
        i].0.len() == 12 && d[i].1 >= 0 by {
        let p = points[i / 2];
        law_vectors_say_what_they_do(o.jump_speed, p, o.jump_delay);
        law_vectors_say_what_they_do(at_least_one(us), p, 0);
    }
    assert(whole(d));
    law_vectors_are_routed(d, floor_us);
    let m = burst_vectors(size, us, span);
    assert forall|i: int| 0 <= i < m.len() implies opcode(#[trigger] m[i]) / 256 != 1 && m[
        i].0.len() == 12 && m[i].1 >= 0 by {
        let x = if i % 2 == 0 {
            span.1
        } else {
            span.0
        };
        law_vectors_say_what_they_do(us, (x, CENTRE), 500);
    }
    assert(whole(m));
    lemma_flat_batch(m);
}

/// The stepper axis, the analog output and the ports are routed: the axis and the
/// analog word are job parameters, the output ports are set by control commands.
pub proof fn law_machine_outputs_are_routed(
    code: u8,
    t: PulseTicks,
    a: Fields,
    b: Fields,
    p232: u16,
    port: u16,
    value: u16,
    mark: bool,
)
    ensures
        all_routed(
            armed_batch(
                type_frame(code, 0, false) + power_frame(idle(t), HALF_POWER, 0) + bare(
                    CMD_LASER_GATE,
                ),
            ).push(
                Deed::Data(
                    frame(CMD_AXIS_COUNT, a[1], a[2], a[3], a[4], a[5]) + frame(
                        CMD_AXIS_RATE,
                        b[1],
                        b[2],
                        b[3],
                        b[4],
                        b[5],
                    ) + frame(CMD_AXIS_P232, p232, 0, 0, 0, 0) + bare(CMD_AXIS_GO),
                ),
            ),
        ),
        all_routed(
            armed_batch(
                type_frame(code, 0, false) + power_frame(idle(t), HALF_POWER, 0) + frame(
                    CMD_ANALOG,
                    value,
                    0,
                    0,
                    0,
                    0,
                ) + bare(CMD_LASER_GATE) + (if mark {
                    frame(CMD_JUMP, 200, 0x4000, CENTRE, 0, 500)
                } else {
                    Seq::empty()
                }),
            ),
        ),
        all_routed(seq![Deed::Data(frame(CMD_PORT_PULSE, a[1], a[2], a[3], a[4], a[5]))]),
        all_routed(armed_batch(frame(CMD_PORT_SWITCH, a[1], a[2], a[3], a[4], a[5]))),
        all_routed(asks(frame(CMD_PORT_OUT, port, value, 0, 0, 0))),
        all_routed(asks(bare(CMD_PORT_OUT_STATE))),
{
    let x = type_frame(code, 0, false);
    let y = power_frame(idle(t), HALF_POWER, 0);
    let g = bare(CMD_LASER_GATE);
    lemma_type_batch(code, 0, false);
    lemma_power_batch(idle(t), HALF_POWER);
    lemma_frame_batch(CMD_LASER_GATE, 0, 0, 0, 0, 0);
    lemma_batch_add(x, y);
    lemma_batch_add(x + y, g);
    lemma_armed(x + y + g);
    let c = frame(CMD_AXIS_COUNT, a[1], a[2], a[3], a[4], a[5]);
    let d = frame(CMD_AXIS_RATE, b[1], b[2], b[3], b[4], b[5]);
    let e = frame(CMD_AXIS_P232, p232, 0, 0, 0, 0);
    lemma_frame_batch(CMD_AXIS_COUNT, a[1], a[2], a[3], a[4], a[5]);
    lemma_frame_batch(CMD_AXIS_RATE, b[1], b[2], b[3], b[4], b[5]);
    lemma_frame_batch(CMD_AXIS_P232, p232, 0, 0, 0, 0);
    lemma_frame_batch(CMD_AXIS_GO, 0, 0, 0, 0, 0);
    lemma_batch_add(c, d);
    lemma_batch_add(c + d, e);
    lemma_batch_add(c + d + e, bare(CMD_AXIS_GO));
    let s = armed_batch(x + y + g);
    let axis = s.push(Deed::Data(c + d + e + bare(CMD_AXIS_GO)));
    assert forall|i: int| 0 <= i < axis.len() implies is_routed(#[trigger] axis[i]) by {
        if i < s.len() {
            assert(axis[i] == s[i]);
        }
    }
    let w = frame(CMD_ANALOG, value, 0, 0, 0, 0);
    lemma_frame_batch(CMD_ANALOG, value, 0, 0, 0, 0);
    lemma_frame_batch(CMD_JUMP, 200, 0x4000, CENTRE, 0, 500);
    lemma_batch_add(x + y, w);
    lemma_batch_add(x + y + w, g);
    let tail = if mark {
        frame(CMD_JUMP, 200, 0x4000, CENTRE, 0, 500)
    } else {
        Seq::empty()
    };
    lemma_batch_add(x + y + w + g, tail);
    lemma_armed(x + y + w + g + tail);
    lemma_frame_batch(CMD_PORT_PULSE, a[1], a[2], a[3], a[4], a[5]);
    lemma_frame_batch(CMD_PORT_SWITCH, a[1], a[2], a[3], a[4], a[5]);
    lemma_armed(frame(CMD_PORT_SWITCH, a[1], a[2], a[3], a[4], a[5]));
    lemma_control(CMD_PORT_OUT, port, value, 0, 0, 0);
    lemma_control(CMD_PORT_OUT_STATE, 0, 0, 0, 0, 0);
}

/// Silencing, aborting, closing, asking for the status and for the lock are routed
/// too. A guard that fires does what aborting does.
pub proof fn law_silence_is_routed(code: u8)
    ensures
        all_routed(silence_steps(code)),
        all_routed(abort_steps()),
        all_routed(asks(bare(CMD_RESET))),
        all_routed(asks(bare(CMD_STATUS))),
        all_routed(asks(bare(CMD_ENCRYPT_STATE))),
        all_routed(reset_steps()),
        all_routed(state_steps()),
{
    let a = type_frame(code, 0, false);
    lemma_type_batch(code, 0, false);
    lemma_frame_batch(CMD_POWER, 0, 0, 0, 0, 0);
    lemma_frame_batch(CMD_TICK, 0, 0, 0, 0, 0);
    lemma_frame_batch(CMD_LASER_GATE, 0, 0, 0, 0, 0);
    lemma_batch_add(a, bare(CMD_POWER));
    lemma_batch_add(a + bare(CMD_POWER), bare(CMD_TICK));
    lemma_batch_add(a + bare(CMD_POWER) + bare(CMD_TICK), bare(CMD_LASER_GATE));
    lemma_control(CMD_CLEAR_CACHE, 0, 0, 0, 0, 0);
    lemma_control(CMD_RESET, 0, 0, 0, 0, 0);
    lemma_control(CMD_RUN, 0, 0, 0, 0, 0);
    lemma_control(CMD_STATUS, 0, 0, 0, 0, 0);
    lemma_control(CMD_ENCRYPT_STATE, 0, 0, 0, 0, 0);
}

/// Replaying frames is routed: the only batch among them is a jump.
pub proof fn law_a_replay_is_routed(idx: Seq<usize>, ep2: bool)
    ensures
        all_routed(replay(idx, ep2)),
    decreases idx.len(),
{
    if idx.len() > 0 {
        let before = replay(idx.drop_last(), ep2);
        let steps = frame_steps(idx.last(), ep2);
        let all = replay(idx, ep2);
        law_a_replay_is_routed(idx.drop_last(), ep2);
        law_ep2_blob_is_a_jump_to_the_centre();
        lemma_frame_batch(CMD_JUMP, 0x2710, 0x8000, 0x8000, 0, 0x01F4);
        assert forall|i: int| 0 <= i < all.len() implies is_routed(#[trigger] all[i]) by {
            if i < before.len() {
                assert(all[i] == before[i]);
            } else {
                assert(all[i] == steps[i - before.len()]);
            }
        }
    }
}

// ---- safety ---------------------------------------------------------------

/// What silences the laser zeroes the marking generator, the tickle and the laser gate,
/// enables no amplifier, and does it before anything else: nothing arms the engine
/// with the old values loaded.
pub proof fn law_silence_zeroes_every_output_first(code: u8)
    ensures
        silence_steps(code)[0] == Deed::Silence(silence_bytes(code)),
        forall|i: int|
            0 <= i < silence_steps(code).len() ==> #[trigger] silence_steps(code)[i] != Deed::Ask(
                bare(CMD_RUN),
            ),
        silence_bytes(code).len() == 48,
        ({
            let b = silence_bytes(code);
            let t = fields(b.subrange(0, 12));
            &&& t == seq![CMD_LASER_TYPE, (code * 256) as u16, 0u16, 0, 0, 0]
            &&& fields(b.subrange(12, 24)) == seq![CMD_POWER, 0u16, 0, 0, 0, 0]
            &&& fields(b.subrange(24, 36)) == seq![CMD_TICK, 0u16, 0, 0, 0, 0]
            &&& fields(b.subrange(36, 48)) == seq![CMD_LASER_GATE, 0u16, 0, 0, 0, 0]
        }),
{
    let b = silence_bytes(code);
    law_parse_reads_what_cmd_wrote(CMD_LASER_TYPE, (code * 256) as u16, 0, 0, 0, 0);
    law_parse_reads_what_cmd_wrote(CMD_POWER, 0, 0, 0, 0, 0);
    law_parse_reads_what_cmd_wrote(CMD_TICK, 0, 0, 0, 0, 0);
    law_parse_reads_what_cmd_wrote(CMD_LASER_GATE, 0, 0, 0, 0, 0);
    law_parse_reads_what_cmd_wrote(CMD_RUN, 0, 0, 0, 0, 0);
    law_parse_reads_what_cmd_wrote(CMD_CLEAR_CACHE, 0, 0, 0, 0, 0);
    law_parse_reads_what_cmd_wrote(CMD_RESET, 0, 0, 0, 0, 0);
    assert(b.subrange(0, 12) =~= type_frame(code, 0, false));
    assert(b.subrange(12, 24) =~= bare(CMD_POWER));
    assert(b.subrange(24, 36) =~= bare(CMD_TICK));
    assert(b.subrange(36, 48) =~= bare(CMD_LASER_GATE));
    assert(fields(bare(CMD_RUN))[0] == CMD_RUN);
    assert(fields(bare(CMD_CLEAR_CACHE))[0] == CMD_CLEAR_CACHE);
    assert(fields(bare(CMD_RESET))[0] == CMD_RESET);
}

/// Aborting closes the laser gate ahead of anything else, with a batch on EP 0x02,
/// then clears the queue and resets, and a reset is the last command.
pub proof fn law_an_abort_gates_the_laser_first()
    ensures
        abort_steps().first() == Deed::Silence(bare(CMD_LASER_GATE)),
        is_job_batch(bare(CMD_LASER_GATE)),
        fields(bare(CMD_LASER_GATE)) == seq![CMD_LASER_GATE, 0u16, 0, 0, 0, 0],
        abort_steps()[1] == Deed::Ask(bare(CMD_CLEAR_CACHE)),
        abort_steps()[2] == Deed::Ask(bare(CMD_RESET)),
        abort_steps().last() == Deed::Ask(bare(CMD_RESET)),
{
    lemma_frame_batch(CMD_LASER_GATE, 0, 0, 0, 0, 0);
    law_parse_reads_what_cmd_wrote(CMD_LASER_GATE, 0, 0, 0, 0, 0);
}

// ---- what a job leaves running ----------------------------------------------

/// Command `k` of a batch.
pub open spec fn nth_command(b: Seq<u8>, k: int) -> Seq<u8> {
    b.subrange(12 * k, 12 * k + 12)
}

/// The command leaves no generator running: a power command that is all zero, a
/// tickle that is switched off, or a command of another kind.
pub open spec fn runs_nothing(c: Seq<u8>) -> bool {
    let f = fields(c);
    &&& f[0] == CMD_POWER ==> f == seq![CMD_POWER, 0u16, 0, 0, 0, 0]
    &&& f[0] == CMD_TICK ==> f[1] == 0
}

/// No command of the batch starts a generator.
pub open spec fn is_dark_batch(b: Seq<u8>) -> bool {
    b.len() % 12 == 0 && forall|k: int|
        0 <= 12 * k < b.len() ==> runs_nothing(#[trigger] nth_command(b, k))
}

/// Nor does the step.
pub open spec fn is_dark(d: Deed) -> bool {
    match d {
        Deed::Data(b) => is_dark_batch(b),
        Deed::Offer(b) => is_dark_batch(b),
        Deed::Silence(b) => is_dark_batch(b),
        _ => true,
    }
}

/// Nor does any step.
pub open spec fn all_dark(s: Seq<Deed>) -> bool {
    forall|i: int| 0 <= i < s.len() ==> is_dark(#[trigger] s[i])
}

proof fn lemma_dark_frame(id: u16, p0: u16, p1: u16, p2: u16, p3: u16, p4: u16)
    requires
        id == CMD_POWER ==> p0 == 0 && p1 == 0 && p2 == 0 && p3 == 0 && p4 == 0,
        id == CMD_TICK ==> p0 == 0,
    ensures
        is_dark_batch(frame(id, p0, p1, p2, p3, p4)),
{
    let b = frame(id, p0, p1, p2, p3, p4);
    law_parse_reads_what_cmd_wrote(id, p0, p1, p2, p3, p4);
    assert forall|k: int| 0 <= 12 * k < b.len() implies runs_nothing(
        #[trigger] nth_command(b, k),
    ) by {
        assert(k == 0);
        assert(nth_command(b, k) =~= b);
        assert(fields(b)[0] == id && fields(b)[1] == p0);
    }
}

proof fn lemma_dark_add(a: Seq<u8>, b: Seq<u8>)
    requires
        is_dark_batch(a),
        is_dark_batch(b),
    ensures
        is_dark_batch(a + b),
{
    let c = a + b;
    assert forall|k: int| 0 <= 12 * k < c.len() implies runs_nothing(
        #[trigger] nth_command(c, k),
    ) by {
        if 12 * k < a.len() {
            assert(nth_command(c, k) =~= nth_command(a, k));
        } else {
            let j = k - a.len() / 12;
            assert(12 * j == 12 * k - a.len());
            assert(nth_command(c, k) =~= nth_command(b, j));
        }
    }
}

proof fn lemma_dark_armed(b: Seq<u8>)
    requires
        is_dark_batch(b),
    ensures
        all_dark(armed_batch(b)),
{
    let s = armed_batch(b);
    assert forall|i: int| 0 <= i < s.len() implies is_dark(#[trigger] s[i]) by {
        if i < 3 {
            assert(s[i] == arm_steps()[i]);
        }
    }
}

proof fn lemma_dark_flat(c: Seq<Vector>)
    requires
        whole(c),
        forall|i: int|
            0 <= i < c.len() ==> opcode(#[trigger] c[i]) == CMD_JUMP || opcode(c[i]) == CMD_MARK,
    ensures
        is_dark_batch(flat(c)),
{
    let b = flat(c);
    if c.len() == 0 {
        assert(b =~= Seq::<u8>::empty());
    } else {
        law_a_batch_splits_into_its_vectors(c, 0);
        assert forall|k: int| 0 <= 12 * k < b.len() implies runs_nothing(
            #[trigger] nth_command(b, k),
        ) by {
            law_a_batch_splits_into_its_vectors(c, k);
            assert(fields(c[k].0)[0] == opcode(c[k]));
        }
    }
}

/// Vectors start no generator: they gate what is running.
pub proof fn law_vectors_program_nothing(v: Seq<Vector>, floor_us: int)
    requires
        whole(v),
        forall|i: int|
            0 <= i < v.len() ==> opcode(#[trigger] v[i]) == CMD_JUMP || opcode(v[i]) == CMD_MARK,
    ensures
        all_dark(paced(v, floor_us)),
    decreases v.len(),
{
    if v.len() > 0 {
        let n = next_batch(v.len());
        let c = v.take(n);
        let rest = v.skip(n);
        assert forall|i: int| 0 <= i < c.len() implies (#[trigger] c[i]).0.len() == 12 && c[i].1
            >= 0 && (opcode(c[i]) == CMD_JUMP || opcode(c[i]) == CMD_MARK) by {
            assert(c[i] == v[i]);
        }
        assert forall|i: int| 0 <= i < rest.len() implies (#[trigger] rest[i]).0.len() == 12
            && rest[i].1 >= 0 && (opcode(rest[i]) == CMD_JUMP || opcode(rest[i]) == CMD_MARK) by {
            assert(rest[i] == v[n + i]);
        }
        assert(whole(c) && whole(rest));
        law_vectors_program_nothing(rest, floor_us);
        lemma_dark_flat(c);
        let p = paced(v, floor_us);
        let tail = paced(rest, floor_us);
        assert forall|i: int| 0 <= i < p.len() implies is_dark(#[trigger] p[i]) by {
            if i >= 2 {
                assert(p[i] == tail[i - 2]);
            }
        }
    }
}

/// What leaves `live` as it was programs no output: of the operations outside a
/// stream, those that do not make a job live start no generator.
pub proof fn law_only_live_jobs_program_an_output(
    code: u8,
    w: Wave,
    a: Fields,
    c: Seq<u8>,
    idx: Seq<usize>,
    ep2: bool,
)
    ensures
        all_dark(asks(c)),
        all_dark(silence_steps(code)),
        all_dark(abort_steps()),
        all_dark(
            armed_batch(
                tick_frame(false, w) + frame(CMD_JUMP, 200, 0x4000, CENTRE, 0, 500),
            ) + seq![Deed::Pause(50_000_000), Deed::Ask(bare(CMD_RESET))],
        ),
        all_dark(seq![Deed::Data(frame(CMD_JUMP, a[1], a[2], a[3], a[4], a[5]))]),
        all_dark(seq![Deed::Data(frame(CMD_PORT_PULSE, a[1], a[2], a[3], a[4], a[5]))]),
        all_dark(armed_batch(frame(CMD_PORT_SWITCH, a[1], a[2], a[3], a[4], a[5]))),
        all_dark(reset_steps()),
        all_dark(state_steps()),
        all_dark(replay(idx, ep2)),
{
    let t = type_frame(code, 0, false);
    lemma_dark_frame(CMD_LASER_TYPE, (code * 256) as u16, 0, 0, 0, 0);
    lemma_dark_frame(CMD_POWER, 0, 0, 0, 0, 0);
    lemma_dark_frame(CMD_TICK, 0, 0, 0, 0, 0);
    lemma_dark_frame(CMD_LASER_GATE, 0, 0, 0, 0, 0);
    lemma_dark_add(t, bare(CMD_POWER));
    lemma_dark_add(t + bare(CMD_POWER), bare(CMD_TICK));
    lemma_dark_add(t + bare(CMD_POWER) + bare(CMD_TICK), bare(CMD_LASER_GATE));
    let j = frame(CMD_JUMP, 200, 0x4000, CENTRE, 0, 500);
    lemma_dark_frame(CMD_TICK, 0, w.tick_period, w.tick_width, 0, 0);
    lemma_dark_frame(CMD_JUMP, 200, 0x4000, CENTRE, 0, 500);
    lemma_dark_add(tick_frame(false, w), j);
    lemma_dark_armed(tick_frame(false, w) + j);
    let off = armed_batch(tick_frame(false, w) + j);
    let tail = seq![Deed::Pause(50_000_000), Deed::Ask(bare(CMD_RESET))];
    assert forall|i: int| 0 <= i < (off + tail).len() implies is_dark(
        #[trigger] (off + tail)[i],
    ) by {
        if i < off.len() {
            assert((off + tail)[i] == off[i]);
        } else {
            assert((off + tail)[i] == tail[i - off.len()]);
        }
    }
    lemma_dark_frame(CMD_JUMP, a[1], a[2], a[3], a[4], a[5]);
    lemma_dark_frame(CMD_PORT_PULSE, a[1], a[2], a[3], a[4], a[5]);
    lemma_dark_frame(CMD_PORT_SWITCH, a[1], a[2], a[3], a[4], a[5]);
    lemma_dark_armed(frame(CMD_PORT_SWITCH, a[1], a[2], a[3], a[4], a[5]));
    lemma_dark_replay(idx, ep2);
}

proof fn lemma_dark_replay(idx: Seq<usize>, ep2: bool)
    ensures
        all_dark(replay(idx, ep2)),
    decreases idx.len(),
{
    if idx.len() > 0 {
        let before = replay(idx.drop_last(), ep2);
        let steps = frame_steps(idx.last(), ep2);
        let all = replay(idx, ep2);
        lemma_dark_replay(idx.drop_last(), ep2);
        law_ep2_blob_is_a_jump_to_the_centre();
        lemma_dark_frame(CMD_JUMP, 0x2710, 0x8000, 0x8000, 0, 0x01F4);
        assert forall|i: int| 0 <= i < all.len() implies is_dark(#[trigger] all[i]) by {
            if i < before.len() {
                assert(all[i] == before[i]);
            } else {
                assert(all[i] == steps[i - before.len()]);
            }
        }
    }
}

/// A stream, a burst among them, programs no output either.
pub proof fn law_streams_program_nothing(
    c: Course,
    points: Seq<Point>,
    us: u16,
    delay: u16,
    o: PathOpts,
    floor_us: int,
    size: int,
    span: Point,
)
    requires
        c.wf(),
        size >= 0,
    ensures
        all_dark(seq![Deed::Data(flat(burst_vectors(size, us, span)))]),
        all_dark(paced(c.vectors(c.lit.len() as int), floor_us)),
        all_dark(paced(line_vectors(points, us, delay), floor_us)),
        all_dark(paced(dot_vectors(points, us, o), floor_us)),
{
    let n = c.lit.len() as int;
    law_a_path_is_jumps_and_marks(c, n);
    law_vectors_program_nothing(c.vectors(n), floor_us);
    let l = line_vectors(points, us, delay);
    assert forall|i: int| 0 <= i < l.len() implies opcode(#[trigger] l[i]) == CMD_MARK
        && l[i].0.len() == 12 && l[i].1 >= 0 by {
        assert(l[i] == mark(us, points[i], delay));
        law_vectors_say_what_they_do(us, points[i], delay);
    }
    assert(whole(l));
    law_vectors_program_nothing(l, floor_us);
    let d = dot_vectors(points, us, o);
    assert forall|i: int| 0 <= i < d.len() implies (opcode(#[trigger] d[i]) == CMD_JUMP
        || opcode(d[i]) == CMD_MARK) && d[i].0.len() == 12 && d[i].1 >= 0 by {
        let p = points[i / 2];
        law_vectors_say_what_they_do(o.jump_speed, p, o.jump_delay);
        law_vectors_say_what_they_do(at_least_one(us), p, 0);
    }
    assert(whole(d));
    law_vectors_program_nothing(d, floor_us);
    let m = burst_vectors(size, us, span);
    assert forall|i: int| 0 <= i < m.len() implies opcode(#[trigger] m[i]) == CMD_MARK
        && m[i].0.len() == 12 && m[i].1 >= 0 by {
        let x = if i % 2 == 0 {
            span.1
        } else {
            span.0
        };
        law_vectors_say_what_they_do(us, (x, CENTRE), 500);
    }
    assert(whole(m));
    lemma_dark_flat(m);
}

/// A job that programmed an output owes silence until it gets it: a header, a power
/// word, the pointer, an axis move and the analog output make it live, and so do lit
/// vectors that went out; closing it quietly silences exactly the live ones, and
/// behind silence or a close nothing is owed.
pub proof fn law_a_live_job_is_silenced(
    s: Setup,
    l: Laser,
    ns: u32,
    unsilenced: Option<(Failure, Failure)>,
)
    ensures
        headed(s).live,
        pulsed(s, ns).live,
        driving(s).live,
        carried_out(s, true, unsilenced).live,
        carried_out(s, false, unsilenced).live == s.live,
        tuned(s, l).live == s.live,
        closing(headed(s), true).0 == silence_steps(s.laser.code),
        closing(pulsed(s, ns), true).0 == silence_steps(s.laser.code),
        closing(driving(s), true).0 == silence_steps(s.laser.code),
        closing(carried_out(s, true, unsilenced), true).0 == silence_steps(s.laser.code),
        s.live ==> closing(s, true).0 == silence_steps(s.laser.code),
        !s.live ==> closing(s, true).0 == asks(bare(CMD_RESET)),
        !closing(s, true).1.live,
        !owes(closing(s, true).1),
        !owes(closing(s, false).1),
        !owes(silenced(s)),
        !silenced(s).tickle && !silenced(s).mo,
{
}

/// The power command of a generator at idle carries no pulse: it puts no modulated
/// signal on the laser control pin.
pub proof fn law_idle_power_carries_no_pulse(t: PulseTicks, byte: u8)
    ensures
        ({
            let f = fields(power_frame(idle(t), byte, 0));
            &&& f[3] % 256 == 0
            &&& f[4] / 256 == 0
            &&& f[4] % 256 == byte
        }),
{
    law_power_frame_carries_the_settings(idle(t), byte, 0);
}

// ---- settings -------------------------------------------------------------

/// The bits of 50 are those of a percentage.
proof fn lemma_fifty()
    ensures
        is_percent(Double { bits: FIFTY }),
{
}

/// The power of a job is a percentage at all times: it starts as one, and neither
/// choosing a laser nor any settings, taken or refused, make it anything else.
pub proof fn law_power_stays_a_percentage(s: Setup, l: Laser, w: Wanted)
    requires
        is_percent(s.power_pct),
        is_percent(w.other.byte_pct),
    ensures
        is_percent(opened(l, s.field).power_pct),
        is_percent(tuned(s, l).power_pct),
        is_percent(configured(s, w).0.power_pct),
{
    lemma_fifty();
}

/// A power that is given as a percentage is the power byte that the next header
/// carries, whichever way the laser takes its power; one that is given as a byte is
/// that byte, and the percentage follows.
pub proof fn law_power_goes_out_as_it_was_given(s: Setup, w: Wanted, v: Wave)
    requires
        configured(s, w).1 is None,
    ensures
        ({
            let t = configured(s, w).0;
            let carried = fields(header_bytes(t, v).subrange(12, 24))[4] % 256;
            &&& w.power_pct is Some && w.power_byte is None && v.pct_255 == w.other.pct_255
                ==> carried == percent_byte(w.other.pct_255) && t.power_byte == carried
            &&& w.power_byte is Some ==> carried == w.power_byte->0 && t.power_byte == carried
            &&& w.power_byte is Some && w.power_pct is None ==> t.power_pct == w.other.byte_pct
        }),
{
    law_the_header_carries_the_settings(configured(s, w).0, v);
}

/// A pulse width is set only where the laser takes one.
pub open spec fn suits(s: Setup) -> bool {
    s.mopa_pulse is Some ==> s.laser.power == Power::Byte
}

/// Choosing a laser drops what the last one was told, and configuring refuses what
/// it does not take: neither leaves a setting that does not suit the laser.
pub proof fn law_configuring_suits_the_laser(s: Setup, l: Laser, w: Wanted)
    requires
        suits(s),
    ensures
        suits(opened(l, s.field)),
        suits(tuned(s, l)),
        suits(configured(s, w).0),
{
}

/// A refused setting changes nothing but the settings that were taken ahead of it:
/// the laser, what is live, and the warnings stay.
pub proof fn law_configuring_leaves_the_rest_alone(s: Setup, w: Wanted)
    ensures
        ({
            let t = configured(s, w).0;
            &&& t.laser == s.laser
            &&& t.field == s.field
            &&& t.limits == s.limits
            &&& t.live == s.live
            &&& t.closed == s.closed
            &&& t.warnings == s.warnings
            &&& t.tick_khz == s.tick_khz
            &&& t.tick_us == s.tick_us
        }),
{
}

/// The header says what the settings are: the laser code, the amplifier enables,
/// the power byte, and the tickle switch.
pub proof fn law_the_header_carries_the_settings(s: Setup, w: Wave)
    ensures
        ({
            let h = header_bytes(s, w);
            let n = h.len() as int;
            let t = fields(h.subrange(0, 12));
            let p = fields(h.subrange(12, 24));
            let k = fields(h.subrange(n - 24, n - 12));
            let g = fields(h.subrange(n - 12, n));
            &&& n == if s.mopa_pulse is Some {
                60int
            } else {
                48
            }
            &&& t[0] == CMD_LASER_TYPE && t[1] == s.laser.code * 256
            &&& t[2] == if s.mo {
                MO_ENABLE
            } else {
                0
            }
            &&& p[0] == CMD_POWER
            &&& p[4] % 256 == if s.laser.power == Power::Byte {
                s.power_byte
            } else {
                percent_byte(w.pct_255)
            }
            &&& k[0] == CMD_TICK && k[1] == if s.tickle {
                0x100int
            } else {
                0
            }
            &&& k[2] == w.tick_period && k[3] == w.tick_width
            &&& g[0] == CMD_LASER_GATE
            &&& s.mopa_pulse matches Some(ns) ==> h.subrange(24, 36) == pulse_frame(ns)
        }),
{
    let h = header_bytes(s, w);
    let n = h.len() as int;
    let byte = if s.laser.power == Power::Byte {
        s.power_byte
    } else {
        percent_byte(w.pct_255)
    };
    law_parse_reads_what_cmd_wrote(
        CMD_LASER_TYPE,
        (s.laser.code * 256) as u16,
        if s.mo {
            MO_ENABLE
        } else {
            0
        },
        0,
        0,
        0,
    );
    law_power_frame_carries_the_settings(w.mark, byte, 0);
    law_parse_reads_what_cmd_wrote(
        CMD_TICK,
        if s.tickle {
            0x0100
        } else {
            0
        },
        w.tick_period,
        w.tick_width,
        0,
        0,
    );
    law_parse_reads_what_cmd_wrote(CMD_LASER_GATE, 0, 0, 0, 0, 0);
    if s.mopa_pulse is Some {
        let ns = s.mopa_pulse->0;
        law_parse_reads_what_cmd_wrote(
            CMD_MOPA_PULSE,
            MOPA_SPI_HDR,
            (ns % 0x10000) as u16,
            0,
            0,
            0,
        );
        assert(h.subrange(24, 36) =~= pulse_frame(ns));
    }
    assert(h.subrange(0, 12) =~= type_frame(s.laser.code, 0, s.mo));
    assert(h.subrange(12, 24) =~= power_frame(w.mark, byte, 0));
    assert(h.subrange(n - 24, n - 12) =~= tick_frame(s.tickle, w));
    assert(h.subrange(n - 12, n) =~= bare(CMD_LASER_GATE));
}

} // verus!
