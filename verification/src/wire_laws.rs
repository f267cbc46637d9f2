//! What stands on the wire, in numbers: the six words of every command that a job
//! sends, told from the bytes.

use crate::job::{
    abort_steps, arm_steps, armed_batch, asks, burst_size, burst_vectors, header_bytes, idle,
    pulse_frame, silence_bytes, silence_steps, tick_frame, type_frame, Setup, Wave, HALF_POWER,
};
use crate::laser::Power;
use crate::protocol::{
    bare, fields, frame, percent_byte, power_frame, wire_width, PulseTicks, CMD_ANALOG,
    CMD_AXIS_COUNT, CMD_AXIS_GO, CMD_AXIS_P232, CMD_AXIS_RATE, CMD_CLEAR_CACHE, CMD_ENCRYPT_STATE,
    CMD_JUMP, CMD_LASER_GATE, CMD_LASER_TYPE, CMD_MARK, CMD_MOPA_PULSE, CMD_ONLINE, CMD_PEN_FPK,
    CMD_PORT_OUT, CMD_PORT_OUT_STATE, CMD_PORT_PULSE, CMD_PORT_SWITCH, CMD_POWER, CMD_REDLIGHT,
    CMD_RESET, CMD_RUN, CMD_STATUS, CMD_TICK, FPGA_CLK_KHZ, MOPA_SPI_HDR, MOPA_SPI_MASK, MO_ENABLE,
};
use crate::script::Deed;
use crate::stream::{jump, mark, Point, CENTRE};
use crate::unlock::{reset_steps, state_steps};
use vstd::prelude::*;

verus! {

/// The six numbers of command `k` of a batch, big-endian: its id and its parameters.
pub open spec fn words(b: Seq<u8>, k: int) -> Seq<int> {
    Seq::new(6, |i: int| b[12 * k + 2 * i] * 256 + b[12 * k + 2 * i + 1])
}

/// A batch is exactly these commands, in this order.
pub open spec fn holds(b: Seq<u8>, c: Seq<Seq<int>>) -> bool {
    b.len() == 12 * c.len() && forall|k: int| 0 <= k < c.len() ==> #[trigger] words(b, k) == c[k]
}

/// A command stands as six 16-bit numbers, high byte first, and nothing else.
pub proof fn law_a_command_is_six_big_endian_words(
    id: u16,
    p0: u16,
    p1: u16,
    p2: u16,
    p3: u16,
    p4: u16,
)
    ensures
        holds(
            frame(id, p0, p1, p2, p3, p4),
            seq![
                seq![id as int, p0 as int, p1 as int, p2 as int, p3 as int, p4 as int],
            ],
        ),
        frame(id, p0, p1, p2, p3, p4).len() == 12,
        words(frame(id, p0, p1, p2, p3, p4), 0) == seq![
            id as int,
            p0 as int,
            p1 as int,
            p2 as int,
            p3 as int,
            p4 as int,
        ],
{
    reveal(frame);
    let b = frame(id, p0, p1, p2, p3, p4);
    let f = seq![id as int, p0 as int, p1 as int, p2 as int, p3 as int, p4 as int];
    assert(b[0] * 256 + b[1] == id && b[2] * 256 + b[3] == p0 && b[4] * 256 + b[5] == p1);
    assert(b[6] * 256 + b[7] == p2 && b[8] * 256 + b[9] == p3 && b[10] * 256 + b[11] == p4);
    assert(words(b, 0) =~= f);
    assert forall|k: int| 0 <= k < 1 implies #[trigger] words(b, k) == seq![f][k] by {
        assert(k == 0);
    }
}

/// Batches one behind the other hold their commands one behind the other.
pub proof fn law_batches_join(a: Seq<u8>, b: Seq<u8>, x: Seq<Seq<int>>, y: Seq<Seq<int>>)
    requires
        holds(a, x),
        holds(b, y),
    ensures
        holds(a + b, x + y),
{
    let c = a + b;
    assert forall|k: int| 0 <= k < (x + y).len() implies #[trigger] words(c, k) == (x + y)[k] by {
        if k < x.len() {
            assert(words(c, k) =~= words(a, k));
        } else {
            let j = k - x.len();
            assert(words(b, j) == y[j]);
            assert(words(c, k) =~= words(b, j));
        }
    }
}

// ---- power ----------------------------------------------------------------

/// The power command carries the pulse width, the period, half the frequency and the
/// power byte as they were given, each in the bits that it has: a width of 0 to 65535
/// ticks is that very number of ticks on the wire, so the duty is the one asked for.
pub proof fn law_the_power_word_is_what_was_asked(t: PulseTicks, byte: u8, wait: u16)
    ensures
        power_frame(t, byte, wait).len() == 12,
        ({
            let f = words(power_frame(t, byte, wait), 0);
            let width = (f[3] % 256) * 256 + f[4] / 256;
            let period = (f[2] % 256) * 256 + f[3] / 256;
            let half = f[2] / 256;
            &&& f[0] == 0x0210 && f[1] == 0 && f[5] == wait
            &&& f[4] % 256 == byte
            &&& 0 <= t.width <= 0xFFFF ==> width == t.width
            &&& (t.width - width) % 0x10000 == 0
            &&& t.period <= 0xFFFF ==> period == t.period
            &&& (t.period - period) % 0x10000 == 0
            &&& 0 <= t.half_khz <= 0xFF ==> half == t.half_khz
            &&& (t.half_khz - half) % 256 == 0
        }),
        0 <= t.width <= 0xFFFF ==> wire_width(t) == t.width,
        (t.width - wire_width(t)) % 0x10000 == 0,
        0 <= wire_width(t) <= 0xFFFF,
{
    let w = t.width as int % 0x10000;
    let h = t.half_khz as int % 256;
    let p = t.period as int;
    law_a_command_is_six_big_endian_words(
        0x0210,
        0,
        (h * 256 + (p / 256) % 256) as u16,
        ((p % 256) * 256 + w / 256) as u16,
        ((w % 256) * 256 + byte) as u16,
        wait,
    );
    let f = words(power_frame(t, byte, wait), 0);
    assert(f[2] == h * 256 + (p / 256) % 256);
    assert(f[3] == (p % 256) * 256 + w / 256);
    assert(f[4] == (w % 256) * 256 + byte);
    assert(f[2] / 256 == h && f[2] % 256 == (p / 256) % 256);
    assert(f[3] / 256 == p % 256 && f[3] % 256 == w / 256);
    assert(f[4] / 256 == w % 256);
    assert((f[3] % 256) * 256 + f[4] / 256 == w);
    assert((f[2] % 256) * 256 + f[3] / 256 == p % 0x10000);
}

/// An idle generator keeps its frequency and has no pulse.
pub proof fn law_an_idle_generator_keeps_its_frequency(t: PulseTicks, byte: u8)
    ensures
        ({
            let f = words(power_frame(idle(t), byte, 0), 0);
            &&& f[0] == 0x0210
            &&& (f[3] % 256) * 256 + f[4] / 256 == 0
            &&& t.period <= 0xFFFF ==> (f[2] % 256) * 256 + f[3] / 256 == t.period
            &&& 0 <= t.half_khz <= 0xFF ==> f[2] / 256 == t.half_khz
            &&& f[4] % 256 == byte
        }),
{
    law_the_power_word_is_what_was_asked(idle(t), byte, 0);
}

/// The power byte of a percentage is 255 hundredths of it, without the fraction: it is
/// at most that and less than one below it. More percent is never less power.
pub proof fn law_a_percentage_is_255_hundredths(p: i64, q: i64)
    requires
        0 <= p <= q <= 25500,
    ensures
        percent_byte(p) * 100 <= p < percent_byte(p) * 100 + 100,
        percent_byte(p) <= percent_byte(q),
        percent_byte(25500) == 255,
{
    assert(p as int / 100 <= q as int / 100);
}

// ---- the header -----------------------------------------------------------

/// The laser type stands in the high byte of Param0 of 0x0211, the pointer in the low
/// one; MO and PA are bit 8 of Param1.
pub proof fn law_the_type_word(code: u8, pointer: u8, mo: bool)
    ensures
        holds(
            type_frame(code, pointer, mo),
            seq![
                seq![
                    0x0211int,
                    code * 256 + pointer,
                    if mo {
                        0x0100
                    } else {
                        0
                    },
                    0,
                    0,
                    0,
                ],
            ],
        ),
{
    law_a_command_is_six_big_endian_words(
        0x0211,
        (code * 256 + pointer) as u16,
        if mo {
            0x0100
        } else {
            0
        },
        0,
        0,
        0,
    );
}

/// Param0 of 0x0217 is 0x0100 exactly where the tickle is on; behind it stand the
/// ticks of its period and of its pulse.
pub proof fn law_the_tickle_word(on: bool, w: Wave)
    ensures
        holds(
            tick_frame(on, w),
            seq![
                seq![
                    0x0217int,
                    if on {
                        0x0100
                    } else {
                        0
                    },
                    w.tick_period as int,
                    w.tick_width as int,
                    0,
                    0,
                ],
            ],
        ),
{
    law_a_command_is_six_big_endian_words(
        0x0217,
        if on {
            0x0100
        } else {
            0
        },
        w.tick_period,
        w.tick_width,
        0,
        0,
    );
}

/// A pulse width of up to 65535 ns is that number in Param1 of 0x0206, behind the SPI
/// header.
pub proof fn law_the_pulse_word(ns: u32)
    ensures
        words(pulse_frame(ns), 0)[0] == 0x0206,
        words(pulse_frame(ns), 0)[1] == 0xA501,
        ns <= 0xFFFF ==> words(pulse_frame(ns), 0)[2] == ns,
        (ns - words(pulse_frame(ns), 0)[2]) % 0x10000 == 0,
        holds(
            pulse_frame(ns),
            seq![seq![0x0206int, 0xA501, words(pulse_frame(ns), 0)[2], 0, 0, 0]],
        ),
{
    law_a_command_is_six_big_endian_words(0x0206, 0xA501, (ns % 0x10000) as u16, 0, 0, 0);
    let f = words(pulse_frame(ns), 0);
    assert(f[2] == ns % 0x10000);
}

/// A command without parameters.
pub proof fn law_a_bare_command(id: u16)
    ensures
        holds(bare(id), seq![seq![id as int, 0, 0, 0, 0, 0]]),
        bare(id).len() == 12,
{
    law_a_command_is_six_big_endian_words(id, 0, 0, 0, 0, 0);
}

proof fn lemma_power_holds(t: PulseTicks, byte: u8)
    ensures
        holds(power_frame(t, byte, 0), seq![words(power_frame(t, byte, 0), 0)]),
{
    law_the_power_word_is_what_was_asked(t, byte, 0);
    let b = power_frame(t, byte, 0);
    assert forall|k: int| 0 <= k < 1 implies #[trigger] words(b, k) == seq![words(b, 0)][k] by {
        assert(k == 0);
    }
}

/// The header of a job is the laser type with its enables, the power word, the pulse
/// width where one is set, the tickle and the laser gate, in this order. The power word
/// carries the power byte where the laser takes one, else the byte of the percentage.
pub proof fn law_the_header_in_words(s: Setup, w: Wave)
    ensures
        ({
            let h = header_bytes(s, w);
            let p = words(h, 1);
            let k = if s.mopa_pulse is Some {
                3int
            } else {
                2
            };
            &&& h.len() == 12 * (k + 2)
            &&& words(h, 0) == seq![
                0x0211int,
                s.laser.code * 256,
                if s.mo {
                    0x0100
                } else {
                    0
                },
                0,
                0,
                0,
            ]
            &&& p[0] == 0x0210 && p[1] == 0 && p[5] == 0
            &&& 0 <= w.mark.width <= 0xFFFF ==> (p[3] % 256) * 256 + p[4] / 256 == w.mark.width
            &&& w.mark.period <= 0xFFFF ==> (p[2] % 256) * 256 + p[3] / 256 == w.mark.period
            &&& 0 <= w.mark.half_khz <= 0xFF ==> p[2] / 256 == w.mark.half_khz
            &&& s.laser.power == Power::Byte ==> p[4] % 256 == s.power_byte
            &&& s.laser.power == Power::Pwm && 0 <= w.pct_255 <= 25500 ==> (p[4] % 256) * 100
                <= w.pct_255 < (p[4] % 256) * 100 + 100
            &&& s.mopa_pulse matches Some(ns) ==> {
                &&& words(h, 2)[0] == 0x0206 && words(h, 2)[1] == 0xA501
                &&& ns <= 0xFFFF ==> words(h, 2)[2] == ns
            }
            &&& words(h, k) == seq![
                0x0217int,
                if s.tickle {
                    0x0100
                } else {
                    0
                },
                w.tick_period as int,
                w.tick_width as int,
                0,
                0,
            ]
            &&& words(h, k + 1) == seq![0x0208int, 0, 0, 0, 0, 0]
        }),
{
    let a = type_frame(s.laser.code, 0, s.mo);
    let byte = if s.laser.power == Power::Byte {
        s.power_byte
    } else {
        percent_byte(w.pct_255)
    };
    let b = power_frame(w.mark, byte, 0);
    let c = match s.mopa_pulse {
        Some(ns) => pulse_frame(ns),
        None => Seq::empty(),
    };
    let d = tick_frame(s.tickle, w);
    let g = bare(0x0208);
    law_the_type_word(s.laser.code, 0, s.mo);
    law_the_power_word_is_what_was_asked(w.mark, byte, 0);
    lemma_power_holds(w.mark, byte);
    law_the_tickle_word(s.tickle, w);
    law_a_bare_command(0x0208);
    if s.laser.power == Power::Pwm && 0 <= w.pct_255 <= 25500 {
        law_a_percentage_is_255_hundredths(w.pct_255, w.pct_255);
    }
    let x = seq![words(a, 0)];
    let y = seq![words(b, 0)];
    let u = seq![words(d, 0)];
    let v = seq![words(g, 0)];
    assert(holds(a, x) && holds(d, u) && holds(g, v)) by {
        lemma_single(a);
        lemma_single(d);
        lemma_single(g);
    }
    law_batches_join(a, b, x, y);
    let z: Seq<Seq<int>> = match s.mopa_pulse {
        Some(ns) => seq![words(c, 0)],
        None => Seq::empty(),
    };
    assert(holds(c, z)) by {
        if s.mopa_pulse is Some {
            law_the_pulse_word(s.mopa_pulse->0);
            lemma_single(c);
        }
    }
    if s.mopa_pulse is Some {
        law_the_pulse_word(s.mopa_pulse->0);
    }
    law_batches_join(a + b, c, x + y, z);
    law_batches_join(a + b + c, d, x + y + z, u);
    law_batches_join(a + b + c + d, g, x + y + z + u, v);
    let h = header_bytes(s, w);
    let all = x + y + z + u + v;
    assert(h =~= a + b + c + d + g);
    assert(words(h, 0) == all[0] && words(h, 1) == all[1]);
    let k = if s.mopa_pulse is Some {
        3int
    } else {
        2
    };
    assert(words(h, 2) == all[2]);
    assert(words(h, k) == all[k] && words(h, k + 1) == all[k + 1]);
    assert(words(a, 0) == seq![seq![
        0x0211int,
        s.laser.code * 256 + 0,
        if s.mo {
            0x0100
        } else {
            0
        },
        0,
        0,
        0,
    ]][0]);
}

proof fn lemma_single(b: Seq<u8>)
    requires
        b.len() == 12,
    ensures
        holds(b, seq![words(b, 0)]),
{
    assert forall|k: int| 0 <= k < 1 implies #[trigger] words(b, k) == seq![words(b, 0)][k] by {
        assert(k == 0);
    }
}

// ---- steps ----------------------------------------------------------------

/// The step asks for this command, without parameters.
pub open spec fn asks_for(d: Deed, id: int) -> bool {
    d matches Deed::Ask(c) && holds(c, seq![seq![id, 0, 0, 0, 0, 0]])
}

/// Arming clears the queue, resets and starts the engine, in this order, and the batch
/// goes out behind it; a question is one step.
pub proof fn law_arming_clears_resets_and_runs(b: Seq<u8>, c: Seq<u8>)
    ensures
        armed_batch(b).len() == 4,
        asks_for(armed_batch(b)[0], 0x0106),
        asks_for(armed_batch(b)[1], 0x0105),
        asks_for(armed_batch(b)[2], 0x0104),
        armed_batch(b)[3] == Deed::Data(b),
        asks(c) == seq![Deed::Ask(c)],
{
    law_a_bare_command(0x0106);
    law_a_bare_command(0x0105);
    law_a_bare_command(0x0104);
    assert(armed_batch(b)[0] == arm_steps()[0]);
    assert(armed_batch(b)[1] == arm_steps()[1]);
    assert(armed_batch(b)[2] == arm_steps()[2]);
}

/// Silencing writes the laser type without enables, a power word, a tickle and a gate
/// that are all zero; waits 50 ms; and only then clears the queue and resets.
pub proof fn law_silence_in_words(code: u8)
    ensures
        silence_steps(code).len() == 4,
        silence_steps(code)[0] matches Deed::Silence(b) && holds(
            b,
            seq![
                seq![0x0211int, code * 256, 0, 0, 0, 0],
                seq![0x0210int, 0, 0, 0, 0, 0],
                seq![0x0217int, 0, 0, 0, 0, 0],
                seq![0x0208int, 0, 0, 0, 0, 0],
            ],
        ),
        silence_steps(code)[1] == Deed::Pause(50_000_000),
        asks_for(silence_steps(code)[2], 0x0106),
        asks_for(silence_steps(code)[3], 0x0105),
{
    law_the_type_word(code, 0, false);
    law_a_bare_command(0x0210);
    law_a_bare_command(0x0217);
    law_a_bare_command(0x0208);
    law_a_bare_command(0x0106);
    law_a_bare_command(0x0105);
    let a = type_frame(code, 0, false);
    let x = seq![seq![0x0211int, code * 256 + 0, 0, 0, 0, 0]];
    assert(holds(a, x));
    let p = seq![seq![0x0210int, 0, 0, 0, 0, 0]];
    let t = seq![seq![0x0217int, 0, 0, 0, 0, 0]];
    let g = seq![seq![0x0208int, 0, 0, 0, 0, 0]];
    law_batches_join(a, bare(0x0210), x, p);
    law_batches_join(a + bare(0x0210), bare(0x0217), x + p, t);
    law_batches_join(a + bare(0x0210) + bare(0x0217), bare(0x0208), x + p + t, g);
    assert(silence_bytes(code) =~= a + bare(0x0210) + bare(0x0217) + bare(0x0208));
    assert(x + p + t + g =~= seq![
        seq![0x0211int, code * 256, 0, 0, 0, 0],
        seq![0x0210int, 0, 0, 0, 0, 0],
        seq![0x0217int, 0, 0, 0, 0, 0],
        seq![0x0208int, 0, 0, 0, 0, 0],
    ]);
}

/// Aborting shuts the laser gate in a batch, then clears the queue, resets, starts and
/// resets again; the board is reset by three questions before it is unlocked; and the
/// lock is asked for with 0x0102 and read 60 ms later.
pub proof fn law_control_sequences_in_words()
    ensures
        abort_steps().len() == 5,
        abort_steps()[0] matches Deed::Silence(b) && holds(b, seq![seq![0x0208int, 0, 0, 0, 0, 0]]),
        asks_for(abort_steps()[1], 0x0106),
        asks_for(abort_steps()[2], 0x0105),
        asks_for(abort_steps()[3], 0x0104),
        asks_for(abort_steps()[4], 0x0105),
        reset_steps().len() == 3,
        asks_for(reset_steps()[0], 0x0105),
        asks_for(reset_steps()[1], 0x0106),
        asks_for(reset_steps()[2], 0x0105),
        state_steps().len() == 3,
        state_steps()[0] matches Deed::Command(c) && holds(c, seq![seq![0x0102int, 0, 0, 0, 0, 0]]),
        state_steps()[1] == Deed::Pause(60_000_000),
        state_steps()[2] == Deed::Reply(1500),
{
    law_a_bare_command(0x0208);
    law_a_bare_command(0x0106);
    law_a_bare_command(0x0105);
    law_a_bare_command(0x0104);
    law_a_bare_command(0x0102);
}

// ---- vectors --------------------------------------------------------------

/// A jump is 0x0241 and a mark 0x0243: the microseconds it takes, where it ends, and
/// the dwell there. What it is counted for is what it carries.
pub proof fn law_a_vector_in_words(us: u16, p: Point, delay: u16)
    ensures
        holds(
            jump(us, p, delay).0,
            seq![seq![0x0241int, us as int, p.0 as int, p.1 as int, 0, delay as int]],
        ),
        holds(
            mark(us, p, delay).0,
            seq![seq![0x0243int, us as int, p.0 as int, p.1 as int, 0, delay as int]],
        ),
        words(jump(us, p, delay).0, 0) == seq![
            0x0241int,
            us as int,
            p.0 as int,
            p.1 as int,
            0,
            delay as int,
        ],
        words(mark(us, p, delay).0, 0) == seq![
            0x0243int,
            us as int,
            p.0 as int,
            p.1 as int,
            0,
            delay as int,
        ],
        jump(us, p, delay).0.len() == 12,
        mark(us, p, delay).0.len() == 12,
        jump(us, p, delay).1 == us,
        mark(us, p, delay).1 == us,
{
    law_a_command_is_six_big_endian_words(0x0241, us, p.0, p.1, 0, delay);
    law_a_command_is_six_big_endian_words(0x0243, us, p.0, p.1, 0, delay);
}

/// A burst marks to and fro along the centre line, from its second end to its first.
pub proof fn law_a_burst_goes_to_and_fro(n: int, speed: u16, span: Point, i: int)
    requires
        0 <= i < n,
    ensures
        burst_vectors(n, speed, span).len() == n,
        words(burst_vectors(n, speed, span)[i].0, 0) == seq![
            0x0243int,
            speed as int,
            if i % 2 == 0 {
                span.1 as int
            } else {
                span.0 as int
            },
            0x8000,
            0,
            500,
        ],
{
    let x = if i % 2 == 0 {
        span.1
    } else {
        span.0
    };
    law_a_vector_in_words(speed, (x, 0x8000), 500);
    assert(burst_vectors(n, speed, span)[i] == mark(speed, (x, 0x8000), 500));
}

/// A round of a burst never eats into the margin and is never over the flush limit; it
/// fills what room there is, and a round of fewer than 64 vectors is not made.
pub proof fn law_a_burst_fills_the_room(free: u16, margin: u16)
    ensures
        burst_size(free, margin) > 0 ==> burst_size(free, margin) + margin <= free,
        burst_size(free, margin) <= 1400,
        64 <= free - margin <= 1400 ==> burst_size(free, margin) == free - margin,
        free - margin > 1400 ==> burst_size(free, margin) == 1400,
        free - margin < 64 ==> burst_size(free, margin) == 0,
{
}

/// The commands by their numbers.
pub proof fn law_the_commands_by_their_numbers()
    ensures
        CMD_STATUS == 0x0101 && CMD_ENCRYPT_STATE == 0x0102 && CMD_RUN == 0x0104,
        CMD_RESET == 0x0105 && CMD_CLEAR_CACHE == 0x0106 && CMD_PORT_OUT == 0x0111,
        CMD_PORT_OUT_STATE == 0x0112 && CMD_ONLINE == 0x0118 && CMD_REDLIGHT == 0x0171,
        CMD_LASER_TYPE == 0x0211 && CMD_POWER == 0x0210 && CMD_TICK == 0x0217,
        CMD_PEN_FPK == 0x0218 && CMD_LASER_GATE == 0x0208 && CMD_JUMP == 0x0241,
        CMD_MARK == 0x0243 && CMD_AXIS_COUNT == 0x0230 && CMD_AXIS_RATE == 0x0231,
        CMD_AXIS_P232 == 0x0232 && CMD_AXIS_GO == 0x0233 && CMD_PORT_PULSE == 0x2F82,
        CMD_MOPA_PULSE == 0x0206 && CMD_ANALOG == 0x0207 && CMD_PORT_SWITCH == 0x2F84,
        MO_ENABLE == 0x0100 && MOPA_SPI_HDR == 0xA501 && MOPA_SPI_MASK == 6,
        FPGA_CLK_KHZ == 48000 && CENTRE == 32768 && HALF_POWER == 128,
{
}

/// A reply is six numbers as well: each is its two bytes, high byte first.
pub proof fn law_a_reply_is_six_big_endian_words(r: Seq<u8>, i: int)
    requires
        r.len() >= 12,
        0 <= i < 6,
    ensures
        fields(r).len() == 6,
        fields(r)[i] == r[2 * i] * 256 + r[2 * i + 1],
        fields(r)[i] == words(r, 0)[i],
{
}

} // verus!
