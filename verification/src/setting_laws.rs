//! What the settings of a job are behind each thing that it is told, setting by
//! setting, and what it is refused for.

use crate::double::Double;
use crate::field::Field;
use crate::job::{
    carried_out, closing, collides, collision, configured, driving, headed, header_bytes,
    is_percent, known_limits, opened, owes, pulsed, silence_steps, silenced, tick_refusal, tuned,
    ConfigError, Setup, TickError, Wanted, Wave,
};
use crate::laser::{Laser, Power};
use crate::limits::{excesses, is_load, load_notice, Excess, Limits, Notice};
use crate::stream::Load;
use crate::usb::Failure;
use crate::wire_laws::{
    asks_for, law_a_bare_command, law_a_percentage_is_255_hundredths, law_the_header_in_words,
    words,
};
use vstd::prelude::*;

verus! {

// ---- configuring ----------------------------------------------------------

/// Where configuring is not refused, each setting that was given is the one that stands
/// behind it, and what was not given is as it was. A power that is given one way is
/// derived the other way.
pub proof fn law_what_is_given_is_what_stands(s: Setup, w: Wanted)
    requires
        configured(s, w).1 is None,
    ensures
        ({
            let t = configured(s, w).0;
            &&& w.freq_khz matches Some(f) ==> t.freq_khz == f
            &&& w.freq_khz is None ==> t.freq_khz == s.freq_khz
            &&& w.mo matches Some(v) ==> t.mo == v
            &&& w.mo is None ==> t.mo == s.mo
            &&& w.tickle matches Some(v) ==> t.tickle == v
            &&& w.tickle is None ==> t.tickle == s.tickle
            &&& w.mopa_pulse matches Some(ns) ==> t.mopa_pulse == Some(ns)
            &&& w.mopa_pulse is None ==> t.mopa_pulse == s.mopa_pulse
            &&& w.power_pct matches Some(p) ==> t.power_pct == p
            &&& w.power_byte matches Some(b) ==> t.power_byte == b
            &&& w.power_pct is Some && w.power_byte is None && 0 <= w.other.pct_255 <= 25500
                ==> t.power_byte * 100 <= w.other.pct_255 < t.power_byte * 100 + 100
            &&& w.power_byte is Some && w.power_pct is None ==> t.power_pct == w.other.byte_pct
            &&& w.power_pct is None && w.power_byte is None ==> t.power_pct == s.power_pct
                && t.power_byte == s.power_byte
            &&& t.laser == s.laser && t.field == s.field && t.limits == s.limits
            &&& t.tick_khz == s.tick_khz && t.tick_us == s.tick_us
            &&& t.live == s.live && t.closed == s.closed && t.warnings == s.warnings
        }),
{
    if 0 <= w.other.pct_255 <= 25500 {
        law_a_percentage_is_255_hundredths(w.other.pct_255, w.other.pct_255);
    }
}

/// The next header says what was configured: Param0 of its 0x0217 is 0x0100 exactly where
/// the tickle was asked for, bit 8 of Param1 of its 0x0211 stands exactly where the
/// enables were, its power byte is the one that was given, and its pulse width too.
pub proof fn law_the_next_header_says_what_was_given(s: Setup, w: Wanted, v: Wave)
    requires
        configured(s, w).1 is None,
    ensures
        ({
            let t = configured(s, w).0;
            let h = header_bytes(t, v);
            let k = h.len() as int / 12 - 2;
            &&& w.tickle matches Some(on) ==> words(h, k)[0] == 0x0217 && words(h, k)[1] == if on {
                0x0100int
            } else {
                0
            }
            &&& w.mo matches Some(on) ==> words(h, 0)[0] == 0x0211 && words(h, 0)[2] == if on {
                0x0100int
            } else {
                0
            }
            &&& w.power_byte matches Some(b) ==> words(h, 1)[0] == 0x0210 && words(h, 1)[4] % 256
                == b
            &&& w.mopa_pulse matches Some(ns) ==> words(h, 2)[0] == 0x0206 && (ns <= 0xFFFF
                ==> words(h, 2)[2] == ns)
        }),
{
    law_the_header_in_words(configured(s, w).0, v);
    law_what_is_given_is_what_stands(s, w);
}

/// What configuring is refused for: a frequency outside the range of the laser, a power
/// that is no percentage, a power byte or a pulse width for a laser that is not driven by
/// a parallel word, a tickle for a laser without one. Nothing else, and the first of them
/// is the one that is told.
pub proof fn law_what_configuring_is_refused_for(s: Setup, w: Wanted)
    ensures
        ({
            let l = s.laser;
            let freq = w.freq_khz matches Some(f) && (f.below(l.freq_range.0)
                || l.freq_range.1.below(f));
            let power = w.power_pct matches Some(p) && !is_percent(p);
            let byte = w.power_byte is Some && l.power == Power::Pwm;
            let pulse = w.mopa_pulse is Some && l.power == Power::Pwm;
            let tickle = w.tickle == Some(true) && !l.tickle;
            let (t, e) = configured(s, w);
            &&& e is Some <==> freq || power || byte || pulse || tickle
            &&& freq ==> t == s && e == Some(
                ConfigError::Frequency {
                    khz: w.freq_khz->0,
                    laser: l.name,
                    lo: l.freq_range.0,
                    hi: l.freq_range.1,
                },
            )
            &&& !freq && power ==> e == Some(ConfigError::Power { pct: w.power_pct->0 })
                && t.power_pct == s.power_pct && t.power_byte == s.power_byte && t.mopa_pulse
                == s.mopa_pulse && t.mo == s.mo && t.tickle == s.tickle
            &&& !freq && !power && byte ==> e == Some(
                ConfigError::NoParallelPower { laser: l.name },
            ) && t.mopa_pulse == s.mopa_pulse && t.mo == s.mo && t.tickle == s.tickle
            &&& !freq && !power && !byte && pulse ==> e == Some(
                ConfigError::NoPulseWidth { laser: l.name },
            ) && t.mopa_pulse == s.mopa_pulse && t.mo == s.mo && t.tickle == s.tickle
            &&& !freq && !power && !byte && !pulse && tickle ==> e == Some(
                ConfigError::NoTickle { laser: l.name },
            ) && t.tickle == s.tickle
            &&& !freq && w.freq_khz is Some ==> t.freq_khz == w.freq_khz->0
            &&& w.freq_khz is None ==> t.freq_khz == s.freq_khz
            &&& !freq && !power && w.power_pct is Some ==> t.power_pct == w.power_pct->0
            &&& !freq && !power && (byte || pulse) && w.power_pct is None ==> t.power_pct
                == s.power_pct && t.power_byte == s.power_byte
            &&& !freq && !power && byte ==> t.power_byte == s.power_byte
            &&& !freq && !power && !byte && !pulse && tickle ==> {
                &&& w.mo matches Some(v) ==> t.mo == v
                &&& w.mo is None ==> t.mo == s.mo
                &&& w.power_byte matches Some(b) ==> t.power_byte == b
                &&& w.mopa_pulse is Some ==> t.mopa_pulse == w.mopa_pulse
                &&& w.mopa_pulse is None ==> t.mopa_pulse == s.mopa_pulse
            }
            &&& t.field == s.field && t.limits == s.limits && t.closed == s.closed
            &&& t.tick_khz == s.tick_khz && t.tick_us == s.tick_us
            &&& t.laser == s.laser && t.live == s.live && t.warnings == s.warnings
        }),
{
}

/// A percentage is a number from 0 to 100: by its bits, those of no positive double above
/// 100, or those of the negative zero.
pub proof fn law_a_percentage_by_its_bits(p: Double)
    ensures
        is_percent(p) <==> p.bits <= 0x4059_0000_0000_0000 || p.bits == 0x8000_0000_0000_0000,
{
}

/// A job that is opened on a laser, and one that chooses another: half power, 0x80,
/// nothing enabled but the tickle that the laser starts with, its own frequencies. What is
/// not the laser's stays, an output that is live among it.
pub proof fn law_choosing_a_laser_starts_over(s: Setup, l: Laser, f: Field)
    ensures
        ({
            let t = tuned(s, l);
            &&& t.laser == l && t.freq_khz == l.freq_khz
            &&& t.power_pct.bits == 0x4049_0000_0000_0000 && t.power_byte == 0x80
            &&& t.mopa_pulse is None && !t.mo && t.tickle == l.tickle
            &&& t.tick_khz == l.tick_khz && t.tick_us == l.tick_us
            &&& t.field == s.field && t.limits == s.limits && t.live == s.live && t.closed
                == s.closed && t.warnings == s.warnings
        }),
        ({
            let t = opened(l, f);
            &&& t.laser == l && t.freq_khz == l.freq_khz
            &&& t.power_pct.bits == 0x4049_0000_0000_0000 && t.power_byte == 0x80
            &&& t.mopa_pulse is None && !t.mo && t.tickle == l.tickle
            &&& t.tick_khz == l.tick_khz && t.tick_us == l.tick_us
            &&& t.field == f && !t.live && !t.closed && t.warnings.len() == 0
            &&& t.limits.max_mm_s is None && t.limits.max_accel_mm_s2 is None
                && t.limits.max_loop_hz is None
        }),
{
}

/// A tickle is refused exactly where its frequency is outside the range of the laser, or
/// its pulse is nothing or does not fit into the period.
pub proof fn law_what_a_tickle_is_refused_for(l: Laser, khz: Double, us: Double, period_us: Double)
    ensures
        ({
            let (lo, hi) = l.tick_range;
            let freq = khz.below(lo) || hi.below(khz);
            let width = us.at_most(Double { bits: 0 }) || period_us.at_most(us);
            let e = tick_refusal(l, khz, us, period_us);
            &&& e is None <==> !freq && !width
            &&& freq ==> e == Some(TickError::Frequency { khz, lo, hi })
            &&& !freq && width ==> e == Some(TickError::Width { us, period_us, khz })
        }),
{
}

/// What is newly known of the machine replaces what was known; what is not said stays.
pub proof fn law_limits_are_replaced_one_by_one(was: Limits, l: Limits)
    ensures
        ({
            let n = known_limits(was, l);
            &&& l.max_mm_s matches Some(v) ==> n.max_mm_s == Some(v)
            &&& l.max_mm_s is None ==> n.max_mm_s == was.max_mm_s
            &&& l.max_accel_mm_s2 matches Some(v) ==> n.max_accel_mm_s2 == Some(v)
            &&& l.max_accel_mm_s2 is None ==> n.max_accel_mm_s2 == was.max_accel_mm_s2
            &&& l.max_loop_hz matches Some(v) ==> n.max_loop_hz == Some(v)
            &&& l.max_loop_hz is None ==> n.max_loop_hz == was.max_loop_hz
        }),
{
}

// ---- a job's life -----------------------------------------------------------

/// What programs an output makes a job live and changes no setting; silence switches the
/// tickle and the enables off and nothing else; a pulse width that is sent is kept.
pub proof fn law_a_jobs_state_behind_each_operation(s: Setup, ns: u32)
    ensures
        driving(s) == (Setup { live: true, ..s }),
        headed(s) == (Setup { live: true, warnings: headed(s).warnings, ..s }),
        s.mopa_pulse is None ==> headed(s).warnings == s.warnings,
        s.mopa_pulse is Some ==> headed(s).warnings == s.warnings + collision(s),
        pulsed(s, ns) == (Setup {
            live: true,
            mopa_pulse: Some(ns),
            warnings: s.warnings + collision(s),
            ..s
        }),
        silenced(s) == (Setup { tickle: false, mo: false, live: false, ..s }),
        owes(s) == (s.live && !s.closed),
{
}

/// Closing quietly silences a live job and resets any other; a loud close only resets.
/// Either way the job is closed, and but for what silence switches off its settings stay.
pub proof fn law_what_closing_does(s: Setup, quiet: bool)
    ensures
        ({
            let (steps, t) = closing(s, quiet);
            &&& quiet && s.live ==> steps == silence_steps(s.laser.code) && t == (Setup {
                closed: true,
                tickle: false,
                mo: false,
                live: false,
                ..s
            })
            &&& !(quiet && s.live) ==> steps.len() == 1 && asks_for(steps[0], 0x0105) && t
                == (Setup { closed: true, ..s })
        }),
{
    law_a_bare_command(0x0105);
}

/// What came of a script is taken in: lit vectors that went out make the job live, a
/// silence that was not heard is warned of with both failures, and nothing else changes.
pub proof fn law_what_a_script_leaves_behind(
    s: Setup,
    lands: bool,
    unsilenced: Option<(Failure, Failure)>,
)
    ensures
        ({
            let t = carried_out(s, lands, unsilenced);
            &&& t == (Setup { live: t.live, warnings: t.warnings, ..s })
            &&& t.live == (s.live || lands)
            &&& unsilenced is None ==> t.warnings == s.warnings
            &&& unsilenced matches Some((a, b)) ==> t.warnings == s.warnings.push(
                Notice::NotSilenced { first: a, second: b },
            )
        }),
{
}

/// A power byte collides with a pulse width exactly where it drives one of the two SPI
/// lines, bits 1 and 2, and it is then named in the one warning.
pub proof fn law_which_power_bytes_collide(s: Setup, b: u8)
    ensures
        collides(b) <==> b & 0x06 != 0,
        s.power_byte & 0x06 != 0 ==> collision(s) == seq![
            Notice::PowerByteCollides { power_byte: s.power_byte },
        ],
        s.power_byte & 0x06 == 0 ==> collision(s).len() == 0,
{
    assert((b & 0x06 != 0) == ((b / 2) % 4 != 0)) by (bit_vector);
    let p = s.power_byte;
    assert((p & 0x06 != 0) == ((p / 2) % 4 != 0)) by (bit_vector);
}

// ---- loads ------------------------------------------------------------------

/// A load goes over exactly those limits that are known and that it is above, and over the
/// measured vector rate; each is told with the value and the limit.
pub proof fn law_a_load_is_held_against_every_limit(m: Limits, l: Load, i: int)
    ensures
        ({
            let x = excesses(m, l);
            let rate = Double { bits: 0x40E0_46AA_AAAA_AAAB };
            let feed = m.max_mm_s matches Some(v) && v.below(l.mm_s);
            let accel = m.max_accel_mm_s2 matches Some(v) && v.below(l.accel_mm_s2);
            let loops = m.max_loop_hz matches Some(v) && v.below(l.loop_hz);
            let fast = rate.below(l.vectors_per_s);
            &&& x.len() == (if feed {
                1int
            } else {
                0
            }) + (if accel {
                1int
            } else {
                0
            }) + (if loops {
                1int
            } else {
                0
            }) + (if fast {
                1int
            } else {
                0
            })
            &&& feed ==> x.contains(Excess::Feed { mm_s: l.mm_s, limit: m.max_mm_s->0 })
            &&& accel ==> x.contains(
                Excess::Acceleration { needs: l.accel_mm_s2, limit: m.max_accel_mm_s2->0 },
            )
            &&& loops ==> x.contains(Excess::Loops { loop_hz: l.loop_hz, limit: m.max_loop_hz->0 })
            &&& fast ==> x.contains(Excess::Vectors { per_s: l.vectors_per_s, limit: rate })
            &&& 0 <= i < x.len() ==> match x[i] {
                Excess::Feed { mm_s, limit } => feed && mm_s == l.mm_s && m.max_mm_s == Some(limit),
                Excess::Acceleration { needs, limit } => accel && needs == l.accel_mm_s2
                    && m.max_accel_mm_s2 == Some(limit),
                Excess::Loops { loop_hz, limit } => loops && loop_hz == l.loop_hz && m.max_loop_hz
                    == Some(limit),
                Excess::Vectors { per_s, limit } => fast && per_s == l.vectors_per_s && limit
                    == rate,
            }
        }),
{
    let x = excesses(m, l);
    let rate = Double { bits: 0x40E0_46AA_AAAA_AAAB };
    let feed = m.max_mm_s matches Some(v) && v.below(l.mm_s);
    let accel = m.max_accel_mm_s2 matches Some(v) && v.below(l.accel_mm_s2);
    let loops = m.max_loop_hz matches Some(v) && v.below(l.loop_hz);
    let fast = rate.below(l.vectors_per_s);
    let a = if feed {
        1int
    } else {
        0
    };
    let b = if accel {
        1int
    } else {
        0
    };
    let c = if loops {
        1int
    } else {
        0
    };
    if feed {
        assert(x[0] == Excess::Feed { mm_s: l.mm_s, limit: m.max_mm_s->0 });
    }
    if accel {
        assert(x[a] == Excess::Acceleration {
            needs: l.accel_mm_s2,
            limit: m.max_accel_mm_s2->0,
        });
    }
    if loops {
        assert(x[a + b] == Excess::Loops { loop_hz: l.loop_hz, limit: m.max_loop_hz->0 });
    }
    if fast {
        assert(x[a + b + c] == Excess::Vectors { per_s: l.vectors_per_s, limit: rate });
    }
}

/// A load that is one, radius, pitch and feed above zero or no numbers, is warned of once
/// where it goes over some limit, with what it asks for; any other is not.
pub proof fn law_a_load_is_warned_of_where_it_is_too_much(m: Limits, l: Load)
    ensures
        ({
            let zero = Double { bits: 0 };
            let n = load_notice(m, l);
            &&& is_load(l) <==> !l.radius_mm.at_most(zero) && !l.pitch_mm.at_most(zero)
                && !l.mm_s.at_most(zero)
            &&& n.len() == if is_load(l) && excesses(m, l).len() > 0 {
                1int
            } else {
                0
            }
            &&& n.len() == 1 ==> n[0] == (Notice::WiggleLoad {
                loop_hz: l.loop_hz,
                accel_mm_s2: l.accel_mm_s2,
                accel_g: l.accel_g,
                mm_s: l.mm_s,
                exceeded: excesses(m, l),
            })
        }),
{
}

} // verus!
