//! High-level job API.
//!
//! THE RULE THAT MATTERS: session/control commands go on EP 0x06; everything that
//! configures a job goes inline in the EP 0x02 batch ahead of the vectors. The
//! board ACKs parameter commands on EP 0x06 and then silently ignores them.
//!
//! A `Job` holds the settings. What it is asked to do on the board it turns into
//! a `Script`; what came of the script is handed back to `finish`.

use crate::double::{can_write, push_number, writes, Double, Style, HUNDRED, ONE, ZERO};
use crate::field::{sized, Field};
use crate::laser::{self, selected, Laser, Power, UnknownLaser};
use crate::limits::{
    excesses, is_load, judge, load_notice, load_warning, Limits, NotPositive, Notice, Warning,
    WiggleLoad,
};
use crate::pace::{emit, flat, paced, saturated, total_us};
use crate::protocol::{
    bare, byte_of_percent, cmd, frame, mopa_pulse_ns, percent_byte, power_frame, set_power_0210,
    set_power_raw, PulseTicks, CMD_ANALOG, CMD_AXIS_COUNT, CMD_AXIS_GO, CMD_AXIS_P232, CMD_AXIS_RATE,
    CMD_CLEAR_CACHE, CMD_ENCRYPT_STATE, CMD_JUMP, CMD_LASER_GATE, CMD_LASER_TYPE, CMD_MARK,
    CMD_MOPA_PULSE, CMD_PORT_OUT, CMD_PORT_OUT_STATE, CMD_PORT_PULSE, CMD_PORT_SWITCH, CMD_POWER,
    CMD_RESET, CMD_RUN, CMD_STATUS, CMD_TICK, MOPA_SPI_HDR, MOPA_SPI_MASK, MO_ENABLE,
};
use crate::script::{
    bytes, failed, failed_twice, is_batch, script_ok, Deed, Report, Script, Step, MILLISECOND,
};
use crate::stream::{
    build, chain_segments, dot_commands, dot_vectors, flags, gates, given, line_commands,
    line_vectors, mark, refusal, vectors, Course, Emitted, Leg, Load, PathError, PathOpts, Point,
    Speed, Vector, CENTRE, MAX_SEGS, SEG_MIN_US, SEG_TIME_US,
};
use crate::status::{flag_at, reply_bytes, SGIN_WEIGHT};
use crate::survey::{can_lead, is_survey, survey};
use crate::unlock::{unlock_move, Move, Moved, Unlocking};
use crate::usb::Failure;
use vstd::prelude::*;
use vstd::string::StringExecFns;

verus! {

/// The bits of 50.0
pub const FIFTY: u64 = 0x4049_0000_0000_0000;

/// Power byte of a job that was never told one.
pub const HALF_POWER: u8 = 0x80;

// ---- failures -------------------------------------------------------------

/// A setting that the laser does not take.
#[derive(Clone, Copy, Debug)]
pub enum ConfigError {
    Frequency { khz: Double, laser: &'static str, lo: Double, hi: Double },
    Power { pct: Double },
    NoParallelPower { laser: &'static str },
    NoPulseWidth { laser: &'static str },
    NoTickle { laser: &'static str },
}

/// A tickle that cannot be had.
#[derive(Clone, Copy, PartialEq, Eq, Structural, Debug)]
pub enum TickError {
    Frequency { khz: Double, lo: Double, hi: Double },
    Width { us: Double, period_us: Double, khz: Double },
}

/// `t` is the failure in words.
pub open spec fn config_says<F: Fn(Double, Style) -> String>(
    e: ConfigError,
    number: F,
    t: Seq<char>,
) -> bool {
    match e {
        ConfigError::Frequency { khz, laser, lo, hi } => range_says(khz, laser@, lo, hi, number, t),
        ConfigError::Power { pct } => exists|a: Seq<char>| #[trigger]
            writes(number, pct, Style::Plain, a) && t == "power "@ + a + "% outside 0..100"@,
        ConfigError::NoParallelPower { laser } => t == laser@ + " has no parallel power word"@,
        ConfigError::NoPulseWidth { laser } => t == laser@
            + " has no pulse-width setting: it is not a parallel-power laser"@,
        ConfigError::NoTickle { laser } => t == laser@ + " has no tickle"@,
    }
}

/// `t` says that a frequency is out of a laser's range.
pub open spec fn range_says<F: Fn(Double, Style) -> String>(
    khz: Double,
    laser: Seq<char>,
    lo: Double,
    hi: Double,
    number: F,
    t: Seq<char>,
) -> bool {
    exists|a: Seq<char>, b: Seq<char>, c: Seq<char>|
        {
            &&& #[trigger] writes(number, khz, Style::Plain, a)
            &&& #[trigger] writes(number, lo, Style::Plain, b)
            &&& #[trigger] writes(number, hi, Style::Plain, c)
            &&& t == a + " kHz outside the "@ + laser + " range "@ + b + ".."@ + c + " kHz"@
        }
}

impl ConfigError {
    /// The failure in words.
    pub fn message<F: Fn(Double, Style) -> String>(&self, number: F) -> (r: String)
        requires
            can_write(number),
        ensures
            config_says(*self, number, r@),
    {
        let mut r = String::new();
        match self {
            ConfigError::Frequency { khz, laser, lo, hi } => {
                let a = push_number(&mut r, &number, *khz, Style::Plain);
                r.append(" kHz outside the ");
                r.append(laser);
                r.append(" range ");
                let b = push_number(&mut r, &number, *lo, Style::Plain);
                r.append("..");
                let c = push_number(&mut r, &number, *hi, Style::Plain);
                r.append(" kHz");
                assert(r@ =~= a@ + " kHz outside the "@ + laser@ + " range "@ + b@ + ".."@ + c@
                    + " kHz"@);
                assert(range_says(*khz, laser@, *lo, *hi, number, r@));
            },
            ConfigError::Power { pct } => {
                r.append("power ");
                let a = push_number(&mut r, &number, *pct, Style::Plain);
                r.append("% outside 0..100");
                assert(r@ =~= "power "@ + a@ + "% outside 0..100"@);
            },
            ConfigError::NoParallelPower { laser } => {
                r.append(laser);
                r.append(" has no parallel power word");
                assert(r@ =~= laser@ + " has no parallel power word"@);
            },
            ConfigError::NoPulseWidth { laser } => {
                r.append(laser);
                r.append(" has no pulse-width setting: it is not a parallel-power laser");
                assert(r@ =~= laser@
                    + " has no pulse-width setting: it is not a parallel-power laser"@);
            },
            ConfigError::NoTickle { laser } => {
                r.append(laser);
                r.append(" has no tickle");
                assert(r@ =~= laser@ + " has no tickle"@);
            },
        }
        r
    }
}

/// `t` is the failure in words.
pub open spec fn tick_says<F: Fn(Double, Style) -> String>(
    e: TickError,
    number: F,
    t: Seq<char>,
) -> bool {
    match e {
        TickError::Frequency { khz, lo, hi } => tick_range_says(khz, lo, hi, number, t),
        TickError::Width { us, period_us, khz } => tick_width_says(us, period_us, khz, number, t),
    }
}

/// `t` says that a tickle pulse does not fit into its period.
pub open spec fn tick_width_says<F: Fn(Double, Style) -> String>(
    us: Double,
    period_us: Double,
    khz: Double,
    number: F,
    t: Seq<char>,
) -> bool {
    exists|a: Seq<char>, b: Seq<char>, c: Seq<char>|
        {
            &&& #[trigger] writes(number, us, Style::Plain, a)
            &&& #[trigger] writes(number, period_us, Style::Fixed(1), b)
            &&& #[trigger] writes(number, khz, Style::Plain, c)
            &&& t == "tickle width "@ + a + " us must be >0 and shorter than the "@ + b
                + " us period at "@ + c + " kHz"@
        }
}

/// `t` says that a tickle frequency is out of range.
pub open spec fn tick_range_says<F: Fn(Double, Style) -> String>(
    khz: Double,
    lo: Double,
    hi: Double,
    number: F,
    t: Seq<char>,
) -> bool {
    exists|a: Seq<char>, b: Seq<char>, c: Seq<char>|
        {
            &&& #[trigger] writes(number, khz, Style::Plain, a)
            &&& #[trigger] writes(number, lo, Style::Plain, b)
            &&& #[trigger] writes(number, hi, Style::Plain, c)
            &&& t == "tickle frequency "@ + a + " kHz outside "@ + b + ".."@ + c + " kHz"@
        }
}

impl TickError {
    /// The failure in words.
    pub fn message<F: Fn(Double, Style) -> String>(&self, number: F) -> (r: String)
        requires
            can_write(number),
        ensures
            tick_says(*self, number, r@),
    {
        let mut r = String::new();
        match self {
            TickError::Frequency { khz, lo, hi } => {
                r.append("tickle frequency ");
                let a = push_number(&mut r, &number, *khz, Style::Plain);
                r.append(" kHz outside ");
                let b = push_number(&mut r, &number, *lo, Style::Plain);
                r.append("..");
                let c = push_number(&mut r, &number, *hi, Style::Plain);
                r.append(" kHz");
                assert(r@ =~= "tickle frequency "@ + a@ + " kHz outside "@ + b@ + ".."@ + c@
                    + " kHz"@);
                assert(tick_range_says(*khz, *lo, *hi, number, r@));
            },
            TickError::Width { us, period_us, khz } => {
                r.append("tickle width ");
                let a = push_number(&mut r, &number, *us, Style::Plain);
                r.append(" us must be >0 and shorter than the ");
                let b = push_number(&mut r, &number, *period_us, Style::Fixed(1));
                r.append(" us period at ");
                let c = push_number(&mut r, &number, *khz, Style::Plain);
                r.append(" kHz");
                assert(r@ =~= "tickle width "@ + a@ + " us must be >0 and shorter than the "@ + b@
                    + " us period at "@ + c@ + " kHz"@);
                assert(tick_width_says(*us, *period_us, *khz, number, r@));
            },
        }
        r
    }
}

// ---- settings -------------------------------------------------------------

/// What a job would put on the wire.
#[derive(Debug)]
pub struct Settings {
    pub laser: &'static str,
    pub code: u8,
    /// The frequency the board actually produces: the divider is an N+1 counter.
    pub freq_khz: Double,
    pub power_pct: Double,
    pub power_byte: u8,
    pub mopa_pulse: Option<u32>,
    pub mo: bool,
    pub tickle: bool,
    pub tick_khz: Option<Double>,
    pub tick_us: Option<Double>,
    pub verified: bool,
}

/// The settings of a session against one board.
pub struct Job {
    field: Field,
    laser: Laser,
    limits: Limits,
    freq_khz: Double,
    power_pct: Double,
    power_byte: u8,
    mopa_pulse: Option<u32>,
    mo: bool,
    tickle: bool,
    tick_khz: Double,
    tick_us: Double,
    live: bool,
    closed: bool,
    warnings: Vec<Warning>,
}

/// The settings of a job.
pub struct Setup {
    pub field: Field,
    pub laser: Laser,
    pub limits: Limits,
    pub freq_khz: Double,
    pub power_pct: Double,
    pub power_byte: u8,
    pub mopa_pulse: Option<u32>,
    pub mo: bool,
    pub tickle: bool,
    pub tick_khz: Double,
    pub tick_us: Double,
    /// The job has programmed a laser output that was not silenced since.
    pub live: bool,
    /// The job was closed.
    pub closed: bool,
    /// Warnings the caller should see, oldest first.
    pub warnings: Seq<Notice>,
}

impl View for Job {
    type V = Setup;

    closed spec fn view(&self) -> Setup {
        Setup {
            field: self.field,
            laser: self.laser,
            limits: self.limits,
            freq_khz: self.freq_khz,
            power_pct: self.power_pct,
            power_byte: self.power_byte,
            mopa_pulse: self.mopa_pulse,
            mo: self.mo,
            tickle: self.tickle,
            tick_khz: self.tick_khz,
            tick_us: self.tick_us,
            live: self.live,
            closed: self.closed,
            warnings: notices(self.warnings@),
        }
    }
}

/// Warnings with their texts as sequences.
pub open spec fn notices(w: Seq<Warning>) -> Seq<Notice> {
    w.map_values(|x: Warning| x@)
}

/// A job that was told nothing but its laser: half power, nothing enabled but the
/// tickle where the laser has one.
pub open spec fn tuned(s: Setup, l: Laser) -> Setup {
    Setup {
        laser: l,
        freq_khz: l.freq_khz,
        power_pct: Double { bits: FIFTY },
        power_byte: HALF_POWER,
        mopa_pulse: None,
        mo: false,
        tickle: l.tickle,
        tick_khz: l.tick_khz,
        tick_us: l.tick_us,
        ..s
    }
}

/// A new job on some field.
pub open spec fn opened(l: Laser, field: Field) -> Setup {
    Setup {
        field,
        laser: l,
        limits: Limits { max_mm_s: None, max_accel_mm_s2: None, max_loop_hz: None },
        freq_khz: l.freq_khz,
        power_pct: Double { bits: FIFTY },
        power_byte: HALF_POWER,
        mopa_pulse: None,
        mo: false,
        tickle: l.tickle,
        tick_khz: l.tick_khz,
        tick_us: l.tick_us,
        live: false,
        closed: false,
        warnings: Seq::empty(),
    }
}

/// A percentage.
pub open spec fn is_percent(p: Double) -> bool {
    (Double { bits: ZERO }).at_most(p) && p.at_most(Double { bits: HUNDRED })
}

/// A power as the other way to give it says it. That takes real arithmetic, so the
/// caller works it out.
#[derive(Clone, Copy, PartialEq, Eq, Structural, Debug)]
pub struct Equivalent {
    /// 255 times the percentage that is asked for, without its fraction.
    pub pct_255: i64,
    /// The percentage that the power byte that is asked for comes to.
    pub byte_pct: Double,
}

/// What `configure` was given.
pub struct Wanted {
    pub freq_khz: Option<Double>,
    pub power_pct: Option<Double>,
    pub power_byte: Option<u8>,
    pub mopa_pulse: Option<u32>,
    pub mo: Option<bool>,
    pub tickle: Option<bool>,
    pub other: Equivalent,
}

/// A frequency outside the range of a laser.
pub open spec fn bad_freq(l: Laser, f: Option<Double>) -> bool {
    f matches Some(f) && (f.below(l.freq_range.0) || l.freq_range.1.below(f))
}

/// The failures of a frequency.
pub open spec fn freq_error(l: Laser, f: Option<Double>) -> Option<ConfigError> {
    if bad_freq(l, f) {
        Some(
            ConfigError::Frequency {
                khz: f->0,
                laser: l.name,
                lo: l.freq_range.0,
                hi: l.freq_range.1,
            },
        )
    } else {
        None
    }
}

/// The failures of a percentage.
pub open spec fn power_error(p: Option<Double>) -> Option<ConfigError> {
    match p {
        Some(p) => if is_percent(p) {
            None
        } else {
            Some(ConfigError::Power { pct: p })
        },
        None => None,
    }
}

/// The failures of a parallel power word and a pulse width.
pub open spec fn parallel_error(l: Laser, w: Wanted) -> Option<ConfigError> {
    if w.power_byte is Some && l.power != Power::Byte {
        Some(ConfigError::NoParallelPower { laser: l.name })
    } else if w.mopa_pulse is Some && l.power != Power::Byte {
        Some(ConfigError::NoPulseWidth { laser: l.name })
    } else {
        None
    }
}

/// The settings with the percentage that is asked for. The power byte follows from
/// it unless it is given too.
pub open spec fn with_percent(s: Setup, w: Wanted) -> Setup {
    match w.power_pct {
        Some(p) => Setup {
            power_pct: p,
            power_byte: if w.power_byte is None {
                percent_byte(w.other.pct_255)
            } else {
                s.power_byte
            },
            ..s
        },
        None => s,
    }
}

/// The settings with the power byte and the pulse width that are asked for. The
/// percentage follows from the byte unless it is given too.
pub open spec fn with_word(s: Setup, w: Wanted) -> Setup {
    Setup {
        power_byte: w.power_byte.unwrap_or(s.power_byte),
        power_pct: if w.power_byte is Some && w.power_pct is None {
            w.other.byte_pct
        } else {
            s.power_pct
        },
        mopa_pulse: if w.mopa_pulse is Some {
            w.mopa_pulse
        } else {
            s.mopa_pulse
        },
        ..s
    }
}

/// Settings are taken one after the other, up to the first that the laser does
/// not take: the settings behind it and the failure.
pub open spec fn configured(s: Setup, w: Wanted) -> (Setup, Option<ConfigError>) {
    let l = s.laser;
    let by_freq = Setup { freq_khz: w.freq_khz.unwrap_or(s.freq_khz), ..s };
    let by_power = with_percent(by_freq, w);
    let by_word = with_word(by_power, w);
    let by_mo = Setup { mo: w.mo.unwrap_or(s.mo), ..by_word };
    if freq_error(l, w.freq_khz) is Some {
        (s, freq_error(l, w.freq_khz))
    } else if power_error(w.power_pct) is Some {
        (by_freq, power_error(w.power_pct))
    } else if parallel_error(l, w) is Some {
        (by_power, parallel_error(l, w))
    } else if w.tickle == Some(true) && !l.tickle {
        (by_mo, Some(ConfigError::NoTickle { laser: l.name }))
    } else {
        (Setup { tickle: w.tickle.unwrap_or(s.tickle), ..by_mo }, None)
    }
}

/// What a tickle of this frequency and width is refused for, given the period of
/// the frequency in microseconds.
pub open spec fn tick_refusal(l: Laser, khz: Double, us: Double, period_us: Double) -> Option<
    TickError,
> {
    let (lo, hi) = l.tick_range;
    if khz.below(lo) || hi.below(khz) {
        Some(TickError::Frequency { khz, lo, hi })
    } else if us.at_most(Double { bits: ZERO }) || period_us.at_most(us) {
        Some(TickError::Width { us, period_us, khz })
    } else {
        None
    }
}

/// Limits with what is newly known in place of what was.
pub open spec fn known_limits(was: Limits, l: Limits) -> Limits {
    Limits {
        max_mm_s: if l.max_mm_s is Some {
            l.max_mm_s
        } else {
            was.max_mm_s
        },
        max_accel_mm_s2: if l.max_accel_mm_s2 is Some {
            l.max_accel_mm_s2
        } else {
            was.max_accel_mm_s2
        },
        max_loop_hz: if l.max_loop_hz is Some {
            l.max_loop_hz
        } else {
            was.max_loop_hz
        },
    }
}

fn refuse_power(p: Option<Double>) -> (r: Option<ConfigError>)
    ensures
        r == power_error(p),
{
    match p {
        Some(p) => {
            let zero = Double { bits: ZERO };
            if zero.le(p) && p.le(Double { bits: HUNDRED }) {
                None
            } else {
                Some(ConfigError::Power { pct: p })
            }
        },
        None => None,
    }
}

impl Job {
    pub fn new(laser_kind: &str, field: Option<Field>) -> (r: Result<Job, UnknownLaser>)
        ensures
            match r {
                Ok(j) => {
                    &&& selected(laser_kind@) is Some
                    &&& j@ == opened(selected(laser_kind@)->0, j@.field)
                    &&& match field {
                        Some(f) => j@.field == f,
                        None => sized(j@.field, (Double { bits: HUNDRED })),
                    }
                },
                Err(e) => selected(laser_kind@) is None && e.kind@ == laser_kind@,
            },
    {
        let l = match laser::get(laser_kind) {
            Ok(l) => l,
            Err(e) => {
                return Err(e);
            },
        };
        let j = Job {
            field: match field {
                Some(f) => f,
                None => Field::default(),
            },
            laser: l,
            limits: Limits::default(),
            freq_khz: l.freq_khz,
            power_pct: Double { bits: FIFTY },
            power_byte: HALF_POWER,
            mopa_pulse: None,
            mo: false,
            tickle: l.tickle,
            tick_khz: l.tick_khz,
            tick_us: l.tick_us,
            live: false,
            closed: false,
            warnings: Vec::new(),
        };
        assert(j@.warnings =~= Seq::<Notice>::empty());
        Ok(j)
    }

    fn warn(&mut self, w: Warning)
        ensures
            final(self)@ == (Setup { warnings: old(self)@.warnings.push(w@), ..old(self)@ }),
    {
        self.warnings.push(w);
        assert(notices(self.warnings@) =~= old(self)@.warnings.push(w@));
    }

    // ---- readings -------------------------------------------------------

    /// Work on another field from here on.
    pub fn set_field(&mut self, field: Field)
        ensures
            final(self)@ == (Setup { field, ..old(self)@ }),
    {
        self.field = field;
    }

    pub fn field(&self) -> (r: &Field)
        ensures
            *r == self@.field,
    {
        &self.field
    }

    pub fn laser(&self) -> (r: Laser)
        ensures
            r == self@.laser,
    {
        self.laser
    }

    pub fn limits(&self) -> (r: Limits)
        ensures
            r == self@.limits,
    {
        self.limits
    }

    pub fn freq_khz(&self) -> (r: Double)
        ensures
            r == self@.freq_khz,
    {
        self.freq_khz
    }

    pub fn power_pct(&self) -> (r: Double)
        ensures
            r == self@.power_pct,
    {
        self.power_pct
    }

    pub fn tick_khz(&self) -> (r: Double)
        ensures
            r == self@.tick_khz,
    {
        self.tick_khz
    }

    pub fn tick_us(&self) -> (r: Double)
        ensures
            r == self@.tick_us,
    {
        self.tick_us
    }

    pub fn is_live(&self) -> (r: bool)
        ensures
            r == self@.live,
    {
        self.live
    }

    /// The warnings since the last call, which are then cleared.
    pub fn take_warnings(&mut self) -> (r: Vec<Warning>)
        ensures
            notices(r@) == old(self)@.warnings,
            final(self)@ == (Setup { warnings: Seq::empty(), ..old(self)@ }),
    {
        let mut r: Vec<Warning> = Vec::new();
        std::mem::swap(&mut r, &mut self.warnings);
        assert(notices(self.warnings@) =~= Seq::<Notice>::empty());
        r
    }

    // ---- configuration --------------------------------------------------

    pub fn select(&mut self, kind: &str) -> (r: Result<(), UnknownLaser>)
        ensures
            match r {
                Ok(_) => selected(kind@) is Some && final(self)@ == tuned(
                    old(self)@,
                    selected(kind@)->0,
                ),
                Err(e) => selected(kind@) is None && e.kind@ == kind@ && final(self)@
                    == old(self)@,
            },
    {
        let l = match laser::get(kind) {
            Ok(l) => l,
            Err(e) => {
                return Err(e);
            },
        };
        self.freq_khz = l.freq_khz;
        self.power_pct = Double { bits: FIFTY };
        self.power_byte = HALF_POWER;
        self.mopa_pulse = None;
        self.mo = false;
        self.tickle = l.tickle;
        self.tick_khz = l.tick_khz;
        self.tick_us = l.tick_us;
        self.laser = l;
        Ok(())
    }

    /// Store settings for the next job header; nothing goes on the wire. They are
    /// taken one after the other, so those ahead of one that is refused stay. Pass
    /// `power_pct` or `power_byte`, whichever suits the laser, and the other is
    /// derived: as `other` says it.
    pub fn configure(
        &mut self,
        freq_khz: Option<Double>,
        power_pct: Option<Double>,
        power_byte: Option<u8>,
        mopa_pulse: Option<u32>,
        mo: Option<bool>,
        tickle: Option<bool>,
        other: Equivalent,
    ) -> (r: Result<(), ConfigError>)
        ensures
            ({
                let w = Wanted { freq_khz, power_pct, power_byte, mopa_pulse, mo, tickle, other };
                let (s, e) = configured(old(self)@, w);
                &&& final(self)@ == s
                &&& match r {
                    Ok(_) => e is None,
                    Err(x) => e == Some(x),
                }
            }),
    {
        if let Some(e) = self.refuse_freq(freq_khz) {
            return Err(e);
        }
        self.freq_khz = freq_khz.unwrap_or(self.freq_khz);
        if let Some(e) = refuse_power(power_pct) {
            return Err(e);
        }
        let ghost w = Wanted { freq_khz, power_pct, power_byte, mopa_pulse, mo, tickle, other };
        self.take_percent(power_pct, power_byte.is_some(), other, Ghost(w));
        let name = self.laser.name;
        if self.laser.power != Power::Byte {
            if power_byte.is_some() {
                return Err(ConfigError::NoParallelPower { laser: name });
            }
            if mopa_pulse.is_some() {
                return Err(ConfigError::NoPulseWidth { laser: name });
            }
        }
        self.take_word(power_byte, power_pct.is_some(), mopa_pulse, other, Ghost(w));
        self.mo = mo.unwrap_or(self.mo);
        if let Some(true) = tickle {
            if !self.laser.tickle {
                return Err(ConfigError::NoTickle { laser: name });
            }
        }
        self.tickle = tickle.unwrap_or(self.tickle);
        Ok(())
    }

    fn take_percent(
        &mut self,
        power_pct: Option<Double>,
        by_byte: bool,
        other: Equivalent,
        Ghost(w): Ghost<Wanted>,
    )
        requires
            power_pct == w.power_pct,
            by_byte == w.power_byte is Some,
            other == w.other,
        ensures
            final(self)@ == with_percent(old(self)@, w),
    {
        if let Some(p) = power_pct {
            self.power_pct = p;
            if !by_byte {
                self.power_byte = byte_of_percent(other.pct_255);
            }
        }
    }

    fn take_word(
        &mut self,
        power_byte: Option<u8>,
        by_percent: bool,
        mopa_pulse: Option<u32>,
        other: Equivalent,
        Ghost(w): Ghost<Wanted>,
    )
        requires
            power_byte == w.power_byte,
            by_percent == w.power_pct is Some,
            mopa_pulse == w.mopa_pulse,
            other == w.other,
        ensures
            final(self)@ == with_word(old(self)@, w),
    {
        if let Some(b) = power_byte {
            self.power_byte = b;
            if !by_percent {
                self.power_pct = other.byte_pct;
            }
        }
        if mopa_pulse.is_some() {
            self.mopa_pulse = mopa_pulse;
        }
    }

    fn refuse_freq(&self, f: Option<Double>) -> (r: Option<ConfigError>)
        ensures
            r == freq_error(self@.laser, f),
    {
        match f {
            Some(f) => {
                let (lo, hi) = self.laser.freq_range;
                if f.lt(lo) || hi.lt(f) {
                    Some(ConfigError::Frequency { khz: f, laser: self.laser.name, lo, hi })
                } else {
                    None
                }
            },
            None => None,
        }
    }

    /// State what the machine can actually do, for the wiggle checks.
    pub fn set_limits(&mut self, l: Limits)
        ensures
            final(self)@ == (Setup { limits: known_limits(old(self)@.limits, l), ..old(self)@ }),
    {
        if l.max_mm_s.is_some() {
            self.limits.max_mm_s = l.max_mm_s;
        }
        if l.max_accel_mm_s2.is_some() {
            self.limits.max_accel_mm_s2 = l.max_accel_mm_s2;
        }
        if l.max_loop_hz.is_some() {
            self.limits.max_loop_hz = l.max_loop_hz;
        }
    }

    /// MO and PA enable, 0x0211 Param1 bit 8. Takes effect on the next header.
    pub fn mo(&mut self, on: bool) -> (r: bool)
        ensures
            r == on,
            final(self)@ == (Setup { mo: on, ..old(self)@ }),
    {
        self.mo = on;
        on
    }

    /// Set the tickle shape. Frequency and width are independent, and the
    /// generator is FREE-RUNNING: it survives job end and host exit. `period_us`
    /// is the period of the frequency that is asked for, or else kept.
    pub fn tick(
        &mut self,
        freq_khz: Option<Double>,
        width_us: Option<Double>,
        enable: Option<bool>,
        period_us: Double,
    ) -> (r: Result<(Double, Double), TickError>)
        ensures
            ({
                let s = old(self)@;
                let khz = freq_khz.unwrap_or(s.tick_khz);
                let us = width_us.unwrap_or(s.tick_us);
                match r {
                    Ok(v) => {
                        &&& tick_refusal(s.laser, khz, us, period_us) is None
                        &&& v == (khz, us)
                        &&& final(self)@ == (Setup {
                            tick_khz: khz,
                            tick_us: us,
                            tickle: enable.unwrap_or(s.tickle),
                            ..s
                        })
                    },
                    Err(e) => tick_refusal(s.laser, khz, us, period_us) == Some(e)
                        && final(self)@ == s,
                }
            }),
    {
        let f = freq_khz.unwrap_or(self.tick_khz);
        let w = width_us.unwrap_or(self.tick_us);
        let (lo, hi) = self.laser.tick_range;
        if f.lt(lo) || hi.lt(f) {
            return Err(TickError::Frequency { khz: f, lo, hi });
        }
        if w.le(Double { bits: ZERO }) || period_us.le(w) {
            return Err(TickError::Width { us: w, period_us, khz: f });
        }
        self.tick_khz = f;
        self.tick_us = w;
        if let Some(e) = enable {
            self.tickle = e;
        }
        Ok((f, w))
    }

    /// What would go on the wire, as a settings snapshot. `actual_khz` is the
    /// frequency that the N+1 counter makes of the one that is set.
    pub fn settings(&self, actual_khz: Double) -> (r: Settings)
        ensures
            ({
                let s = self@;
                r == (Settings {
                    laser: s.laser.name,
                    code: s.laser.code,
                    freq_khz: actual_khz,
                    power_pct: s.power_pct,
                    power_byte: s.power_byte,
                    mopa_pulse: s.mopa_pulse,
                    mo: s.mo,
                    tickle: s.tickle,
                    tick_khz: if s.laser.tickle {
                        Some(s.tick_khz)
                    } else {
                        None
                    },
                    tick_us: if s.laser.tickle {
                        Some(s.tick_us)
                    } else {
                        None
                    },
                    verified: s.laser.verified,
                })
            }),
    {
        Settings {
            laser: self.laser.name,
            code: self.laser.code,
            freq_khz: actual_khz,
            power_pct: self.power_pct,
            power_byte: self.power_byte,
            mopa_pulse: self.mopa_pulse,
            mo: self.mo,
            tickle: self.tickle,
            tick_khz: if self.laser.tickle {
                Some(self.tick_khz)
            } else {
                None
            },
            tick_us: if self.laser.tickle {
                Some(self.tick_us)
            } else {
                None
            },
            verified: self.laser.verified,
        }
    }

    // ---- distances and loads ---------------------------------------------

    /// Millimetres to a count distance, for radii and spacings. `rounded` is the
    /// distance over the size of a count.
    pub fn counts(&mut self, mm: Double, rounded: i64, what: &str) -> (r: i64)
        ensures
            ({
                let s = old(self)@;
                let nothing = mm.equals(Double { bits: ZERO });
                &&& r == if nothing {
                    0
                } else {
                    rounded
                }
                &&& final(self)@ == if !nothing && rounded == 0 && what@.len() > 0 {
                    Setup {
                        warnings: s.warnings.push(
                            Notice::UnderOneCount {
                                what: what@,
                                mm,
                                size_mm: s.field.size_mm,
                            },
                        ),
                        ..s
                    }
                } else {
                    s
                }
            }),
    {
        if mm.same(Double { bits: ZERO }) {
            return 0;
        }
        if rounded == 0 && what.unicode_len() > 0 {
            let size_mm = self.field.size_mm;
            self.warn(Warning::UnderOneCount { what: String::from_str(what), mm, size_mm });
        }
        rounded
    }

    /// What a wiggle asks of the mirrors, before you cut anything.
    ///
    /// A circle of radius r walked at v needs v^2 / r sideways, continuously. 0.1 mm
    /// at 600 mm/s is 3.6e6 mm/s^2, some 367 g, which no galvo follows: what comes
    /// out instead is a smoothed, smaller loop with the dwell piling up wherever
    /// the servo reverses.
    pub fn wiggle_load(&self, load: &Load) -> (r: Result<WiggleLoad, NotPositive>)
        ensures
            match r {
                Err(_) => !is_load(*load),
                Ok(w) => {
                    &&& is_load(*load)
                    &&& w.loop_hz == load.loop_hz
                    &&& w.accel_mm_s2 == load.accel_mm_s2
                    &&& w.accel_g == load.accel_g
                    &&& w.exposure == load.exposure
                    &&& w.chord_mm == load.chord_mm
                    &&& w.vectors_per_s == load.vectors_per_s
                    &&& w.exceeded@ == excesses(self@.limits, *load)
                },
            },
    {
        judge(&self.limits, load)
    }

    fn warn_wiggle_load(&mut self, load: &Load)
        ensures
            final(self)@ == (Setup {
                warnings: old(self)@.warnings + load_notice(old(self)@.limits, *load),
                ..old(self)@
            }),
    {
        let ghost s = self@;
        match load_warning(&self.limits, load) {
            Some(w) => {
                self.warn(w);
                assert(self@.warnings =~= s.warnings + seq![w@]);
            },
            None => {
                assert(self@.warnings =~= s.warnings + Seq::<Notice>::empty());
            },
        }
    }

    /// The acceleration to size a run-up by, as v^2 / 2a: the one given, else the
    /// one that the machine is known for.
    pub fn runup_accel(&self, accel_mm_s2: Option<Double>) -> (r: Option<Double>)
        ensures
            r == if accel_mm_s2 is Some {
                accel_mm_s2
            } else {
                self@.limits.max_accel_mm_s2
            },
    {
        if accel_mm_s2.is_some() {
            accel_mm_s2
        } else {
            self.limits.max_accel_mm_s2
        }
    }
}

// ---- job header -----------------------------------------------------------

/// What the frequencies, widths and percentages of a job come to on the board's
/// clock, rounded to whole numbers.
#[derive(Clone, Copy, PartialEq, Eq, Structural, Debug)]
pub struct Wave {
    /// The marking frequency and the pulse of its duty.
    pub mark: PulseTicks,
    /// 255 times the power percentage, without its fraction.
    pub pct_255: i64,
    /// Ticks in a tickle period.
    pub tick_period: u16,
    /// Ticks in a tickle pulse.
    pub tick_width: u16,
}

/// 0x0211: the laser type in the high byte of Param0, the pilot pointer in the low
/// one, the amplifier enables in Param1.
pub open spec fn type_frame(code: u8, pointer: u8, mo: bool) -> Seq<u8> {
    frame(
        CMD_LASER_TYPE,
        (code * 256 + pointer) as u16,
        if mo {
            MO_ENABLE
        } else {
            0
        },
        0,
        0,
        0,
    )
}

/// 0x0217: the tickle generator.
pub open spec fn tick_frame(on: bool, w: Wave) -> Seq<u8> {
    frame(
        CMD_TICK,
        if on {
            0x0100
        } else {
            0
        },
        w.tick_period,
        w.tick_width,
        0,
        0,
    )
}

/// 0x0210: marking power and frequency as the laser takes them.
pub open spec fn drive_frame(s: Setup, w: Wave) -> Seq<u8> {
    if s.laser.power == Power::Byte {
        power_frame(w.mark, s.power_byte, 0)
    } else {
        power_frame(w.mark, percent_byte(w.pct_255), 0)
    }
}

/// 0x0206: the MOPA pulse width.
pub open spec fn pulse_frame(ns: u32) -> Seq<u8> {
    frame(CMD_MOPA_PULSE, MOPA_SPI_HDR, (ns % 0x10000) as u16, 0, 0, 0)
}

/// The generator idle: the frequency kept, no pulse.
pub open spec fn idle(t: PulseTicks) -> PulseTicks {
    PulseTicks { width: 0, ..t }
}

/// The parameter header of a job.
pub open spec fn header_bytes(s: Setup, w: Wave) -> Seq<u8> {
    type_frame(s.laser.code, 0, s.mo) + drive_frame(s, w) + (match s.mopa_pulse {
        Some(ns) => pulse_frame(ns),
        None => Seq::empty(),
    }) + tick_frame(s.tickle, w) + bare(CMD_LASER_GATE)
}

/// Bit 1 or 2 of the power byte is set: those are the MOPA SPI lines.
pub open spec fn collides(power_byte: u8) -> bool {
    (power_byte / 2) % 4 != 0
}

/// The warning that a power byte calls for where a pulse width is sent.
pub open spec fn collision(s: Setup) -> Seq<Notice> {
    if collides(s.power_byte) {
        seq![Notice::PowerByteCollides { power_byte: s.power_byte }]
    } else {
        Seq::empty()
    }
}

/// The job behind its header.
pub open spec fn headed(s: Setup) -> Setup {
    Setup {
        live: true,
        warnings: if s.mopa_pulse is Some {
            s.warnings + collision(s)
        } else {
            s.warnings
        },
        ..s
    }
}

/// The job behind a header with a pulse width.
pub open spec fn pulsed(s: Setup, ns: u32) -> Setup {
    Setup {
        live: true,
        mopa_pulse: Some(ns),
        warnings: s.warnings + collision(s),
        ..s
    }
}

/// The job behind a batch that programs a laser output.
pub open spec fn driving(s: Setup) -> Setup {
    Setup { live: true, ..s }
}

/// The questions that arm the board.
pub open spec fn arm_steps() -> Seq<Deed> {
    seq![
        Deed::Ask(bare(CMD_CLEAR_CACHE)),
        Deed::Ask(bare(CMD_RESET)),
        Deed::Ask(bare(CMD_RUN)),
    ]
}

/// One question.
pub open spec fn asks(c: Seq<u8>) -> Seq<Deed> {
    seq![Deed::Ask(c)]
}

/// Arm, then one batch.
pub open spec fn armed_batch(b: Seq<u8>) -> Seq<Deed> {
    arm_steps().push(Deed::Data(b))
}

/// What `laser_off` writes: every generator and the laser gate zeroed.
pub open spec fn silence_bytes(code: u8) -> Seq<u8> {
    type_frame(code, 0, false) + bare(CMD_POWER) + bare(CMD_TICK) + bare(CMD_LASER_GATE)
}

/// Zero the generators first, then clear the queue and reset.
pub open spec fn silence_steps(code: u8) -> Seq<Deed> {
    seq![
        Deed::Silence(silence_bytes(code)),
        Deed::Pause(50_000_000),
        Deed::Ask(bare(CMD_CLEAR_CACHE)),
        Deed::Ask(bare(CMD_RESET)),
    ]
}

/// What stops the machine: the laser gate first, in a batch of its own, then the
/// queue and the engine.
pub open spec fn abort_steps() -> Seq<Deed> {
    seq![
        Deed::Silence(bare(CMD_LASER_GATE)),
        Deed::Ask(bare(CMD_CLEAR_CACHE)),
        Deed::Ask(bare(CMD_RESET)),
        Deed::Ask(bare(CMD_RUN)),
        Deed::Ask(bare(CMD_RESET)),
    ]
}

/// The job behind `laser_off`: nothing is enabled and nothing is live.
pub open spec fn silenced(s: Setup) -> Setup {
    Setup { tickle: false, mo: false, live: false, ..s }
}

/// A job that programmed an output and was never closed.
pub open spec fn owes(s: Setup) -> bool {
    !s.closed && s.live
}

/// What closing a job does on the board, and the job behind it.
pub open spec fn closing(s: Setup, quiet: bool) -> (Seq<Deed>, Setup) {
    if quiet && s.live {
        (silence_steps(s.laser.code), Setup { closed: true, ..silenced(s) })
    } else {
        (asks(bare(CMD_RESET)), Setup { closed: true, ..s })
    }
}

/// The job behind a script that was carried out, with or without lit vectors that
/// went out.
pub open spec fn carried_out(
    s: Setup,
    lands: bool,
    unsilenced: Option<(Failure, Failure)>,
) -> Setup {
    Setup {
        live: s.live || lands,
        warnings: match unsilenced {
            Some((first, second)) => s.warnings.push(Notice::NotSilenced { first, second }),
            None => s.warnings,
        },
        ..s
    }
}

fn one(c: [u8; 12]) -> (r: Script)
    ensures
        r@ == asks(c@),
        script_ok(r@),
        !r.lands,
{
    let mut r = Script::new();
    r.push(Step::Ask(c));
    assert(r@ =~= asks(c@));
    r
}

fn arm() -> (r: Script)
    ensures
        r@ == arm_steps(),
        script_ok(r@),
        !r.lands,
{
    let mut r = Script::new();
    r.push(Step::Ask(cmd(CMD_CLEAR_CACHE, 0, 0, 0, 0, 0)));
    r.push(Step::Ask(cmd(CMD_RESET, 0, 0, 0, 0, 0)));
    r.push(Step::Ask(cmd(CMD_RUN, 0, 0, 0, 0, 0)));
    assert(r@ =~= arm_steps());
    r
}

fn arm_and_write(blob: Vec<u8>) -> (r: Script)
    requires
        is_batch(blob@),
    ensures
        r@ == armed_batch(blob@),
        script_ok(r@),
        !r.lands,
{
    let mut r = arm();
    r.push(Step::Data(blob));
    r
}

fn write(blob: Vec<u8>) -> (r: Script)
    requires
        is_batch(blob@),
    ensures
        r@ == seq![Deed::Data(blob@)],
        script_ok(r@),
        !r.lands,
{
    let mut r = Script::new();
    r.push(Step::Data(blob));
    assert(r@ =~= seq![Deed::Data(blob@)]);
    r
}

fn append(blob: &mut Vec<u8>, c: [u8; 12])
    ensures
        final(blob)@ == old(blob)@ + c@,
{
    blob.extend_from_slice(c.as_slice());
    assert(blob@ =~= old(blob)@ + c@);
}

fn type_command(code: u8, pointer: u8, mo: bool) -> (r: [u8; 12])
    ensures
        r@ == type_frame(code, pointer, mo),
{
    cmd(
        CMD_LASER_TYPE,
        code as u16 * 256 + pointer as u16,
        if mo {
            MO_ENABLE
        } else {
            0
        },
        0,
        0,
        0,
    )
}

fn tick_command(on: bool, w: Wave) -> (r: [u8; 12])
    ensures
        r@ == tick_frame(on, w),
{
    cmd(
        CMD_TICK,
        if on {
            0x0100
        } else {
            0
        },
        w.tick_period,
        w.tick_width,
        0,
        0,
    )
}

/// The low 16 bits of -0x3000 times a number.
fn low_negative(n: u32) -> (r: u16)
    ensures
        r == (-(n * 0x3000)) % 0x10000,
{
    let x: u64 = n as u64 * 0x3000;
    let q: u64 = x / 0x10000;
    let low: u64 = x % 0x10000;
    let r: u64 = if low == 0 {
        0
    } else {
        0x10000 - low
    };
    proof {
        let up: int = if low == 0 {
            -(q as int)
        } else {
            -(q as int) - 1
        };
        assert(-(x as int) == up * 0x10000 + r);
        vstd::arithmetic::div_mod::lemma_fundamental_div_mod_converse(
            -(x as int),
            0x10000,
            up,
            r as int,
        );
    }
    r as u16
}

fn gate_command() -> (r: [u8; 12])
    ensures
        r@ == bare(CMD_LASER_GATE),
{
    cmd(CMD_LASER_GATE, 0, 0, 0, 0, 0)
}

impl Job {
    fn warn_collision(&mut self)
        ensures
            final(self)@ == (Setup {
                warnings: old(self)@.warnings + collision(old(self)@),
                ..old(self)@
            }),
    {
        let ghost s = self@;
        let power_byte: u8 = self.power_byte;
        assert((power_byte & 0x06 != 0) == ((power_byte / 2) % 4 != 0)) by (bit_vector);
        if power_byte & MOPA_SPI_MASK != 0 {
            self.warn(Warning::PowerByteCollides { power_byte });
        }
        assert(self@.warnings =~= s.warnings + collision(s));
    }

    fn header(&mut self, w: Wave) -> (r: Vec<u8>)
        ensures
            r@ == header_bytes(old(self)@, w),
            is_batch(r@),
            final(self)@ == headed(old(self)@),
    {
        let ghost s = self@;
        let drive: [u8; 12] = if self.laser.power == Power::Byte {
            set_power_raw(w.mark, self.power_byte, 0)
        } else {
            set_power_0210(w.mark, w.pct_255, 0).0
        };
        let mut h: Vec<u8> = Vec::new();
        append(&mut h, type_command(self.laser.code, 0, self.mo));
        append(&mut h, drive);
        if let Some(ns) = self.mopa_pulse {
            self.warn_collision();
            append(&mut h, mopa_pulse_ns(ns));
        }
        append(&mut h, tick_command(self.tickle, w));
        append(&mut h, gate_command());
        self.live = true;
        assert(h@ =~= header_bytes(s, w));
        h
    }

    /// Reset, arm, and push the parameter header plus the opening jump.
    pub fn begin(&mut self, start: Point, speed: u16, w: Wave) -> (r: Script)
        ensures
            r@ == armed_batch(
                header_bytes(old(self)@, w) + frame(CMD_JUMP, speed, start.0, start.1, 0, 500),
            ),
            script_ok(r@),
            !r.lands,
            final(self)@ == headed(old(self)@),
    {
        let mut blob = self.header(w);
        append(&mut blob, cmd(CMD_JUMP, speed, start.0, start.1, 0, 500));
        arm_and_write(blob)
    }

    /// Emit lit vectors through `points`, paced to the board.
    ///
    /// `speed` is the per-segment duration in microseconds, so the pace has to
    /// follow it: pacing on a fixed per-segment cost alone under-sleeps on a slow
    /// mark and overruns the queue.
    pub fn lines(&self, points: &[Point], speed: u16, delay: u16) -> (r: Script)
        ensures
            r@ == paced(line_vectors(points@, speed, delay), SEG_TIME_US as int),
            script_ok(r@),
            r.lands,
    {
        let v = line_commands(points, speed, delay);
        emit(v.as_slice(), SEG_TIME_US).0
    }

    /// Unlit move. 0x8000 is centre, full span 0x0000..0xFFFF.
    pub fn jump(&self, x: u16, y: u16, speed: u16, delay: u16) -> (r: Script)
        ensures
            r@ == seq![Deed::Data(frame(CMD_JUMP, speed, x, y, 0, delay))],
            script_ok(r@),
            !r.lands,
    {
        let mut blob: Vec<u8> = Vec::new();
        append(&mut blob, cmd(CMD_JUMP, speed, x, y, 0, delay));
        assert(blob@ =~= frame(CMD_JUMP, speed, x, y, 0, delay));
        write(blob)
    }

    // ---- questions ------------------------------------------------------

    pub fn status(&self) -> (r: Script)
        ensures
            r@ == asks(bare(CMD_STATUS)),
            script_ok(r@),
            !r.lands,
    {
        one(cmd(CMD_STATUS, 0, 0, 0, 0, 0))
    }

    /// The question whose reply `unlocked` reads.
    pub fn ask_unlocked(&self) -> (r: Script)
        ensures
            r@ == asks(bare(CMD_ENCRYPT_STATE)),
            script_ok(r@),
            !r.lands,
    {
        one(cmd(CMD_ENCRYPT_STATE, 0, 0, 0, 0, 0))
    }

    /// Set output port `port` to `value`. 0x0111 takes the index in the HIGH byte
    /// of Param0 and the level in Param1, and goes on EP 0x06.
    pub fn out(&self, port: u8, value: u16) -> (r: Script)
        ensures
            r@ == asks(frame(CMD_PORT_OUT, (port * 256) as u16, value, 0, 0, 0)),
            script_ok(r@),
            !r.lands,
    {
        one(cmd(CMD_PORT_OUT, port as u16 * 256, value, 0, 0, 0))
    }

    pub fn out_state(&self) -> (r: Script)
        ensures
            r@ == asks(bare(CMD_PORT_OUT_STATE)),
            script_ok(r@),
            !r.lands,
    {
        one(cmd(CMD_PORT_OUT_STATE, 0, 0, 0, 0, 0))
    }

    pub fn stop(&self) -> (r: Script)
        ensures
            r@ == asks(bare(CMD_RESET)),
            script_ok(r@),
            !r.lands,
    {
        one(cmd(CMD_RESET, 0, 0, 0, 0, 0))
    }

    // ---- laser hardware -------------------------------------------------

    /// MOPA pulse width in nanoseconds, sent as an SPI frame on P1 and P2. A power
    /// byte that holds those lines mangles the frame, so that is warned of.
    pub fn mopa_pulse(&mut self, ns: u32, w: Wave) -> (r: Script)
        ensures
            r@ == armed_batch(header_bytes(old(self)@, w) + pulse_frame(ns)),
            script_ok(r@),
            !r.lands,
            final(self)@ == pulsed(old(self)@, ns),
    {
        let first: bool = self.mopa_pulse.is_none();
        let mut blob = self.header(w);
        if first {
            self.warn_collision();
        }
        append(&mut blob, mopa_pulse_ns(ns));
        self.mopa_pulse = Some(ns);
        arm_and_write(blob)
    }

    /// Fiber parallel power word P0..P7. WARNING: this puts a live signal on the
    /// laser control output and leaves it there until laser_off(). `t` is the
    /// frequency to run at.
    pub fn power_byte(&mut self, value: u8, t: PulseTicks) -> (r: Script)
        ensures
            r@ == armed_batch(
                type_frame(old(self)@.laser.code, 0, false) + power_frame(idle(t), value, 0)
                    + bare(CMD_LASER_GATE),
            ),
            script_ok(r@),
            !r.lands,
            final(self)@ == driving(old(self)@),
    {
        let mut blob: Vec<u8> = Vec::new();
        append(&mut blob, type_command(self.laser.code, 0, false));
        append(&mut blob, set_power_raw(PulseTicks { width: 0, ..t }, value, 0));
        append(&mut blob, gate_command());
        self.live = true;
        assert(blob@ =~= type_frame(old(self)@.laser.code, 0, false) + power_frame(
            idle(t),
            value,
            0,
        ) + bare(CMD_LASER_GATE));
        arm_and_write(blob)
    }

    /// Pilot / red pointer. The low byte of 0x0211 Param0 selects it: 0x22 is the
    /// pointer, 0x00 normal marking, with the laser type in the high byte. It
    /// latches, so this is a static on/off. The power word and the tickle go with
    /// it, on or off, and are left running until laser_off().
    pub fn red_light(&mut self, on: bool, w: Wave) -> (r: Script)
        ensures
            r@ == armed_batch(
                type_frame(
                    old(self)@.laser.code,
                    if on {
                        0x22
                    } else {
                        0
                    },
                    false,
                ) + power_frame(w.mark, percent_byte(w.pct_255), 0) + tick_frame(
                    old(self)@.tickle,
                    w,
                ) + bare(CMD_LASER_GATE),
            ),
            script_ok(r@),
            !r.lands,
            final(self)@ == driving(old(self)@),
    {
        let pointer: u8 = if on {
            0x22
        } else {
            0
        };
        let mut blob: Vec<u8> = Vec::new();
        append(&mut blob, type_command(self.laser.code, pointer, false));
        append(&mut blob, set_power_0210(w.mark, w.pct_255, 0).0);
        append(&mut blob, tick_command(self.tickle, w));
        append(&mut blob, gate_command());
        self.live = true;
        assert(blob@ =~= type_frame(old(self)@.laser.code, pointer, false) + power_frame(
            w.mark,
            percent_byte(w.pct_255),
            0,
        ) + tick_frame(old(self)@.tickle, w) + bare(CMD_LASER_GATE));
        arm_and_write(blob)
    }

    /// Stepper axis move. Speed is pulses per second directly, the move
    /// self-terminates after `pulses`, and DIR is 0x0230 Param4 bit 0x100. The power
    /// word ahead of it is left standing until laser_off().
    pub fn axis_move(
        &mut self,
        pulses: u32,
        pps: u32,
        direction: bool,
        flags: u16,
        min_pps: Option<u32>,
        acctime: u16,
        p232: u16,
        t: PulseTicks,
    ) -> (r: Script)
        ensures
            r@ == armed_batch(
                type_frame(old(self)@.laser.code, 0, false) + power_frame(idle(t), HALF_POWER, 0)
                    + bare(CMD_LASER_GATE),
            ).push(
                Deed::Data(
                    frame(
                        CMD_AXIS_COUNT,
                        (pulses / 0x10000) as u16,
                        (pulses % 0x10000) as u16,
                        0,
                        0,
                        if direction {
                            flags | 0x100
                        } else {
                            flags
                        },
                    ) + frame(
                        CMD_AXIS_RATE,
                        (min_pps.unwrap_or(pps) % 0x10000) as u16,
                        (pps % 0x10000) as u16,
                        ((acctime % 256) * 256) as u16,
                        0,
                        0,
                    ) + frame(CMD_AXIS_P232, p232, 0, 0, 0, 0) + bare(CMD_AXIS_GO),
                ),
            ),
            script_ok(r@),
            !r.lands,
            final(self)@ == driving(old(self)@),
    {
        let mut head: Vec<u8> = Vec::new();
        append(&mut head, type_command(self.laser.code, 0, false));
        append(&mut head, set_power_raw(PulseTicks { width: 0, ..t }, HALF_POWER, 0));
        append(&mut head, gate_command());
        self.live = true;
        assert(head@ =~= type_frame(old(self)@.laser.code, 0, false) + power_frame(
            idle(t),
            HALF_POWER,
            0,
        ) + bare(CMD_LASER_GATE));
        let mn: u32 = min_pps.unwrap_or(pps);
        let p4: u16 = if direction {
            flags | 0x100
        } else {
            flags
        };
        let count = cmd(
            CMD_AXIS_COUNT,
            (pulses / 0x10000) as u16,
            (pulses % 0x10000) as u16,
            0,
            0,
            p4,
        );
        let rate = cmd(
            CMD_AXIS_RATE,
            (mn % 0x10000) as u16,
            (pps % 0x10000) as u16,
            (acctime % 256) * 256,
            0,
            0,
        );
        let mut blob: Vec<u8> = Vec::new();
        append(&mut blob, count);
        append(&mut blob, rate);
        append(&mut blob, cmd(CMD_AXIS_P232, p232, 0, 0, 0, 0));
        append(&mut blob, cmd(CMD_AXIS_GO, 0, 0, 0, 0, 0));
        assert(blob@ =~= count@ + rate@ + frame(CMD_AXIS_P232, p232, 0, 0, 0, 0) + bare(
            CMD_AXIS_GO,
        ));
        let mut r = arm_and_write(head);
        r.push(Step::Data(blob));
        r
    }

    /// Stop the tickle generator.
    ///
    /// It is free-running: it keeps pulsing after a job ends and after the host
    /// process exits, so it has to be switched off explicitly, and like every other
    /// parameter it travels the EP 0x02 batch path.
    pub fn tick_off(&mut self, w: Wave) -> (r: Script)
        ensures
            r@ == armed_batch(
                tick_frame(false, w) + frame(CMD_JUMP, 200, 0x4000, CENTRE, 0, 500),
            ) + seq![Deed::Pause(50_000_000), Deed::Ask(bare(CMD_RESET))],
            script_ok(r@),
            !r.lands,
            final(self)@ == (Setup { tickle: false, ..old(self)@ }),
    {
        self.tickle = false;
        let mut blob: Vec<u8> = Vec::new();
        append(&mut blob, tick_command(false, w));
        append(&mut blob, cmd(CMD_JUMP, 200, 0x4000, CENTRE, 0, 500));
        assert(blob@ =~= tick_frame(false, w) + frame(CMD_JUMP, 200, 0x4000, CENTRE, 0, 500));
        let mut r = arm_and_write(blob);
        let ghost before = r@;
        r.push(Step::Pause(50 * MILLISECOND));
        r.push(Step::Ask(cmd(CMD_RESET, 0, 0, 0, 0, 0)));
        assert(r@ =~= before + seq![Deed::Pause(50_000_000), Deed::Ask(bare(CMD_RESET))]);
        r
    }

    /// Analog power out, 0x0207 Param0 = a 12-bit word (CON3 pin 15 / DA1). Gives
    /// the script and the word.
    ///
    /// NOT CONFIRMED WORKING: produced no voltage on this board under every
    /// condition tried. What gates it is believed to be a board-side analog enable that
    /// no observed command writes.
    pub fn dac(&mut self, value12: u16, mark: bool, t: PulseTicks) -> (r: (Script, u16))
        ensures
            r.1 == value12 % 0x1000,
            r.0@ == armed_batch(
                type_frame(old(self)@.laser.code, 0, false) + power_frame(idle(t), HALF_POWER, 0)
                    + frame(CMD_ANALOG, (value12 % 0x1000) as u16, 0, 0, 0, 0) + bare(
                    CMD_LASER_GATE,
                ) + (if mark {
                    frame(CMD_JUMP, 200, 0x4000, CENTRE, 0, 500)
                } else {
                    Seq::empty()
                }),
            ),
            script_ok(r.0@),
            !r.0.lands,
            final(self)@ == driving(old(self)@),
    {
        let word: u16 = value12 % 0x1000;
        let mut blob: Vec<u8> = Vec::new();
        append(&mut blob, type_command(self.laser.code, 0, false));
        append(&mut blob, set_power_raw(PulseTicks { width: 0, ..t }, HALF_POWER, 0));
        append(&mut blob, cmd(CMD_ANALOG, word, 0, 0, 0, 0));
        append(&mut blob, gate_command());
        if mark {
            append(&mut blob, cmd(CMD_JUMP, 200, 0x4000, CENTRE, 0, 500));
        }
        self.live = true;
        assert(blob@ =~= type_frame(old(self)@.laser.code, 0, false) + power_frame(
            idle(t),
            HALF_POWER,
            0,
        ) + frame(CMD_ANALOG, word, 0, 0, 0, 0) + bare(CMD_LASER_GATE) + (if mark {
            frame(CMD_JUMP, 200, 0x4000, CENTRE, 0, 500)
        } else {
            Seq::empty()
        }));
        (arm_and_write(blob), word)
    }

    /// Timed output pulse via 0x2F82 on EP 0x02, duration scaled by 2000.
    /// UNTESTED.
    pub fn out_pulse(&self, port: u8, value: u8, ms: u32) -> (r: Script)
        requires
            ms * 2000 <= u32::MAX,
        ensures
            r@ == seq![
                Deed::Data(
                    frame(
                        CMD_PORT_PULSE,
                        (port * 256 + if ms > 0 {
                            1int
                        } else {
                            0
                        }) as u16,
                        (value * 256 + (ms * 2000) / 0x1000000) as u16,
                        (((ms * 2000) / 256) % 0x10000) as u16,
                        ((-(ms * 0x3000)) % 0x10000) as u16,
                        0,
                    ),
                ),
            ],
            script_ok(r@),
            !r.lands,
    {
        let ticks: u32 = ms * 2000;
        let on: u16 = if ms > 0 {
            1
        } else {
            0
        };
        let back: u16 = low_negative(ms);
        let mut blob: Vec<u8> = Vec::new();
        append(
            &mut blob,
            cmd(
                CMD_PORT_PULSE,
                port as u16 * 256 + on,
                value as u16 * 256 + (ticks / 0x1000000) as u16,
                ((ticks / 256) % 0x10000) as u16,
                back,
                0,
            ),
        );
        assert(blob@ =~= frame(
            CMD_PORT_PULSE,
            (port * 256 + on) as u16,
            (value * 256 + ticks / 0x1000000) as u16,
            ((ticks / 256) % 0x10000) as u16,
            back,
            0,
        ));
        write(blob)
    }

    /// 0x2F84 laser port switch. Purpose not established; a candidate for routing
    /// or enabling the analog out. `p2` does not travel.
    pub fn laser_port_switch(&self, p1: u16, p2: u16, p3: u16, p4: u16, p5: u16, p6: u16) -> (r:
        Script)
        ensures
            r@ == armed_batch(
                frame(
                    CMD_PORT_SWITCH,
                    ((p1 * 0x100 + p4) % 0x10000) as u16,
                    ((p5 * 0x300) % 0x10000) as u16,
                    ((p3 * 2) % 0x10000) as u16,
                    ((p6 * 2) % 0x10000) as u16,
                    0,
                ),
            ),
            script_ok(r@),
            !r.lands,
    {
        let _ = p2;
        let mut blob: Vec<u8> = Vec::new();
        append(
            &mut blob,
            cmd(
                CMD_PORT_SWITCH,
                ((p1 as u32 * 0x100 + p4 as u32) % 0x10000) as u16,
                ((p5 as u32 * 0x300) % 0x10000) as u16,
                ((p3 as u32 * 2) % 0x10000) as u16,
                ((p6 as u32 * 2) % 0x10000) as u16,
                0,
            ),
        );
        assert(blob@ =~= frame(
            CMD_PORT_SWITCH,
            ((p1 * 0x100 + p4) % 0x10000) as u16,
            ((p5 * 0x300) % 0x10000) as u16,
            ((p3 * 2) % 0x10000) as u16,
            ((p6 * 2) % 0x10000) as u16,
            0,
        ));
        arm_and_write(blob)
    }

    // ---- safety ---------------------------------------------------------

    /// Silence every laser output: marking PWM, tickle, gate.
    ///
    /// A plain reset does NOT stop the marking PWM generator. Order matters: zero
    /// the generator first, with the engine in whatever state it is in. Arming
    /// before this restarts it with the old values loaded and emits a burst, which
    /// is exactly what this exists to prevent.
    pub fn laser_off(&mut self) -> (r: Script)
        ensures
            r@ == silence_steps(old(self)@.laser.code),
            script_ok(r@),
            !r.lands,
            final(self)@ == silenced(old(self)@),
    {
        let code: u8 = self.laser.code;
        let mut blob: Vec<u8> = Vec::new();
        append(&mut blob, type_command(code, 0, false));
        append(&mut blob, cmd(CMD_POWER, 0, 0, 0, 0, 0));
        append(&mut blob, cmd(CMD_TICK, 0, 0, 0, 0, 0));
        append(&mut blob, gate_command());
        assert(blob@ =~= silence_bytes(code));
        let mut r = Script::new();
        r.push(Step::Silence(blob));
        r.push(Step::Pause(50 * MILLISECOND));
        r.push(Step::Ask(cmd(CMD_CLEAR_CACHE, 0, 0, 0, 0, 0)));
        r.push(Step::Ask(cmd(CMD_RESET, 0, 0, 0, 0, 0)));
        assert(r@ =~= silence_steps(code));
        self.tickle = false;
        self.mo = false;
        self.live = false;
        r
    }

    /// Stop marking and kill laser output now: gate first, then the queue, then
    /// reset.
    ///
    /// 0x0208 is a job parameter, so it travels on EP 0x02: on EP 0x06 it would be
    /// ACKed and ignored. Where that write fails, the endpoints are cleared and it is
    /// tried once more; the rest is asked for all the same.
    pub fn abort(&mut self) -> (r: Script)
        ensures
            r@ == abort_steps(),
            script_ok(r@),
            !r.lands,
            final(self)@ == (Setup { tickle: false, ..old(self)@ }),
    {
        let mut r = Script::new();
        let mut gate: Vec<u8> = Vec::new();
        append(&mut gate, gate_command());
        assert(gate@ =~= bare(CMD_LASER_GATE));
        r.push(Step::Silence(gate));
        r.push(Step::Ask(cmd(CMD_CLEAR_CACHE, 0, 0, 0, 0, 0)));
        r.push(Step::Ask(cmd(CMD_RESET, 0, 0, 0, 0, 0)));
        r.push(Step::Ask(cmd(CMD_RUN, 0, 0, 0, 0, 0)));
        r.push(Step::Ask(cmd(CMD_RESET, 0, 0, 0, 0, 0)));
        assert(r@ =~= abort_steps());
        self.tickle = false;
        r
    }

    /// Leave the board silent: every laser output off where one was programmed,
    /// then reset. The board itself is closed behind this.
    pub fn close(&mut self, quiet: bool) -> (r: Script)
        ensures
            script_ok(r@),
            !r.lands,
            (r@, final(self)@) == closing(old(self)@, quiet),
    {
        let r = if quiet && self.live {
            self.laser_off()
        } else {
            self.stop()
        };
        self.closed = true;
        r
    }

    /// A job that programmed an output and was never closed still has to be
    /// silenced, however its scope ends.
    pub fn owes_silence(&self) -> (r: bool)
        ensures
            r == owes(self@),
    {
        !self.closed && self.live
    }

    /// Take in what came of a script: lit vectors that went out leave an output to
    /// silence, though a later batch failed, and an output that could not be silenced is warned of.
    pub fn finish(&mut self, report: Report) -> (r: crate::usb::Result<Option<Vec<u8>>>)
        ensures
            match r {
                Ok(reply) => failed(report.failure) is None && reply == report.reply,
                Err(e) => failed(report.failure) == Some(e@),
            },
            final(self)@ == carried_out(
                old(self)@,
                report.lands,
                failed_twice(report.unsilenced),
            ),
    {
        if let Some((first, second)) = report.unsilenced {
            self.warn(Warning::NotSilenced { first, second });
        }
        if report.lands {
            self.live = true;
        }
        match report.failure {
            Some(e) => Err(e),
            None => Ok(report.reply),
        }
    }
}

// ---- position streaming ---------------------------------------------------

/// The warning that a feed rate calls for before a wiggle is traced.
pub open spec fn feed_notice(m: Limits, speed: Speed, o: PathOpts, load: Option<Load>) -> Seq<
    Notice,
> {
    if o.wiggle > 0 && speed is MmPerSec && load is Some {
        load_notice(m, load->0)
    } else {
        Seq::empty()
    }
}

/// The warning that a raw duration calls for once a wiggle was traced.
pub open spec fn trace_notice(m: Limits, speed: Speed, load: Option<Load>) -> Seq<Notice> {
    if speed is Micros && load is Some {
        load_notice(m, load->0)
    } else {
        Seq::empty()
    }
}

/// A ratio of two lengths, or 1 where the lower one is nothing.
pub open spec fn exposed(straight_mm: Double, ratio: Double) -> Double {
    if (Double { bits: ZERO }).below(straight_mm) {
        ratio
    } else {
        Double { bits: ONE }
    }
}

/// What streaming a course comes to, for a job that was `s` and is `t` behind it:
/// nothing goes out where a traced point leaves the field; else every vector of
/// the course, paced.
pub open spec fn is_streamed(
    s: Setup,
    t: Setup,
    c: Course,
    load: Option<Load>,
    straight_mm: Double,
    ratio: Double,
    r: Result<(Script, Emitted), PathError>,
) -> bool {
    let n = c.lit.len() as int;
    let first = s.warnings + feed_notice(s.limits, c.speed, c.o, load);
    match r {
        Ok((script, e)) => {
            &&& forall|i: int| 0 <= i < n ==> !(#[trigger] c.strays(i))
            &&& script@ == paced(c.vectors(n), SEG_MIN_US as int)
            &&& script_ok(script@)
            &&& script.lands
            &&& e == (Emitted {
                commands: c.vectors(n).len() as usize,
                us: saturated(total_us(c.vectors(n))) as u64,
                overshoot: c.granted(n) as i64,
                exposure: exposed(straight_mm, ratio),
            })
            &&& c.vectors(n).len() <= usize::MAX
            &&& t == (Setup {
                warnings: first + trace_notice(s.limits, c.speed, c.first_load(n)),
                ..s
            })
        },
        Err(e) => exists|i: int, k: int|
            {
                &&& 0 <= i < n
                &&& forall|j: int| 0 <= j < i ==> !(#[trigger] c.strays(j))
                &&& c.lit[i] && c.wiggles()
                &&& #[trigger] c.first_stray(i, k)
                &&& e == PathError::WiggleOutOfField { x: c.chain(i)[k].0, y: c.chain(i)[k].1 }
                &&& t == (Setup {
                    warnings: first + trace_notice(s.limits, c.speed, c.first_load(i)),
                    ..s
                })
            },
    }
}

/// What streaming a path comes to: its segments are surveyed, its lit lengths
/// taken, and the course that this makes of it streamed.
pub open spec fn is_path<
    L: Fn(Point, Point, i64, bool) -> (i64, i64),
    M: Fn(Point, Point) -> Option<i64>,
    C: Fn(usize) -> Vec<(i64, i64)>,
    T: Fn(usize, &Vec<(i64, i64)>) -> (Vec<Option<i64>>, Option<Load>),
    X: Fn(&Vec<Leg>) -> (Double, Double),
>(
    s: Setup,
    t: Setup,
    unsurveyed: Course,
    lead: L,
    feed: M,
    curve: C,
    times: T,
    load: Option<Load>,
    lengths: X,
    r: Result<(Script, Emitted), PathError>,
) -> bool {
    exists|legs: Vec<Leg>, mm: (Double, Double)|
        {
            let c = Course { legs: legs@, ..unsurveyed };
            &&& is_survey(c, lead, feed, curve, times)
            &&& #[trigger] call_ensures(lengths, (&legs,), mm)
            &&& is_streamed(s, t, c, load, mm.0, mm.1, r)
        }
}

/// What one round of a burst marks: as many vectors as the queue has room for
/// beyond a margin, or none where that is too few to be worth it.
pub open spec fn burst_size(free: u16, margin: u16) -> int {
    let room = if free > margin {
        free - margin
    } else {
        0
    };
    let want = if room > MAX_SEGS {
        MAX_SEGS as int
    } else {
        room
    };
    if want < 64 {
        0
    } else {
        want
    }
}

/// The vectors of a burst: to and fro along the centre line.
pub open spec fn burst_vectors(n: int, speed: u16, span: Point) -> Seq<Vector> {
    Seq::new(
        n as nat,
        |i: int|
            mark(
                speed,
                (
                    if i % 2 == 0 {
                        span.1
                    } else {
                        span.0
                    },
                    CENTRE,
                ),
                500,
            ),
    )
}

impl Job {
    fn warn_load(&mut self, wanted: bool, load: &Option<Load>)
        ensures
            final(self)@ == (Setup {
                warnings: old(self)@.warnings + (if wanted && load is Some {
                    load_notice(old(self)@.limits, load->0)
                } else {
                    Seq::empty()
                }),
                ..old(self)@
            }),
    {
        let ghost s = self@;
        if wanted {
            if let Some(l) = load {
                self.warn_wiggle_load(l);
                return ;
            }
        }
        assert(self@.warnings =~= s.warnings + Seq::<Notice>::empty());
    }

    /// Stream a run of points whose geometry is known: `legs` is that of the
    /// segments, `load` what the wiggle asks of the mirrors at the feed rate,
    /// `straight_mm` the lit length and `ratio` the traced lit length over it.
    pub fn path_along(
        &mut self,
        points: &[Point],
        lit: Option<&[bool]>,
        speed: Speed,
        o: PathOpts,
        legs: &[Leg],
        load: Option<Load>,
        straight_mm: Double,
        ratio: Double,
    ) -> (r: Result<(Script, Emitted), PathError>)
        requires
            refusal(points@.len(), given(lit), o) is None ==> legs@.len() == points@.len() - 1,
        ensures
            match refusal(points@.len(), given(lit), o) {
                Some(e) => r matches Err(x) && x == e && final(self)@ == old(self)@,
                None => is_streamed(
                    old(self)@,
                    final(self)@,
                    (Course {
                        pts: points@,
                        lit: flags(points@.len(), given(lit)),
                        speed,
                        o,
                        legs: legs@,
                    }),
                    load,
                    straight_mm,
                    ratio,
                    r,
                ),
            },
    {
        let f = match gates(points, lit, o) {
            Ok(f) => f,
            Err(e) => {
                return Err(e);
            },
        };
        let by_feed: bool = match speed {
            Speed::MmPerSec(_) => true,
            Speed::Micros(_) => false,
        };
        self.warn_load(o.wiggle > 0 && by_feed, &load);
        let ghost c = Course { pts: points@, lit: f@, speed, o, legs: legs@ };
        let b = build(points, f.as_slice(), speed, o, legs);
        self.warn_load(!by_feed, &b.load);
        if let Some(p) = b.stray {
            proof {
                let (i, k) = choose|i: int, k: int|
                    {
                        &&& 0 <= i < c.lit.len()
                        &&& forall|j: int| 0 <= j < i ==> !(#[trigger] c.strays(j))
                        &&& c.lit[i] && c.wiggles()
                        &&& #[trigger] c.first_stray(i, k)
                        &&& p == c.chain(i)[k]
                        &&& b.load == c.first_load(i)
                    };
                assert(c.first_stray(i, k));
            }
            return Err(PathError::WiggleOutOfField { x: p.0, y: p.1 });
        }
        let commands: usize = b.vectors.len();
        assert(commands == vectors(b.vectors@).len());
        let (script, us) = emit(b.vectors.as_slice(), SEG_MIN_US);
        let zero = Double { bits: ZERO };
        let exposure = if zero.lt(straight_mm) {
            ratio
        } else {
            Double { bits: ONE }
        };
        Ok((script, Emitted { commands, us, overshoot: b.granted, exposure }))
    }

    /// Stream a run of points with the laser on or off per segment.
    ///
    /// `lit` is one boolean per segment, so segment i runs points[i] ->
    /// points[i+1] as 0x0243 when lit and 0x0241 when not. Unlit segments travel at
    /// `jump_speed`, since they are traverses between pieces of work.
    ///
    /// The geometry of the segments is asked for as `survey` does it. `load` is what
    /// the wiggle asks of the mirrors at the feed rate, and `lengths` gives the lit
    /// length of surveyed segments in millimetres with the traced lit length over
    /// it.
    ///
    /// The path is kinematically ideal: Param0 is a duration the board
    /// interpolates, and nothing here knows whether the mirrors kept up. See
    /// `wiggle_load`.
    pub fn path<
        L: Fn(Point, Point, i64, bool) -> (i64, i64),
        M: Fn(Point, Point) -> Option<i64>,
        C: Fn(usize) -> Vec<(i64, i64)>,
        T: Fn(usize, &Vec<(i64, i64)>) -> (Vec<Option<i64>>, Option<Load>),
        X: Fn(&Vec<Leg>) -> (Double, Double),
    >(
        &mut self,
        points: &[Point],
        lit: Option<&[bool]>,
        speed: Speed,
        o: PathOpts,
        lead: L,
        feed: M,
        curve: C,
        times: T,
        load: Option<Load>,
        lengths: X,
    ) -> (r: Result<(Script, Emitted), PathError>)
        requires
            can_lead(lead),
            forall|a: Point, b: Point| call_requires(feed, (a, b)),
            forall|i: usize| call_requires(curve, (i,)),
            forall|i: usize, v: &Vec<(i64, i64)>| call_requires(times, (i, v)),
            forall|v: &Vec<Leg>| call_requires(lengths, (v,)),
        ensures
            match refusal(points@.len(), given(lit), o) {
                Some(e) => r matches Err(x) && x == e && final(self)@ == old(self)@,
                None => is_path(
                    old(self)@,
                    final(self)@,
                    (Course {
                        pts: points@,
                        lit: flags(points@.len(), given(lit)),
                        speed,
                        o,
                        legs: Seq::empty(),
                    }),
                    lead,
                    feed,
                    curve,
                    times,
                    load,
                    lengths,
                    r,
                ),
            },
    {
        let legs = match survey(points, lit, speed, o, lead, feed, curve, times) {
            Ok(legs) => legs,
            Err(e) => {
                return Err(e);
            },
        };
        let (straight_mm, ratio) = lengths(&legs);
        assert(call_ensures(lengths, (&legs,), (straight_mm, ratio)));
        self.path_along(points, lit, speed, o, legs.as_slice(), load, straight_mm, ratio)
    }

    /// Mark disjoint segments, each with its own jump, run-up and run-out, all in
    /// one batch: n segments cost one write rather than 2n calls. They are a path
    /// whose every second leg is the connecting jump, surveyed as such.
    pub fn segments<
        L: Fn(Point, Point, i64, bool) -> (i64, i64),
        M: Fn(Point, Point) -> Option<i64>,
        C: Fn(usize) -> Vec<(i64, i64)>,
        T: Fn(usize, &Vec<(i64, i64)>) -> (Vec<Option<i64>>, Option<Load>),
        X: Fn(&Vec<Leg>) -> (Double, Double),
    >(
        &mut self,
        segs: &[(Point, Point)],
        speed: Speed,
        o: PathOpts,
        lead: L,
        feed: M,
        curve: C,
        times: T,
        load: Option<Load>,
        lengths: X,
    ) -> (r: Result<(Script, Emitted), PathError>)
        requires
            can_lead(lead),
            forall|a: Point, b: Point| call_requires(feed, (a, b)),
            forall|i: usize| call_requires(curve, (i,)),
            forall|i: usize, v: &Vec<(i64, i64)>| call_requires(times, (i, v)),
            forall|v: &Vec<Leg>| call_requires(lengths, (v,)),
        ensures
            segs@.len() == 0 ==> (r matches Err(x) && x == PathError::NoSegments) && final(self)@
                == old(self)@,
            segs@.len() > 0 ==> ({
                let c = segment_course(segs@, speed, o);
                match refusal(c.pts.len(), Some(c.lit), o) {
                    Some(e) => r matches Err(x) && x == e && final(self)@ == old(self)@,
                    None => is_path(
                        old(self)@,
                        final(self)@,
                        c,
                        lead,
                        feed,
                        curve,
                        times,
                        load,
                        lengths,
                        r,
                    ),
                }
            }),
    {
        match chain_segments(segs) {
            Err(e) => Err(e),
            Ok((pts, lit)) => self.path(
                pts.as_slice(),
                Some(lit.as_slice()),
                speed,
                o,
                lead,
                feed,
                curve,
                times,
                load,
                lengths,
            ),
        }
    }

    /// Point marking: jump to each point and fire for `dwell_us`. UNTESTED.
    ///
    /// Emitted as a zero-length 0x0243 whose Param0 is the dwell, the shape both
    /// vendor hosts use for a settle. Whether the board honours a zero-length lit
    /// vector as a timed dot has not been measured here.
    pub fn dots(&self, points: &[Point], dwell_us: u16, o: PathOpts) -> (r: (Script, Emitted))
        ensures
            ({
                let v = dot_vectors(points@, dwell_us, o);
                &&& r.0@ == paced(v, SEG_MIN_US as int)
                &&& script_ok(r.0@)
                &&& r.0.lands
                &&& r.1 == (Emitted {
                    commands: v.len() as usize,
                    us: saturated(total_us(v)) as u64,
                    overshoot: 0,
                    exposure: Double { bits: ONE },
                })
                &&& v.len() <= usize::MAX
            }),
    {
        let v = dot_commands(points, dwell_us, o);
        let commands: usize = v.len();
        assert(commands == vectors(v@).len());
        let (script, us) = emit(v.as_slice(), SEG_MIN_US);
        (script, Emitted { commands, us, overshoot: 0, exposure: Double { bits: ONE } })
    }

    /// One round of a sustained burst, closed-loop against the board's own
    /// free-cache counter: open-loop pacing drains the queue between chunks and the
    /// output visibly drops back to tickle-only about once a second. Gives the
    /// script and the number of vectors in it; where the queue is full enough it
    /// lets it drain.
    pub fn burst_round(&self, free: u16, margin: u16, speed: u16, span: Point) -> (r: (
        Script,
        usize,
    ))
        ensures
            r.1 == burst_size(free, margin),
            r.1 == 0 ==> r.0@ == seq![Deed::Pause(10_000_000)],
            r.1 > 0 ==> r.0@ == seq![Deed::Data(flat(burst_vectors(r.1 as int, speed, span)))],
            script_ok(r.0@),
            !r.0.lands,
    {
        let room: usize = if free > margin {
            (free - margin) as usize
        } else {
            0
        };
        let want: usize = if room > MAX_SEGS {
            MAX_SEGS
        } else {
            room
        };
        if want < 64 {
            let mut r = Script::new();
            r.push(Step::Pause(10 * MILLISECOND));
            assert(r@ =~= seq![Deed::Pause(10_000_000)]);
            return (r, 0);
        }
        let mut blob: Vec<u8> = Vec::new();
        let mut i: usize = 0;
        assert(burst_vectors(0, speed, span) =~= Seq::<Vector>::empty());
        while i < want
            invariant
                i <= want,
                blob@ == flat(burst_vectors(i as int, speed, span)),
                blob@.len() == 12 * i,
            decreases want - i,
        {
            let x: u16 = if i % 2 == 0 {
                span.1
            } else {
                span.0
            };
            append(&mut blob, cmd(CMD_MARK, speed, x, CENTRE, 0, 500));
            proof {
                let now = burst_vectors(i + 1, speed, span);
                assert(now.drop_last() =~= burst_vectors(i as int, speed, span));
                assert(now.last() == mark(speed, (x, CENTRE), 500));
            }
            i = i + 1;
        }
        (write(blob), want)
    }

    // ---- rounds that look at a reply -------------------------------------

    /// One look of a guard at the fault line: what stops the machine where it is
    /// asserted.
    ///
    /// NOT a substitute for a hardware interlock: each round trip costs several
    /// milliseconds, so worst-case reaction is tens of ms.
    pub fn guard_round(&mut self, reply: Option<&[u8]>) -> (r: Option<Script>)
        ensures
            match r {
                Some(s) => {
                    &&& flag_at(reply_bytes(reply), SGIN_WEIGHT as int) == Some(false)
                    &&& s@ == abort_steps()
                    &&& script_ok(s@)
                    &&& !s.lands
                    &&& final(self)@ == (Setup { tickle: false, ..old(self)@ })
                },
                None => flag_at(reply_bytes(reply), SGIN_WEIGHT as int) != Some(false)
                    && final(self)@ == old(self)@,
            },
    {
        match Job::sgin(reply) {
            Some(ok) => if ok {
                None
            } else {
                Some(self.abort())
            },
            None => None,
        }
    }

    /// One move of an unlock. A board that stays locked is warned of: it will accept
    /// commands and emit nothing.
    pub fn ensure_unlocked(
        &mut self,
        u: &mut Unlocking,
        attempts: u32,
        reply: &Option<Vec<u8>>,
    ) -> (r: Move)
        ensures
            (*final(u), r@) == unlock_move(*old(u), bytes(*reply)),
            r matches Move::Run(s) ==> script_ok(s@) && !s.lands,
            final(self)@ == if !(*old(u) is Over) && r@ == Moved::Over(false) {
                Setup {
                    warnings: old(self)@.warnings.push(
                        Notice::StillLocked {
                            attempts: if attempts == 0 {
                                1
                            } else {
                                attempts
                            },
                        },
                    ),
                    ..old(self)@
                }
            } else {
                old(self)@
            },
    {
        let over: bool = match *u {
            Unlocking::Over { .. } => true,
            _ => false,
        };
        let r = u.next(reply);
        if let Move::Over(false) = &r {
            if !over {
                self.warn(
                    Warning::StillLocked {
                        attempts: if attempts == 0 {
                            1
                        } else {
                            attempts
                        },
                    },
                );
            }
        }
        r
    }
}

/// The course of disjoint segments before it is surveyed: every second leg is the
/// connecting jump.
pub open spec fn segment_course(
    segs: Seq<(Point, Point)>,
    speed: Speed,
    o: PathOpts,
) -> Course {
    Course {
        pts: Seq::new(
            (2 * segs.len()) as nat,
            |i: int|
                if i % 2 == 0 {
                    segs[i / 2].0
                } else {
                    segs[i / 2].1
                },
        ),
        lit: Seq::new((2 * segs.len() - 1) as nat, |i: int| i % 2 == 0),
        speed,
        o,
        legs: Seq::empty(),
    }
}

} // verus!
