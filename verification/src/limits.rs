//! What the machine can do, what a wiggle asks of it, and what the caller is
//! warned of.

use crate::double::{can_write, push_number, writes, Double, Style, ZERO};
use crate::stream::Load;
use crate::text::{decimal, hexadecimal, push_decimal, push_hex};
use crate::usb::{BoardError, Failure};
use vstd::prelude::*;
use vstd::string::StringExecFns;

verus! {

/// Machine kinematics, if you know them. Nothing is assumed.
#[derive(Clone, Copy, PartialEq, Eq, Debug)]
pub struct Limits {
    pub max_mm_s: Option<Double>,
    pub max_accel_mm_s2: Option<Double>,
    pub max_loop_hz: Option<Double>,
}

impl Default for Limits {
    fn default() -> (r: Self)
        ensures
            r == (Limits { max_mm_s: None, max_accel_mm_s2: None, max_loop_hz: None }),
    {
        Limits { max_mm_s: None, max_accel_mm_s2: None, max_loop_hz: None }
    }
}

/// The bits of 1 / 0.00003: vectors a second that the board was measured to take.
pub const VECTOR_RATE: u64 = 0x40E0_46AA_AAAA_AAAB;

/// A limit that a wiggle goes over.
#[derive(Clone, Copy, PartialEq, Eq, Structural, Debug)]
pub enum Excess {
    Feed { mm_s: Double, limit: Double },
    Acceleration { needs: Double, limit: Double },
    Loops { loop_hz: Double, limit: Double },
    Vectors { per_s: Double, limit: Double },
}

/// What a wiggle asks of the mirrors.
#[derive(Debug)]
pub struct WiggleLoad {
    pub loop_hz: Double,
    pub accel_mm_s2: Double,
    pub accel_g: Double,
    pub exposure: Double,
    pub chord_mm: Double,
    pub vectors_per_s: Double,
    pub exceeded: Vec<Excess>,
}

/// Radius, pitch and feed are not all positive.
#[derive(Clone, Copy, PartialEq, Eq, Structural, Debug)]
pub struct NotPositive {}

impl NotPositive {
    pub fn message(&self) -> (r: String)
        ensures
            r@ == "radius, pitch and mm_s must all be positive"@,
    {
        String::from_str("radius, pitch and mm_s must all be positive")
    }
}

/// None of radius, pitch and feed is zero or less.
pub open spec fn is_load(l: Load) -> bool {
    let zero = Double { bits: ZERO };
    !l.radius_mm.at_most(zero) && !l.pitch_mm.at_most(zero) && !l.mm_s.at_most(zero)
}

/// `limit` is known and `v` is over it.
pub open spec fn over(limit: Option<Double>, v: Double) -> bool {
    match limit {
        Some(m) => m.below(v),
        None => false,
    }
}

fn is_over(limit: Option<Double>, v: Double) -> (r: bool)
    ensures
        r == over(limit, v),
{
    match limit {
        Some(m) => m.lt(v),
        None => false,
    }
}

/// One excess, or none.
pub open spec fn only_if(b: bool, e: Excess) -> Seq<Excess> {
    if b {
        seq![e]
    } else {
        Seq::empty()
    }
}

/// The limits that a load goes over. With no limits known only the vector rate is
/// looked at.
pub open spec fn excesses(m: Limits, l: Load) -> Seq<Excess> {
    let rate = Double { bits: VECTOR_RATE };
    only_if(over(m.max_mm_s, l.mm_s), Excess::Feed { mm_s: l.mm_s, limit: m.max_mm_s->0 })
        + only_if(
        over(m.max_accel_mm_s2, l.accel_mm_s2),
        Excess::Acceleration { needs: l.accel_mm_s2, limit: m.max_accel_mm_s2->0 },
    ) + only_if(
        over(m.max_loop_hz, l.loop_hz),
        Excess::Loops { loop_hz: l.loop_hz, limit: m.max_loop_hz->0 },
    ) + only_if(
        rate.below(l.vectors_per_s),
        Excess::Vectors { per_s: l.vectors_per_s, limit: rate },
    )
}

fn list_excesses(m: &Limits, l: &Load) -> (r: Vec<Excess>)
    ensures
        r@ == excesses(*m, *l),
{
    let mut r: Vec<Excess> = Vec::new();
    if is_over(m.max_mm_s, l.mm_s) {
        match m.max_mm_s {
            Some(limit) => r.push(Excess::Feed { mm_s: l.mm_s, limit }),
            None => {},
        }
    }
    if is_over(m.max_accel_mm_s2, l.accel_mm_s2) {
        match m.max_accel_mm_s2 {
            Some(limit) => r.push(Excess::Acceleration { needs: l.accel_mm_s2, limit }),
            None => {},
        }
    }
    if is_over(m.max_loop_hz, l.loop_hz) {
        match m.max_loop_hz {
            Some(limit) => r.push(Excess::Loops { loop_hz: l.loop_hz, limit }),
            None => {},
        }
    }
    let rate = Double { bits: VECTOR_RATE };
    if rate.lt(l.vectors_per_s) {
        r.push(Excess::Vectors { per_s: l.vectors_per_s, limit: rate });
    }
    assert(r@ =~= excesses(*m, *l));
    r
}

/// Hold a load against the limits.
pub fn judge(m: &Limits, l: &Load) -> (r: Result<WiggleLoad, NotPositive>)
    ensures
        match r {
            Err(_) => !is_load(*l),
            Ok(w) => {
                &&& is_load(*l)
                &&& w.loop_hz == l.loop_hz
                &&& w.accel_mm_s2 == l.accel_mm_s2
                &&& w.accel_g == l.accel_g
                &&& w.exposure == l.exposure
                &&& w.chord_mm == l.chord_mm
                &&& w.vectors_per_s == l.vectors_per_s
                &&& w.exceeded@ == excesses(*m, *l)
            },
        },
{
    let zero = Double { bits: ZERO };
    if l.radius_mm.le(zero) || l.pitch_mm.le(zero) || l.mm_s.le(zero) {
        return Err(NotPositive {  });
    }
    Ok(
        WiggleLoad {
            loop_hz: l.loop_hz,
            accel_mm_s2: l.accel_mm_s2,
            accel_g: l.accel_g,
            exposure: l.exposure,
            chord_mm: l.chord_mm,
            vectors_per_s: l.vectors_per_s,
            exceeded: list_excesses(m, l),
        },
    )
}

// ---- warnings -------------------------------------------------------------

/// Something that the caller should see.
#[derive(Debug)]
pub enum Warning {
    /// The board stayed locked.
    StillLocked { attempts: u32 },
    /// The power byte drives the MOPA SPI lines.
    PowerByteCollides { power_byte: u8 },
    /// A distance rounds to nothing.
    UnderOneCount { what: String, mm: Double, size_mm: Double },
    /// A wiggle goes over some limit.
    WiggleLoad {
        loop_hz: Double,
        accel_mm_s2: Double,
        accel_g: Double,
        mm_s: Double,
        exceeded: Vec<Excess>,
    },
    /// The laser could not be silenced, before and after a recovery.
    NotSilenced { first: BoardError, second: BoardError },
}

/// A warning with its texts as sequences.
pub enum Notice {
    StillLocked { attempts: u32 },
    PowerByteCollides { power_byte: u8 },
    UnderOneCount { what: Seq<char>, mm: Double, size_mm: Double },
    WiggleLoad {
        loop_hz: Double,
        accel_mm_s2: Double,
        accel_g: Double,
        mm_s: Double,
        exceeded: Seq<Excess>,
    },
    NotSilenced { first: Failure, second: Failure },
}

impl View for Warning {
    type V = Notice;

    open spec fn view(&self) -> Notice {
        match self {
            Warning::StillLocked { attempts } => Notice::StillLocked { attempts: *attempts },
            Warning::PowerByteCollides { power_byte } => Notice::PowerByteCollides {
                power_byte: *power_byte,
            },
            Warning::UnderOneCount { what, mm, size_mm } => Notice::UnderOneCount {
                what: what@,
                mm: *mm,
                size_mm: *size_mm,
            },
            Warning::WiggleLoad { loop_hz, accel_mm_s2, accel_g, mm_s, exceeded } => {
                Notice::WiggleLoad {
                    loop_hz: *loop_hz,
                    accel_mm_s2: *accel_mm_s2,
                    accel_g: *accel_g,
                    mm_s: *mm_s,
                    exceeded: exceeded@,
                }
            },
            Warning::NotSilenced { first, second } => Notice::NotSilenced {
                first: first@,
                second: second@,
            },
        }
    }
}

/// What a load is worth saying: something where it goes over a limit.
pub open spec fn load_notice(m: Limits, l: Load) -> Seq<Notice> {
    if is_load(l) && excesses(m, l).len() > 0 {
        seq![
            Notice::WiggleLoad {
                loop_hz: l.loop_hz,
                accel_mm_s2: l.accel_mm_s2,
                accel_g: l.accel_g,
                mm_s: l.mm_s,
                exceeded: excesses(m, l),
            },
        ]
    } else {
        Seq::empty()
    }
}

/// The warning that a load calls for, if it does.
pub fn load_warning(m: &Limits, l: &Load) -> (r: Option<Warning>)
    ensures
        match r {
            Some(w) => load_notice(*m, *l) == seq![w@],
            None => load_notice(*m, *l) == Seq::<Notice>::empty(),
        },
{
    match judge(m, l) {
        Err(_) => None,
        Ok(w) => {
            if w.exceeded.len() == 0 {
                return None;
            }
            let r = Warning::WiggleLoad {
                loop_hz: l.loop_hz,
                accel_mm_s2: l.accel_mm_s2,
                accel_g: l.accel_g,
                mm_s: l.mm_s,
                exceeded: w.exceeded,
            };
            assert(seq![r@] =~= load_notice(*m, *l));
            Some(r)
        },
    }
}

// ---- in words -------------------------------------------------------------

/// `t` is an excess in words.
pub open spec fn excess_says<F: Fn(Double, Style) -> String>(
    e: Excess,
    number: F,
    t: Seq<char>,
) -> bool {
    match e {
        Excess::Feed { mm_s, limit } => exists|a: Seq<char>, b: Seq<char>| #[trigger]
            writes(number, mm_s, Style::Plain, a) && #[trigger] writes(
                number,
                limit,
                Style::Plain,
                b,
            ) && t == "feed "@ + a + " mm/s over the "@ + b + " limit"@,
        Excess::Acceleration { needs, limit } => exists|a: Seq<char>, b: Seq<char>| #[trigger]
            writes(number, needs, Style::Scientific(3), a) && #[trigger] writes(
                number,
                limit,
                Style::Scientific(3),
                b,
            ) && t == "needs "@ + a + " mm/s^2 lateral, limit "@ + b,
        Excess::Loops { loop_hz, limit } => exists|a: Seq<char>, b: Seq<char>| #[trigger]
            writes(number, loop_hz, Style::Fixed(0), a) && #[trigger] writes(
                number,
                limit,
                Style::Fixed(0),
                b,
            ) && t == a + " loops/s over the "@ + b + " limit"@,
        Excess::Vectors { per_s, limit } => exists|a: Seq<char>, b: Seq<char>| #[trigger]
            writes(number, per_s, Style::Fixed(0), a) && #[trigger] writes(
                number,
                limit,
                Style::Fixed(0),
                b,
            ) && t == a + " vectors/s over the board's measured "@ + b,
    }
}

/// `t` is some excesses in words, with a semicolon between any two.
pub open spec fn excesses_say<F: Fn(Double, Style) -> String>(
    es: Seq<Excess>,
    number: F,
    t: Seq<char>,
) -> bool
    decreases es.len(),
{
    if es.len() == 0 {
        t == Seq::<char>::empty()
    } else if es.len() == 1 {
        excess_says(es[0], number, t)
    } else {
        exists|a: Seq<char>, b: Seq<char>|
            excesses_say(es.drop_last(), number, a) && excess_says(es.last(), number, b) && t
                == #[trigger] (a + "; "@ + b)
    }
}

impl Excess {
    /// The excess in words.
    pub fn message<F: Fn(Double, Style) -> String>(&self, number: &F) -> (r: String)
        requires
            can_write(*number),
        ensures
            excess_says(*self, *number, r@),
    {
        let mut r = String::new();
        match self {
            Excess::Feed { mm_s, limit } => {
                r.append("feed ");
                let a = push_number(&mut r, number, *mm_s, Style::Plain);
                r.append(" mm/s over the ");
                let b = push_number(&mut r, number, *limit, Style::Plain);
                r.append(" limit");
                assert(r@ =~= "feed "@ + a@ + " mm/s over the "@ + b@ + " limit"@);
            },
            Excess::Acceleration { needs, limit } => {
                r.append("needs ");
                let a = push_number(&mut r, number, *needs, Style::Scientific(3));
                r.append(" mm/s^2 lateral, limit ");
                let b = push_number(&mut r, number, *limit, Style::Scientific(3));
                assert(r@ =~= "needs "@ + a@ + " mm/s^2 lateral, limit "@ + b@);
            },
            Excess::Loops { loop_hz, limit } => {
                let a = push_number(&mut r, number, *loop_hz, Style::Fixed(0));
                r.append(" loops/s over the ");
                let b = push_number(&mut r, number, *limit, Style::Fixed(0));
                r.append(" limit");
                assert(r@ =~= a@ + " loops/s over the "@ + b@ + " limit"@);
            },
            Excess::Vectors { per_s, limit } => {
                let a = push_number(&mut r, number, *per_s, Style::Fixed(0));
                r.append(" vectors/s over the board's measured ");
                let b = push_number(&mut r, number, *limit, Style::Fixed(0));
                assert(r@ =~= a@ + " vectors/s over the board's measured "@ + b@);
            },
        }
        r
    }
}

fn excess_text<F: Fn(Double, Style) -> String>(es: &Vec<Excess>, number: &F) -> (r: String)
    requires
        can_write(*number),
    ensures
        excesses_say(es@, *number, r@),
{
    let n: usize = es.len();
    if n == 0 {
        return String::new();
    }
    let mut r = es[0].message(number);
    let mut i: usize = 1;
    assert(es@.take(1).len() == 1 && es@.take(1)[0] == es@[0]);
    while i < n
        invariant
            can_write(*number),
            n == es@.len(),
            1 <= i <= n,
            excesses_say(es@.take(i as int), *number, r@),
        decreases n - i,
    {
        let ghost a = r@;
        let m = es[i].message(number);
        r.append("; ");
        r.append(m.as_str());
        proof {
            let now = es@.take(i + 1);
            assert(now.drop_last() =~= es@.take(i as int));
            assert(now.last() == es@[i as int]);
            assert(r@ =~= a + "; "@ + m@);
            assert(excesses_say(now, *number, r@));
        }
        i = i + 1;
    }
    assert(es@.take(n as int) =~= es@);
    r
}

/// `t` says that a distance rounds to nothing.
pub open spec fn under_one_says<F: Fn(Double, Style) -> String>(
    what: Seq<char>,
    mm: Double,
    size_mm: Double,
    number: F,
    t: Seq<char>,
) -> bool {
    exists|a: Seq<char>, b: Seq<char>|
        {
            &&& #[trigger] writes(number, mm, Style::Plain, a)
            &&& #[trigger] writes(number, size_mm, Style::Plain, b)
            &&& t == what + " of "@ + a + " mm is under one galvo count on a "@ + b
                + " mm field, so it is ignored"@
        }
}

/// `t` says that a wiggle goes over some limit.
pub open spec fn wiggle_says<F: Fn(Double, Style) -> String>(
    loop_hz: Double,
    accel_mm_s2: Double,
    accel_g: Double,
    mm_s: Double,
    exceeded: Seq<Excess>,
    number: F,
    t: Seq<char>,
) -> bool {
    exists|a: Seq<char>, b: Seq<char>, c: Seq<char>, d: Seq<char>, e: Seq<char>|
        {
            &&& #[trigger] writes(number, loop_hz, Style::Fixed(0), a)
            &&& #[trigger] writes(number, accel_mm_s2, Style::Scientific(3), b)
            &&& #[trigger] writes(number, accel_g, Style::Fixed(0), c)
            &&& #[trigger] writes(number, mm_s, Style::Fixed(0), d)
            &&& #[trigger] excesses_say(exceeded, number, e)
            &&& t == "wiggle asks for "@ + a + " loops/s and "@ + b + " mm/s^2 ("@ + c
                + " g) of lateral acceleration at "@ + d + " mm/s: "@ + e
                + ". The mirrors will round the loops off and the exposure will bunch at the turns instead of spreading along the cut."@
        }
}

/// `t` is a warning in words.
pub open spec fn notice_says<F: Fn(Double, Style) -> String>(
    w: Notice,
    number: F,
    t: Seq<char>,
) -> bool {
    match w {
        Notice::StillLocked { attempts } => t == "board still reports locked after "@ + decimal(
            attempts as nat,
        ) + " unlock attempts: it will accept commands and emit nothing"@,
        Notice::PowerByteCollides { power_byte } => t == "power byte 0x"@ + hexadecimal(
            power_byte as nat,
            2,
        )
            + " has bit 1 or 2 set, and those are the MOPA SPI lines: every frame after the first will be mangled"@,
        Notice::UnderOneCount { what, mm, size_mm } => under_one_says(
            what,
            mm,
            size_mm,
            number,
            t,
        ),
        Notice::WiggleLoad { loop_hz, accel_mm_s2, accel_g, mm_s, exceeded } => wiggle_says(
            loop_hz,
            accel_mm_s2,
            accel_g,
            mm_s,
            exceeded,
            number,
            t,
        ),
        Notice::NotSilenced { first, second } => t == "could not silence the laser ("@
            + first.text() + ", then "@ + second.text()
            + " after recover): an output may still be driving. Power-cycle the board."@,
    }
}

impl Warning {
    /// The warning in words.
    pub fn message<F: Fn(Double, Style) -> String>(&self, number: &F) -> (r: String)
        requires
            can_write(*number),
        ensures
            notice_says(self@, *number, r@),
    {
        let mut r = String::new();
        match self {
            Warning::StillLocked { attempts } => {
                r.append("board still reports locked after ");
                push_decimal(&mut r, *attempts as u64);
                r.append(" unlock attempts: it will accept commands and emit nothing");
                assert(r@ =~= "board still reports locked after "@ + decimal(*attempts as nat)
                    + " unlock attempts: it will accept commands and emit nothing"@);
            },
            Warning::PowerByteCollides { power_byte } => {
                r.append("power byte 0x");
                push_hex(&mut r, *power_byte as u32, 2);
                r.append(
                    " has bit 1 or 2 set, and those are the MOPA SPI lines: every frame after the first will be mangled",
                );
                assert(r@ =~= "power byte 0x"@ + hexadecimal(*power_byte as nat, 2)
                    + " has bit 1 or 2 set, and those are the MOPA SPI lines: every frame after the first will be mangled"@);
            },
            Warning::UnderOneCount { what, mm, size_mm } => {
                r.append(what.as_str());
                r.append(" of ");
                let a = push_number(&mut r, number, *mm, Style::Plain);
                r.append(" mm is under one galvo count on a ");
                let b = push_number(&mut r, number, *size_mm, Style::Plain);
                r.append(" mm field, so it is ignored");
                assert(r@ =~= what@ + " of "@ + a@ + " mm is under one galvo count on a "@ + b@
                    + " mm field, so it is ignored"@);
                assert(under_one_says(what@, *mm, *size_mm, *number, r@));
            },
            Warning::WiggleLoad { loop_hz, accel_mm_s2, accel_g, mm_s, exceeded } => {
                r.append("wiggle asks for ");
                let a = push_number(&mut r, number, *loop_hz, Style::Fixed(0));
                r.append(" loops/s and ");
                let b = push_number(&mut r, number, *accel_mm_s2, Style::Scientific(3));
                r.append(" mm/s^2 (");
                let c = push_number(&mut r, number, *accel_g, Style::Fixed(0));
                r.append(" g) of lateral acceleration at ");
                let d = push_number(&mut r, number, *mm_s, Style::Fixed(0));
                r.append(" mm/s: ");
                let e = excess_text(exceeded, number);
                r.append(e.as_str());
                r.append(
                    ". The mirrors will round the loops off and the exposure will bunch at the turns instead of spreading along the cut.",
                );
                assert(r@ =~= "wiggle asks for "@ + a@ + " loops/s and "@ + b@ + " mm/s^2 ("@ + c@
                    + " g) of lateral acceleration at "@ + d@ + " mm/s: "@ + e@
                    + ". The mirrors will round the loops off and the exposure will bunch at the turns instead of spreading along the cut."@);
                assert(wiggle_says(
                    *loop_hz,
                    *accel_mm_s2,
                    *accel_g,
                    *mm_s,
                    exceeded@,
                    *number,
                    r@,
                ));
            },
            Warning::NotSilenced { first, second } => {
                r.append("could not silence the laser (");
                r.append(first.message().as_str());
                r.append(", then ");
                r.append(second.message().as_str());
                r.append(
                    " after recover): an output may still be driving. Power-cycle the board.",
                );
                assert(r@ =~= "could not silence the laser ("@ + first@.text() + ", then "@
                    + second@.text()
                    + " after recover): an output may still be driving. Power-cycle the board."@);
            },
        }
        r
    }
}

} // verus!
