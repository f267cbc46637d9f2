//! Laser selection: what a laser type is and how it wants to be driven.
//!
//! The type code is the high byte of 0x0211 Param0.

use crate::double::{Double, HUNDRED, ONE};
use crate::text::{lower, parse_unsigned, same, to_chars, to_lower, trim, trimmed, unsigned_number};
use vstd::prelude::*;
use vstd::slice::slice_subrange;
use vstd::string::StringExecFns;

verus! {

#[derive(Clone, Copy, PartialEq, Eq, Structural, Debug)]
pub enum Power {
    /// Power is PWM duty on the marking line.
    Pwm,
    /// Power is an 8-bit parallel word on P0..P7, latched.
    Byte,
}

/// A laser type. Frequencies are kilohertz, widths microseconds.
#[derive(Clone, Copy, Debug)]
pub struct Laser {
    pub name: &'static str,
    pub code: u8,
    pub power: Power,
    pub freq_khz: Double,
    pub freq_range: (Double, Double),
    pub tickle: bool,
    pub tick_khz: Double,
    pub tick_us: Double,
    pub tick_range: (Double, Double),
    /// Takes a pulse width.
    pub mopa_pulse: bool,
    pub verified: bool,
    pub note: &'static str,
}

/// The bits of 0.74
pub const TICK_LOW: u64 = 0x3FE7_AE14_7AE1_47AE;

/// The bits of 5.0
pub const FIVE: u64 = 0x4014_0000_0000_0000;

/// The bits of 20.0
pub const TWENTY: u64 = 0x4034_0000_0000_0000;

/// The bits of 30.0
pub const THIRTY: u64 = 0x403E_0000_0000_0000;

/// The bits of 40.0
pub const FORTY: u64 = 0x4044_0000_0000_0000;

/// Marks from 1 to 40 kHz; a tickle from 0.74 to 100 kHz that is off, at 5 kHz
/// and 1 us; no pulse width, nothing confirmed.
pub open spec fn plain(name: &'static str, code: u8, power: Power, freq_khz: u64) -> Laser {
    Laser {
        name,
        code,
        power,
        freq_khz: Double { bits: freq_khz },
        freq_range: (Double { bits: ONE }, Double { bits: FORTY }),
        tickle: false,
        tick_khz: Double { bits: FIVE },
        tick_us: Double { bits: ONE },
        tick_range: (Double { bits: TICK_LOW }, Double { bits: HUNDRED }),
        mopa_pulse: false,
        verified: false,
        note: "",
    }
}

fn base(name: &'static str, code: u8, power: Power, freq_khz: u64) -> (r: Laser)
    ensures
        r == plain(name, code, power, freq_khz),
{
    Laser {
        name,
        code,
        power,
        freq_khz: Double { bits: freq_khz },
        freq_range: (Double { bits: ONE }, Double { bits: FORTY }),
        tickle: false,
        tick_khz: Double { bits: FIVE },
        tick_us: Double { bits: ONE },
        tick_range: (Double { bits: TICK_LOW }, Double { bits: HUNDRED }),
        mopa_pulse: false,
        verified: false,
        note: "",
    }
}

pub open spec fn is_co2() -> Laser {
    Laser {
        tickle: true,
        verified: true,
        note: "PWM duty is the power. Tickle is on by default: a CO2 tube wants priming between marks, from a separate free-running generator.",
        ..plain("co2", 0x22, Power::Pwm, TWENTY)
    }
}

/// A parallel-power laser, so it takes a pulse width as a MOPA source does.
pub open spec fn is_fiber() -> Laser {
    Laser {
        mopa_pulse: true,
        verified: true,
        note: "Power is the 8-bit word on P0..P7, static and latched. No marking run needed to set it.",
        ..plain("fiber", 0x11, Power::Byte, TWENTY)
    }
}

pub open spec fn is_uv() -> Laser {
    plain("uv", 0x33, Power::Pwm, THIRTY)
}

pub open spec fn is_green() -> Laser {
    plain("green", 0x44, Power::Pwm, THIRTY)
}

pub open spec fn is_mopa() -> Laser {
    Laser {
        mopa_pulse: true,
        note: "WARNING: on the board tested, type code 0x55 mutes every laser output while the same job under fiber 0x11 drives all four pins. Drive a MOPA source as FIBER and set the pulse width.",
        ..plain("mopa", 0x55, Power::Byte, THIRTY)
    }
}

pub open spec fn is_yag() -> Laser {
    Laser {
        note: "Type code is a guess: the only unused low nibble, never confirmed.",
        ..plain("yag", 0x00, Power::Pwm, TWENTY)
    }
}

/// Every named laser.
pub open spec fn known() -> Seq<Laser> {
    seq![is_co2(), is_fiber(), is_uv(), is_green(), is_mopa(), is_yag()]
}

pub fn co2() -> (r: Laser)
    ensures
        r == is_co2(),
{
    Laser {
        tickle: true,
        verified: true,
        note: "PWM duty is the power. Tickle is on by default: a CO2 tube wants priming between marks, from a separate free-running generator.",
        ..base("co2", 0x22, Power::Pwm, TWENTY)
    }
}

pub fn fiber() -> (r: Laser)
    ensures
        r == is_fiber(),
{
    Laser {
        mopa_pulse: true,
        verified: true,
        note: "Power is the 8-bit word on P0..P7, static and latched. No marking run needed to set it.",
        ..base("fiber", 0x11, Power::Byte, TWENTY)
    }
}

pub fn uv() -> (r: Laser)
    ensures
        r == is_uv(),
{
    base("uv", 0x33, Power::Pwm, THIRTY)
}

pub fn green() -> (r: Laser)
    ensures
        r == is_green(),
{
    base("green", 0x44, Power::Pwm, THIRTY)
}

pub fn mopa() -> (r: Laser)
    ensures
        r == is_mopa(),
{
    Laser {
        mopa_pulse: true,
        note: "WARNING: on the board tested, type code 0x55 mutes every laser output while the same job under fiber 0x11 drives all four pins. Drive a MOPA source as FIBER and set the pulse width.",
        ..base("mopa", 0x55, Power::Byte, THIRTY)
    }
}

pub fn yag() -> (r: Laser)
    ensures
        r == is_yag(),
{
    Laser {
        note: "Type code is a guess: the only unused low nibble, never confirmed.",
        ..base("yag", 0x00, Power::Pwm, TWENTY)
    }
}

pub fn all() -> (r: Vec<Laser>)
    ensures
        r@ == known(),
{
    let r: Vec<Laser> = vec![co2(), fiber(), uv(), green(), mopa(), yag()];
    assert(r@ =~= known());
    r
}

/// The first of `ls` with this name.
pub open spec fn by_name(ls: Seq<Laser>, k: Seq<char>) -> Option<Laser>
    decreases ls.len(),
{
    if ls.len() == 0 {
        None
    } else if ls[0].name@ == k {
        Some(ls[0])
    } else {
        by_name(ls.skip(1), k)
    }
}

/// The first of `ls` with this code.
pub open spec fn by_code(ls: Seq<Laser>, code: u8) -> Option<Laser>
    decreases ls.len(),
{
    if ls.len() == 0 {
        None
    } else if ls[0].code == code {
        Some(ls[0])
    } else {
        by_code(ls.skip(1), code)
    }
}

/// A laser by raw type code, or a plain PWM description.
pub open spec fn coded(code: u8) -> Laser {
    match by_code(known(), code) {
        Some(l) => l,
        None => plain("custom", code, Power::Pwm, TWENTY),
    }
}

/// The type code that a text writes: hexadecimal behind 0x, else decimal.
pub open spec fn code_of(k: Seq<char>) -> Option<int> {
    if k.len() >= 2 && k[0] == '0' && k[1] == 'x' {
        unsigned_number(k.skip(2), 16, 255)
    } else {
        unsigned_number(k, 10, 255)
    }
}

/// What a text selects: a name, then a raw code, whatever the case and the
/// white space around it.
pub open spec fn selected(kind: Seq<char>) -> Option<Laser> {
    let k = lower(trim(kind, false));
    match by_name(known(), k) {
        Some(l) => Some(l),
        None => match code_of(k) {
            Some(c) => Some(coded(c as u8)),
            None => None,
        },
    }
}

/// A text that names no laser.
#[derive(Debug, Clone)]
pub struct UnknownLaser {
    pub kind: String,
}

impl UnknownLaser {
    /// The failure in words, around the text as the caller quotes it.
    pub fn message(quoted: &str) -> (r: String)
        ensures
            r@ == "unknown laser "@ + quoted@
                + ", pick one of: co2, fiber, green, mopa, uv, yag"@,
    {
        let mut r = String::from_str("unknown laser ");
        r.append(quoted);
        r.append(", pick one of: co2, fiber, green, mopa, uv, yag");
        r
    }
}

/// Accept a name ("co2"), or a raw type code as "0x22".
pub fn get(kind: &str) -> (r: Result<Laser, UnknownLaser>)
    ensures
        match r {
            Ok(l) => selected(kind@) == Some(l),
            Err(e) => selected(kind@) is None && e.kind@ == kind@,
        },
{
    let given = to_chars(kind);
    let k = to_lower(trimmed(given.as_slice(), false));
    let ls = all();
    let n: usize = ls.len();
    assert(known().skip(0) =~= known());
    for i in 0..n
        invariant
            n == ls@.len(),
            ls@ == known(),
            k@ == lower(trim(kind@, false)),
            by_name(known(), k@) == by_name(known().skip(i as int), k@),
    {
        let name = to_chars(ls[i].name);
        if same(name.as_slice(), k.as_slice()) {
            return Ok(ls[i]);
        }
        assert(known().skip(i as int).skip(1) =~= known().skip(i + 1));
    }
    let code = if k.len() >= 2 && k[0] == '0' && k[1] == 'x' {
        let hex = slice_subrange(k.as_slice(), 2, k.len());
        assert(hex@ =~= k@.skip(2));
        parse_unsigned(hex, 16, 255)
    } else {
        parse_unsigned(k.as_slice(), 10, 255)
    };
    match code {
        Some(c) => Ok(get_code(c as u8)),
        None => Err(UnknownLaser { kind: String::from_str(kind) }),
    }
}

/// A laser by raw type code, falling back to a plain PWM description.
pub fn get_code(code: u8) -> (r: Laser)
    ensures
        r == coded(code),
{
    let ls = all();
    let n: usize = ls.len();
    assert(known().skip(0) =~= known());
    for i in 0..n
        invariant
            n == ls@.len(),
            ls@ == known(),
            by_code(known(), code) == by_code(known().skip(i as int), code),
    {
        if ls[i].code == code {
            return ls[i];
        }
        assert(known().skip(i as int).skip(1) =~= known().skip(i + 1));
    }
    base("custom", code, Power::Pwm, TWENTY)
}

// ---- laws -----------------------------------------------------------------

proof fn lemma_search(code: u8)
    ensures
        by_code(known(), code) == if code == 0x22 {
            Some(is_co2())
        } else if code == 0x11 {
            Some(is_fiber())
        } else if code == 0x33 {
            Some(is_uv())
        } else if code == 0x44 {
            Some(is_green())
        } else if code == 0x55 {
            Some(is_mopa())
        } else if code == 0x00 {
            Some(is_yag())
        } else {
            None::<Laser>
        },
{
    reveal_with_fuel(by_code, 7);
    let ls = known();
    assert(ls.skip(1)[0] == ls[1]);
    assert(ls.skip(1).skip(1)[0] == ls[2]);
    assert(ls.skip(1).skip(1).skip(1)[0] == ls[3]);
    assert(ls.skip(1).skip(1).skip(1).skip(1)[0] == ls[4]);
    assert(ls.skip(1).skip(1).skip(1).skip(1).skip(1)[0] == ls[5]);
    assert(ls.skip(1).skip(1).skip(1).skip(1).skip(1).skip(1).len() == 0);
}

/// Whatever a laser is selected by, the code on the wire is its own, and the
/// parallel-power lasers are exactly those that take a pulse width.
pub proof fn law_codes_are_kept(code: u8)
    ensures
        coded(code).code == code,
        coded(code).mopa_pulse == (coded(code).power == Power::Byte),
{
    lemma_search(code);
}

/// What the named lasers are, in numbers: the type code, how power is given, the marking
/// frequency and its range, whether there is a tickle, its shape and range, whether a
/// pulse width is taken, and whether a scope confirmed it.
pub proof fn law_the_lasers_in_numbers()
    ensures
        is_co2().code == 0x22 && is_co2().power == Power::Pwm && is_co2().tickle,
        is_fiber().code == 0x11 && is_fiber().power == Power::Byte && !is_fiber().tickle,
        is_uv().code == 0x33 && is_uv().power == Power::Pwm && !is_uv().tickle,
        is_green().code == 0x44 && is_green().power == Power::Pwm && !is_green().tickle,
        is_mopa().code == 0x55 && is_mopa().power == Power::Byte && !is_mopa().tickle,
        is_yag().code == 0x00 && is_yag().power == Power::Pwm && !is_yag().tickle,
        is_co2().freq_khz.bits == 0x4034_0000_0000_0000,
        is_fiber().freq_khz.bits == 0x4034_0000_0000_0000,
        is_uv().freq_khz.bits == 0x403E_0000_0000_0000,
        is_green().freq_khz.bits == 0x403E_0000_0000_0000,
        is_mopa().freq_khz.bits == 0x403E_0000_0000_0000,
        is_yag().freq_khz.bits == 0x4034_0000_0000_0000,
        is_co2().verified && is_fiber().verified && !is_uv().verified && !is_green().verified
            && !is_mopa().verified && !is_yag().verified,
        is_fiber().mopa_pulse && is_mopa().mopa_pulse && !is_co2().mopa_pulse
            && !is_uv().mopa_pulse && !is_green().mopa_pulse && !is_yag().mopa_pulse,
        is_co2().name@ == "co2"@ && is_fiber().name@ == "fiber"@ && is_uv().name@ == "uv"@,
        is_green().name@ == "green"@ && is_mopa().name@ == "mopa"@ && is_yag().name@ == "yag"@,
{
}

/// Every laser, named or by its bare code, marks from 1 to 40 kHz, and its tickle is 1 us
/// at 5 kHz to start with and runs from 0.74 to 100 kHz.
pub proof fn law_every_laser_has_the_same_ranges(code: u8)
    ensures
        ({
            let l = coded(code);
            &&& l.freq_range.0.bits == 0x3FF0_0000_0000_0000
            &&& l.freq_range.1.bits == 0x4044_0000_0000_0000
            &&& l.tick_khz.bits == 0x4014_0000_0000_0000
            &&& l.tick_us.bits == 0x3FF0_0000_0000_0000
            &&& l.tick_range.0.bits == 0x3FE7_AE14_7AE1_47AE
            &&& l.tick_range.1.bits == 0x4059_0000_0000_0000
        }),
        coded(0x22) == is_co2() && coded(0x11) == is_fiber() && coded(0x33) == is_uv(),
        coded(0x44) == is_green() && coded(0x55) == is_mopa() && coded(0x00) == is_yag(),
        code != 0x22 && code != 0x11 && code != 0x33 && code != 0x44 && code != 0x55 && code
            != 0x00 ==> coded(code).power == Power::Pwm && !coded(code).tickle && !coded(
            code,
        ).verified && coded(code).freq_khz.bits == 0x4034_0000_0000_0000,
{
    lemma_search(code);
    lemma_search(0x22);
    lemma_search(0x11);
    lemma_search(0x33);
    lemma_search(0x44);
    lemma_search(0x55);
    lemma_search(0x00);
}

/// A text selects the laser that it names, whatever its case and the white space around
/// it; a text that names none selects by its number.
pub proof fn law_a_name_selects_its_laser(kind: Seq<char>)
    ensures
        ({
            let k = lower(trim(kind, false));
            &&& k == "co2"@ ==> selected(kind) == Some(is_co2())
            &&& k == "fiber"@ ==> selected(kind) == Some(is_fiber())
            &&& k == "uv"@ ==> selected(kind) == Some(is_uv())
            &&& k == "green"@ ==> selected(kind) == Some(is_green())
            &&& k == "mopa"@ ==> selected(kind) == Some(is_mopa())
            &&& k == "yag"@ ==> selected(kind) == Some(is_yag())
            &&& k.len() > 2 && k[0] == '0' && k[1] == 'x' ==> (match unsigned_number(
                k.skip(2),
                16,
                255,
            ) {
                Some(c) => selected(kind) == Some(coded(c as u8)),
                None => selected(kind) is None,
            })
            &&& k.len() > 0 && '1' <= k[0] <= '9' ==> (match unsigned_number(k, 10, 255) {
                Some(c) => selected(kind) == Some(coded(c as u8)),
                None => selected(kind) is None,
            })
        }),
{
    let k = lower(trim(kind, false));
    reveal_strlit("co2");
    reveal_strlit("fiber");
    reveal_strlit("uv");
    reveal_strlit("green");
    reveal_strlit("mopa");
    reveal_strlit("yag");
    assert("co2"@[0] == 'c' && "fiber"@[0] == 'f' && "uv"@[0] == 'u' && "green"@[0] == 'g');
    assert("mopa"@[0] == 'm' && "yag"@[0] == 'y');
    reveal_with_fuel(by_name, 7);
    let ls = known();
    assert(ls.skip(1)[0] == ls[1]);
    assert(ls.skip(1).skip(1)[0] == ls[2]);
    assert(ls.skip(1).skip(1).skip(1)[0] == ls[3]);
    assert(ls.skip(1).skip(1).skip(1).skip(1)[0] == ls[4]);
    assert(ls.skip(1).skip(1).skip(1).skip(1).skip(1)[0] == ls[5]);
    assert(ls.skip(1).skip(1).skip(1).skip(1).skip(1).skip(1).len() == 0);
}

} // verus!
