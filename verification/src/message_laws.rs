//! What failures and warnings say, word for word.

use crate::double::{writes, Double, Style};
use crate::job::{config_says, notices, tick_says, ConfigError, TickError};
use crate::limits::{excess_says, excesses_say, notice_says, Excess, Notice, Warning};
use crate::stream::PathError;
use crate::text::{
    decimal, hexadecimal, law_a_written_number_is_read, law_decimal_reads_back,
    law_hexadecimal_reads_back, number_value, signed_decimal, signed_number, sixteens,
};
use crate::usb::{rejected, Failure};
use vstd::prelude::*;

verus! {

/// `t` is a number as it is written out, between two texts.
pub open spec fn says_one<F: Fn(Double, Style) -> String>(
    t: Seq<char>,
    number: F,
    before: Seq<char>,
    a: Double,
    a_style: Style,
    behind: Seq<char>,
) -> bool {
    exists|x: Seq<char>| #[trigger] writes(number, a, a_style, x) && t == before + x + behind
}

/// `t` is two numbers as they are written out, with texts around them.
pub open spec fn says_two<F: Fn(Double, Style) -> String>(
    t: Seq<char>,
    number: F,
    before: Seq<char>,
    a: Double,
    a_style: Style,
    between: Seq<char>,
    b: Double,
    b_style: Style,
    behind: Seq<char>,
) -> bool {
    exists|x: Seq<char>, y: Seq<char>|
        {
            &&& #[trigger] writes(number, a, a_style, x)
            &&& #[trigger] writes(number, b, b_style, y)
            &&& t == before + x + between + y + behind
        }
}

/// `t` is three numbers as they are written out, with texts around them.
pub open spec fn says_three<F: Fn(Double, Style) -> String>(
    t: Seq<char>,
    number: F,
    before: Seq<char>,
    a: Double,
    a_style: Style,
    then_a: Seq<char>,
    b: Double,
    b_style: Style,
    then_b: Seq<char>,
    c: Double,
    c_style: Style,
    behind: Seq<char>,
) -> bool {
    exists|x: Seq<char>, y: Seq<char>, z: Seq<char>|
        {
            &&& #[trigger] writes(number, a, a_style, x)
            &&& #[trigger] writes(number, b, b_style, y)
            &&& #[trigger] writes(number, c, c_style, z)
            &&& t == before + x + then_a + y + then_b + z + behind
        }
}

/// A refused setting names the laser or the number that it was refused for, and the range.
pub proof fn law_a_refused_setting_in_words<F: Fn(Double, Style) -> String>(
    e: ConfigError,
    number: F,
    t: Seq<char>,
)
    requires
        config_says(e, number, t),
    ensures
        match e {
            ConfigError::Frequency { khz, laser, lo, hi } => says_three(
                t,
                number,
                Seq::empty(),
                khz,
                Style::Plain,
                " kHz outside the "@ + laser@ + " range "@,
                lo,
                Style::Plain,
                ".."@,
                hi,
                Style::Plain,
                " kHz"@,
            ),
            ConfigError::Power { pct } => says_one(
                t,
                number,
                "power "@,
                pct,
                Style::Plain,
                "% outside 0..100"@,
            ),
            ConfigError::NoParallelPower { laser } => t == laser@ + " has no parallel power word"@,
            ConfigError::NoPulseWidth { laser } => t == laser@
                + " has no pulse-width setting: it is not a parallel-power laser"@,
            ConfigError::NoTickle { laser } => t == laser@ + " has no tickle"@,
        },
{
    match e {
        ConfigError::Frequency { khz, laser, lo, hi } => {
            let (a, b, c) = choose|a: Seq<char>, b: Seq<char>, c: Seq<char>|
                {
                    &&& #[trigger] writes(number, khz, Style::Plain, a)
                    &&& #[trigger] writes(number, lo, Style::Plain, b)
                    &&& #[trigger] writes(number, hi, Style::Plain, c)
                    &&& t == a + " kHz outside the "@ + laser@ + " range "@ + b + ".."@ + c
                        + " kHz"@
                };
            let mid = " kHz outside the "@ + laser@ + " range "@;
            assert(t =~= Seq::<char>::empty() + a + mid + b + ".."@ + c + " kHz"@);
        },
        _ => {},
    }
}

/// A refused tickle tells what was asked and what there is room for.
pub proof fn law_a_refused_tickle_in_words<F: Fn(Double, Style) -> String>(
    e: TickError,
    number: F,
    t: Seq<char>,
)
    requires
        tick_says(e, number, t),
    ensures
        match e {
            TickError::Frequency { khz, lo, hi } => says_three(
                t,
                number,
                "tickle frequency "@,
                khz,
                Style::Plain,
                " kHz outside "@,
                lo,
                Style::Plain,
                ".."@,
                hi,
                Style::Plain,
                " kHz"@,
            ),
            TickError::Width { us, period_us, khz } => says_three(
                t,
                number,
                "tickle width "@,
                us,
                Style::Plain,
                " us must be >0 and shorter than the "@,
                period_us,
                Style::Fixed(1),
                " us period at "@,
                khz,
                Style::Plain,
                " kHz"@,
            ),
        },
{
}

/// An excess tells what is asked of the mirrors or the board, and the limit.
pub proof fn law_an_excess_in_words<F: Fn(Double, Style) -> String>(
    e: Excess,
    number: F,
    t: Seq<char>,
)
    requires
        excess_says(e, number, t),
    ensures
        match e {
            Excess::Feed { mm_s, limit } => says_two(
                t,
                number,
                "feed "@,
                mm_s,
                Style::Plain,
                " mm/s over the "@,
                limit,
                Style::Plain,
                " limit"@,
            ),
            Excess::Acceleration { needs, limit } => says_two(
                t,
                number,
                "needs "@,
                needs,
                Style::Scientific(3),
                " mm/s^2 lateral, limit "@,
                limit,
                Style::Scientific(3),
                Seq::empty(),
            ),
            Excess::Loops { loop_hz, limit } => says_two(
                t,
                number,
                Seq::empty(),
                loop_hz,
                Style::Fixed(0),
                " loops/s over the "@,
                limit,
                Style::Fixed(0),
                " limit"@,
            ),
            Excess::Vectors { per_s, limit } => says_two(
                t,
                number,
                Seq::empty(),
                per_s,
                Style::Fixed(0),
                " vectors/s over the board's measured "@,
                limit,
                Style::Fixed(0),
                Seq::empty(),
            ),
        },
{
    match e {
        Excess::Feed { .. } => {},
        Excess::Acceleration { needs, limit } => {
            let (a, b) = choose|a: Seq<char>, b: Seq<char>| #[trigger]
                writes(number, needs, Style::Scientific(3), a) && #[trigger] writes(
                    number,
                    limit,
                    Style::Scientific(3),
                    b,
                ) && t == "needs "@ + a + " mm/s^2 lateral, limit "@ + b;
            assert(t =~= "needs "@ + a + " mm/s^2 lateral, limit "@ + b + Seq::empty());
        },
        Excess::Loops { loop_hz, limit } => {
            let (a, b) = choose|a: Seq<char>, b: Seq<char>| #[trigger]
                writes(number, loop_hz, Style::Fixed(0), a) && #[trigger] writes(
                    number,
                    limit,
                    Style::Fixed(0),
                    b,
                ) && t == a + " loops/s over the "@ + b + " limit"@;
            assert(t =~= Seq::empty() + a + " loops/s over the "@ + b + " limit"@);
        },
        Excess::Vectors { per_s, limit } => {
            let (a, b) = choose|a: Seq<char>, b: Seq<char>| #[trigger]
                writes(number, per_s, Style::Fixed(0), a) && #[trigger] writes(
                    number,
                    limit,
                    Style::Fixed(0),
                    b,
                ) && t == a + " vectors/s over the board's measured "@ + b;
            assert(t =~= Seq::empty() + a + " vectors/s over the board's measured "@ + b
                + Seq::empty());
        },
    }
}

/// Excesses are told one behind the other, with a semicolon between any two.
pub proof fn law_excesses_are_told_in_order<F: Fn(Double, Style) -> String>(
    es: Seq<Excess>,
    e: Excess,
    number: F,
    t: Seq<char>,
)
    requires
        excesses_say(es.push(e), number, t),
    ensures
        es.len() == 0 ==> excess_says(e, number, t),
        es.len() > 0 ==> exists|a: Seq<char>, b: Seq<char>|
            excesses_say(es, number, a) && excess_says(e, number, b) && t == #[trigger] (a + "; "@
                + b),
{
    assert(es.push(e).drop_last() =~= es);
}

/// A warning tells how often, how much or what went wrong.
pub proof fn law_a_warning_in_words<F: Fn(Double, Style) -> String>(
    w: Notice,
    number: F,
    t: Seq<char>,
)
    requires
        notice_says(w, number, t),
    ensures
        w matches Notice::StillLocked { attempts } ==> exists|d: Seq<char>|
            #[trigger] number_value(d, 10) == attempts && t == "board still reports locked after "@
                + d + " unlock attempts: it will accept commands and emit nothing"@,
        w matches Notice::PowerByteCollides { power_byte } ==> exists|d: Seq<char>|
            #[trigger] number_value(d, 16) == power_byte && d.len() == 2 && t == "power byte 0x"@ + d
                + " has bit 1 or 2 set, and those are the MOPA SPI lines: every frame after the first will be mangled"@,
        w matches Notice::UnderOneCount { what, mm, size_mm } ==> says_two(
            t,
            number,
            what + " of "@,
            mm,
            Style::Plain,
            " mm is under one galvo count on a "@,
            size_mm,
            Style::Plain,
            " mm field, so it is ignored"@,
        ),
        w matches Notice::NotSilenced { first, second } ==> t == "could not silence the laser ("@
            + first.text() + ", then "@ + second.text()
            + " after recover): an output may still be driving. Power-cycle the board."@,
        w matches Notice::WiggleLoad { loop_hz, accel_mm_s2, accel_g, mm_s, exceeded } ==> exists|
            head: Seq<char>,
            e: Seq<char>,
        |
            {
                &&& says_two(
                    head,
                    number,
                    "wiggle asks for "@,
                    loop_hz,
                    Style::Fixed(0),
                    " loops/s and "@,
                    accel_mm_s2,
                    Style::Scientific(3),
                    " mm/s^2 ("@,
                )
                &&& excesses_say(exceeded, number, e)
                &&& says_two(
                    t,
                    number,
                    head,
                    accel_g,
                    Style::Fixed(0),
                    " g) of lateral acceleration at "@,
                    mm_s,
                    Style::Fixed(0),
                    " mm/s"@ + #[trigger] (": "@ + e
                        + ". The mirrors will round the loops off and the exposure will bunch at the turns instead of spreading along the cut."@),
                ) && #[trigger] head.len() > 0
            },
{
    match w {
        Notice::StillLocked { attempts } => {
            law_decimal_reads_back(attempts as nat);
            assert(number_value(decimal(attempts as nat), 10) == attempts);
        },
        Notice::PowerByteCollides { power_byte } => {
            law_hexadecimal_reads_back(power_byte as nat, 2);
            reveal_with_fuel(sixteens, 3);
            assert(number_value(hexadecimal(power_byte as nat, 2), 16) == power_byte);
        },
        Notice::UnderOneCount { what, mm, size_mm } => {},
        Notice::NotSilenced { .. } => {},
        Notice::WiggleLoad { loop_hz, accel_mm_s2, accel_g, mm_s, exceeded } => {
            let (a, b, c, d, e) = choose|
                a: Seq<char>,
                b: Seq<char>,
                c: Seq<char>,
                d: Seq<char>,
                e: Seq<char>,
            |
                {
                    &&& #[trigger] writes(number, loop_hz, Style::Fixed(0), a)
                    &&& #[trigger] writes(number, accel_mm_s2, Style::Scientific(3), b)
                    &&& #[trigger] writes(number, accel_g, Style::Fixed(0), c)
                    &&& #[trigger] writes(number, mm_s, Style::Fixed(0), d)
                    &&& #[trigger] excesses_say(exceeded, number, e)
                    &&& t == "wiggle asks for "@ + a + " loops/s and "@ + b + " mm/s^2 ("@ + c
                        + " g) of lateral acceleration at "@ + d + " mm/s: "@ + e
                        + ". The mirrors will round the loops off and the exposure will bunch at the turns instead of spreading along the cut."@
                };
            let head = "wiggle asks for "@ + a + " loops/s and "@ + b + " mm/s^2 ("@;
            let end = ": "@ + e
                + ". The mirrors will round the loops off and the exposure will bunch at the turns instead of spreading along the cut."@;
            reveal_strlit(" mm/s: ");
            reveal_strlit(" mm/s");
            reveal_strlit(": ");
            reveal_strlit("wiggle asks for ");
            assert(head.len() > 0);
            assert(" mm/s: "@ =~= " mm/s"@ + ": "@);
            assert(t =~= head + c + " g) of lateral acceleration at "@ + d + (" mm/s"@ + end));
            assert(says_two(
                head,
                number,
                "wiggle asks for "@,
                loop_hz,
                Style::Fixed(0),
                " loops/s and "@,
                accel_mm_s2,
                Style::Scientific(3),
                " mm/s^2 ("@,
            ));
            assert(excesses_say(exceeded, number, e));
            assert(says_two(
                t,
                number,
                head,
                accel_g,
                Style::Fixed(0),
                " g) of lateral acceleration at "@,
                mm_s,
                Style::Fixed(0),
                " mm/s"@ + end,
            ));
        },
    }
}

/// A path that is refused tells the numbers that it was refused for.
pub proof fn law_a_refused_path_in_words(e: PathError)
    requires
        e matches PathError::FlagCount { points } ==> points > 0,
    ensures
        e is TooFewPoints ==> e.text() == "path needs at least two points"@,
        e is NoPitch ==> e.text() == "wiggle needs a positive wiggle_pitch (counts per circle)"@,
        e is TooFewSteps ==> e.text() == "wiggle_steps must be at least 4"@,
        e is NoSegments ==> e.text() == "no segments given"@,
        e matches PathError::FlagCount { points } ==> exists|a: Seq<char>, b: Seq<char>|
            #[trigger] number_value(a, 10) == points - 1 && #[trigger] number_value(b, 10) == points
                && e.text() == "lit needs one flag per segment: "@ + a + " for "@ + b + " points"@,
        e matches PathError::WiggleOutOfField { x, y } ==> exists|a: Seq<char>, b: Seq<char>|
            #[trigger] signed_number(a, 10) == Some(x as int) && #[trigger] signed_number(b, 10)
                == Some(y as int) && e.text() == "wiggle point ("@ + a + ", "@ + b
                + ") is outside the galvo travel limits 0..65535"@,
{
    match e {
        PathError::FlagCount { points } => {
            law_decimal_reads_back((points - 1) as nat);
            law_decimal_reads_back(points as nat);
            let (a, b) = (decimal((points - 1) as nat), decimal(points as nat));
            assert(number_value(a, 10) == points - 1 && number_value(b, 10) == points);
        },
        PathError::WiggleOutOfField { x, y } => {
            law_a_written_number_is_read(x as int, 0);
            law_a_written_number_is_read(y as int, 0);
            let (a, b) = (signed_decimal(x as int), signed_decimal(y as int));
            assert(signed_number(a, 10) == Some(x as int) && signed_number(b, 10) == Some(
                y as int,
            ));
        },
        _ => {},
    }
}

/// A failure tells what was tried, and then what went wrong.
pub proof fn law_a_failure_in_words(f: Failure)
    ensures
        f matches Failure::NotFound(m) ==> f.text() == "no DBK2JP found: "@ + m,
        f matches Failure::Open(m) ==> f.text() == "cannot open board: "@ + m,
        f matches Failure::Transfer(m) ==> f.text() == "transfer failed: "@ + m,
        f matches Failure::Timeout(m) ==> f.text() == "transfer timed out: "@ + m,
        f matches Failure::Unsupported(m) ==> f.text() == "unsupported: "@ + m,
{
}

/// A transfer that the driver rejects tells how many bytes, on which endpoint, and both of
/// the status words.
pub proof fn law_a_rejected_transfer_in_words(nt: u32, usbd: u32, ep: u8, nbytes: nat)
    ensures
        exists|n: Seq<char>, e: Seq<char>, a: Seq<char>, b: Seq<char>|
            {
                &&& #[trigger] number_value(n, 10) == nbytes
                &&& #[trigger] number_value(e, 16) == ep && e.len() == 2
                &&& #[trigger] number_value(a, 16) == nt && a.len() == 8
                &&& #[trigger] number_value(b, 16) == usbd && b.len() == 8
                &&& rejected(nt, usbd, ep, nbytes) == n + " bytes on EP 0x"@ + e + ": NTSTATUS 0x"@
                    + a + ", USBD 0x"@ + b + ". The pipe is probably stalled, call recover()"@
            },
{
    law_decimal_reads_back(nbytes);
    law_hexadecimal_reads_back(ep as nat, 2);
    law_hexadecimal_reads_back(nt as nat, 8);
    law_hexadecimal_reads_back(usbd as nat, 8);
    reveal_with_fuel(sixteens, 9);
    let n = decimal(nbytes);
    let e = hexadecimal(ep as nat, 2);
    let a = hexadecimal(nt as nat, 8);
    let b = hexadecimal(usbd as nat, 8);
    assert(number_value(n, 10) == nbytes && number_value(e, 16) == ep);
    assert(number_value(a, 16) == nt && number_value(b, 16) == usbd);
}

/// A warning is seen with what it was given, and warnings in the order in which they came.
pub proof fn law_a_warning_is_seen_as_it_is(w: Warning, ws: Seq<Warning>, i: int)
    ensures
        w matches Warning::StillLocked { attempts } ==> w@ == (Notice::StillLocked { attempts }),
        w matches Warning::PowerByteCollides { power_byte } ==> w@ == (Notice::PowerByteCollides {
            power_byte,
        }),
        w matches Warning::UnderOneCount { what, mm, size_mm } ==> w@ == (Notice::UnderOneCount {
            what: what@,
            mm,
            size_mm,
        }),
        w matches Warning::WiggleLoad { loop_hz, accel_mm_s2, accel_g, mm_s, exceeded } ==> w@ == (
        Notice::WiggleLoad { loop_hz, accel_mm_s2, accel_g, mm_s, exceeded: exceeded@ }),
        w matches Warning::NotSilenced { first, second } ==> w@ == (Notice::NotSilenced {
            first: first@,
            second: second@,
        }),
        notices(ws).len() == ws.len(),
        0 <= i < ws.len() ==> notices(ws)[i] == ws[i]@,
{
}

} // verus!
