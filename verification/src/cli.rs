//! What a command line asks for.

use crate::protocol::{low_byte, low_word};
use crate::text::{
    decimal, digit_char, digit_value, find, from_chars, hexadecimal, is_digit,
    law_a_split_joins_again, law_a_written_number_is_read, law_decimal_reads_back,
    law_hexadecimal_reads_back, lemma_find, lemma_trim_id, lower, lower_char, parse_signed,
    push_hex, same, signed_decimal, signed_number, sixteens, split, split_once, to_chars, to_lower,
    trim, trim_start, trimmed,
};
use vstd::prelude::*;
use vstd::slice::slice_subrange;
use vstd::string::StringExecFns;

verus! {

/// The number that a text writes: hexadecimal behind 0x, else decimal, whatever
/// white space is around it.
pub open spec fn number_of(s: Seq<char>) -> Option<int> {
    let t = trim(s, false);
    if t.len() >= 2 && t[0] == '0' && (t[1] == 'x' || t[1] == 'X') {
        signed_number(t.skip(2), 16)
    } else {
        signed_number(t, 10)
    }
}

/// Coordinates take decimal or 0x hex.
pub fn num(s: &str) -> (r: Option<i64>)
    ensures
        match r {
            Some(v) => number_of(s@) == Some(v as int),
            None => number_of(s@) is None,
        },
{
    let v = to_chars(s);
    let t = trimmed(v.as_slice(), false);
    if t.len() >= 2 && t[0] == '0' && (t[1] == 'x' || t[1] == 'X') {
        let h = slice_subrange(t, 2, t.len());
        assert(h@ =~= t@.skip(2));
        parse_signed(h, 16)
    } else {
        parse_signed(t, 10)
    }
}

/// Bytes as hexadecimal, in lower case, with a space between any two.
pub open spec fn hex_text(b: Seq<u8>) -> Seq<char>
    decreases b.len(),
{
    if b.len() == 0 {
        Seq::empty()
    } else if b.len() == 1 {
        lower(hexadecimal(b[0] as nat, 2))
    } else {
        hex_text(b.drop_last()) + seq![' '] + lower(hexadecimal(b.last() as nat, 2))
    }
}

fn push_byte(out: &mut String, b: u8)
    ensures
        final(out)@ == old(out)@ + lower(hexadecimal(b as nat, 2)),
{
    let mut t = String::new();
    push_hex(&mut t, b as u32, 2);
    assert(t@ =~= hexadecimal(b as nat, 2));
    let low = to_lower(to_chars(t.as_str()).as_slice());
    out.append(from_chars(low.as_slice()).as_str());
}

pub fn hex(b: &[u8]) -> (r: String)
    ensures
        r@ == hex_text(b@),
{
    let n: usize = b.len();
    let mut r = String::new();
    assert(r@ =~= hex_text(b@.take(0)));
    let mut i: usize = 0;
    while i < n
        invariant
            n == b@.len(),
            i <= n,
            r@ == hex_text(b@.take(i as int)),
        decreases n - i,
    {
        proof {
            assert(b@.take(i + 1).drop_last() =~= b@.take(i as int));
            assert(b@.take(i + 1).last() == b@[i as int]);
        }
        let ghost before = r@;
        if i > 0 {
            r.push(' ');
        }
        push_byte(&mut r, b[i]);
        assert(r@ =~= hex_text(b@.take(i + 1)));
        i = i + 1;
    }
    assert(b@.take(n as int) =~= b@);
    r
}

/// What to do.
pub enum Request {
    Devices,
    Status,
    /// Watch the inputs for as many seconds as the text says.
    Inputs { secs: Option<String> },
    Unlock,
    Off,
    Out { port: u8, value: u16 },
    Jump { x: u16, y: u16 },
    /// Show a scan field, with some of its factors changed.
    Field { path: String, edits: Vec<(String, String)> },
    Help,
}

/// A request with its texts as sequences.
pub enum Wish {
    Devices,
    Status,
    Inputs { secs: Option<Seq<char>> },
    Unlock,
    Off,
    Out { port: u8, value: u16 },
    Jump { x: u16, y: u16 },
    Field { path: Seq<char>, edits: Seq<(Seq<char>, Seq<char>)> },
    Help,
}

impl View for Request {
    type V = Wish;

    open spec fn view(&self) -> Wish {
        match self {
            Request::Devices => Wish::Devices,
            Request::Status => Wish::Status,
            Request::Inputs { secs } => Wish::Inputs {
                secs: match secs {
                    Some(t) => Some(t@),
                    None => None,
                },
            },
            Request::Unlock => Wish::Unlock,
            Request::Off => Wish::Off,
            Request::Out { port, value } => Wish::Out { port: *port, value: *value },
            Request::Jump { x, y } => Wish::Jump { x: *x, y: *y },
            Request::Field { path, edits } => Wish::Field {
                path: path@,
                edits: edits@.map_values(|e: (String, String)| (e.0@, e.1@)),
            },
            Request::Help => Wish::Help,
        }
    }
}

/// A command that lacks its numbers.
#[derive(Clone, Copy, PartialEq, Eq, Structural, Debug)]
pub enum Usage {
    Out,
    Jump,
}

impl Usage {
    pub fn message(&self) -> (r: String)
        ensures
            r@ == match self {
                Usage::Out => "usage: dbk2jp out <port> <0|1>"@,
                Usage::Jump => "usage: dbk2jp jump <x> <y>   (0x8000 is centre)"@,
            },
    {
        match self {
            Usage::Out => String::from_str("usage: dbk2jp out <port> <0|1>"),
            Usage::Jump => String::from_str("usage: dbk2jp jump <x> <y>   (0x8000 is centre)"),
        }
    }
}

/// Arguments as sequences of characters.
pub open spec fn args_of(v: Seq<String>) -> Seq<Seq<char>> {
    v.map_values(|s: String| s@)
}

/// The number at place `i`, if there is one.
pub open spec fn number_at(args: Seq<Seq<char>>, i: int) -> Option<int> {
    if i < args.len() {
        number_of(args[i])
    } else {
        None
    }
}

/// The factors that some arguments change: those that hold an equals sign.
pub open spec fn edits_of(args: Seq<Seq<char>>) -> Seq<(Seq<char>, Seq<char>)>
    decreases args.len(),
{
    if args.len() == 0 {
        Seq::empty()
    } else {
        match split(args.last(), '=') {
            Some(e) => edits_of(args.drop_last()).push(e),
            None => edits_of(args.drop_last()),
        }
    }
}

/// The file that a field is kept in: the first argument, unless it is a change.
pub open spec fn field_path(args: Seq<Seq<char>>) -> Seq<char> {
    if args.len() > 0 && split(args[0], '=') is None {
        args[0]
    } else {
        "markcfg0"@
    }
}

/// What a command and its arguments ask for. Numbers keep their low bits.
pub open spec fn wished(cmd: Seq<char>, args: Seq<Seq<char>>) -> Result<Wish, Usage> {
    let a = number_at(args, 0);
    let b = number_at(args, 1);
    if cmd == "devices"@ {
        Ok(Wish::Devices)
    } else if cmd == "status"@ {
        Ok(Wish::Status)
    } else if cmd == "inputs"@ {
        Ok(
            Wish::Inputs {
                secs: if args.len() > 0 {
                    Some(args[0])
                } else {
                    None
                },
            },
        )
    } else if cmd == "unlock"@ {
        Ok(Wish::Unlock)
    } else if cmd == "off"@ {
        Ok(Wish::Off)
    } else if cmd == "out"@ {
        if a is Some && b is Some {
            Ok(Wish::Out { port: (a->0 % 256) as u8, value: (b->0 % 0x10000) as u16 })
        } else {
            Err(Usage::Out)
        }
    } else if cmd == "jump"@ {
        if a is Some && b is Some {
            Ok(Wish::Jump { x: (a->0 % 0x10000) as u16, y: (b->0 % 0x10000) as u16 })
        } else {
            Err(Usage::Jump)
        }
    } else if cmd == "field"@ {
        Ok(Wish::Field { path: field_path(args), edits: edits_of(args) })
    } else {
        Ok(Wish::Help)
    }
}

fn is(a: &Vec<char>, b: &str) -> (r: bool)
    ensures
        r == (a@ == b@),
{
    same(a.as_slice(), to_chars(b).as_slice())
}

fn num_at(args: &[String], i: usize) -> (r: Option<i64>)
    ensures
        match r {
            Some(v) => number_at(args_of(args@), i as int) == Some(v as int),
            None => number_at(args_of(args@), i as int) is None,
        },
{
    if i < args.len() {
        assert(args_of(args@)[i as int] == args@[i as int]@);
        num(args[i].as_str())
    } else {
        None
    }
}

fn list_edits(args: &[String]) -> (r: Vec<(String, String)>)
    ensures
        r@.map_values(|e: (String, String)| (e.0@, e.1@)) == edits_of(args_of(args@)),
{
    let n: usize = args.len();
    let ghost all = args_of(args@);
    let mut r: Vec<(String, String)> = Vec::new();
    let ghost mut kv: Seq<(Seq<char>, Seq<char>)> = Seq::empty();
    assert(r@.map_values(|e: (String, String)| (e.0@, e.1@)) =~= kv);
    assert(kv =~= edits_of(all.take(0)));
    let mut i: usize = 0;
    while i < n
        invariant
            n == args@.len(),
            i <= n,
            all == args_of(args@),
            kv == edits_of(all.take(i as int)),
            r@.map_values(|e: (String, String)| (e.0@, e.1@)) == kv,
        decreases n - i,
    {
        proof {
            assert(all.take(i + 1).drop_last() =~= all.take(i as int));
            assert(all.take(i + 1).last() == args@[i as int]@);
        }
        let v = to_chars(args[i].as_str());
        match split_once(v.as_slice(), '=') {
            Some((a, b)) => {
                let k = from_chars(a);
                let t = from_chars(b);
                proof {
                    kv = kv.push((a@, b@));
                }
                r.push((k, t));
                assert(r@.map_values(|e: (String, String)| (e.0@, e.1@)) =~= kv);
            },
            None => {},
        }
        i = i + 1;
    }
    assert(all.take(n as int) =~= all);
    r
}

/// Read a command and its arguments. Read-only by default: `jump` moves the mirrors
/// with the laser off, and `off` silences every output, which is the one to reach
/// for when something is running that should not be.
pub fn request(cmd: &str, rest: &[String]) -> (r: Result<Request, Usage>)
    ensures
        match r {
            Ok(q) => wished(cmd@, args_of(rest@)) == Ok::<Wish, Usage>(q@),
            Err(e) => wished(cmd@, args_of(rest@)) == Err::<Wish, Usage>(e),
        },
{
    let c = to_chars(cmd);
    if is(&c, "devices") {
        return Ok(Request::Devices);
    }
    if is(&c, "status") {
        return Ok(Request::Status);
    }
    if is(&c, "inputs") {
        let secs: Option<String> = if rest.len() > 0 {
            assert(args_of(rest@)[0] == rest@[0]@);
            Some(String::from_str(rest[0].as_str()))
        } else {
            None
        };
        return Ok(Request::Inputs { secs });
    }
    if is(&c, "unlock") {
        return Ok(Request::Unlock);
    }
    if is(&c, "off") {
        return Ok(Request::Off);
    }
    if is(&c, "out") {
        return match (num_at(rest, 0), num_at(rest, 1)) {
            (Some(p), Some(v)) => Ok(Request::Out { port: low_byte(p), value: low_word(v) as u16 }),
            _ => Err(Usage::Out),
        };
    }
    if is(&c, "jump") {
        return match (num_at(rest, 0), num_at(rest, 1)) {
            (Some(x), Some(y)) => Ok(Request::Jump { x: low_word(x) as u16, y: low_word(y) as u16 }),
            _ => Err(Usage::Jump),
        };
    }
    if is(&c, "field") {
        let mut path = String::from_str("markcfg0");
        if rest.len() > 0 {
            assert(args_of(rest@)[0] == rest@[0]@);
            let v = to_chars(rest[0].as_str());
            if split_once(v.as_slice(), '=').is_none() {
                path = from_chars(v.as_slice());
            }
        }
        return Ok(Request::Field { path, edits: list_edits(rest) });
    }
    Ok(Request::Help)
}

// ---- laws -----------------------------------------------------------------

/// A number on the command line reads as what it writes, in decimal or behind 0x, with
/// blanks around it or not.
pub proof fn law_a_number_reads_as_written(n: int, m: nat)
    requires
        -0x8000_0000_0000_0000 <= n <= 0x7FFF_FFFF_FFFF_FFFF,
        m < 0x1_0000_0000,
    ensures
        number_of(signed_decimal(n)) == Some(n),
        number_of(seq![' '] + signed_decimal(n) + seq![' ']) == Some(n),
        number_of(seq!['0', 'x'] + hexadecimal(m, 8)) == Some(m as int),
        number_of(seq!['0', 'X'] + hexadecimal(m, 8)) == Some(m as int),
{
    law_a_written_number_is_read(n, n);
    let s = signed_decimal(n);
    if n < 0 {
        law_decimal_reads_back((-n) as nat);
        let d = decimal((-n) as nat);
        assert(is_digit(d.last(), 10));
        assert(s.last() == d.last());
    } else {
        law_decimal_reads_back(n as nat);
        assert(is_digit(s.last(), 10));
        assert(is_digit(s[0], 10));
        if s.len() > 1 {
            assert(is_digit(s[1], 10));
        }
    }
    lemma_trim_id(s, false);
    let padded = seq![' '] + s + seq![' '];
    assert(padded.skip(1) =~= s + seq![' ']);
    assert(trim_start(padded.skip(1), false) == s + seq![' ']);
    assert((s + seq![' ']).drop_last() =~= s);
    assert(trim(padded, false) == s);
    law_hexadecimal_reads_back(m, 8);
    reveal_with_fuel(sixteens, 9);
    let h = hexadecimal(m, 8);
    let (a, b) = (seq!['0', 'x'] + h, seq!['0', 'X'] + h);
    assert(a.skip(2) =~= h);
    assert(b.skip(2) =~= h);
    assert(a.last() == h[7] && b.last() == h[7]);
    lemma_trim_id(a, false);
    lemma_trim_id(b, false);
    assert forall|i: int| 0 <= i < h.len() implies #[trigger] is_digit(h[i], 16) by {
        let c = h[i];
        assert('0' <= c <= '9' || 'A' <= c <= 'F');
    }
    assert(h[0] != '-' && h[0] != '+');
}

/// The text shows the byte `b` at place `i`: two digits in lower case that read as it.
pub open spec fn shown(t: Seq<char>, i: int, b: u8) -> bool {
    let (x, y) = (t[3 * i], t[3 * i + 1]);
    &&& is_digit(x, 16) && is_digit(y, 16)
    &&& !('A' <= x <= 'Z') && !('A' <= y <= 'Z')
    &&& b == 16 * digit_value(x) + digit_value(y)
}

/// Bytes are shown in order, two digits each, which read back as the byte, with one space
/// between any two.
pub proof fn law_bytes_are_shown_in_order(b: Seq<u8>)
    ensures
        b.len() == 0 ==> hex_text(b).len() == 0,
        b.len() > 0 ==> hex_text(b).len() == 3 * b.len() - 1,
        forall|i: int| 0 <= i < b.len() ==> #[trigger] shown(hex_text(b), i, b[i]),
        forall|j: int|
            0 <= j < hex_text(b).len() && j % 3 == 2 ==> #[trigger] hex_text(b)[j] == ' ',
    decreases b.len(),
{
    if b.len() > 0 {
        let t = hex_text(b);
        let p = lower(hexadecimal(b.last() as nat, 2));
        lemma_shown_byte(b.last());
        if b.len() == 1 {
            assert(b[0] == b.last());
        } else {
            law_bytes_are_shown_in_order(b.drop_last());
            let u = hex_text(b.drop_last());
            assert forall|i: int| 0 <= i < b.len() implies #[trigger] shown(t, i, b[i]) by {
                if i + 1 < b.len() {
                    assert(shown(u, i, b.drop_last()[i]));
                    assert(t[3 * i] == u[3 * i] && t[3 * i + 1] == u[3 * i + 1]);
                } else {
                    assert(t[3 * i] == p[0] && t[3 * i + 1] == p[1]);
                }
            }
            assert forall|j: int| 0 <= j < t.len() && j % 3 == 2 implies #[trigger] t[j]
                == ' ' by {
                if j < u.len() {
                    assert(t[j] == u[j]);
                }
            }
        }
    }
}

proof fn lemma_shown_byte(b: u8)
    ensures
        ({
            let p = lower(hexadecimal(b as nat, 2));
            &&& p.len() == 2
            &&& is_digit(p[0], 16) && is_digit(p[1], 16)
            &&& !('A' <= p[0] <= 'Z') && !('A' <= p[1] <= 'Z')
            &&& b == 16 * digit_value(p[0]) + digit_value(p[1])
        }),
{
    reveal_with_fuel(hexadecimal, 3);
    let h = hexadecimal(b as nat, 2);
    let (hi, lo) = ((b as nat / 16) % 16, b as nat % 16);
    assert(h =~= seq![digit_char(hi as int), digit_char(lo as int)]);
    let p = lower(h);
    assert(p[0] == lower_char(digit_char(hi as int)) && p[1] == lower_char(digit_char(lo as int)));
}

/// The commands by name. The numbers of `out` and `jump` keep their low bits, and both
/// have to be there; any other word asks for help.
pub proof fn law_the_commands_by_name(cmd: Seq<char>, args: Seq<Seq<char>>, a: int, b: int)
    requires
        args.len() >= 2 ==> number_of(args[0]) == Some(a) && number_of(args[1]) == Some(b),
    ensures
        cmd == "devices"@ ==> wished(cmd, args) == Ok::<Wish, Usage>(Wish::Devices),
        cmd == "status"@ ==> wished(cmd, args) == Ok::<Wish, Usage>(Wish::Status),
        cmd == "unlock"@ ==> wished(cmd, args) == Ok::<Wish, Usage>(Wish::Unlock),
        cmd == "off"@ ==> wished(cmd, args) == Ok::<Wish, Usage>(Wish::Off),
        cmd == "inputs"@ && args.len() == 0 ==> wished(cmd, args) == Ok::<Wish, Usage>(
            Wish::Inputs { secs: None },
        ),
        cmd == "inputs"@ && args.len() > 0 ==> wished(cmd, args) == Ok::<Wish, Usage>(
            Wish::Inputs { secs: Some(args[0]) },
        ),
        cmd == "out"@ && args.len() < 2 ==> wished(cmd, args) == Err::<Wish, Usage>(Usage::Out),
        cmd == "out"@ && args.len() >= 2 ==> (wished(cmd, args) matches Ok(w) && w matches Wish::Out {
            port,
            value,
        } && port == a % 256 && value == b % 65536),
        cmd == "jump"@ && args.len() < 2 ==> wished(cmd, args) == Err::<Wish, Usage>(Usage::Jump),
        cmd == "jump"@ && args.len() >= 2 ==> (wished(cmd, args) matches Ok(w)
            && w matches Wish::Jump { x, y } && x == a % 65536 && y == b % 65536),
        cmd == "field"@ ==> (wished(cmd, args) matches Ok(w) && w is Field),
        cmd.len() == 0 || cmd[0] != 'd' && cmd[0] != 's' && cmd[0] != 'u' && cmd[0] != 'o' && cmd[0]
            != 'i' && cmd[0] != 'j' && cmd[0] != 'f' ==> wished(cmd, args) == Ok::<Wish, Usage>(
            Wish::Help,
        ),
{
    reveal_strlit("devices");
    reveal_strlit("status");
    reveal_strlit("inputs");
    reveal_strlit("unlock");
    reveal_strlit("off");
    reveal_strlit("out");
    reveal_strlit("jump");
    reveal_strlit("field");
    assert("devices"@[0] == 'd' && "status"@[0] == 's' && "inputs"@[0] == 'i');
    assert("unlock"@[0] == 'u' && "jump"@[0] == 'j' && "field"@[0] == 'f');
    assert("off"@[0] == 'o' && "off"@[1] == 'f' && "out"@[0] == 'o' && "out"@[1] == 'u');
}

/// A field is kept in the file that comes first, or in markcfg0 where none is named; every
/// argument `key=value` is a change, in order, and no other is.
pub proof fn law_what_a_field_command_changes(
    args: Seq<Seq<char>>,
    more: Seq<char>,
    k: Seq<char>,
    v: Seq<char>,
)
    requires
        !k.contains('='),
    ensures
        wished("field"@, args) matches Ok(Wish::Field { path, edits }) && path == (if args.len() > 0
            && !args[0].contains('=') {
            args[0]
        } else {
            "markcfg0"@
        }) && edits == edits_of(args),
        edits_of(Seq::empty()).len() == 0,
        more == k + seq!['='] + v ==> edits_of(args.push(more)) == edits_of(args).push((k, v)),
        !more.contains('=') ==> edits_of(args.push(more)) == edits_of(args),
{
    law_the_commands_by_name("field"@, Seq::empty(), 0, 0);
    reveal_strlit("devices");
    reveal_strlit("status");
    reveal_strlit("inputs");
    reveal_strlit("unlock");
    reveal_strlit("off");
    reveal_strlit("out");
    reveal_strlit("jump");
    reveal_strlit("field");
    assert("devices"@[0] == 'd' && "status"@[0] == 's' && "inputs"@[0] == 'i');
    assert("unlock"@[0] == 'u' && "jump"@[0] == 'j' && "field"@[0] == 'f');
    assert("off"@[0] == 'o' && "out"@[0] == 'o');
    if args.len() > 0 {
        law_a_split_joins_again(args[0], '=');
    }
    law_a_split_joins_again(more, '=');
    assert(args.push(more).drop_last() =~= args);
    assert(args.push(more).last() == more);
    if more == k + seq!['='] + v {
        lemma_find(more, '=');
        let n = find(more, '=');
        assert(more[k.len() as int] == '=');
        assert(n <= k.len()) by {
            if n > k.len() {
                assert(more[k.len() as int] != '=');
            }
        }
        if n < k.len() {
            assert(k[n] == more[n]);
            assert(k.contains('='));
        }
        assert(more.take(n) =~= k);
        assert(more.skip(n + 1) =~= v);
    }
}

} // verus!
