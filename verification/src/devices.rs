//! Boards on a plain bulk-transfer bus: where they are, which one is meant, and
//! what a bulk transfer came to.
//!
//! One detail bites on the second run rather than the first: the endpoints keep any
//! stalled state across a close, so a job that finishes leaves the pipes halted and
//! the next process enumerates, unlocks and reports status happily while every
//! transfer that matters goes nowhere. So the halts are cleared on open as well as
//! on close, which also recovers from a process that was killed before it could
//! clean up.

use crate::cyusb::{out_of_time, timed_out, too_few, too_few_boards};
use crate::text::{
    decimal, find, find_char, hexadecimal, is_digit, law_a_written_number_is_read,
    law_decimal_reads_back, lemma_find, push_decimal, push_hex, same, split, to_chars,
    unsigned_number,
};
use crate::usb::{
    endpoints, BoardError, Failure, Result, Xfer, EP_CTRL_IN, EP_CTRL_OUT, EP_DATA_IN, EP_DATA_OUT,
    PID, VID,
};
use vstd::prelude::*;
use vstd::slice::slice_subrange;
use vstd::string::StringExecFns;

verus! {

/// A device by its bus and its address on it.
pub type Place = (u8, u8);

/// Whether a device is a board.
pub fn is_board(vendor: u16, product: u16) -> (r: bool)
    ensures
        r == (vendor == VID && product == PID),
{
    vendor == VID && product == PID
}

/// A place in words: bus and address.
pub open spec fn place_text(p: Place) -> Seq<char> {
    decimal(p.0 as nat) + "."@ + decimal(p.1 as nat)
}

/// The path of a board.
pub fn location(p: Place) -> (r: String)
    ensures
        r@ == "usb:"@ + place_text(p),
{
    let mut r = String::from_str("usb:");
    push_decimal(&mut r, p.0 as u64);
    r.append(".");
    push_decimal(&mut r, p.1 as u64);
    assert(r@ =~= "usb:"@ + place_text(p));
    r
}

/// What stands behind the last colon of a text, or all of it.
pub open spec fn behind_colon(s: Seq<char>) -> Seq<char>
    decreases s.len(),
{
    if find(s, ':') < s.len() {
        proof {
            lemma_find(s, ':');
        }
        behind_colon(s.skip(find(s, ':') + 1))
    } else {
        s
    }
}

fn after_colon(v: &Vec<char>) -> (r: &[char])
    ensures
        r@ == behind_colon(v@),
{
    let n: usize = v.len();
    let mut lo: usize = 0;
    assert(v@.skip(0) =~= v@);
    loop
        invariant
            n == v@.len(),
            lo <= n,
            behind_colon(v@.skip(lo as int)) == behind_colon(v@),
        ensures
            lo <= n,
            find(v@.skip(lo as int), ':') == n - lo,
        decreases n - lo,
    {
        let rest = slice_subrange(v.as_slice(), lo, n);
        assert(rest@ =~= v@.skip(lo as int));
        let i: usize = find_char(rest, ':');
        proof {
            lemma_find(rest@, ':');
        }
        if i >= rest.len() {
            break ;
        }
        assert(rest@.skip(i + 1) =~= v@.skip(lo + i + 1));
        lo = lo + i + 1;
    }
    let r = slice_subrange(v.as_slice(), lo, n);
    assert(r@ =~= v@.skip(lo as int));
    r
}

/// The first of `found` at a place, or their number.
pub open spec fn first_at(found: Seq<Place>, want: Seq<char>) -> int
    decreases found.len(),
{
    if found.len() == 0 || place_text(found[0]) == want {
        0
    } else {
        1 + first_at(found.skip(1), want)
    }
}

/// Which of the boards that were found to open: the one at a path, else by its
/// place in the list.
pub fn choose_board(found: &Vec<Place>, path: Option<&str>, index: usize) -> (r: Result<usize>)
    ensures
        if found@.len() == 0 {
            r matches Err(e) && e@ == Failure::NotFound("VID 04B4 PID 1004"@)
        } else {
            match path {
                Some(p) => {
                    let i = first_at(found@, behind_colon(p@));
                    if i < found@.len() {
                        r matches Ok(x) && x == i
                    } else {
                        r matches Err(e) && e@ == Failure::NotFound("no board at "@ + p@)
                    }
                },
                None => if index >= found@.len() {
                    r matches Err(e) && e@ == too_few(found@.len())
                } else {
                    r matches Ok(x) && x == index
                },
            }
        },
{
    let n: usize = found.len();
    if n == 0 {
        return Err(BoardError::NotFound(String::from_str("VID 04B4 PID 1004")));
    }
    match path {
        Some(p) => {
            let given = to_chars(p);
            let want = after_colon(&given);
            let mut i: usize = 0;
            assert(found@.skip(0) =~= found@);
            while i < n
                invariant
                    n == found@.len(),
                    i <= n,
                    path == Some(p),
                    want@ == behind_colon(p@),
                    first_at(found@, want@) == i + first_at(found@.skip(i as int), want@),
                decreases n - i,
            {
                let q: Place = found[i];
                let mut t = String::new();
                push_decimal(&mut t, q.0 as u64);
                t.append(".");
                push_decimal(&mut t, q.1 as u64);
                assert(t@ =~= place_text(q));
                assert(found@.skip(i as int)[0] == q);
                if same(to_chars(t.as_str()).as_slice(), want) {
                    return Ok(i);
                }
                assert(found@.skip(i as int).skip(1) =~= found@.skip(i + 1));
                i = i + 1;
            }
            let mut m = String::from_str("no board at ");
            m.append(p);
            Err(BoardError::NotFound(m))
        },
        None => if index >= n {
            Err(too_few_boards(n))
        } else {
            Ok(index)
        },
    }
}

/// The failure to open a board that is there.
pub fn cannot_open(path: &str, why: &str) -> (r: BoardError)
    ensures
        r@ == Failure::Open(
            path@ + ": "@ + why@
                + ". On Linux this is usually permissions: add a udev rule for 04b4:1004 or run as root"@,
        ),
{
    let mut m = String::from_str(path);
    m.append(": ");
    m.append(why);
    m.append(
        ". On Linux this is usually permissions: add a udev rule for 04b4:1004 or run as root",
    );
    BoardError::Open(m)
}

/// The endpoints in the order in which their halts are cleared.
pub fn halt_order() -> (r: [u8; 4])
    ensures
        r@ == endpoints(),
{
    let r = [EP_CTRL_IN, EP_DATA_IN, EP_CTRL_OUT, EP_DATA_OUT];
    assert(r@ =~= endpoints());
    r
}

/// What a bulk transfer came to.
pub enum Bulk {
    /// So many bytes moved.
    Moved(usize),
    Timeout,
    /// Anything else, in the words of the driver.
    Failed(String),
}

/// What a read gives its caller: the whole buffer, whatever was moved of it.
pub fn read_outcome(b: Bulk, buf: Vec<u8>, timeout_ms: u32) -> (r: Result<Xfer>)
    ensures
        match b {
            Bulk::Moved(n) => r matches Ok(x) && x.nt == 0 && x.usbd == 0 && x.data == buf
                && x.moved == n,
            Bulk::Timeout => r matches Err(e) && e@ == out_of_time(timeout_ms),
            Bulk::Failed(m) => r matches Err(e) && e@ == Failure::Transfer(m@),
        },
{
    match b {
        Bulk::Moved(n) => Ok(Xfer { nt: 0, usbd: 0, data: buf, moved: n }),
        Bulk::Timeout => Err(timed_out(timeout_ms)),
        Bulk::Failed(m) => Err(BoardError::Transfer(m)),
    }
}

/// What a write of `len` bytes gives its caller. The byte count is honest here, so
/// a short write is a real partial transfer: the board got half a command.
pub fn write_outcome(b: Bulk, ep: u8, len: usize, timeout_ms: u32) -> (r: Result<Xfer>)
    ensures
        match b {
            Bulk::Moved(n) => if n == len {
                r matches Ok(x) && x.nt == 0 && x.usbd == 0 && x.data@.len() == 0 && x.moved == n
            } else {
                r matches Err(e) && e@ == Failure::Transfer(
                    "short write on EP 0x"@ + hexadecimal(ep as nat, 2) + ": "@ + decimal(
                        n as nat,
                    ) + " of "@ + decimal(len as nat) + " bytes"@,
                )
            },
            Bulk::Timeout => r matches Err(e) && e@ == out_of_time(timeout_ms),
            Bulk::Failed(m) => r matches Err(e) && e@ == Failure::Transfer(m@),
        },
{
    match b {
        Bulk::Moved(n) => {
            if n == len {
                return Ok(Xfer { nt: 0, usbd: 0, data: Vec::new(), moved: n });
            }
            let mut m = String::from_str("short write on EP 0x");
            push_hex(&mut m, ep as u32, 2);
            m.append(": ");
            push_decimal(&mut m, n as u64);
            m.append(" of ");
            push_decimal(&mut m, len as u64);
            m.append(" bytes");
            Err(BoardError::Transfer(m))
        },
        Bulk::Timeout => Err(timed_out(timeout_ms)),
        Bulk::Failed(m) => Err(BoardError::Transfer(m)),
    }
}

// ---- laws -----------------------------------------------------------------

/// A text without a colon stands behind no colon but its own prefix's.
proof fn lemma_behind_prefix(a: Seq<char>, t: Seq<char>)
    requires
        forall|i: int| 0 <= i < a.len() ==> a[i] != ':',
        forall|i: int| 0 <= i < t.len() ==> t[i] != ':',
    ensures
        behind_colon(a + seq![':'] + t) == t,
{
    let s = a + seq![':'] + t;
    lemma_find(s, ':');
    assert(s[a.len() as int] == ':');
    assert(find(s, ':') == a.len()) by {
        let f = find(s, ':');
        if f < a.len() {
            assert(s[f] == a[f]);
        }
    }
    assert(s.skip(a.len() as int + 1) =~= t);
    lemma_find(t, ':');
    assert(behind_colon(t) == t);
}

/// Two places in the same words are the same place.
proof fn lemma_place_text(p: Place, q: Place)
    ensures
        forall|i: int| 0 <= i < place_text(p).len() ==> place_text(p)[i] != ':',
        place_text(p) == place_text(q) ==> p == q,
{
    let (a, b) = (decimal(p.0 as nat), decimal(p.1 as nat));
    let (c, d) = (decimal(q.0 as nat), decimal(q.1 as nat));
    reveal_strlit(".");
    law_decimal_reads_back(p.0 as nat);
    law_decimal_reads_back(p.1 as nat);
    law_decimal_reads_back(q.0 as nat);
    law_decimal_reads_back(q.1 as nat);
    let s = place_text(p);
    let t = place_text(q);
    assert forall|i: int| 0 <= i < s.len() implies s[i] != ':' by {
        if i < a.len() {
            assert(is_digit(a[i], 10) && s[i] == a[i]);
        } else if i > a.len() {
            assert(is_digit(b[i - a.len() - 1], 10) && s[i] == b[i - a.len() - 1]);
        }
    }
    if s == t {
        assert(s[a.len() as int] == '.');
        assert(t[c.len() as int] == '.');
        if a.len() < c.len() {
            assert(is_digit(c[a.len() as int], 10) && t[a.len() as int] == c[a.len() as int]);
        }
        if c.len() < a.len() {
            assert(is_digit(a[c.len() as int], 10) && s[c.len() as int] == a[c.len() as int]);
        }
        assert(s.subrange(0, a.len() as int) =~= a);
        assert(t.subrange(0, c.len() as int) =~= c);
        assert(s.skip(a.len() as int + 1) =~= b);
        assert(t.skip(c.len() as int + 1) =~= d);
    }
}

proof fn lemma_first_at(found: Seq<Place>, want: Seq<char>, i: int)
    requires
        0 <= i < found.len(),
        place_text(found[i]) == want,
    ensures
        0 <= first_at(found, want) <= i,
        place_text(found[first_at(found, want)]) == want,
    decreases found.len(),
{
    if place_text(found[0]) != want {
        lemma_first_at(found.skip(1), want, i - 1);
    }
}

/// The path of a board opens that board: where a board is found, its own location
/// leads back to it.
pub proof fn law_a_location_opens_its_board(found: Seq<Place>, i: int)
    requires
        0 <= i < found.len(),
    ensures
        ({
            let k = first_at(found, behind_colon("usb:"@ + place_text(found[i])));
            0 <= k <= i && found[k] == found[i]
        }),
{
    let p = found[i];
    reveal_strlit("usb:");
    lemma_place_text(p, p);
    let usb = seq!['u', 's', 'b'];
    assert("usb:"@ + place_text(p) =~= usb + seq![':'] + place_text(p));
    lemma_behind_prefix(usb, place_text(p));
    lemma_first_at(found, place_text(p), i);
    lemma_place_text(found[first_at(found, place_text(p))], p);
}

/// A place reads back as its bus, a point and its address, both in decimal.
pub proof fn law_a_place_in_words(p: Place)
    ensures
        split(place_text(p), '.') matches Some((a, b)) && unsigned_number(a, 10, 255) == Some(
            p.0 as int,
        ) && unsigned_number(b, 10, 255) == Some(p.1 as int),
{
    let (a, b) = (decimal(p.0 as nat), decimal(p.1 as nat));
    reveal_strlit(".");
    law_a_written_number_is_read(p.0 as int, 255);
    law_a_written_number_is_read(p.1 as int, 255);
    law_decimal_reads_back(p.0 as nat);
    let s = place_text(p);
    lemma_find(s, '.');
    let n = find(s, '.');
    assert(s[a.len() as int] == '.');
    assert(n <= a.len());
    if n < a.len() {
        assert(is_digit(a[n], 10) && s[n] == a[n]);
    }
    assert(s.take(n) =~= a);
    assert(s.skip(n + 1) =~= b);
}

/// The board that is taken is the first at its place: none before it stands there, and
/// where none is taken none does.
pub proof fn law_the_first_at_a_place_is_taken(found: Seq<Place>, want: Seq<char>)
    ensures
        0 <= first_at(found, want) <= found.len(),
        forall|j: int| 0 <= j < first_at(found, want) ==> place_text(#[trigger] found[j]) != want,
        first_at(found, want) < found.len() ==> place_text(found[first_at(found, want)]) == want,
    decreases found.len(),
{
    if found.len() > 0 && place_text(found[0]) != want {
        let rest = found.skip(1);
        law_the_first_at_a_place_is_taken(rest, want);
        assert forall|j: int| 0 <= j < first_at(found, want) implies place_text(#[trigger] found[j])
            != want by {
            if j > 0 {
                assert(rest[j - 1] == found[j]);
            }
        }
    }
}

/// What stands behind the last colon holds none, and the text ends with it; a text without
/// a colon is taken whole.
pub proof fn law_what_stands_behind_the_last_colon(s: Seq<char>)
    ensures
        !behind_colon(s).contains(':'),
        !s.contains(':') ==> behind_colon(s) == s,
        s.contains(':') ==> behind_colon(s).len() < s.len() && s[s.len() - behind_colon(s).len()
            - 1] == ':',
        behind_colon(s).len() <= s.len(),
        behind_colon(s) == s.skip(s.len() - behind_colon(s).len()),
    decreases s.len(),
{
    lemma_find(s, ':');
    let f = find(s, ':');
    if f < s.len() {
        let t = s.skip(f + 1);
        law_what_stands_behind_the_last_colon(t);
        let b = behind_colon(s);
        assert(t.skip(t.len() - b.len()) =~= s.skip(s.len() - b.len()));
        assert(s[f] == ':');
        if t.contains(':') {
            assert(t[t.len() - b.len() - 1] == s[s.len() - b.len() - 1]);
        }
    } else {
        assert(s.skip(0) =~= s);
    }
}

/// A board is vendor 04B4, product 1004, with its commands on 0x06 and 0x88 and its data
/// on 0x02 and 0x84.
pub proof fn law_a_board_by_its_numbers()
    ensures
        VID == 0x04B4 && PID == 0x1004,
        EP_CTRL_OUT == 0x06 && EP_CTRL_IN == 0x88 && EP_DATA_OUT == 0x02 && EP_DATA_IN == 0x84,
        endpoints() =~= seq![0x88u8, 0x84u8, 0x06u8, 0x02u8],
{
}

} // verus!
