//! The stock CYUSB3 driver on Windows: its transfer buffer, its texts, and which
//! of a machine's devices are boards.
//!
//! The interface GUID is not a constant: it comes from whichever .inf bound the
//! board, which is why it gets read out of the device's own registry key.

use crate::text::{
    contains, decimal, digit_value, from_chars, is_number, lower, number_value, occurs,
    parse_unsigned, push_decimal, same, to_chars, to_lower,
};
use crate::usb::{BoardError, Failure, Result, Xfer};
use vstd::prelude::*;
use vstd::slice::slice_subrange;
use vstd::string::StringExecFns;

verus! {

pub const IOCTL_NON_EP0_XFER: u32 = 0x0022_0024;
pub const IOCTL_RESET_PIPE: u32 = 0x0022_002C;
pub const IOCTL_ABORT_PIPE: u32 = 0x0022_0044;

/// Header ahead of the payload in the CYUSB3 transfer buffer.
pub const HDR: usize = 0x26;

/// Cypress's own interface GUID.
pub const CYUSBDRV_GUID: &'static str = "{AE18AA60-7F6A-11D4-97DD-00010229B959}";

/// What the interface path of a board holds, in lower case.
pub const HARDWARE_ID: &'static str = "vid_04b4&pid_1004";

// ---- GUIDs ----------------------------------------------------------------

#[derive(Clone, Copy, PartialEq, Eq, Debug)]
pub struct Guid {
    pub data1: u32,
    pub data2: u16,
    pub data3: u16,
    pub data4: [u8; 8],
}

/// The hexadecimal digits of a text, in order.
pub open spec fn hex_digits(s: Seq<char>) -> Seq<char>
    decreases s.len(),
{
    if s.len() == 0 {
        Seq::empty()
    } else if digit_value(s.last()) >= 0 {
        hex_digits(s.drop_last()).push(s.last())
    } else {
        hex_digits(s.drop_last())
    }
}

/// The number that digits `i` to `i + n` write.
pub open spec fn digits_at(h: Seq<char>, i: int, n: int) -> int {
    number_value(h.subrange(i, i + n), 16)
}

fn keep_digits(v: &[char]) -> (r: Vec<char>)
    ensures
        r@ == hex_digits(v@),
        forall|i: int| 0 <= i < r@.len() ==> digit_value(#[trigger] r@[i]) >= 0,
{
    let n: usize = v.len();
    let mut r: Vec<char> = Vec::new();
    assert(v@.take(0) =~= Seq::<char>::empty());
    for i in 0..n
        invariant
            n == v@.len(),
            r@ == hex_digits(v@.take(i as int)),
            forall|i: int| 0 <= i < r@.len() ==> digit_value(#[trigger] r@[i]) >= 0,
    {
        assert(v@.take(i + 1).drop_last() =~= v@.take(i as int));
        assert(v@.take(i + 1).last() == v@[i as int]);
        let c: char = v[i];
        if ('0' <= c && c <= '9') || ('a' <= c && c <= 'f') || ('A' <= c && c <= 'F') {
            r.push(c);
        }
    }
    assert(v@.take(n as int) =~= v@);
    r
}

/// 16 to the power `n`.
spec fn sixteens(n: nat) -> int
    decreases n,
{
    if n == 0 {
        1
    } else {
        16 * sixteens((n - 1) as nat)
    }
}

proof fn lemma_value_bound(d: Seq<char>)
    requires
        forall|i: int| 0 <= i < d.len() ==> digit_value(#[trigger] d[i]) >= 0,
    ensures
        0 <= number_value(d, 16) < sixteens(d.len()),
    decreases d.len(),
{
    if d.len() > 0 {
        let e = d.drop_last();
        assert forall|i: int| 0 <= i < e.len() implies digit_value(#[trigger] e[i]) >= 0 by {
            assert(e[i] == d[i]);
        }
        lemma_value_bound(e);
        assert(digit_value(d[d.len() - 1]) >= 0);
    }
}

fn number_at(h: &Vec<char>, i: usize, n: usize) -> (r: u32)
    requires
        1 <= n <= 8,
        i + n <= h@.len(),
        forall|k: int| 0 <= k < h@.len() ==> digit_value(#[trigger] h@[k]) >= 0,
    ensures
        r == digits_at(h@, i as int, n as int),
        n == 2 ==> r < 0x100,
        n == 4 ==> r < 0x10000,
{
    let total: usize = h.len();
    assert(i + n <= total);
    let d = slice_subrange(h.as_slice(), i, i + n);
    proof {
        assert(d@ =~= h@.subrange(i as int, i + n));
        assert forall|k: int| 0 <= k < d@.len() implies digit_value(#[trigger] d@[k]) >= 0
            && crate::text::is_digit(d@[k], 16) by {
            assert(d@[k] == h@[i + k]);
        }
        lemma_value_bound(d@);
        reveal_with_fuel(sixteens, 9);
        assert(d@[0] != '+');
        assert(is_number(d@, 16));
    }
    match parse_unsigned(d, 16, 0xFFFF_FFFF) {
        Some(v) => v as u32,
        None => 0,
    }
}

impl Guid {
    /// Parse "{AE18AA60-7F6A-11D4-97DD-00010229B959}": 32 hexadecimal digits,
    /// whatever stands between them.
    pub fn parse(s: &str) -> (r: Option<Guid>)
        ensures
            r is Some == (hex_digits(s@).len() == 32),
            r matches Some(g) ==> {
                let h = hex_digits(s@);
                &&& g.data1 == digits_at(h, 0, 8)
                &&& g.data2 == digits_at(h, 8, 4)
                &&& g.data3 == digits_at(h, 12, 4)
                &&& forall|i: int|
                    0 <= i < 8 ==> #[trigger] g.data4@[i] == digits_at(h, 16 + i * 2, 2)
            },
    {
        let h = keep_digits(to_chars(s).as_slice());
        if h.len() != 32 {
            return None;
        }
        let data4 = [
            number_at(&h, 16, 2) as u8,
            number_at(&h, 18, 2) as u8,
            number_at(&h, 20, 2) as u8,
            number_at(&h, 22, 2) as u8,
            number_at(&h, 24, 2) as u8,
            number_at(&h, 26, 2) as u8,
            number_at(&h, 28, 2) as u8,
            number_at(&h, 30, 2) as u8,
        ];
        Some(
            Guid {
                data1: number_at(&h, 0, 8),
                data2: number_at(&h, 8, 4) as u16,
                data3: number_at(&h, 12, 4) as u16,
                data4,
            },
        )
    }
}

// ---- UTF-16 ---------------------------------------------------------------

/// The UTF-16 code units of one character.
pub open spec fn code_units(c: char) -> Seq<u16> {
    let u = c as u32;
    if u < 0x10000 {
        seq![u as u16]
    } else {
        seq![
            (0xD800 + (u - 0x10000) / 0x400) as u16,
            (0xDC00 + (u - 0x10000) % 0x400) as u16,
        ]
    }
}

/// The UTF-16 of a text.
pub open spec fn utf16(s: Seq<char>) -> Seq<u16>
    decreases s.len(),
{
    if s.len() == 0 {
        Seq::empty()
    } else {
        utf16(s.drop_last()) + code_units(s.last())
    }
}

/// A text as a NUL-terminated UTF-16 string.
pub fn wide(s: &str) -> (r: Vec<u16>)
    ensures
        r@ == utf16(s@).push(0),
{
    let v = to_chars(s);
    let n: usize = v.len();
    let mut r: Vec<u16> = Vec::new();
    assert(v@.take(0) =~= Seq::<char>::empty());
    for i in 0..n
        invariant
            v@ == s@,
            n == v@.len(),
            r@ == utf16(v@.take(i as int)),
    {
        assert(v@.take(i + 1).drop_last() =~= v@.take(i as int));
        assert(v@.take(i + 1).last() == v@[i as int]);
        let ghost before = r@;
        let u: u32 = v[i] as u32;
        if u < 0x10000 {
            r.push(u as u16);
        } else {
            let x: u32 = u - 0x10000;
            proof {
                vstd::utf8::char_is_scalar(v@[i as int]);
            }
            assert(x / 0x400 < 0x400);
            r.push((0xD800 + x / 0x400) as u16);
            r.push((0xDC00 + x % 0x400) as u16);
        }
        assert(r@ =~= before + code_units(v@[i as int]));
    }
    assert(v@.take(n as int) =~= v@);
    r.push(0);
    r
}

/// The text of some code units: a unit outside the surrogates is a character, a high
/// surrogate with a low one behind it is one, and a surrogate without its partner is
/// replaced by U+FFFD.
pub open spec fn utf16_text(u: Seq<u16>) -> Seq<char>
    decreases u.len(),
{
    if u.len() == 0 {
        Seq::empty()
    } else if u[0] < 0xD800 || u[0] >= 0xE000 {
        seq![u[0] as u32 as char] + utf16_text(u.skip(1))
    } else if u[0] < 0xDC00 && u.len() > 1 && 0xDC00 <= u[1] < 0xE000 {
        seq![(0x10000 + (u[0] - 0xD800) * 0x400 + (u[1] - 0xDC00)) as u32 as char]
            + utf16_text(u.skip(2))
    } else {
        seq!['\u{FFFD}'] + utf16_text(u.skip(1))
    }
}

/// `String::from_utf16_lossy`: the code points of the units in order, each surrogate
/// that is not one of a pair replaced by U+FFFD.
#[verifier::external_body]
fn decode_utf16(units: &[u16]) -> (r: String)
    ensures
        r@ == utf16_text(units@),
{
    String::from_utf16_lossy(units)
}

proof fn lemma_utf16_front(s: Seq<char>)
    requires
        s.len() > 0,
    ensures
        utf16(s) == code_units(s[0]) + utf16(s.skip(1)),
    decreases s.len(),
{
    if s.len() == 1 {
        assert(s.drop_last() =~= Seq::<char>::empty());
        assert(s.skip(1) =~= Seq::<char>::empty());
        assert(utf16(s) =~= code_units(s[0]) + utf16(s.skip(1)));
    } else {
        let d = s.drop_last();
        lemma_utf16_front(d);
        assert(d.skip(1) =~= s.skip(1).drop_last());
        assert(utf16(s) =~= code_units(s[0]) + utf16(s.skip(1)));
    }
}

/// The UTF-16 of a text decodes to that text.
pub proof fn law_utf16_reads_back(t: Seq<char>)
    ensures
        utf16_text(utf16(t)) == t,
    decreases t.len(),
{
    if t.len() > 0 {
        let c = t[0];
        let x = c as u32;
        let u = utf16(t);
        let rest = utf16(t.skip(1));
        lemma_utf16_front(t);
        law_utf16_reads_back(t.skip(1));
        vstd::utf8::char_is_scalar(c);
        vstd::utf8::char_u32_cast(c, x);
        if x < 0x10000 {
            assert(u[0] == x);
            assert(u.skip(1) =~= rest);
        } else {
            let y = x - 0x10000;
            assert(u[0] == 0xD800 + y / 0x400 && u[1] == 0xDC00 + y % 0x400);
            assert(u.skip(2) =~= rest);
            assert(0x10000 + (u[0] - 0xD800) * 0x400 + (u[1] - 0xDC00) == x);
        }
        assert(seq![c] + t.skip(1) =~= t);
    }
}

/// Code units up to the first NUL.
pub open spec fn up_to_nul(u: Seq<u16>) -> Seq<u16>
    decreases u.len(),
{
    if u.len() == 0 || u[0] == 0 {
        Seq::empty()
    } else {
        seq![u[0]] + up_to_nul(u.skip(1))
    }
}

fn nul_at(buf: &[u16]) -> (r: usize)
    ensures
        r <= buf@.len(),
        up_to_nul(buf@) == buf@.take(r as int),
{
    let n: usize = buf.len();
    let mut i: usize = 0;
    assert(buf@.take(0) + up_to_nul(buf@.skip(0)) =~= up_to_nul(buf@)) by {
        assert(buf@.skip(0) =~= buf@);
    }
    while i < n && buf[i] != 0
        invariant
            n == buf@.len(),
            i <= n,
            buf@.take(i as int) + up_to_nul(buf@.skip(i as int)) == up_to_nul(buf@),
        decreases n - i,
    {
        proof {
            let rest = buf@.skip(i as int);
            assert(rest.skip(1) =~= buf@.skip(i + 1));
            assert(buf@.take(i + 1) =~= buf@.take(i as int).push(buf@[i as int]));
            assert(buf@.take(i + 1) + up_to_nul(buf@.skip(i + 1)) =~= buf@.take(i as int) + (seq![
                rest[0],
            ] + up_to_nul(rest.skip(1))));
        }
        i = i + 1;
    }
    assert(up_to_nul(buf@.skip(i as int)) =~= Seq::<u16>::empty());
    assert(buf@.take(i as int) =~= up_to_nul(buf@));
    i
}

/// The text ahead of the first NUL.
pub fn from_wide(buf: &[u16]) -> (r: String)
    ensures
        r@ == utf16_text(up_to_nul(buf@)),
        forall|t: Seq<char>| #[trigger] utf16(t) == up_to_nul(buf@) ==> r@ == t,
{
    let end: usize = nul_at(buf);
    let head = slice_subrange(buf, 0, end);
    assert(head@ =~= buf@.take(end as int));
    let r = decode_utf16(head);
    assert forall|t: Seq<char>| #[trigger] utf16(t) == up_to_nul(buf@) implies r@ == t by {
        law_utf16_reads_back(t);
    }
    r
}

/// Little-endian code units. An odd byte at the end is ignored.
pub open spec fn units_of(b: Seq<u8>) -> Seq<u16> {
    Seq::new(b.len() / 2, |i: int| (b[2 * i] + 256 * b[2 * i + 1]) as u16)
}

pub fn to_units(b: &[u8]) -> (r: Vec<u16>)
    ensures
        r@ == units_of(b@),
{
    let total: usize = b.len();
    let n: usize = total / 2;
    let mut r: Vec<u16> = Vec::new();
    let mut i: usize = 0;
    while i < n
        invariant
            total == b@.len(),
            n == total / 2,
            i <= n,
            r@ == units_of(b@).take(i as int),
        decreases n - i,
    {
        r.push(b[2 * i] as u16 + 256 * b[2 * i + 1] as u16);
        assert(units_of(b@).take(i + 1) =~= units_of(b@).take(i as int).push(
            units_of(b@)[i as int],
        ));
        i = i + 1;
    }
    assert(units_of(b@).take(n as int) =~= units_of(b@));
    r
}

/// The interface path in a detail record: a NUL-terminated string behind a 4-byte
/// size.
pub fn detail_path(buf: &[u8]) -> (r: String)
    requires
        buf@.len() >= 4,
    ensures
        r@ == utf16_text(up_to_nul(units_of(buf@.skip(4)))),
        forall|t: Seq<char>| #[trigger]
            utf16(t) == up_to_nul(units_of(buf@.skip(4))) ==> r@ == t,
{
    let rest = slice_subrange(buf, 4, buf.len());
    assert(rest@ =~= buf@.skip(4));
    let u = to_units(rest);
    from_wide(u.as_slice())
}

/// Code units between NULs. There is always at least one piece.
pub open spec fn pieces(u: Seq<u16>) -> Seq<Seq<u16>>
    decreases u.len(),
{
    if u.len() == 0 {
        seq![Seq::empty()]
    } else {
        let p = pieces(u.drop_last());
        if u.last() == 0 {
            p.push(Seq::empty())
        } else {
            p.drop_last().push(p.last().push(u.last()))
        }
    }
}

/// The texts of the pieces that are not empty.
pub open spec fn texts(p: Seq<Seq<u16>>) -> Seq<Seq<char>>
    decreases p.len(),
{
    if p.len() == 0 {
        Seq::empty()
    } else if p.last().len() == 0 {
        texts(p.drop_last())
    } else {
        texts(p.drop_last()).push(utf16_text(p.last()))
    }
}

/// Strings as sequences of characters.
pub open spec fn views(v: Seq<String>) -> Seq<Seq<char>> {
    v.map_values(|s: String| s@)
}

fn push_piece(out: &mut Vec<String>, piece: &Vec<u16>)
    ensures
        views(final(out)@) == if piece@.len() == 0 {
            views(old(out)@)
        } else {
            views(old(out)@).push(utf16_text(piece@))
        },
{
    if piece.len() > 0 {
        let t = decode_utf16(piece.as_slice());
        out.push(t);
        assert(views(out@) =~= views(old(out)@).push(utf16_text(piece@)));
    }
}

/// The strings of a registry value, one or many: split on NULs either way.
pub fn reg_strings(buf: &[u8]) -> (r: Vec<String>)
    ensures
        views(r@) == texts(pieces(units_of(buf@))),
{
    let u = to_units(buf);
    let n: usize = u.len();
    let mut out: Vec<String> = Vec::new();
    let mut cur: Vec<u16> = Vec::new();
    assert(u@.take(0) =~= Seq::<u16>::empty());
    assert(pieces(u@.take(0)).drop_last() =~= Seq::<Seq<u16>>::empty());
    assert(views(out@) =~= texts(pieces(u@.take(0)).drop_last()));
    assert(cur@ =~= pieces(u@.take(0)).last());
    for i in 0..n
        invariant
            n == u@.len(),
            pieces(u@.take(i as int)).len() > 0,
            cur@ == pieces(u@.take(i as int)).last(),
            views(out@) == texts(pieces(u@.take(i as int)).drop_last()),
    {
        let ghost before = pieces(u@.take(i as int));
        assert(u@.take(i + 1).drop_last() =~= u@.take(i as int));
        assert(u@.take(i + 1).last() == u@[i as int]);
        let c: u16 = u[i];
        if c == 0 {
            push_piece(&mut out, &cur);
            cur = Vec::new();
            proof {
                let now = pieces(u@.take(i + 1));
                assert(now.drop_last() =~= before);
                assert(now.last() =~= Seq::<u16>::empty());
            }
        } else {
            cur.push(c);
            proof {
                let now = pieces(u@.take(i + 1));
                assert(now.drop_last() =~= before.drop_last());
            }
        }
    }
    assert(u@.take(n as int) =~= u@);
    push_piece(&mut out, &cur);
    out
}

// ---- the transfer buffer --------------------------------------------------

/// A 32-bit number, low byte first.
pub open spec fn little_endian(n: int) -> Seq<u8> {
    seq![
        (n % 256) as u8,
        ((n / 256) % 256) as u8,
        ((n / 0x10000) % 256) as u8,
        ((n / 0x1000000) % 256) as u8,
    ]
}

/// The 32-bit number at `i`.
pub open spec fn dword_at(b: Seq<u8>, i: int) -> int {
    b[i] + 256 * b[i + 1] + 0x10000 * b[i + 2] + 0x1000000 * b[i + 3]
}

/// How many bytes a transfer moves: what is to be read, else what is to be written.
pub open spec fn transfer_size(payload: nat, read_len: nat) -> nat {
    if read_len > 0 {
        read_len
    } else {
        payload
    }
}

/// The byte at `i` of a transfer buffer: zeros, the endpoint at 0x0D, where the
/// payload starts and how long it is, then the payload.
pub open spec fn transfer_byte(ep: u8, payload: Seq<u8>, n: int, i: int) -> u8 {
    if i == 0x0D {
        ep
    } else if 0x1E <= i < 0x22 {
        little_endian(HDR as int)[i - 0x1E]
    } else if 0x22 <= i < 0x26 {
        little_endian(n)[i - 0x22]
    } else if HDR <= i < HDR + payload.len() {
        payload[i - HDR]
    } else {
        0
    }
}

/// The buffer that asks the driver for a transfer.
pub open spec fn transfer_buffer(ep: u8, payload: Seq<u8>, read_len: nat) -> Seq<u8> {
    let n = transfer_size(payload.len(), read_len);
    Seq::new((HDR + n) as nat, |i: int| transfer_byte(ep, payload, n as int, i))
}

pub fn frame_transfer(ep: u8, payload: &[u8], read_len: usize) -> (r: Vec<u8>)
    requires
        payload@.len() <= transfer_size(payload@.len(), read_len as nat),
        HDR + transfer_size(payload@.len(), read_len as nat) <= usize::MAX,
    ensures
        r@ == transfer_buffer(ep, payload@, read_len as nat),
{
    let n: usize = if read_len > 0 {
        read_len
    } else {
        payload.len()
    };
    let size: usize = HDR + n;
    let ghost all = transfer_buffer(ep, payload@, read_len as nat);
    let mut r: Vec<u8> = Vec::new();
    let mut i: usize = 0;
    while i < size
        invariant
            n == transfer_size(payload@.len(), read_len as nat),
            payload@.len() <= n,
            size == HDR + n,
            i <= size,
            all == transfer_buffer(ep, payload@, read_len as nat),
            r@ == all.take(i as int),
        decreases size - i,
    {
        let x: u8 = if i == 0x0D {
            ep
        } else if i == 0x1E {
            0x26
        } else if 0x1F <= i && i < 0x22 {
            0
        } else if i == 0x22 {
            (n % 256) as u8
        } else if i == 0x23 {
            ((n / 256) % 256) as u8
        } else if i == 0x24 {
            ((n / 0x10000) % 256) as u8
        } else if i == 0x25 {
            ((n / 0x1000000) % 256) as u8
        } else if HDR <= i && i - HDR < payload.len() {
            payload[i - HDR]
        } else {
            0
        };
        r.push(x);
        assert(all[i as int] == x);
        assert(all.take(i + 1) =~= all.take(i as int).push(x));
        i = i + 1;
    }
    assert(all.take(size as int) =~= all);
    r
}

fn dword(b: &Vec<u8>, i: usize) -> (r: u32)
    requires
        i + 4 <= b@.len(),
        i < 0x100,
    ensures
        r == dword_at(b@, i as int),
{
    b[i] as u32 + 256 * b[i + 1] as u32 + 0x10000 * b[i + 2] as u32 + 0x1000000 * b[i + 3] as u32
}

/// What a transfer buffer says once the driver is done with it: the two status
/// words, the payload, and how many of the bytes it moved were payload.
pub fn parse_transfer(buf: &Vec<u8>, got: u32) -> (r: Xfer)
    requires
        buf@.len() >= HDR,
    ensures
        r.nt == dword_at(buf@, 0x0E),
        r.usbd == dword_at(buf@, 0x12),
        r.data@ == buf@.skip(HDR as int),
        r.moved == if got > HDR {
            got - HDR
        } else {
            0
        },
{
    let mut data: Vec<u8> = Vec::new();
    let rest = slice_subrange(buf.as_slice(), HDR, buf.len());
    data.extend_from_slice(rest);
    assert(data@ =~= buf@.skip(HDR as int));
    let moved: usize = if got as u64 > HDR as u64 {
        (got as u64 - HDR as u64) as usize
    } else {
        0
    };
    Xfer { nt: dword(buf, 0x0E), usbd: dword(buf, 0x12), data, moved }
}

// ---- overlapped I/O -------------------------------------------------------

/// What to do about a request that was issued.
pub enum Io {
    /// It is through.
    Done,
    /// It failed.
    Failed(BoardError),
    /// It is under way: wait for it.
    Wait,
    /// It took too long: cancel it, and report this.
    Cancel(BoardError),
}

/// Windows' own words for an operation that is under way.
pub const ERROR_IO_PENDING: u32 = 997;

/// The failure of a call that set an error code.
pub open spec fn windows_error(code: u32) -> Failure {
    Failure::Transfer("Windows error "@ + decimal(code as nat))
}

/// The failure of a transfer that took too long.
pub open spec fn out_of_time(timeout_ms: u32) -> Failure {
    Failure::Timeout(decimal(timeout_ms as nat) + " ms"@)
}

fn error_of(code: u32) -> (r: BoardError)
    ensures
        r@ == windows_error(code),
{
    let mut m = String::from_str("Windows error ");
    push_decimal(&mut m, code as u64);
    BoardError::Transfer(m)
}

/// The failure of a transfer that took too long.
pub fn timed_out(timeout_ms: u32) -> (r: BoardError)
    ensures
        r@ == out_of_time(timeout_ms),
{
    let mut m = String::new();
    push_decimal(&mut m, timeout_ms as u64);
    m.append(" ms");
    assert(m@ =~= decimal(timeout_ms as nat) + " ms"@);
    BoardError::Timeout(m)
}

/// A request was issued: `ok` is what the call returned, `last_error` the code that
/// it set.
pub fn issued(ok: bool, last_error: u32) -> (r: Io)
    ensures
        match r {
            Io::Done => ok,
            Io::Wait => !ok && last_error == ERROR_IO_PENDING,
            Io::Failed(e) => !ok && last_error != ERROR_IO_PENDING && e@ == windows_error(
                last_error,
            ),
            Io::Cancel(_) => false,
        },
{
    if ok {
        Io::Done
    } else if last_error != ERROR_IO_PENDING {
        Io::Failed(error_of(last_error))
    } else {
        Io::Wait
    }
}

/// A wait came back: code 0 is that the request is through.
pub fn waited(code: u32, timeout_ms: u32) -> (r: Io)
    ensures
        match r {
            Io::Done => code == 0,
            Io::Cancel(e) => code != 0 && e@ == out_of_time(timeout_ms),
            _ => false,
        },
{
    if code == 0 {
        Io::Done
    } else {
        Io::Cancel(timed_out(timeout_ms))
    }
}

/// The result of a request that was waited for.
pub fn collected(ok: bool, last_error: u32) -> (r: Io)
    ensures
        match r {
            Io::Done => ok,
            Io::Failed(e) => !ok && e@ == windows_error(last_error),
            _ => false,
        },
{
    if ok {
        Io::Done
    } else {
        Io::Failed(error_of(last_error))
    }
}

// ---- which devices are boards ---------------------------------------------

/// Some text of `v` is `t`, whatever the case.
pub open spec fn listed(v: Seq<Seq<char>>, t: Seq<char>) -> bool {
    exists|i: int| 0 <= i < v.len() && lower(#[trigger] v[i]) == lower(t)
}

fn is_listed(v: &Vec<String>, t: &Vec<char>) -> (r: bool)
    ensures
        r == listed(views(v@), t@),
{
    let low = to_lower(t.as_slice());
    let n: usize = v.len();
    for i in 0..n
        invariant
            n == v@.len(),
            low@ == lower(t@),
            forall|j: int| 0 <= j < i ==> lower(#[trigger] views(v@)[j]) != lower(t@),
    {
        assert(views(v@)[i as int] == v@[i as int]@);
        let q = to_lower(to_chars(v[i].as_str()).as_slice());
        if same(q.as_slice(), low.as_slice()) {
            return true;
        }
    }
    false
}

/// The device paths to keep: each once, whatever its case, and unless any device
/// will do only those that carry the board's VID and PID.
pub open spec fn kept(paths: Seq<Seq<char>>, any_vidpid: bool) -> Seq<Seq<char>>
    decreases paths.len(),
{
    if paths.len() == 0 {
        Seq::empty()
    } else {
        let k = kept(paths.drop_last(), any_vidpid);
        let p = paths.last();
        if listed(k, p) || !(any_vidpid || occurs(HARDWARE_ID@, lower(p))) {
            k
        } else {
            k.push(p)
        }
    }
}

/// Every board among the interface paths of this machine, given in the order of
/// the GUIDs that they were found under.
///
/// A machine can hold several CyUSB devices, and taking the first one enumerated is
/// a coin flip.
pub fn find_devices(paths: &Vec<String>, any_vidpid: bool) -> (r: Vec<String>)
    ensures
        views(r@) == kept(views(paths@), any_vidpid),
{
    let hwid = to_chars(HARDWARE_ID);
    let n: usize = paths.len();
    let mut out: Vec<String> = Vec::new();
    let ghost all = views(paths@);
    assert(views(out@) =~= kept(all.take(0), any_vidpid));
    for i in 0..n
        invariant
            n == paths@.len(),
            all == views(paths@),
            hwid@ == HARDWARE_ID@,
            views(out@) == kept(all.take(i as int), any_vidpid),
    {
        proof {
            assert(all.take(i + 1).drop_last() =~= all.take(i as int));
            assert(all.take(i + 1).last() == paths@[i as int]@);
        }
        let p = to_chars(paths[i].as_str());
        let low = to_lower(p.as_slice());
        if !is_listed(&out, &p) && (any_vidpid || contains(low.as_slice(), hwid.as_slice())) {
            let ghost before = views(out@);
            let kept_path = from_chars(p.as_slice());
            out.push(kept_path);
            assert(views(out@) =~= before.push(p@));
        }
    }
    assert(all.take(n as int) =~= all);
    out
}

/// A device instance in the registry.
pub struct Instance {
    /// The driver that serves it.
    pub service: String,
    /// Its interface GUIDs, as they stand there.
    pub guids: Vec<String>,
}

/// What may stand around a GUID.
pub open spec fn is_wrap(c: char) -> bool {
    c == '{' || c == '}' || c == ' '
}

/// A GUID without what stands around it.
pub open spec fn unwrapped(s: Seq<char>) -> Seq<char>
    decreases s.len(),
{
    if s.len() > 0 && is_wrap(s[0]) {
        unwrapped(s.skip(1))
    } else if s.len() > 0 && is_wrap(s.last()) {
        unwrapped(s.drop_last())
    } else {
        s
    }
}

fn unwrap_guid(v: &[char]) -> (r: &[char])
    ensures
        r@ == unwrapped(v@),
{
    let n: usize = v.len();
    let mut lo: usize = 0;
    let mut hi: usize = n;
    assert(v@.subrange(0, n as int) =~= v@);
    while lo < hi && (v[lo] == '{' || v[lo] == '}' || v[lo] == ' ')
        invariant
            n == v@.len(),
            hi == n,
            lo <= hi,
            unwrapped(v@.subrange(lo as int, hi as int)) == unwrapped(v@),
        decreases hi - lo,
    {
        assert(v@.subrange(lo as int, hi as int).skip(1) =~= v@.subrange(lo + 1, hi as int));
        lo = lo + 1;
    }
    while lo < hi && (v[hi - 1] == '{' || v[hi - 1] == '}' || v[hi - 1] == ' ')
        invariant
            n == v@.len(),
            lo <= hi <= n,
            lo < hi ==> !is_wrap(v@[lo as int]),
            unwrapped(v@.subrange(lo as int, hi as int)) == unwrapped(v@),
        decreases hi - lo,
    {
        assert(v@.subrange(lo as int, hi as int).drop_last() =~= v@.subrange(lo as int, hi - 1));
        assert(v@.subrange(lo as int, hi as int).last() == v@[hi - 1]);
        hi = hi - 1;
    }
    let r = slice_subrange(v, lo, hi);
    assert(r@ =~= v@.subrange(lo as int, hi as int));
    r
}

/// GUIDs in braces, without those that are empty.
pub open spec fn braced(g: Seq<Seq<char>>) -> Seq<Seq<char>>
    decreases g.len(),
{
    if g.len() == 0 {
        Seq::empty()
    } else {
        let b = braced(g.drop_last());
        let u = unwrapped(g.last());
        if u.len() == 0 {
            b
        } else {
            b.push(seq!['{'] + u + seq!['}'])
        }
    }
}

/// The driver is Cypress's.
pub open spec fn is_cypress(service: Seq<char>) -> bool {
    lower(service) == "cyusb3"@ || lower(service) == "cyusb"@
}

/// The GUIDs of the instances that Cypress's driver serves, or of the others.
pub open spec fn guids_of(v: Seq<Instance>, cypress: bool) -> Seq<Seq<char>>
    decreases v.len(),
{
    if v.len() == 0 {
        Seq::empty()
    } else {
        let g = guids_of(v.drop_last(), cypress);
        if is_cypress(v.last().service@) == cypress {
            g + braced(views(v.last().guids@))
        } else {
            g
        }
    }
}

/// Each text once, whatever its case: the first spelling stays.
pub open spec fn distinct(v: Seq<Seq<char>>) -> Seq<Seq<char>>
    decreases v.len(),
{
    if v.len() == 0 {
        Seq::empty()
    } else {
        let d = distinct(v.drop_last());
        if listed(d, v.last()) {
            d
        } else {
            d.push(v.last())
        }
    }
}

fn push_guids(out: &mut Vec<String>, inst: &Instance, Ghost(raw): Ghost<Seq<Seq<char>>>)
    requires
        views(old(out)@) == distinct(raw),
    ensures
        views(final(out)@) == distinct(raw + braced(views(inst.guids@))),
{
    let n: usize = inst.guids.len();
    let ghost all = views(inst.guids@);
    assert(raw + braced(all.take(0)) =~= raw);
    for i in 0..n
        invariant
            n == inst.guids@.len(),
            all == views(inst.guids@),
            views(out@) == distinct(raw + braced(all.take(i as int))),
    {
        proof {
            assert(all.take(i + 1).drop_last() =~= all.take(i as int));
            assert(all.take(i + 1).last() == inst.guids@[i as int]@);
        }
        let given = to_chars(inst.guids[i].as_str());
        let g = unwrap_guid(given.as_slice());
        if g.len() > 0 {
            let mut t: Vec<char> = Vec::new();
            t.push('{');
            t.extend_from_slice(g);
            t.push('}');
            proof {
                assert(t@ =~= seq!['{'] + g@ + seq!['}']);
                let now = raw + braced(all.take(i + 1));
                assert(now.drop_last() =~= raw + braced(all.take(i as int)));
                assert(now.last() == t@);
            }
            if !is_listed(out, &t) {
                let ghost before = views(out@);
                out.push(from_chars(t.as_slice()));
                assert(views(out@) =~= before.push(t@));
            }
        }
    }
    assert(all.take(n as int) =~= all);
}

fn is_cy(service: &str) -> (r: bool)
    ensures
        r == is_cypress(service@),
{
    let low = to_lower(to_chars(service).as_slice());
    same(low.as_slice(), to_chars("cyusb3").as_slice()) || same(
        low.as_slice(),
        to_chars("cyusb").as_slice(),
    )
}

/// Interface GUIDs registered for this VID/PID, those that Cypress's driver serves
/// first.
pub fn registry_guids(instances: &Vec<Instance>) -> (r: Vec<String>)
    ensures
        views(r@) == distinct(guids_of(instances@, true) + guids_of(instances@, false)),
{
    let n: usize = instances.len();
    let mut out: Vec<String> = Vec::new();
    let ghost v = instances@;
    assert(v.take(0) =~= Seq::<Instance>::empty());
    assert(views(out@) =~= distinct(guids_of(v.take(0), true)));
    for i in 0..n
        invariant
            n == instances@.len(),
            v == instances@,
            views(out@) == distinct(guids_of(v.take(i as int), true)),
    {
        proof {
            assert(v.take(i + 1).drop_last() =~= v.take(i as int));
            assert(v.take(i + 1).last() == v[i as int]);
        }
        if is_cy(instances[i].service.as_str()) {
            push_guids(&mut out, &instances[i], Ghost(guids_of(v.take(i as int), true)));
        }
    }
    assert(v.take(n as int) =~= v);
    let ghost first = guids_of(v, true);
    assert(first + guids_of(v.take(0), false) =~= first);
    for i in 0..n
        invariant
            n == instances@.len(),
            v == instances@,
            views(out@) == distinct(first + guids_of(v.take(i as int), false)),
    {
        proof {
            assert(v.take(i + 1).drop_last() =~= v.take(i as int));
            assert(v.take(i + 1).last() == v[i as int]);
        }
        if !is_cy(instances[i].service.as_str()) {
            let ghost raw = first + guids_of(v.take(i as int), false);
            push_guids(&mut out, &instances[i], Ghost(raw));
            assert(raw + braced(views(v[i as int].guids@)) =~= first + guids_of(
                v.take(i + 1),
                false,
            ));
        }
    }
    assert(v.take(n as int) =~= v);
    out
}

/// The interface GUIDs to look under: those of the registry, then Cypress's stock one.
pub fn interface_guids(instances: &Vec<Instance>) -> (r: Vec<String>)
    ensures
        views(r@) == distinct(guids_of(instances@, true) + guids_of(instances@, false)).push(
            CYUSBDRV_GUID@,
        ),
{
    let mut r = registry_guids(instances);
    let ghost found = views(r@);
    r.push(String::from_str(CYUSBDRV_GUID));
    assert(views(r@) =~= found.push(CYUSBDRV_GUID@));
    r
}

/// Where there are too few boards for the one that was asked for.
pub open spec fn too_few(present: nat) -> Failure {
    Failure::NotFound("only "@ + decimal(present) + " board(s) present"@)
}

/// The failure where there are too few boards.
pub fn too_few_boards(present: usize) -> (r: BoardError)
    ensures
        r@ == too_few(present as nat),
{
    let mut m = String::from_str("only ");
    push_decimal(&mut m, present as u64);
    m.append(" board(s) present");
    BoardError::NotFound(m)
}

/// The interface path to open: as given, else by its place among the boards.
pub fn choose_path(path: Option<&str>, boards: &Vec<String>, index: usize) -> (r: Result<String>)
    ensures
        match path {
            Some(p) => r matches Ok(t) && t@ == p@,
            None => if boards@.len() == 0 {
                r matches Err(e) && e@ == Failure::NotFound(
                    "VID 04B4 PID 1004: unplugged, or bound to a driver other than CYUSB3"@,
                )
            } else if index >= boards@.len() {
                r matches Err(e) && e@ == too_few(boards@.len())
            } else {
                r matches Ok(t) && t@ == boards@[index as int]@
            },
        },
{
    match path {
        Some(p) => Ok(String::from_str(p)),
        None => {
            if boards.len() == 0 {
                return Err(
                    BoardError::NotFound(
                        String::from_str(
                            "VID 04B4 PID 1004: unplugged, or bound to a driver other than CYUSB3",
                        ),
                    ),
                );
            }
            if index >= boards.len() {
                return Err(too_few_boards(boards.len()));
            }
            Ok(String::from_str(boards[index].as_str()))
        },
    }
}

// ---- laws -----------------------------------------------------------------

/// Every device that is kept carries the board's VID and PID, unless any device
/// would do, and no two differ only in case.
pub proof fn law_kept_devices_are_boards(paths: Seq<Seq<char>>, any_vidpid: bool)
    ensures
        forall|i: int|
            0 <= i < kept(paths, any_vidpid).len() ==> any_vidpid || occurs(
                HARDWARE_ID@,
                lower(#[trigger] kept(paths, any_vidpid)[i]),
            ),
        forall|i: int, j: int|
            0 <= i < j < kept(paths, any_vidpid).len() ==> lower(
                #[trigger] kept(paths, any_vidpid)[i],
            ) != lower(#[trigger] kept(paths, any_vidpid)[j]),
    decreases paths.len(),
{
    if paths.len() > 0 {
        let k = kept(paths.drop_last(), any_vidpid);
        let all = kept(paths, any_vidpid);
        law_kept_devices_are_boards(paths.drop_last(), any_vidpid);
        assert forall|i: int| 0 <= i < all.len() implies any_vidpid || occurs(
            HARDWARE_ID@,
            lower(#[trigger] all[i]),
        ) by {
            if i < k.len() {
                assert(all[i] == k[i]);
            }
        }
        assert forall|i: int, j: int| 0 <= i < j < all.len() implies lower(#[trigger] all[i])
            != lower(#[trigger] all[j]) by {
            assert(all[i] == k[i]);
            if j < k.len() {
                assert(all[j] == k[j]);
            }
        }
    }
}

/// No board is lost: a device that carries the board's VID and PID is kept, under
/// the spelling in which it was seen first.
pub proof fn law_no_board_is_lost(paths: Seq<Seq<char>>, any_vidpid: bool, i: int)
    requires
        0 <= i < paths.len(),
        any_vidpid || occurs(HARDWARE_ID@, lower(paths[i])),
    ensures
        listed(kept(paths, any_vidpid), paths[i]),
    decreases paths.len(),
{
    let d = paths.drop_last();
    let k = kept(d, any_vidpid);
    let all = kept(paths, any_vidpid);
    if i < d.len() {
        law_no_board_is_lost(d, any_vidpid, i);
        assert(d[i] == paths[i]);
        let j = choose|j: int| 0 <= j < k.len() && lower(#[trigger] k[j]) == lower(paths[i]);
        assert(all[j] == k[j]);
    } else if !listed(k, paths[i]) {
        assert(all[all.len() - 1] == paths[i]);
    }
}

proof fn lemma_up_to_nul(u: Seq<u16>)
    requires
        !u.contains(0),
    ensures
        up_to_nul(u.push(0)) == u,
    decreases u.len(),
{
    if u.len() > 0 {
        assert(u.contains(u[0]));
        assert(u.push(0).skip(1) =~= u.skip(1).push(0));
        assert(!u.skip(1).contains(0)) by {
            if u.skip(1).contains(0) {
                let j = choose|j: int| 0 <= j < u.skip(1).len() && u.skip(1)[j] == 0;
                assert(u[j + 1] == 0);
            }
        }
        lemma_up_to_nul(u.skip(1));
        assert(seq![u[0]] + u.skip(1) =~= u);
    }
}

proof fn lemma_no_nul_units(s: Seq<char>)
    requires
        !s.contains('\0'),
    ensures
        !utf16(s).contains(0),
    decreases s.len(),
{
    if s.len() > 0 {
        let d = s.drop_last();
        assert(!d.contains('\0')) by {
            if d.contains('\0') {
                let j = choose|j: int| 0 <= j < d.len() && d[j] == '\0';
                assert(s[j] == '\0');
            }
        }
        lemma_no_nul_units(d);
        assert(s.contains(s[s.len() - 1]));
        let c = s.last();
        vstd::utf8::char_is_scalar(c);
        let u = code_units(c);
        let x = c as u32;
        if x < 0x10000 {
            assert(u[0] == x as u16);
            if x == 0 {
                vstd::utf8::char_u32_cast(c, x);
                vstd::utf8::char_u32_cast('\0', x);
                assert(c == '\0');
            }
        } else {
            assert((x - 0x10000) / 0x400 < 0x400);
        }
        assert(forall|i: int| 0 <= i < u.len() ==> u[i] != 0);
        assert forall|i: int| 0 <= i < utf16(s).len() implies utf16(s)[i] != 0 by {
            let n = utf16(d).len() as int;
            if i < n {
                assert(utf16(s)[i] == utf16(d)[i]);
                assert(utf16(d).contains(utf16(d)[i]));
            } else {
                assert(utf16(s)[i] == u[i - n]);
            }
        }
    }
}

/// A text that is written as a wide string reads back as itself: what `wide` makes
/// of a text without NULs holds that text ahead of its first NUL.
pub proof fn law_wide_strings_read_back(s: Seq<char>)
    requires
        !s.contains('\0'),
    ensures
        up_to_nul(utf16(s).push(0)) == utf16(s),
        utf16_text(up_to_nul(utf16(s).push(0))) == s,
{
    law_utf16_reads_back(s);
    lemma_no_nul_units(s);
    lemma_up_to_nul(utf16(s));
}

/// The four bytes of a number make that number.
proof fn lemma_dword(n: int)
    requires
        0 <= n < 0x1_0000_0000,
    ensures
        n % 256 + 256 * ((n / 256) % 256) + 0x10000 * ((n / 0x10000) % 256) + 0x1000000 * ((n
            / 0x1000000) % 256) == n,
{
    assert(n / 0x10000 == (n / 256) / 256);
    assert(n / 0x1000000 == (n / 0x10000) / 256);
    assert(n / 0x1000000 < 256);
}

/// The driver's answer to a read gives back the framed endpoint and sizes: what
/// `frame_transfer` wrote into the header can be read out of it.
pub proof fn law_the_header_frames_the_payload(ep: u8, payload: Seq<u8>, read_len: nat)
    requires
        transfer_size(payload.len(), read_len) < 0x1_0000_0000,
        payload.len() <= transfer_size(payload.len(), read_len),
    ensures
        ({
            let b = transfer_buffer(ep, payload, read_len);
            &&& b[0x0D] == ep
            &&& dword_at(b, 0x1E) == HDR
            &&& dword_at(b, 0x22) == transfer_size(payload.len(), read_len)
            &&& b.subrange(HDR as int, HDR + payload.len()) == payload
        }),
{
    let b = transfer_buffer(ep, payload, read_len);
    let n = transfer_size(payload.len(), read_len) as int;
    assert(b.subrange(HDR as int, HDR + payload.len()) =~= payload);
    assert(b[0x22] == n % 256);
    assert(b[0x23] == (n / 256) % 256);
    assert(b[0x24] == (n / 0x10000) % 256);
    assert(b[0x25] == (n / 0x1000000) % 256);
    lemma_dword(n);
    assert(b[0x1E] == 0x26 && b[0x1F] == 0 && b[0x20] == 0 && b[0x21] == 0);
}

} // verus!
