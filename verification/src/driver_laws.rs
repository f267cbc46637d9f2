//! What the driver is handed and what is read out of it, byte by byte and unit by unit.

use crate::cyusb::{
    braced, code_units, digits_at, distinct, dword_at, guids_of, hex_digits, is_cypress, kept,
    listed, out_of_time, pieces, texts, too_few, transfer_buffer, units_of, unwrapped, up_to_nul,
    utf16, utf16_text, views, windows_error, Instance, CYUSBDRV_GUID, ERROR_IO_PENDING, HARDWARE_ID,
    HDR, IOCTL_ABORT_PIPE, IOCTL_NON_EP0_XFER, IOCTL_RESET_PIPE,
};
use crate::text::{decimal, digit_value, law_decimal_reads_back, lower, number_value};
use crate::usb::Failure;
use vstd::prelude::*;

verus! {

/// The driver's own numbers and names.
pub proof fn law_the_driver_by_its_numbers()
    ensures
        IOCTL_NON_EP0_XFER == 0x0022_0024 && IOCTL_RESET_PIPE == 0x0022_002C && IOCTL_ABORT_PIPE
            == 0x0022_0044,
        HDR == 38 && ERROR_IO_PENDING == 997,
        HARDWARE_ID@ == "vid_04b4&pid_1004"@,
        CYUSBDRV_GUID@ == "{AE18AA60-7F6A-11D4-97DD-00010229B959}"@,
{
}

/// A transfer buffer byte by byte: 38 bytes and room for what is read, or where nothing is
/// for what is written. The endpoint is byte 13; at 30 stands 38, where the payload
/// starts, and at 34 the length behind it, each as four bytes with the low one first; the
/// payload follows, and every other byte is zero.
pub proof fn law_a_transfer_buffer_byte_by_byte(ep: u8, payload: Seq<u8>, read_len: nat, i: int)
    requires
        payload.len() + read_len < 0x1_0000_0000,
        read_len > 0 ==> payload.len() <= read_len,
    ensures
        ({
            let b = transfer_buffer(ep, payload, read_len);
            let n = if read_len > 0 {
                read_len
            } else {
                payload.len()
            };
            &&& b.len() == 38 + n
            &&& b[13] == ep
            &&& b[30] == 38 && b[31] == 0 && b[32] == 0 && b[33] == 0
            &&& b[34] + 256 * b[35] + 65536 * b[36] + 16777216 * b[37] == n
            &&& 0 <= i < payload.len() ==> b[38 + i] == payload[i]
            &&& 0 <= i < 30 && i != 13 ==> b[i] == 0
            &&& 38 + payload.len() <= i < 38 + n ==> b[i] == 0
        }),
{
    let b = transfer_buffer(ep, payload, read_len);
    let n: int = if read_len > 0 {
        read_len as int
    } else {
        payload.len() as int
    };
    assert(b[34] == n % 256);
    assert(b[35] == (n / 256) % 256);
    assert(b[36] == (n / 65536) % 256);
    assert(b[37] == (n / 16777216) % 256);
    assert(n / 65536 == (n / 256) / 256);
    assert(n / 16777216 == (n / 65536) / 256);
    assert(n / 16777216 < 256);
}

/// A status word is four bytes with the low one first.
pub proof fn law_a_status_word_in_bytes(b: Seq<u8>, i: int)
    ensures
        dword_at(b, i) == b[i] + 256 * b[i + 1] + 65536 * b[i + 2] + 16777216 * b[i + 3],
        (dword_at(b, i) == 0) <==> (b[i] == 0 && b[i + 1] == 0 && b[i + 2] == 0 && b[i + 3] == 0),
{
}

/// The digits of a text are those of its parts in order, and only those: a text of digits
/// is all digits, and anything else counts for nothing.
pub proof fn law_a_guid_keeps_its_digits(a: Seq<char>, b: Seq<char>, c: char)
    ensures
        hex_digits(a + b) == hex_digits(a) + hex_digits(b),
        hex_digits(seq![c]) == (if '0' <= c <= '9' || 'a' <= c <= 'f' || 'A' <= c <= 'F' {
            seq![c]
        } else {
            Seq::empty()
        }),
        hex_digits(Seq::empty()).len() == 0,
    decreases b.len(),
{
    assert(seq![c].drop_last() =~= Seq::<char>::empty());
    assert(hex_digits(seq![c].drop_last()).len() == 0);
    assert(hex_digits(seq![c]) =~= if '0' <= c <= '9' || 'a' <= c <= 'f' || 'A' <= c <= 'F' {
        seq![c]
    } else {
        Seq::empty()
    });
    if b.len() == 0 {
        assert(a + b =~= a);
        assert(hex_digits(a + b) =~= hex_digits(a) + hex_digits(b));
    } else {
        law_a_guid_keeps_its_digits(a, b.drop_last(), c);
        assert((a + b).drop_last() =~= a + b.drop_last());
        assert((a + b).last() == b.last());
        assert(hex_digits(a + b) =~= hex_digits(a) + hex_digits(b));
    }
}

/// Two digits make a byte, and a longer run its front times sixteen and its last digit.
pub proof fn law_a_guid_field_in_digits(h: Seq<char>, i: int, n: int)
    requires
        0 <= i,
        0 < n,
        i + n <= h.len(),
    ensures
        n == 1 ==> digits_at(h, i, n) == digit_value(h[i]),
        n == 2 ==> digits_at(h, i, n) == 16 * digit_value(h[i]) + digit_value(h[i + 1]),
        n > 1 ==> digits_at(h, i, n) == 16 * digits_at(h, i, n - 1) + digit_value(h[i + n - 1]),
{
    reveal_with_fuel(number_value, 3);
    let d = h.subrange(i, i + n);
    assert(d.drop_last() =~= h.subrange(i, i + n - 1));
    assert(d.last() == h[i + n - 1]);
    if n == 2 {
        assert(d.drop_last().drop_last() =~= Seq::<char>::empty());
        assert(d.drop_last().last() == h[i]);
    }
}

/// A character below 0x10000 is one unit, any other a high and a low surrogate that carry
/// ten bits each; the units of a text are those of its parts in order.
pub proof fn law_a_character_in_units(c: char, a: Seq<char>, b: Seq<char>)
    ensures
        (c as u32) < 0x10000 ==> code_units(c).len() == 1 && code_units(c)[0] == c as u32,
        c as u32 >= 0x10000 ==> {
            let u = code_units(c);
            &&& u.len() == 2
            &&& 0xD800 <= u[0] < 0xDC00 && 0xDC00 <= u[1] < 0xE000
            &&& 0x10000 + (u[0] - 0xD800) * 1024 + (u[1] - 0xDC00) == c as u32
        },
        utf16(a + b) == utf16(a) + utf16(b),
        utf16(seq![c]) == code_units(c),
        utf16(Seq::empty()).len() == 0,
    decreases b.len(),
{
    vstd::utf8::char_is_scalar(c);
    assert(seq![c].drop_last() =~= Seq::<char>::empty());
    assert(utf16(seq![c].drop_last()).len() == 0);
    assert(utf16(seq![c]) =~= code_units(c));
    if b.len() == 0 {
        assert(a + b =~= a);
        assert(utf16(a + b) =~= utf16(a) + utf16(b));
    } else {
        law_a_character_in_units(c, a, b.drop_last());
        assert((a + b).drop_last() =~= a + b.drop_last());
        assert((a + b).last() == b.last());
        assert(utf16(a + b) =~= utf16(a) + utf16(b));
    }
}

/// A unit is two bytes with the low one first, and an odd byte at the end makes none.
pub proof fn law_a_unit_is_two_bytes(b: Seq<u8>, i: int)
    ensures
        2 * units_of(b).len() <= b.len() <= 2 * units_of(b).len() + 1,
        0 <= i < units_of(b).len() ==> units_of(b)[i] == b[2 * i] + 256 * b[2 * i + 1],
{
}

/// What stands ahead of the first NUL holds none, and is all there is where there is none.
pub proof fn law_a_string_ends_at_its_nul(u: Seq<u16>)
    ensures
        !up_to_nul(u).contains(0),
        up_to_nul(u).len() <= u.len(),
        up_to_nul(u) == u.take(up_to_nul(u).len() as int),
        up_to_nul(u).len() < u.len() ==> u[up_to_nul(u).len() as int] == 0,
    decreases u.len(),
{
    if u.len() > 0 && u[0] != 0 {
        let t = u.skip(1);
        law_a_string_ends_at_its_nul(t);
        let r = up_to_nul(u);
        assert(r =~= u.take(r.len() as int)) by {
            assert forall|i: int| 0 <= i < r.len() implies r[i] == u[i] by {
                if i > 0 {
                    assert(up_to_nul(t)[i - 1] == t.take(up_to_nul(t).len() as int)[i - 1]);
                }
            }
        }
        if r.contains(0) {
            let j = choose|j: int| 0 <= j < r.len() && r[j] == 0;
            assert(up_to_nul(t)[j - 1] == 0);
        }
    } else {
        assert(up_to_nul(u) =~= u.take(0));
    }
}

proof fn lemma_pieces_join(a: Seq<u16>, b: Seq<u16>)
    ensures
        pieces(a).len() > 0,
        pieces(b).len() > 0,
        pieces(a.push(0) + b) == pieces(a) + pieces(b),
    decreases a.len() + b.len(),
{
    if a.len() > 0 {
        lemma_pieces_join(a.drop_last(), Seq::empty());
    }
    if b.len() == 0 {
        assert(a.push(0) + b =~= a.push(0));
        assert(a.push(0).drop_last() =~= a);
        assert(pieces(a.push(0) + b) =~= pieces(a) + pieces(b));
    } else {
        lemma_pieces_join(a, b.drop_last());
        let all = a.push(0) + b;
        assert(all.drop_last() =~= a.push(0) + b.drop_last());
        assert(all.last() == b.last());
        assert(pieces(all) =~= pieces(a) + pieces(b));
    }
}

proof fn lemma_texts_join(p: Seq<Seq<u16>>, q: Seq<Seq<u16>>)
    ensures
        texts(p + q) == texts(p) + texts(q),
    decreases q.len(),
{
    if q.len() == 0 {
        assert(p + q =~= p);
        assert(texts(p + q) =~= texts(p) + texts(q));
    } else {
        lemma_texts_join(p, q.drop_last());
        assert((p + q).drop_last() =~= p + q.drop_last());
        assert((p + q).last() == q.last());
        assert(texts(p + q) =~= texts(p) + texts(q));
    }
}

proof fn lemma_one_piece(u: Seq<u16>)
    requires
        !u.contains(0),
    ensures
        pieces(u) == seq![u],
    decreases u.len(),
{
    if u.len() > 0 {
        let d = u.drop_last();
        assert(!d.contains(0)) by {
            if d.contains(0) {
                let j = choose|j: int| 0 <= j < d.len() && d[j] == 0;
                assert(u[j] == 0);
            }
        }
        lemma_one_piece(d);
        assert(u.contains(u[u.len() - 1]));
        assert(d.push(u.last()) =~= u);
        assert(pieces(u) =~= seq![u]);
    } else {
        assert(u =~= Seq::<u16>::empty());
    }
}

/// A registry value is its strings in order: a NUL parts one from the next, a run of units
/// without one is a single string, and nothing is none.
pub proof fn law_a_registry_value_is_its_strings(a: Seq<u16>, b: Seq<u16>, u: Seq<u16>)
    requires
        !u.contains(0),
    ensures
        texts(pieces(a.push(0) + b)) == texts(pieces(a)) + texts(pieces(b)),
        u.len() > 0 ==> texts(pieces(u)) == seq![utf16_text(u)],
        u.len() == 0 ==> texts(pieces(u)).len() == 0,
{
    lemma_pieces_join(a, b);
    lemma_texts_join(pieces(a), pieces(b));
    lemma_one_piece(u);
    let p = seq![u];
    assert(p.drop_last() =~= Seq::<Seq<u16>>::empty());
    assert(texts(p.drop_last()) =~= Seq::<Seq<char>>::empty());
    assert(p.last() == u);
    if u.len() > 0 {
        assert(texts(p) =~= seq![utf16_text(u)]);
    }
}

/// Every device that is kept was found, in the order and the spelling in which it was
/// found, and one more device takes none of them away.
pub proof fn law_devices_are_kept_as_found(paths: Seq<Seq<char>>, p: Seq<char>, any_vidpid: bool)
    ensures
        forall|i: int|
            0 <= i < kept(paths, any_vidpid).len() ==> paths.contains(
                #[trigger] kept(paths, any_vidpid)[i],
            ),
        kept(paths.push(p), any_vidpid).len() <= kept(paths, any_vidpid).len() + 1,
        kept(paths.push(p), any_vidpid).take(kept(paths, any_vidpid).len() as int) == kept(
            paths,
            any_vidpid,
        ),
        kept(paths.push(p), any_vidpid).len() > kept(paths, any_vidpid).len() ==> kept(
            paths.push(p),
            any_vidpid,
        ).last() == p,
    decreases paths.len(),
{
    let k = kept(paths, any_vidpid);
    let m = kept(paths.push(p), any_vidpid);
    assert(paths.push(p).drop_last() =~= paths);
    assert(m.take(k.len() as int) =~= k);
    if paths.len() > 0 {
        let d = paths.drop_last();
        law_devices_are_kept_as_found(d, p, any_vidpid);
        let kd = kept(d, any_vidpid);
        assert forall|i: int| 0 <= i < k.len() implies paths.contains(#[trigger] k[i]) by {
            if i < kd.len() {
                assert(k[i] == kd[i]);
                let j = choose|j: int| 0 <= j < d.len() && d[j] == kd[i];
                assert(paths[j] == k[i]);
            } else {
                assert(paths[paths.len() - 1] == k[i]);
            }
        }
    }
}

/// A text of the list, in whatever case, is listed, and no other is.
pub proof fn law_what_is_listed(v: Seq<Seq<char>>, i: int, t: Seq<char>)
    ensures
        0 <= i < v.len() && lower(v[i]) == lower(t) ==> listed(v, t),
        (forall|j: int| 0 <= j < v.len() ==> lower(#[trigger] v[j]) != lower(t)) ==> !listed(v, t),
{
}

/// Unwrapping takes braces and spaces off both ends and nothing else.
pub proof fn law_unwrapping_takes_braces_alone(s: Seq<char>)
    ensures
        exists|lo: int, hi: int|
            {
                &&& 0 <= lo <= hi <= s.len()
                &&& unwrapped(s) == #[trigger] s.subrange(lo, hi)
                &&& forall|i: int|
                    0 <= i < lo || hi <= i < s.len() ==> (#[trigger] s[i] == '{' || s[i] == '}'
                        || s[i] == ' ')
                &&& lo < hi ==> s[lo] != '{' && s[lo] != '}' && s[lo] != ' '
                &&& lo < hi ==> s[hi - 1] != '{' && s[hi - 1] != '}' && s[hi - 1] != ' '
            },
{
    let r = lemma_unwrapped_parts(s);
    assert(unwrapped(s) == s.subrange(r.0, r.1));
}

proof fn lemma_unwrapped_parts(s: Seq<char>) -> (r: (int, int))
    ensures
        0 <= r.0 <= r.1 <= s.len(),
        unwrapped(s) == s.subrange(r.0, r.1),
        forall|i: int|
            0 <= i < r.0 || r.1 <= i < s.len() ==> (#[trigger] s[i] == '{' || s[i] == '}' || s[i]
                == ' '),
        r.0 < r.1 ==> s[r.0] != '{' && s[r.0] != '}' && s[r.0] != ' ',
        r.0 < r.1 ==> s[r.1 - 1] != '{' && s[r.1 - 1] != '}' && s[r.1 - 1] != ' ',
    decreases s.len(),
{
    if s.len() > 0 && (s[0] == '{' || s[0] == '}' || s[0] == ' ') {
        let t = s.skip(1);
        let q = lemma_unwrapped_parts(t);
        assert(t.subrange(q.0, q.1) =~= s.subrange(q.0 + 1, q.1 + 1));
        assert forall|i: int| 0 <= i < q.0 + 1 || q.1 + 1 <= i < s.len() implies (#[trigger] s[i]
            == '{' || s[i] == '}' || s[i] == ' ') by {
            if i > 0 {
                assert(t[i - 1] == s[i]);
            }
        }
        (q.0 + 1, q.1 + 1)
    } else if s.len() > 0 && (s.last() == '{' || s.last() == '}' || s.last() == ' ') {
        let t = s.drop_last();
        let q = lemma_unwrapped_parts(t);
        assert(t.subrange(q.0, q.1) =~= s.subrange(q.0, q.1));
        assert forall|i: int| 0 <= i < q.0 || q.1 <= i < s.len() implies (#[trigger] s[i] == '{'
            || s[i] == '}' || s[i] == ' ') by {
            if i < s.len() - 1 {
                assert(t[i] == s[i]);
            }
        }
        q
    } else {
        assert(s.subrange(0, s.len() as int) =~= s);
        (0, s.len() as int)
    }
}

/// GUIDs come out in braces and in order, and an empty one not at all.
pub proof fn law_guids_come_in_braces(g: Seq<Seq<char>>, t: Seq<char>)
    ensures
        braced(Seq::empty()).len() == 0,
        unwrapped(t).len() == 0 ==> braced(g.push(t)) == braced(g),
        unwrapped(t).len() > 0 ==> braced(g.push(t)) == braced(g).push(
            seq!['{'] + unwrapped(t) + seq!['}'],
        ),
{
    assert(g.push(t).drop_last() =~= g);
}

/// An instance counts as Cypress's by the name of its driver, cyusb3 or cyusb in any case;
/// its GUIDs stand behind those of the instances before it, on its own side alone.
pub proof fn law_guids_by_their_driver(v: Seq<Instance>, x: Instance, cypress: bool)
    ensures
        guids_of(Seq::empty(), cypress).len() == 0,
        ({
            let cy = lower(x.service@) == "cyusb3"@ || lower(x.service@) == "cyusb"@;
            &&& is_cypress(x.service@) == cy
            &&& cy == cypress ==> guids_of(v.push(x), cypress) == guids_of(v, cypress) + braced(
                views(x.guids@),
            )
            &&& cy != cypress ==> guids_of(v.push(x), cypress) == guids_of(v, cypress)
        }),
{
    assert(v.push(x).drop_last() =~= v);
}

/// Of texts that differ only in case the first stays, in its place: what is kept are texts
/// of the list, no two alike, and every one of the list is among them.
pub proof fn law_each_text_once(v: Seq<Seq<char>>, i: int)
    ensures
        forall|j: int| 0 <= j < distinct(v).len() ==> v.contains(#[trigger] distinct(v)[j]),
        forall|j: int, k: int|
            0 <= j < k < distinct(v).len() ==> lower(#[trigger] distinct(v)[j]) != lower(
                #[trigger] distinct(v)[k],
            ),
        0 <= i < v.len() ==> listed(distinct(v), v[i]),
        v.len() > 0 ==> distinct(v).len() > 0 && distinct(v)[0] == v[0],
    decreases v.len(),
{
    if v.len() > 0 {
        let d = v.drop_last();
        let k = distinct(d);
        let all = distinct(v);
        law_each_text_once(d, i);
        assert forall|j: int| 0 <= j < all.len() implies v.contains(#[trigger] all[j]) by {
            if j < k.len() {
                assert(all[j] == k[j]);
                let q = choose|q: int| 0 <= q < d.len() && d[q] == k[j];
                assert(v[q] == all[j]);
            } else {
                assert(v[v.len() - 1] == all[j]);
            }
        }
        assert forall|a: int, b: int| 0 <= a < b < all.len() implies lower(#[trigger] all[a])
            != lower(#[trigger] all[b]) by {
            assert(all[a] == k[a]);
            if b < k.len() {
                assert(all[b] == k[b]);
            }
        }
        if 0 <= i < d.len() {
            assert(d[i] == v[i]);
            let j = choose|j: int| 0 <= j < k.len() && lower(#[trigger] k[j]) == lower(v[i]);
            assert(all[j] == k[j]);
        } else if i == d.len() && !listed(k, v[i]) {
            assert(all[all.len() - 1] == v[i]);
        }
        if v.len() > 1 {
            assert(d[0] == v[0]);
            assert(all[0] == k[0]);
        } else {
            assert(k.len() == 0);
        }
    }
}

/// What went wrong is told with its number in decimal.
pub proof fn law_failures_tell_their_number(n: u32)
    ensures
        windows_error(n) matches Failure::Transfer(t) && (exists|d: Seq<char>|
            t == "Windows error "@ + d && #[trigger] number_value(d, 10) == n),
        out_of_time(n) matches Failure::Timeout(t) && (exists|d: Seq<char>|
            t == d + " ms"@ && #[trigger] number_value(d, 10) == n),
        too_few(n as nat) matches Failure::NotFound(t) && (exists|d: Seq<char>|
            t == "only "@ + d + " board(s) present"@ && #[trigger] number_value(d, 10) == n),
{
    law_decimal_reads_back(n as nat);
    assert(number_value(decimal(n as nat), 10) == n);
}

} // verus!
