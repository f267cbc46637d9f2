//! What a 0x0101 status reply says. Every reading is nothing where the board did
//! not answer or the reply is short.

use crate::job::Job;
use crate::unlock::{state_of, AUTHENTICATED};
use vstd::prelude::*;

verus! {

/// Byte `i` of a reply.
pub open spec fn byte_at(st: Option<Seq<u8>>, i: int) -> Option<u8> {
    match st {
        Some(v) => if v.len() > i {
            Some(v[i])
        } else {
            None
        },
        None => None,
    }
}

/// The bit of weight `w` of byte 2, where the reply holds one.
pub open spec fn flag_at(st: Option<Seq<u8>>, w: int) -> Option<bool> {
    match byte_at(st, 2) {
        Some(b) => Some((b as int / w) % 2 == 1),
        None => None,
    }
}

/// The 16-bit word at bytes 5 and 6.
pub open spec fn word_of(st: Option<Seq<u8>>) -> Option<u16> {
    match st {
        Some(v) => if v.len() > 6 {
            Some((v[5] * 256 + v[6]) as u16)
        } else {
            None
        },
        None => None,
    }
}

/// The bytes of a reply, if there is one.
pub open spec fn reply_bytes(reply: Option<&[u8]>) -> Option<Seq<u8>> {
    match reply {
        Some(v) => Some(v@),
        None => None,
    }
}

fn flag(reply: Option<&[u8]>, w: u8) -> (r: Option<bool>)
    requires
        w > 0,
    ensures
        r == flag_at(reply_bytes(reply), w as int),
{
    match reply {
        Some(v) => if v.len() > 2 {
            Some((v[2] / w) % 2 == 1)
        } else {
            None
        },
        None => None,
    }
}

/// Weight of the bit that says the engine was started.
pub const RUNNING_WEIGHT: u8 = 8;

/// Weight of the bit that says the board is ready.
pub const READY_WEIGHT: u8 = 32;

/// Weight of the bit that says no fault line is asserted.
pub const SGIN_WEIGHT: u8 = 2;

/// 2 to the power `n`.
pub open spec fn weight(n: int) -> int
    decreases n,
{
    if n <= 0 {
        1
    } else {
        2 * weight(n - 1)
    }
}

impl Job {
    /// True once the board is authenticated. Read from the 0x0102 reply, byte 7,
    /// never from 0x0101 bit 5, which is a ready flag the reset tail sets with the LED
    /// still red.
    pub fn unlocked(reply: Option<&[u8]>) -> (r: bool)
        ensures
            r == (state_of(reply_bytes(reply)) == Some(AUTHENTICATED)),
    {
        match reply {
            Some(v) => v.len() > 7 && v[7] == AUTHENTICATED,
            None => false,
        }
    }

    /// The status word: the opto inputs in the high byte, the free queue slots in the
    /// low one.
    pub fn status_word(reply: Option<&[u8]>) -> (r: Option<u16>)
        ensures
            r == word_of(reply_bytes(reply)),
    {
        match reply {
            Some(v) => if v.len() > 6 {
                Some(v[5] as u16 * 256 + v[6] as u16)
            } else {
                None
            },
            None => None,
        }
    }

    /// Raw input bits, IN0 in bit 0. A bit reads 1 when the pin is idle.
    pub fn inputs(reply: Option<&[u8]>) -> (r: Option<u8>)
        ensures
            r == (match word_of(reply_bytes(reply)) {
                Some(w) => Some((w / 256) as u8),
                None => None,
            }),
    {
        match Job::status_word(reply) {
            Some(w) => Some((w / 256) as u8),
            None => None,
        }
    }

    /// One input: true is idle, false is driven.
    pub fn input_pin(reply: Option<&[u8]>, n: u8) -> (r: Option<bool>)
        requires
            n < 8,
        ensures
            r == (match word_of(reply_bytes(reply)) {
                Some(w) => Some((w as int / 256 / weight(n as int)) % 2 == 1),
                None => None,
            }),
    {
        match Job::inputs(reply) {
            Some(v) => {
                let mut x: u8 = v;
                let mut i: u8 = 0;
                proof {
                    assert(v as int / weight(0) == v);
                }
                while i < n
                    invariant
                        i <= n < 8,
                        weight(i as int) >= 1,
                        x == v as int / weight(i as int),
                    decreases n - i,
                {
                    proof {
                        let w = weight(i as int);
                        assert(weight(i + 1) == 2 * w);
                        assert(v as int / (w * 2) == (v as int / w) / 2) by {
                            vstd::arithmetic::div_mod::lemma_div_denominator(v as int, w, 2);
                        }
                        assert(w * 2 == 2 * w);
                    }
                    x = x / 2;
                    i = i + 1;
                }
                Some(x % 2 == 1)
            },
            None => None,
        }
    }

    /// REMARK trigger input, bit 11. True = idle/high.
    pub fn remark(reply: Option<&[u8]>) -> (r: Option<bool>)
        ensures
            r == (match word_of(reply_bytes(reply)) {
                Some(w) => Some((w / 2048) % 2 == 1),
                None => None,
            }),
    {
        match Job::status_word(reply) {
            Some(w) => Some((w / 2048) % 2 == 1),
            None => None,
        }
    }

    /// Free queue slots, from the low byte of the status word: bits 8..15 are the opto
    /// inputs, so the count reads 189 idle. 0 where the board does not answer.
    pub fn free_cache(reply: Option<&[u8]>) -> (r: u16)
        ensures
            r == (match word_of(reply_bytes(reply)) {
                Some(w) => (w % 256) as u16,
                None => 0,
            }),
    {
        match Job::status_word(reply) {
            Some(w) => w % 256,
            None => 0,
        }
    }

    /// Engine started by 0x0104. NOT "still marking": it stays set until reset.
    pub fn running(reply: Option<&[u8]>) -> (r: Option<bool>)
        ensures
            r == flag_at(reply_bytes(reply), RUNNING_WEIGHT as int),
    {
        flag(reply, RUNNING_WEIGHT)
    }

    /// Board reset and online. Reads false mid-mark: the same bit clears while the
    /// queue executes. See `busy`.
    pub fn armed(reply: Option<&[u8]>) -> (r: Option<bool>)
        ensures
            r == flag_at(reply_bytes(reply), READY_WEIGHT as int),
    {
        flag(reply, READY_WEIGHT)
    }

    /// True while the vector queue is still executing.
    ///
    /// Both vendor hosts clear 0x0101 byte 2 bit 5 for exactly the duration of a mark
    /// and set it again when the queue drains, over jobs from 34 ms to 2.5 s. Read
    /// from captures rather than measured here.
    pub fn busy(reply: Option<&[u8]>) -> (r: Option<bool>)
        ensures
            r == (match flag_at(reply_bytes(reply), READY_WEIGHT as int) {
                Some(b) => Some(!b),
                None => None,
            }),
    {
        match flag(reply, READY_WEIGHT) {
            Some(b) => Some(!b),
            None => None,
        }
    }

    /// One look of a wait for the queue to drain: whether the wait is over. A board that
    /// does not answer is not known to be idle.
    pub fn idle_round(reply: Option<&[u8]>) -> (r: bool)
        ensures
            r == (flag_at(reply_bytes(reply), READY_WEIGHT as int) == Some(true)),
    {
        match Job::busy(reply) {
            Some(b) => !b,
            None => false,
        }
    }

    /// Laser status input (SGIN). True = OK, False = fault asserted. SGIN0..2 all
    /// drive the same bit, so treat any assertion as a stop.
    pub fn sgin(reply: Option<&[u8]>) -> (r: Option<bool>)
        ensures
            r == flag_at(reply_bytes(reply), SGIN_WEIGHT as int),
    {
        flag(reply, SGIN_WEIGHT)
    }
}

/// The free slots and the inputs share one word and never mix: two replies that
/// agree on the low byte report the same count, whatever the inputs read.
pub proof fn law_inputs_do_not_disturb_the_count(a: Seq<u8>, b: Seq<u8>)
    requires
        a.len() > 6,
        b.len() > 6,
        a[6] == b[6],
    ensures
        word_of(Some(a))->0 % 256 == word_of(Some(b))->0 % 256,
        word_of(Some(a))->0 % 256 == a[6],
        word_of(Some(a))->0 / 256 == a[5],
{
}

/// The bits of byte 2 of a status reply, and the word behind it: what was started is bit 3,
/// what is ready is bit 5, what is free of faults is bit 1; the opto inputs are byte 5 and
/// the free slots byte 6. A reply that is too short says nothing.
pub proof fn law_a_status_reply_by_its_bits(r: Seq<u8>)
    ensures
        r.len() > 2 ==> ({
            let b = r[2];
            &&& flag_at(Some(r), RUNNING_WEIGHT as int) == Some(b & 0x08 != 0)
            &&& flag_at(Some(r), READY_WEIGHT as int) == Some(b & 0x20 != 0)
            &&& flag_at(Some(r), SGIN_WEIGHT as int) == Some(b & 0x02 != 0)
        }),
        r.len() <= 2 ==> flag_at(Some(r), 2) is None && flag_at(Some(r), 8) is None && flag_at(
            Some(r),
            32,
        ) is None,
        r.len() > 6 ==> word_of(Some(r)) is Some && word_of(Some(r))->0 == r[5] * 256 + r[6],
        r.len() <= 6 ==> word_of(Some(r)) is None,
        flag_at(None, 2) is None && word_of(None) is None,
{
    if r.len() > 2 {
        let b = r[2];
        assert((b & 0x08 != 0) == ((b / 8) % 2 == 1)) by (bit_vector);
        assert((b & 0x20 != 0) == ((b / 32) % 2 == 1)) by (bit_vector);
        assert((b & 0x02 != 0) == ((b / 2) % 2 == 1)) by (bit_vector);
    }
}

/// The weights of the input pins are the powers of two.
pub proof fn law_pins_are_bits(n: int)
    ensures
        weight(0) == 1,
        n >= 0 ==> weight(n + 1) == 2 * weight(n),
        weight(3) == 8,
        weight(7) == 128,
{
    reveal_with_fuel(weight, 9);
}

} // verus!
