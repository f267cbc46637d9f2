//! Unlock the DBK2JP board (the encryption LED red -> green).
//!
//! The board carries an Atmel ATSHA204A authentication chip reached through the
//! 0x0C5C / 0x0C5D passthrough on EP 0x06. The host computes a SHA-256 digest and
//! hands it to the FPGA; the chip computes the same MAC in hardware; the FPGA
//! compares them and ungates.
//!
//! No key is needed to replay: the challenge is host-supplied, the key travels in
//! the clear and the chip is on the board, so replaying the captured frames makes
//! the real chip produce the real answer again.
//!
//! Success is read from 0x0102 (GetEncryptState) byte 7: 2 = authenticated. 0x0101
//! bit 5 is a separate ready/arm flag that moves without the crypto.
//!
//! The latch is sticky: once green it survives everything short of a power cycle,
//! so a repeat costs nothing.

use crate::protocol::{bare, cmd, frame, CMD_CLEAR_CACHE, CMD_ENCRYPT_STATE, CMD_JUMP, CMD_RESET};
use crate::script::{bytes, is_batch, script_ok, Deed, Script, Step, MILLISECOND};
use crate::text::{digit_value, same, to_chars, value_of};
use crate::usb::Result;
use vstd::prelude::*;

verus! {

/// (gap after the frame in milliseconds, frame in hexadecimal): EP 0x06 writes,
/// each answered on EP 0x88.
///
/// Frames 10, 11 and 12 are the whole unlock: the host-computed SHA-256 digest on
/// 0x0C5D, the MAC command on 0x0C5C, then the transmit token. The gaps are
/// load-bearing: the ATSHA204 needs 40-120 ms per command and answers from stale
/// registers when it is rushed.
pub const FRAMES: [(u16, &'static str); 74] = [
    (10, "014000000000000000000001"),
    (57, "011000000000000000000000"),
    (61, "0C5C77070280000009AD"),
    (71, "0C5C8888"),
    (10, "010800000000000000000000"),
    (10, "010900000000000000000000"),
    (10, "010A00000000000000000000"),
    (51, "010B00000000000000000000"),
    (113, "0C5CBB"),
    (63, "0C5CBB"),
    (102, "0C5D000009D6956A72D6622E779074242405FC5CBFEE96B17460B9AF8CC7323408A05959"),
    (60, "0C5C77270800000036215A9F208A3A8C1CA354D8E78898392CC22F256E35C7BC79C23842FBB3D9CD29E2"),
    (81, "0C5C8888"),
    (10, "010800000000000000000000"),
    (10, "010900000000000000000000"),
    (10, "010A00000000000000000000"),
    (51, "010B00000000000000000000"),
    (63, "0C5CBB"),
    (53, "010200000000000000000000"),
    (60, "0C5C77070282200009B0"),
    (71, "0C5C8888"),
    (10, "010800000000000000000000"),
    (10, "010900000000000000000000"),
    (10, "010A00000000000000000000"),
    (50, "010B00000000000000000000"),
    (113, "0C5CBB"),
    (123, "0C5CBB"),
    (61, "0C5C77070282200009B0"),
    (71, "0C5C8888"),
    (10, "010800000000000000000000"),
    (10, "010900000000000000000000"),
    (10, "010A00000000000000000000"),
    (51, "010B00000000000000000000"),
    (113, "0C5CBB"),
    (113, "0C5CBB"),
    (61, "0C5C7707028230000A00"),
    (71, "0C5C8888"),
    (10, "010800000000000000000000"),
    (10, "010900000000000000000000"),
    (10, "010A00000000000000000000"),
    (51, "010B00000000000000000000"),
    (114, "0C5CBB"),
    (125, "0C5CBB"),
    (60, "0C5C7707028230000A00"),
    (70, "0C5C8888"),
    (10, "010800000000000000000000"),
    (10, "010900000000000000000000"),
    (10, "010A00000000000000000000"),
    (50, "010B00000000000000000000"),
    (114, "0C5CBB"),
    (113, "0C5CBB"),
    (60, "0C5C77070282380009E0"),
    (71, "0C5C8888"),
    (10, "010800000000000000000000"),
    (10, "010900000000000000000000"),
    (10, "010A00000000000000000000"),
    (50, "010B00000000000000000000"),
    (113, "0C5CBB"),
    (123, "0C5CBB"),
    (61, "0C5C77070282380009E0"),
    (71, "0C5C8888"),
    (10, "010800000000000000000000"),
    (10, "010900000000000000000000"),
    (10, "010A00000000000000000000"),
    (51, "010B00000000000000000000"),
    (112, "0C5CBB"),
    (62, "0C5CBB"),
    (10, "010100000000000000000000"),
    (10, "010600000000000000000000"),
    (10, "010500000000000000000000"),
    (10, "010400000000000000000000"),
    (10, "010500000000000000000000"),
    (10, "011800000000000000000000"),
    (10, "010500000000000000000000"),
];

/// How many frames there are.
pub const FRAME_COUNT: usize = 74;

/// The EP 0x02 blob goes out after this frame in the arm tail.
pub const EP2_AFTER: usize = 70;

pub const EP2_BLOB: &'static str = "0241271080008000000001F4";

/// What byte 7 of the 0x0102 reply says once the board is authenticated.
pub const AUTHENTICATED: u8 = 2;

// ---- hexadecimal ----------------------------------------------------------

/// The byte that two characters write: two hexadecimal digits, or one behind a
/// plus sign; anything else is 0.
pub open spec fn pair_value(a: char, b: char) -> u8 {
    if digit_value(a) >= 0 && digit_value(b) >= 0 {
        (digit_value(a) * 16 + digit_value(b)) as u8
    } else if a == '+' && digit_value(b) >= 0 {
        digit_value(b) as u8
    } else {
        0
    }
}

/// The bytes of a text, two characters each. An odd one at the end is ignored.
pub open spec fn unhexed(s: Seq<char>) -> Seq<u8> {
    Seq::new(s.len() / 2, |i: int| pair_value(s[2 * i], s[2 * i + 1]))
}

/// A text in which every character stands as often as its UTF-8 has bytes, where none
/// has more than two.
pub open spec fn cells(s: Seq<char>) -> Seq<char>
    decreases s.len(),
{
    if s.len() == 0 {
        Seq::empty()
    } else if (s.last() as u32) < 128 {
        cells(s.drop_last()).push(s.last())
    } else {
        cells(s.drop_last()).push(s.last()).push(s.last())
    }
}

/// Cut into pairs of bytes, the text is cut at no place inside a character.
pub open spec fn cuts_evenly(s: Seq<char>) -> bool {
    forall|i: int|
        0 <= i < s.len() && (#[trigger] s[i] as u32) >= 128 ==> (s[i] as u32) < 0x800 && cells(
            s.take(i),
        ).len() % 2 == 0
}

/// ASCII is one byte each.
proof fn lemma_ascii_cells(s: Seq<char>)
    requires
        forall|i: int| 0 <= i < s.len() ==> (#[trigger] s[i] as u32) < 128,
    ensures
        cells(s) == s,
        cuts_evenly(s),
    decreases s.len(),
{
    if s.len() > 0 {
        let d = s.drop_last();
        assert forall|i: int| 0 <= i < d.len() implies (#[trigger] d[i] as u32) < 128 by {
            assert(d[i] == s[i]);
        }
        lemma_ascii_cells(d);
        assert(s[s.len() - 1] == s.last());
        assert(cells(s) =~= s);
    }
}

/// The bytes of a text of hexadecimal digits. What is no digit counts as nothing.
pub fn unhex(s: &str) -> (r: Vec<u8>)
    requires
        cuts_evenly(s@),
    ensures
        r@ == unhexed(cells(s@)),
{
    let given = to_chars(s);
    let len: usize = given.len();
    let mut v: Vec<char> = Vec::new();
    assert(given@.take(0) =~= Seq::<char>::empty());
    for k in 0..len
        invariant
            given@ == s@,
            len == given@.len(),
            v@ == cells(given@.take(k as int)),
    {
        assert(given@.take(k + 1).drop_last() =~= given@.take(k as int));
        assert(given@.take(k + 1).last() == given@[k as int]);
        let c: char = given[k];
        v.push(c);
        if c as u32 >= 128 {
            v.push(c);
        }
    }
    assert(given@.take(len as int) =~= s@);
    let ghost s = v@;
    let total: usize = v.len();
    let n: usize = total / 2;
    let mut r: Vec<u8> = Vec::new();
    let mut i: usize = 0;
    while i < n
        invariant
            v@ == s,
            total == v@.len(),
            n == total / 2,
            i <= n,
            r@ == unhexed(s).take(i as int),
        decreases n - i,
    {
        let a: char = v[2 * i];
        let b: char = v[2 * i + 1];
        let x: u8 = value_of(a);
        let y: u8 = value_of(b);
        let byte: u8 = if x < 16 && y < 16 {
            x * 16 + y
        } else if a == '+' && y < 16 {
            y
        } else {
            0
        };
        r.push(byte);
        assert(unhexed(s).take(i + 1) =~= unhexed(s).take(i as int).push(byte));
        i = i + 1;
    }
    assert(unhexed(s).take(n as int) =~= unhexed(s));
    r
}

// ---- frame sets -----------------------------------------------------------

/// The numbers from `lo` up to `hi`, without `hi`.
pub open spec fn span(lo: int, hi: int) -> Seq<usize> {
    Seq::new((hi - lo) as nat, |i: int| (lo + i) as usize)
}

fn push_span(r: &mut Vec<usize>, lo: usize, hi: usize)
    requires
        lo <= hi,
    ensures
        final(r)@ == old(r)@ + span(lo as int, hi as int),
{
    let ghost before = r@;
    assert(before + span(lo as int, lo as int) =~= before);
    let mut i: usize = lo;
    while i < hi
        invariant
            lo <= i <= hi,
            r@ == before + span(lo as int, i as int),
        decreases hi - i,
    {
        r.push(i);
        assert(r@ =~= before + span(lo as int, i + 1));
        i = i + 1;
    }
}

/// The three frames that are enough on their own: digest, MAC, token.
pub fn minimal() -> (r: Vec<usize>)
    ensures
        r@ == seq![10usize, 11, 12],
{
    let r: Vec<usize> = vec![10, 11, 12];
    assert(r@ =~= seq![10usize, 11, 12]);
    r
}

/// Everything captured, for debugging.
pub fn full() -> (r: Vec<usize>)
    ensures
        r@ == span(0, 74),
{
    let mut r: Vec<usize> = Vec::new();
    push_span(&mut r, 0, FRAME_COUNT);
    assert(r@ =~= span(0, 74));
    r
}

/// The frames of a named set.
pub open spec fn named_set(name: Seq<char>) -> Option<Seq<usize>> {
    if name == "bare"@ {
        Some(seq![10usize, 11, 12])
    } else if name == "rb"@ {
        Some(span(10, 18))
    } else if name == "wake"@ {
        Some(seq![8usize, 9] + span(10, 18))
    } else if name == "core"@ {
        Some(seq![0usize, 1, 8, 9] + span(10, 18))
    } else if name == "auth"@ {
        Some(span(0, 18))
    } else if name == "min"@ {
        Some(span(0, 18) + span(67, 74))
    } else if name == "full"@ {
        Some(span(0, 74))
    } else if name == "tailonly"@ {
        Some(span(67, 74))
    } else {
        None
    }
}

/// Named frame sets, each verified to work.
pub fn set(name: &str) -> (r: Option<Vec<usize>>)
    ensures
        match r {
            Some(v) => named_set(name@) == Some(v@),
            None => named_set(name@) is None,
        },
{
    let n = to_chars(name);
    if same(n.as_slice(), to_chars("bare").as_slice()) {
        return Some(minimal());
    }
    if same(n.as_slice(), to_chars("full").as_slice()) {
        assert("full"@ != "rb"@ && "full"@ != "wake"@ && "full"@ != "core"@ && "full"@ != "auth"@
            && "full"@ != "min"@) by {
            lemma_names();
        }
        return Some(full());
    }
    let mut v: Vec<usize> = Vec::new();
    if same(n.as_slice(), to_chars("rb").as_slice()) {
        push_span(&mut v, 10, 18);
        assert(v@ =~= span(10, 18));
    } else if same(n.as_slice(), to_chars("wake").as_slice()) {
        v.push(8);
        v.push(9);
        push_span(&mut v, 10, 18);
        assert(v@ =~= seq![8usize, 9] + span(10, 18));
    } else if same(n.as_slice(), to_chars("core").as_slice()) {
        v.push(0);
        v.push(1);
        v.push(8);
        v.push(9);
        push_span(&mut v, 10, 18);
        assert(v@ =~= seq![0usize, 1, 8, 9] + span(10, 18));
    } else if same(n.as_slice(), to_chars("auth").as_slice()) {
        push_span(&mut v, 0, 18);
        assert(v@ =~= span(0, 18));
    } else if same(n.as_slice(), to_chars("min").as_slice()) {
        push_span(&mut v, 0, 18);
        push_span(&mut v, 67, 74);
        assert(v@ =~= span(0, 18) + span(67, 74));
    } else if same(n.as_slice(), to_chars("tailonly").as_slice()) {
        push_span(&mut v, 67, 74);
        assert(v@ =~= span(67, 74));
    } else {
        return None;
    }
    Some(v)
}

proof fn lemma_names()
    ensures
        "full"@ != "rb"@,
        "full"@ != "wake"@,
        "full"@ != "core"@,
        "full"@ != "auth"@,
        "full"@ != "min"@,
{
    reveal_strlit("full");
    reveal_strlit("rb");
    reveal_strlit("wake");
    reveal_strlit("core");
    reveal_strlit("auth");
    reveal_strlit("min");
    assert("full"@[0] == 'f');
    assert("rb"@[0] == 'r');
    assert("wake"@[0] == 'w');
    assert("core"@[0] == 'c');
    assert("auth"@[0] == 'a');
    assert("min"@[0] == 'm');
}

// ---- the replay -----------------------------------------------------------

/// Frames are plain hexadecimal.
proof fn lemma_frames_are_ascii(i: int)
    requires
        0 <= i < 74,
    ensures
        forall|k: int| 0 <= k < FRAMES@[i].1@.len() ==> (#[trigger] FRAMES@[i].1@[k] as u32) < 128,
{
    reveal_strlit("010100000000000000000000");
    reveal_strlit("010200000000000000000000");
    reveal_strlit("010400000000000000000000");
    reveal_strlit("010500000000000000000000");
    reveal_strlit("010600000000000000000000");
    reveal_strlit("010800000000000000000000");
    reveal_strlit("010900000000000000000000");
    reveal_strlit("010A00000000000000000000");
    reveal_strlit("010B00000000000000000000");
    reveal_strlit("011000000000000000000000");
    reveal_strlit("011800000000000000000000");
    reveal_strlit("014000000000000000000001");
    reveal_strlit("0C5C77070280000009AD");
    reveal_strlit("0C5C77070282200009B0");
    reveal_strlit("0C5C7707028230000A00");
    reveal_strlit("0C5C77070282380009E0");
    reveal_strlit("0C5C77270800000036215A9F208A3A8C1CA354D8E78898392CC22F256E35C7BC79C23842FBB3D9CD29E2");
    reveal_strlit("0C5C8888");
    reveal_strlit("0C5CBB");
    reveal_strlit("0C5D000009D6956A72D6622E779074242405FC5CBFEE96B17460B9AF8CC7323408A05959");
}

/// One frame of the replay: the write, most of the gap, the reply that is
/// dropped, the rest of the gap, and the arm jump behind frame 70.
pub open spec fn frame_steps(i: usize, ep2: bool) -> Seq<Deed> {
    let (gap, hex) = FRAMES@[i as int];
    let s = seq![
        Deed::Send(unhexed(hex@)),
        Deed::Pause((gap * 600_000) as u64),
        Deed::Drain,
        Deed::Pause((gap * 400_000) as u64),
    ];
    if ep2 && i == EP2_AFTER {
        s.push(Deed::Offer(unhexed(EP2_BLOB@)))
    } else {
        s
    }
}

/// The frames of the replay, one after the other.
pub open spec fn replay(idx: Seq<usize>, ep2: bool) -> Seq<Deed>
    decreases idx.len(),
{
    if idx.len() == 0 {
        Seq::empty()
    } else {
        replay(idx.drop_last(), ep2) + frame_steps(idx.last(), ep2)
    }
}

/// 0x0102 and its reply, unmatched.
pub open spec fn state_steps() -> Seq<Deed> {
    seq![
        Deed::Command(bare(CMD_ENCRYPT_STATE)),
        Deed::Pause(60_000_000),
        Deed::Reply(1500),
    ]
}

/// The arm jump in the tail of the replay is a jump to the centre.
pub proof fn law_ep2_blob_is_a_jump_to_the_centre()
    ensures
        unhexed(EP2_BLOB@) == frame(CMD_JUMP, 0x2710, 0x8000, 0x8000, 0, 0x01F4),
        is_batch(unhexed(EP2_BLOB@)),
{
    reveal_strlit("0241271080008000000001F4");
    reveal(frame);
    assert(unhexed(EP2_BLOB@) =~= frame(CMD_JUMP, 0x2710, 0x8000, 0x8000, 0, 0x01F4));
}

/// Every index is that of a frame.
pub open spec fn all_frames(idx: Seq<usize>) -> bool {
    forall|i: int| 0 <= i < idx.len() ==> #[trigger] idx[i] < 74
}

/// Replay the arm sequence, or the three frames that are enough, and ask for the
/// state that comes of it.
pub fn unlock(indices: Option<&[usize]>, ep2: bool) -> (r: Script)
    requires
        indices matches Some(v) ==> all_frames(v@),
    ensures
        r@ == replay(
            match indices {
                Some(v) => v@,
                None => seq![10usize, 11, 12],
            },
            ep2,
        ) + state_steps(),
        script_ok(r@),
        !r.lands,
{
    let mut idx: Vec<usize> = Vec::new();
    match indices {
        Some(v) => {
            idx.extend_from_slice(v);
            assert(idx@ =~= v@);
        },
        None => {
            idx = minimal();
        },
    }
    let n: usize = idx.len();
    let mut r = Script::new();
    assert(r@ =~= replay(idx@.take(0), ep2));
    let mut k: usize = 0;
    while k < n
        invariant
            n == idx@.len(),
            k <= n,
            all_frames(idx@),
            r@ == replay(idx@.take(k as int), ep2),
            script_ok(r@),
            !r.lands,
        decreases n - k,
    {
        let i: usize = idx[k];
        assert(idx@[k as int] < 74);
        let (gap, hex) = FRAMES[i];
        proof {
            lemma_frames_are_ascii(i as int);
            lemma_ascii_cells(hex@);
            law_ep2_blob_is_a_jump_to_the_centre();
            reveal_strlit("0241271080008000000001F4");
            lemma_ascii_cells(EP2_BLOB@);
        }
        let ghost before = r@;
        r.push(Step::Send(unhex(hex)));
        r.push(Step::Pause(gap as u64 * 600_000));
        r.push(Step::Drain);
        r.push(Step::Pause(gap as u64 * 400_000));
        if ep2 && i == EP2_AFTER {
            r.push(Step::Offer(unhex(EP2_BLOB)));
        }
        proof {
            assert(idx@.take(k + 1).drop_last() =~= idx@.take(k as int));
            assert(idx@.take(k + 1).last() == i);
            assert(r@ =~= before + frame_steps(i, ep2));
        }
        k = k + 1;
    }
    assert(idx@.take(n as int) =~= idx@);
    let ghost before = r@;
    push_state(&mut r);
    assert(r@ =~= before + state_steps());
    r
}

fn push_state(r: &mut Script)
    requires
        script_ok(old(r)@),
    ensures
        final(r)@ == old(r)@ + state_steps(),
        script_ok(final(r)@),
        final(r).lands == old(r).lands,
{
    let ghost before = r@;
    r.push(Step::Command(cmd(CMD_ENCRYPT_STATE, 0, 0, 0, 0, 0)));
    r.push(Step::Pause(60 * MILLISECOND));
    r.push(Step::Reply(1500));
    assert(r@ =~= before + state_steps());
}

/// Ask for the encrypt state, unmatched.
pub fn ask_encrypt_state() -> (r: Script)
    ensures
        r@ == state_steps(),
        script_ok(r@),
        !r.lands,
{
    let mut r = Script::new();
    push_state(&mut r);
    assert(r@ =~= state_steps());
    r
}

/// What the reply to 0x0102 says: its byte 7, where there is one.
pub open spec fn state_of(reply: Option<Seq<u8>>) -> Option<u8> {
    match reply {
        Some(st) => if st.len() >= 8 {
            Some(st[7])
        } else {
            None
        },
        None => None,
    }
}

/// 0x0102 GetEncryptState byte 7: 2 = authenticated, 0 = not. Nothing when the
/// exchange failed or the reply is missing or short, so that an unreadable board
/// is distinguishable from a locked one.
pub fn encrypt_state(outcome: &Result<Option<Vec<u8>>>) -> (r: Option<u8>)
    ensures
        r == match *outcome {
            Ok(reply) => state_of(bytes(reply)),
            Err(_) => None,
        },
{
    match outcome {
        Ok(Some(st)) => if st.len() >= 8 {
            Some(st[7])
        } else {
            None
        },
        _ => None,
    }
}

/// The named sets are made of frames that exist.
pub proof fn law_named_sets_are_frames(name: Seq<char>)
    ensures
        named_set(name) matches Some(v) ==> all_frames(v),
{
}

// ---- until it is green ----------------------------------------------------

/// Reset, then replay the unlock until the board reports authenticated.
///
/// The ATSHA204 answers from stale registers when it is rushed, the latch is
/// sticky, and a repeat costs nothing.
#[derive(Clone, Copy, PartialEq, Eq, Structural, Debug)]
pub enum Unlocking {
    /// Nothing was done yet.
    Start { replays: u32 },
    /// The state is to be asked for; so many replays are left.
    Ask { replays: u32 },
    /// The state was asked for.
    Judge { replays: u32 },
    /// The board said whether it is unlocked.
    Over { unlocked: bool },
}

/// What to do next.
pub enum Move {
    Run(Script),
    Over(bool),
}

/// What to do next, as steps.
pub enum Moved {
    Run(Seq<Deed>),
    Over(bool),
}

impl View for Move {
    type V = Moved;

    open spec fn view(&self) -> Moved {
        match self {
            Move::Run(s) => Moved::Run(s@),
            Move::Over(b) => Moved::Over(*b),
        }
    }
}

/// Three questions that reset the board.
pub open spec fn reset_steps() -> Seq<Deed> {
    seq![
        Deed::Ask(bare(CMD_RESET)),
        Deed::Ask(bare(CMD_CLEAR_CACHE)),
        Deed::Ask(bare(CMD_RESET)),
    ]
}

/// One move of the unlock: the state behind it, and what to do.
pub open spec fn unlock_move(u: Unlocking, reply: Option<Seq<u8>>) -> (Unlocking, Moved) {
    match u {
        Unlocking::Start { replays } => (Unlocking::Ask { replays }, Moved::Run(reset_steps())),
        Unlocking::Ask { replays } => (
            Unlocking::Judge { replays },
            Moved::Run(seq![Deed::Ask(bare(CMD_ENCRYPT_STATE))]),
        ),
        Unlocking::Judge { replays } => if state_of(reply) == Some(AUTHENTICATED) {
            (Unlocking::Over { unlocked: true }, Moved::Over(true))
        } else if replays == 0 {
            (Unlocking::Over { unlocked: false }, Moved::Over(false))
        } else {
            (
                Unlocking::Ask { replays: (replays - 1) as u32 },
                Moved::Run(replay(seq![10usize, 11, 12], true) + state_steps()),
            )
        },
        Unlocking::Over { unlocked } => (u, Moved::Over(unlocked)),
    }
}

impl Unlocking {
    /// Start to unlock, with so many replays, at least one.
    pub fn new(attempts: u32) -> (r: Unlocking)
        ensures
            r == (Unlocking::Start {
                replays: if attempts == 0 {
                    1
                } else {
                    attempts
                },
            }),
    {
        Unlocking::Start {
            replays: if attempts == 0 {
                1
            } else {
                attempts
            },
        }
    }

    /// The next move, given the reply to the last one.
    pub fn next(&mut self, reply: &Option<Vec<u8>>) -> (r: Move)
        ensures
            (*final(self), r@) == unlock_move(*old(self), bytes(*reply)),
            r matches Move::Run(s) ==> script_ok(s@) && !s.lands,
    {
        match *self {
            Unlocking::Start { replays } => {
                let mut s = Script::new();
                s.push(Step::Ask(cmd(CMD_RESET, 0, 0, 0, 0, 0)));
                s.push(Step::Ask(cmd(CMD_CLEAR_CACHE, 0, 0, 0, 0, 0)));
                s.push(Step::Ask(cmd(CMD_RESET, 0, 0, 0, 0, 0)));
                assert(s@ =~= reset_steps());
                *self = Unlocking::Ask { replays };
                Move::Run(s)
            },
            Unlocking::Ask { replays } => {
                let mut s = Script::new();
                s.push(Step::Ask(cmd(CMD_ENCRYPT_STATE, 0, 0, 0, 0, 0)));
                assert(s@ =~= seq![Deed::Ask(bare(CMD_ENCRYPT_STATE))]);
                *self = Unlocking::Judge { replays };
                Move::Run(s)
            },
            Unlocking::Judge { replays } => {
                let green: bool = match reply {
                    Some(st) => st.len() >= 8 && st[7] == AUTHENTICATED,
                    None => false,
                };
                if green {
                    *self = Unlocking::Over { unlocked: true };
                    return Move::Over(true);
                }
                if replays == 0 {
                    *self = Unlocking::Over { unlocked: false };
                    return Move::Over(false);
                }
                *self = Unlocking::Ask { replays: replays - 1 };
                Move::Run(unlock(None, true))
            },
            Unlocking::Over { unlocked } => Move::Over(unlocked),
        }
    }
}

/// How many moves an unlock can still make before it is over.
pub open spec fn moves_left(u: Unlocking) -> int {
    match u {
        Unlocking::Start { replays } => 2 * replays + 3,
        Unlocking::Ask { replays } => 2 * replays + 2,
        Unlocking::Judge { replays } => 2 * replays + 1,
        Unlocking::Over { .. } => 0,
    }
}

/// Unlocking comes to an end after a bounded number of moves, whatever the board
/// answers, and it ends as unlocked only on an answer that says so.
pub proof fn law_unlocking_ends_and_never_pretends(u: Unlocking, reply: Option<Seq<u8>>)
    requires
        !(u is Over),
    ensures
        ({
            let (w, m) = unlock_move(u, reply);
            &&& moves_left(w) < moves_left(u)
            &&& m is Over == w is Over
            &&& m == Moved::Over(true) ==> u is Judge && state_of(reply) == Some(AUTHENTICATED)
            &&& u is Judge && state_of(reply) == Some(AUTHENTICATED) ==> m == Moved::Over(true)
        }),
{
}

// ---- laws of the replay -----------------------------------------------------

/// A digit stands for its value, in either case, and a pair of them for a byte, the
/// higher first; what is no pair of digits stands for nothing.
pub proof fn law_digits_stand_for_their_values(s: Seq<char>, i: int)
    requires
        0 <= i < s.len() / 2,
    ensures
        unhexed(s).len() == s.len() / 2,
        ({
            let (a, b) = (s[2 * i] as u32, s[2 * i + 1] as u32);
            &&& 0x30 <= a <= 0x39 && 0x30 <= b <= 0x39 ==> unhexed(s)[i] == 16 * (a - 0x30) + (b
                - 0x30)
            &&& 0x30 <= a <= 0x39 && 0x41 <= b <= 0x46 ==> unhexed(s)[i] == 16 * (a - 0x30) + (b
                - 0x41 + 10)
            &&& 0x41 <= a <= 0x46 && 0x30 <= b <= 0x39 ==> unhexed(s)[i] == 16 * (a - 0x41 + 10)
                + (b - 0x30)
            &&& 0x41 <= a <= 0x46 && 0x41 <= b <= 0x46 ==> unhexed(s)[i] == 16 * (a - 0x41 + 10)
                + (b - 0x41 + 10)
            &&& 0x61 <= a <= 0x66 && 0x61 <= b <= 0x66 ==> unhexed(s)[i] == 16 * (a - 0x61 + 10)
                + (b - 0x61 + 10)
            &&& 0x30 <= a <= 0x39 && 0x61 <= b <= 0x66 ==> unhexed(s)[i] == 16 * (a - 0x30) + (b
                - 0x61 + 10)
            &&& 0x61 <= a <= 0x66 && 0x30 <= b <= 0x39 ==> unhexed(s)[i] == 16 * (a - 0x61 + 10)
                + (b - 0x30)
            &&& 0x67 <= a || 0x67 <= b ==> unhexed(s)[i] == 0
        }),
{
    let (a, b) = (s[2 * i], s[2 * i + 1]);
    lemma_digit(a);
    lemma_digit(b);
    assert(unhexed(s)[i] == pair_value(a, b));
    assert(-1 <= digit_value(a) < 16 && -1 <= digit_value(b) < 16);
    let v = digit_value(a) * 16 + digit_value(b);
    assert(digit_value(a) >= 0 && digit_value(b) >= 0 ==> 0 <= v < 256);
}

proof fn lemma_digit(c: char)
    ensures
        ({
            let u = c as u32;
            &&& 0x30 <= u <= 0x39 ==> digit_value(c) == u - 0x30
            &&& 0x41 <= u <= 0x46 ==> digit_value(c) == u - 0x41 + 10
            &&& 0x61 <= u <= 0x66 ==> digit_value(c) == u - 0x61 + 10
            &&& 0x67 <= u ==> digit_value(c) == -1 && c != '+'
        }),
{
}

/// The nanoseconds that some steps wait.
pub open spec fn waits(s: Seq<Deed>) -> int
    decreases s.len(),
{
    if s.len() == 0 {
        0
    } else {
        waits(s.drop_last()) + match s.last() {
            Deed::Pause(ns) => ns as int,
            _ => 0,
        }
    }
}

/// A frame is replayed at its captured pace: it is written, six tenths of its gap go by,
/// one reply is read and dropped, and the rest of the gap goes by. The waits add up to
/// the gap, a million nanoseconds for each millisecond of it. Behind frame 70, where that
/// is asked for, goes the arm jump.
pub proof fn law_a_frame_keeps_its_gap(i: usize, ep2: bool)
    requires
        i < 74,
    ensures
        ({
            let s = frame_steps(i, ep2);
            let gap = FRAMES@[i as int].0;
            let b = unhexed(FRAMES@[i as int].1@);
            &&& s.len() == if ep2 && i == 70 {
                5int
            } else {
                4
            }
            &&& s[0] == Deed::Send(b)
            &&& s[2] == Deed::Drain
            &&& s[1] is Pause && s[3] is Pause
            &&& s[1]->Pause_0 + s[3]->Pause_0 == gap * 1_000_000
            &&& 10 * s[1]->Pause_0 == 6 * (gap * 1_000_000)
            &&& waits(s) == gap * 1_000_000
            &&& waits(s) >= 10_000_000
            &&& i == 10 || i == 11 || i == 12 ==> waits(s) >= 60_000_000
            &&& s.len() == 5 ==> s[4] == Deed::Offer(
                seq![0x02u8, 0x41, 0x27, 0x10, 0x80, 0x00, 0x80, 0x00, 0x00, 0x00, 0x01, 0xF4],
            )
        }),
{
    let s = frame_steps(i, ep2);
    let four = s.take(4);
    assert(four.drop_last().drop_last().drop_last().drop_last() =~= Seq::<Deed>::empty());
    assert(four.drop_last().drop_last().drop_last() =~= seq![s[0]]);
    assert(four.drop_last().drop_last() =~= seq![s[0], s[1]]);
    assert(four.drop_last() =~= seq![s[0], s[1], s[2]]);
    reveal_with_fuel(waits, 6);
    assert(waits(four) == s[1]->Pause_0 + s[3]->Pause_0);
    if s.len() == 5 {
        assert(s.drop_last() =~= four);
        reveal_strlit("0241271080008000000001F4");
        assert(unhexed(EP2_BLOB@) =~= seq![
            0x02u8,
            0x41,
            0x27,
            0x10,
            0x80,
            0x00,
            0x80,
            0x00,
            0x00,
            0x00,
            0x01,
            0xF4,
        ]);
    } else {
        assert(s =~= four);
    }
}

/// The frames that unlock a board on their own, byte for byte: the digest, the MAC command
/// and the transmit token, with gaps of 102, 60 and 81 ms.
pub proof fn law_the_frames_that_unlock()
    ensures
        FRAMES@[10].0 == 102,
        FRAMES@[11].0 == 60,
        FRAMES@[12].0 == 81,
        unhexed(FRAMES@[10].1@) == seq![
            0x0Cu8, 0x5D, 0x00, 0x00, 0x09, 0xD6, 0x95, 0x6A,
            0x72, 0xD6, 0x62, 0x2E, 0x77, 0x90, 0x74, 0x24,
            0x24, 0x05, 0xFC, 0x5C, 0xBF, 0xEE, 0x96, 0xB1,
            0x74, 0x60, 0xB9, 0xAF, 0x8C, 0xC7, 0x32, 0x34,
            0x08, 0xA0, 0x59, 0x59,
        ],
        unhexed(FRAMES@[11].1@) == seq![
            0x0Cu8, 0x5C, 0x77, 0x27, 0x08, 0x00, 0x00, 0x00,
            0x36, 0x21, 0x5A, 0x9F, 0x20, 0x8A, 0x3A, 0x8C,
            0x1C, 0xA3, 0x54, 0xD8, 0xE7, 0x88, 0x98, 0x39,
            0x2C, 0xC2, 0x2F, 0x25, 0x6E, 0x35, 0xC7, 0xBC,
            0x79, 0xC2, 0x38, 0x42, 0xFB, 0xB3, 0xD9, 0xCD,
            0x29, 0xE2,
        ],
        unhexed(FRAMES@[12].1@) == seq![
            0x0Cu8, 0x5C, 0x88, 0x88,
        ],
{
    reveal_strlit("0C5D000009D6956A72D6622E779074242405FC5CBFEE96B17460B9AF8CC7323408A05959");
    reveal_strlit("0C5C77270800000036215A9F208A3A8C1CA354D8E78898392CC22F256E35C7BC79C23842FBB3D9CD29E2");
    reveal_strlit("0C5C8888");
    assert(FRAMES@[10].1@ == "0C5D000009D6956A72D6622E779074242405FC5CBFEE96B17460B9AF8CC7323408A05959"@);
    assert(unhexed("0C5D000009D6956A72D6622E779074242405FC5CBFEE96B17460B9AF8CC7323408A05959"@) =~= seq![
        0x0Cu8, 0x5D, 0x00, 0x00, 0x09, 0xD6, 0x95, 0x6A,
        0x72, 0xD6, 0x62, 0x2E, 0x77, 0x90, 0x74, 0x24,
        0x24, 0x05, 0xFC, 0x5C, 0xBF, 0xEE, 0x96, 0xB1,
        0x74, 0x60, 0xB9, 0xAF, 0x8C, 0xC7, 0x32, 0x34,
        0x08, 0xA0, 0x59, 0x59,
    ]);
    assert(FRAMES@[11].1@ == "0C5C77270800000036215A9F208A3A8C1CA354D8E78898392CC22F256E35C7BC79C23842FBB3D9CD29E2"@);
    assert(unhexed("0C5C77270800000036215A9F208A3A8C1CA354D8E78898392CC22F256E35C7BC79C23842FBB3D9CD29E2"@) =~= seq![
        0x0Cu8, 0x5C, 0x77, 0x27, 0x08, 0x00, 0x00, 0x00,
        0x36, 0x21, 0x5A, 0x9F, 0x20, 0x8A, 0x3A, 0x8C,
        0x1C, 0xA3, 0x54, 0xD8, 0xE7, 0x88, 0x98, 0x39,
        0x2C, 0xC2, 0x2F, 0x25, 0x6E, 0x35, 0xC7, 0xBC,
        0x79, 0xC2, 0x38, 0x42, 0xFB, 0xB3, 0xD9, 0xCD,
        0x29, 0xE2,
    ]);
    assert(FRAMES@[12].1@ == "0C5C8888"@);
    assert(unhexed("0C5C8888"@) =~= seq![
        0x0Cu8, 0x5C, 0x88, 0x88,
    ]);
}

/// A replay is its frames, one after the other, in the order in which they are given.
pub proof fn law_a_replay_is_its_frames_in_order(a: Seq<usize>, i: usize, ep2: bool)
    ensures
        replay(Seq::empty(), ep2).len() == 0,
        replay(a.push(i), ep2) == replay(a, ep2) + frame_steps(i, ep2),
{
    assert(a.push(i).drop_last() =~= a);
}

/// The time that a replay takes is the sum of the gaps of its frames.
pub proof fn law_a_replay_takes_its_gaps(a: Seq<usize>, i: usize, ep2: bool)
    requires
        i < 74,
    ensures
        waits(replay(a.push(i), ep2)) == waits(replay(a, ep2)) + FRAMES@[i as int].0 * 1_000_000,
{
    law_a_replay_is_its_frames_in_order(a, i, ep2);
    law_a_frame_keeps_its_gap(i, ep2);
    lemma_waits_add(replay(a, ep2), frame_steps(i, ep2));
}

proof fn lemma_waits_add(a: Seq<Deed>, b: Seq<Deed>)
    ensures
        waits(a + b) == waits(a) + waits(b),
    decreases b.len(),
{
    if b.len() == 0 {
        assert(a + b =~= a);
    } else {
        assert((a + b).drop_last() =~= a + b.drop_last());
        assert((a + b).last() == b.last());
        lemma_waits_add(a, b.drop_last());
    }
}

/// What the named sets hold: the three frames alone; with the read-back behind them; with
/// the wake ahead; with the session ahead; all of the authentication; that and the arm
/// tail; everything; the tail alone.
pub proof fn law_what_the_named_sets_hold(k: int)
    ensures
        named_set("bare"@) == Some(seq![10usize, 11, 12]),
        named_set("rb"@) matches Some(v) && v.len() == 8 && (0 <= k < 8 ==> v[k] == 10 + k),
        named_set("wake"@) matches Some(v) && v.len() == 10 && (0 <= k < 10 ==> v[k] == 8 + k),
        named_set("core"@) matches Some(v) && v.len() == 12 && v[0] == 0 && v[1] == 1 && (2 <= k
            < 12 ==> v[k] == 6 + k),
        named_set("auth"@) matches Some(v) && v.len() == 18 && (0 <= k < 18 ==> v[k] == k),
        named_set("min"@) matches Some(v) && v.len() == 25 && (0 <= k < 18 ==> v[k] == k) && (18
            <= k < 25 ==> v[k] == 49 + k),
        named_set("full"@) matches Some(v) && v.len() == 74 && (0 <= k < 74 ==> v[k] == k),
        named_set("tailonly"@) matches Some(v) && v.len() == 7 && (0 <= k < 7 ==> v[k] == 67 + k),
{
    reveal_strlit("bare");
    reveal_strlit("rb");
    reveal_strlit("wake");
    reveal_strlit("core");
    reveal_strlit("auth");
    reveal_strlit("min");
    reveal_strlit("full");
    reveal_strlit("tailonly");
    assert("bare"@[0] == 'b' && "rb"@[0] == 'r' && "wake"@[0] == 'w' && "core"@[0] == 'c');
    assert("auth"@[0] == 'a' && "min"@[0] == 'm' && "full"@[0] == 'f' && "tailonly"@[0] == 't');
}

/// An unlock resets first; it asks for the state, and where byte 7 of the reply is 2 it is
/// done; else, while replays are left, it replays the three frames and asks for the state
/// again, one replay less; and where none is left it gives up.
pub proof fn law_an_unlock_replays_until_it_is_green(replays: u32, reply: Option<Seq<u8>>)
    ensures
        ({
            let green = reply matches Some(r) && r.len() >= 8 && r[7] == 2;
            let (start, first) = unlock_move(Unlocking::Start { replays }, reply);
            let (asked, second) = unlock_move(Unlocking::Ask { replays }, reply);
            let (u, m) = unlock_move(Unlocking::Judge { replays }, reply);
            &&& start == (Unlocking::Ask { replays }) && first == Moved::Run(reset_steps())
            &&& asked == (Unlocking::Judge { replays }) && second == Moved::Run(
                seq![Deed::Ask(frame(0x0102, 0, 0, 0, 0, 0))],
            )
            &&& green ==> u == (Unlocking::Over { unlocked: true }) && m == Moved::Over(true)
            &&& !green && replays == 0 ==> u == (Unlocking::Over { unlocked: false }) && m
                == Moved::Over(false)
            &&& !green && replays > 0 ==> {
                &&& u == (Unlocking::Ask { replays: (replays - 1) as u32 })
                &&& m == Moved::Run(replay(seq![10usize, 11, 12], true) + state_steps())
            }
        }),
        state_of(reply) == (match reply {
            Some(r) => if r.len() >= 8 {
                Some(r[7])
            } else {
                None
            },
            None => None,
        }),
{
}

} // verus!
