//! Exchanges with the board, one round at a time.
//!
//! A job turns what it is asked to do into a `Script`: the commands, batches and
//! pauses that do it, in order. `Run` carries a script out on a `Board`. Nothing
//! here waits: each round of a run does its transfers and then says how long to
//! wait before the next one.

use crate::usb::{
    are_calls, extends, is_one_read, is_one_write, is_read, is_recovery, is_write, lemma_added,
    lemma_calls_join, lemma_no_call, lemma_one_xfer, outcome, since, written, Board, BoardError,
    Event, Failure, Transport, EP_CTRL_IN, EP_CTRL_OUT, EP_DATA_OUT, WRITE_TIMEOUT_MS,
};
use vstd::prelude::*;

verus! {

/// One millisecond, in nanoseconds.
pub const MILLISECOND: u64 = 1_000_000;

// ---- a question and its answer --------------------------------------------

/// Wait between a reply that was not for us and the next read.
pub const STALE_NS: u64 = 10_000_000;

/// A command on EP 0x06 that wants its own reply.
///
/// EP 0x88 runs one behind after a burst of mixed opcodes, so a plain write then
/// read hands back the previous command's answer. Matching the echoed opcode and
/// discarding mismatches is the fix.
pub struct Ask {
    cmd: [u8; 12],
    timeout_ms: u32,
    settle_ns: u64,
    left: u32,
    sent: bool,
    recovered: bool,
}

/// The state of a question.
pub struct Asking {
    pub cmd: Seq<u8>,
    pub timeout_ms: u32,
    pub settle_ns: u64,
    /// Reads that are left.
    pub left: int,
    /// The command went out.
    pub sent: bool,
    /// The endpoints were recovered for this question.
    pub recovered: bool,
}

/// What a round of a question ends in.
pub enum Answer {
    /// Wait this many nanoseconds, then go on.
    Pause(u64),
    /// The reply, or nothing where the board gave none.
    Done(Option<Vec<u8>>),
}

/// What a round of a question ends in, with the reply as a sequence.
pub enum Answered {
    Pause(u64),
    Done(Option<Seq<u8>>),
}

impl View for Ask {
    type V = Asking;

    closed spec fn view(&self) -> Asking {
        Asking {
            cmd: self.cmd@,
            timeout_ms: self.timeout_ms,
            settle_ns: self.settle_ns,
            left: self.left as int,
            sent: self.sent,
            recovered: self.recovered,
        }
    }
}

/// The bytes of an optional reply.
pub open spec fn bytes(r: Option<Vec<u8>>) -> Option<Seq<u8>> {
    match r {
        Some(v) => Some(v@),
        None => None,
    }
}

impl View for Answer {
    type V = Answered;

    open spec fn view(&self) -> Answered {
        match self {
            Answer::Pause(ns) => Answered::Pause(*ns),
            Answer::Done(r) => Answered::Done(bytes(*r)),
        }
    }
}

/// `reply` echoes the opcode of `cmd`.
pub open spec fn echoes(reply: Seq<u8>, cmd: Seq<u8>) -> bool {
    reply.len() >= 2 && reply[0] == cmd[0] && reply[1] == cmd[1]
}

/// A question before its first round.
pub open spec fn fresh(cmd: Seq<u8>, timeout_ms: u32, retries: u32, settle_ns: u64) -> Asking {
    Asking {
        cmd,
        timeout_ms,
        settle_ns,
        left: if retries == 0 {
            1
        } else {
            retries as int
        },
        sent: false,
        recovered: false,
    }
}

/// What one round of a question may do on the board: send the command; then a
/// read, and, where the first read fails, one recovery and the command again.
pub open spec fn ask_events(a: Asking, ext: Seq<Event>) -> bool {
    if !a.sent {
        is_one_write(ext, EP_CTRL_OUT, a.cmd, WRITE_TIMEOUT_MS)
    } else if a.left == 0 {
        ext.len() == 0
    } else {
        &&& ext.len() > 0
        &&& is_read(ext[0], EP_CTRL_IN, a.timeout_ms)
        &&& if outcome(ext[0]) is Ok || a.recovered {
            ext.len() == 1
        } else {
            &&& ext.len() == 10
            &&& is_recovery(ext.subrange(1, 9))
            &&& is_write(ext[9], EP_CTRL_OUT, a.cmd, WRITE_TIMEOUT_MS)
        }
    }
}

/// Where a round leaves the question, given what came back.
pub open spec fn ask_after(a: Asking, ext: Seq<Event>) -> (Asking, Answered) {
    if !a.sent {
        if written(outcome(ext[0]), EP_CTRL_OUT, 12) is Err {
            (a, Answered::Done(None))
        } else {
            (Asking { sent: true, ..a }, Answered::Pause(a.settle_ns))
        }
    } else if a.left == 0 {
        (a, Answered::Done(None))
    } else {
        let b = Asking { left: a.left - 1, ..a };
        match outcome(ext[0]) {
            Ok(x) => if echoes(x.data@, a.cmd) {
                (b, Answered::Done(Some(x.data@)))
            } else {
                (b, Answered::Pause(STALE_NS))
            },
            Err(_) => if a.recovered {
                (b, Answered::Done(None))
            } else if written(outcome(ext[9]), EP_CTRL_OUT, 12) is Err {
                (Asking { recovered: true, ..b }, Answered::Done(None))
            } else {
                (Asking { recovered: true, ..b }, Answered::Pause(a.settle_ns))
            },
        }
    }
}

impl Ask {
    /// A question that reads up to `retries` replies, at least one.
    pub fn new(cmd: [u8; 12], timeout_ms: u32, retries: u32, settle_ns: u64) -> (r: Ask)
        ensures
            r@ == fresh(cmd@, timeout_ms, retries, settle_ns),
    {
        let left: u32 = if retries == 0 {
            1
        } else {
            retries
        };
        Ask { cmd, timeout_ms, settle_ns, left, sent: false, recovered: false }
    }
}

impl<T: Transport> Board<T> {
    /// One round of a question: send the command, or read and judge a reply.
    ///
    /// The answer is nothing when the board does not answer: a refused write is
    /// reported the same way. The data path keeps raising, because geometry that
    /// never lands must not look like geometry that did.
    pub fn ask(&mut self, q: &mut Ask) -> (r: Answer)
        ensures
            extends(old(self).history(), final(self).history()),
            ({
                let ext = since(old(self).history(), final(self).history());
                &&& ask_events(old(q)@, ext)
                &&& (final(q)@, r@) == ask_after(old(q)@, ext)
            }),
            exists|ms: Seq<&mut T>| #[trigger]
                are_calls(ms, since(old(self).history(), final(self).history())) && if ms.len()
                    == 0 {
                    old(self).transport() == final(self).transport()
                } else {
                    &&& *ms[0] == old(self).transport()
                    &&& *final(ms.last()) == final(self).transport()
                    &&& forall|i: int|
                        0 <= i < ms.len() - 1 ==> *final(#[trigger] ms[i]) == *ms[i + 1]
                },
    {
        let ghost h = self.history();
        let ghost t = self.transport();
        if !q.sent {
            if self.write_cmd(q.cmd.as_slice()).is_err() {
                return Answer::Done(None);
            }
            q.sent = true;
            return Answer::Pause(q.settle_ns);
        }
        if q.left == 0 {
            proof {
                lemma_no_call(t);
                assert(since(h, h) =~= Seq::<Event>::empty());
                assert(h =~= h + since(h, h));
            }
            return Answer::Done(None);
        }
        q.left = q.left - 1;
        match self.read_status(EP_CTRL_IN, q.timeout_ms) {
            Ok(r) => {
                if r.len() >= 2 && r[0] == q.cmd[0] && r[1] == q.cmd[1] {
                    return Answer::Done(Some(r));
                }
                Answer::Pause(STALE_NS)
            },
            Err(_) => {
                // A timed-out read usually means the reply pipe is halted, and
                // every later read on it fails the same way. Clear it once and
                // use the remaining attempts.
                if q.recovered {
                    return Answer::Done(None);
                }
                q.recovered = true;
                let ghost (h1, t1) = (self.history(), self.transport());
                self.recover();
                let ghost (h2, t2) = (self.history(), self.transport());
                let again = self.write_cmd(q.cmd.as_slice());
                proof {
                    let (h3, t3) = (self.history(), self.transport());
                    let ext = since(h, h3);
                    assert(h1 == h + since(h, h1));
                    assert(h2 == h1 + since(h1, h2));
                    assert(h3 == h2 + since(h2, h3));
                    assert(h3 =~= h + ext);
                    assert(ext.subrange(1, 9) =~= since(h1, h2));
                    assert(ext[0] == since(h, h1)[0]);
                    assert(ext[9] == since(h2, h3)[0]);
                    lemma_calls_join(t, t1, t2, since(h, h1), since(h1, h2));
                    lemma_calls_join(t, t2, t3, since(h, h1) + since(h1, h2), since(h2, h3));
                    assert(ext =~= since(h, h1) + since(h1, h2) + since(h2, h3));
                }
                if again.is_err() {
                    return Answer::Done(None);
                }
                Answer::Pause(q.settle_ns)
            },
        }
    }
}

/// Rounds that a question can still take before it ends.
pub open spec fn rounds_left(a: Asking) -> int {
    a.left + if a.sent {
        1int
    } else {
        2int
    }
}

/// A reply that a question gives back is its own: it echoes the question's
/// opcode.
pub proof fn law_ask_never_returns_a_stale_reply(a: Asking, ext: Seq<Event>)
    requires
        ask_events(a, ext),
    ensures
        ask_after(a, ext).1 matches Answered::Done(Some(r)) ==> echoes(r, a.cmd),
{
}

/// Every round brings a question closer to its end: with `n` retries it is over
/// after at most `n + 2` rounds, whatever the board does.
pub proof fn law_ask_ends(a: Asking, ext: Seq<Event>)
    requires
        a.left >= 0,
        ask_events(a, ext),
        ask_after(a, ext).1 is Pause,
    ensures
        ask_after(a, ext).0.left >= 0,
        rounds_left(ask_after(a, ext).0) < rounds_left(a),
{
}

/// The endpoints are recovered at most once for one question: a round that
/// recovers them marks the question, and a marked question does no more than a
/// single transfer in a round.
pub proof fn law_ask_recovers_at_most_once(a: Asking, ext: Seq<Event>)
    requires
        ask_events(a, ext),
    ensures
        ext.len() > 1 ==> !a.recovered && ask_after(a, ext).0.recovered,
        a.recovered ==> ask_after(a, ext).0.recovered,
{
}

// ---- a whole question -----------------------------------------------------

/// Where some rounds leave a question.
pub open spec fn ask_end(a: Asking, rounds: Seq<Seq<Event>>) -> Asking
    decreases rounds.len(),
{
    if rounds.len() == 0 {
        a
    } else {
        ask_after(ask_end(a, rounds.drop_last()), rounds.last()).0
    }
}

/// Rounds that a question can go through, one after the other, from `a`: it goes on
/// behind each of them but the last.
pub open spec fn ask_rounds(a: Asking, rounds: Seq<Seq<Event>>) -> bool
    decreases rounds.len(),
{
    rounds.len() == 0 || {
        let before = rounds.drop_last();
        &&& ask_rounds(a, before)
        &&& before.len() > 0 ==> ask_said(a, before) is Pause
        &&& ask_events(ask_end(a, before), rounds.last())
    }
}

/// What the last of them ended in.
pub open spec fn ask_said(a: Asking, rounds: Seq<Seq<Event>>) -> Answered {
    ask_after(ask_end(a, rounds.drop_last()), rounds.last()).1
}

/// The most replies that a question reads.
pub open spec fn most_reads(retries: u32) -> int {
    if retries == 0 {
        1
    } else {
        retries as int
    }
}

/// The read of a round failed.
pub open spec fn read_failed(ext: Seq<Event>) -> bool {
    ext.len() > 0 && outcome(ext[0]) is Err
}

/// The reply that a round read.
pub open spec fn reply_of(ext: Seq<Event>) -> Seq<u8> {
    outcome(ext[0])->Ok_0.data@
}

/// The read of one of the first rounds failed. The very first round only writes.
pub open spec fn any_read_failed(rounds: Seq<Seq<Event>>) -> bool {
    exists|i: int| 1 <= i < rounds.len() && read_failed(#[trigger] rounds[i])
}

/// A question that goes on behind some rounds: the command went out, one reply was
/// read in each round behind that, none of them its own, and the endpoints were
/// recovered where a read had failed.
proof fn lemma_ask_prefix(
    cmd: Seq<u8>,
    timeout_ms: u32,
    retries: u32,
    settle_ns: u64,
    rounds: Seq<Seq<Event>>,
)
    requires
        rounds.len() > 0,
        ask_rounds(fresh(cmd, timeout_ms, retries, settle_ns), rounds),
        ask_said(fresh(cmd, timeout_ms, retries, settle_ns), rounds) is Pause,
    ensures
        ({
            let w = ask_end(fresh(cmd, timeout_ms, retries, settle_ns), rounds);
            &&& w == (Asking {
                cmd,
                timeout_ms,
                settle_ns,
                left: most_reads(retries) - (rounds.len() - 1),
                sent: true,
                recovered: any_read_failed(rounds),
            })
            &&& w.left >= 0
        }),
        is_one_write(rounds[0], EP_CTRL_OUT, cmd, WRITE_TIMEOUT_MS),
        written(outcome(rounds[0][0]), EP_CTRL_OUT, 12) is Ok,
        forall|i: int|
            1 <= i < rounds.len() ==> {
                &&& (#[trigger] rounds[i]).len() > 0
                &&& is_read(rounds[i][0], EP_CTRL_IN, timeout_ms)
                &&& !read_failed(rounds[i]) ==> rounds[i].len() == 1 && !echoes(
                    reply_of(rounds[i]),
                    cmd,
                )
                &&& read_failed(rounds[i]) ==> {
                    &&& !any_read_failed(rounds.take(i))
                    &&& rounds[i].len() == 10
                    &&& is_recovery(rounds[i].subrange(1, 9))
                    &&& is_write(rounds[i][9], EP_CTRL_OUT, cmd, WRITE_TIMEOUT_MS)
                    &&& written(outcome(rounds[i][9]), EP_CTRL_OUT, 12) is Ok
                }
            },
    decreases rounds.len(),
{
    let a = fresh(cmd, timeout_ms, retries, settle_ns);
    let before = rounds.drop_last();
    let n = rounds.len() - 1;
    if before.len() == 0 {
        assert(ask_end(a, before) == a);
        assert(rounds[0] == rounds.last());
        assert(!any_read_failed(rounds));
    } else {
        lemma_ask_prefix(cmd, timeout_ms, retries, settle_ns, before);
        assert(rounds[n] == rounds.last());
        assert(rounds[0] == before[0]);
        assert(rounds.take(n) =~= before);
        assert forall|i: int| 1 <= i < n implies rounds[i] == before[i] && rounds.take(i)
            == before.take(i) by {
            assert(rounds.take(i) =~= before.take(i));
        }
        if any_read_failed(before) {
            let i = choose|i: int| 1 <= i < before.len() && read_failed(#[trigger] before[i]);
            assert(read_failed(rounds[i]));
        }
        if any_read_failed(rounds) {
            let i = choose|i: int| 1 <= i < rounds.len() && read_failed(#[trigger] rounds[i]);
            if i < n {
                assert(read_failed(before[i]));
            }
        }
        if read_failed(rounds[n]) {
            assert(any_read_failed(rounds));
        }
    }
}

/// What a question comes to, where no transfer of it fails: the command goes out once;
/// behind it one reply is read in each round, and the first that echoes the question's
/// opcode is the answer. There is none where that many replies as may be read were
/// read and none echoed it.
pub proof fn law_a_question_is_answered_by_its_first_echo(
    cmd: Seq<u8>,
    timeout_ms: u32,
    retries: u32,
    settle_ns: u64,
    rounds: Seq<Seq<Event>>,
)
    requires
        rounds.len() > 0,
        ask_rounds(fresh(cmd, timeout_ms, retries, settle_ns), rounds),
        ask_said(fresh(cmd, timeout_ms, retries, settle_ns), rounds) is Done,
        written(outcome(rounds[0][0]), EP_CTRL_OUT, 12) is Ok,
        !any_read_failed(rounds),
    ensures
        ({
            let last = rounds.len() - 1;
            let reads = most_reads(retries);
            &&& is_one_write(rounds[0], EP_CTRL_OUT, cmd, WRITE_TIMEOUT_MS)
            &&& forall|i: int|
                1 <= i < last ==> is_one_read(#[trigger] rounds[i], EP_CTRL_IN, timeout_ms)
                    && !echoes(reply_of(rounds[i]), cmd)
            &&& match ask_said(fresh(cmd, timeout_ms, retries, settle_ns), rounds)->Done_0 {
                Some(r) => {
                    &&& 1 <= last <= reads
                    &&& is_one_read(rounds[last], EP_CTRL_IN, timeout_ms)
                    &&& r == reply_of(rounds[last])
                    &&& echoes(r, cmd)
                },
                None => last == reads + 1 && rounds[last].len() == 0,
            }
        }),
{
    let a = fresh(cmd, timeout_ms, retries, settle_ns);
    let before = rounds.drop_last();
    let last = rounds.len() - 1;
    assert(rounds[last] == rounds.last());
    if before.len() == 0 {
        assert(ask_end(a, before) == a);
    } else {
        lemma_ask_prefix(cmd, timeout_ms, retries, settle_ns, before);
        assert(rounds[0] == before[0]);
        assert forall|i: int| 1 <= i < last implies rounds[i] == before[i] && !read_failed(
            #[trigger] rounds[i],
        ) by {}
        if any_read_failed(before) {
            let i = choose|i: int| 1 <= i < before.len() && read_failed(#[trigger] before[i]);
            assert(read_failed(rounds[i]));
        }
        assert(!read_failed(rounds[last]));
    }
}

/// A command that cannot be sent has no answer and is not tried again.
pub proof fn law_a_command_that_is_refused_has_no_answer(
    cmd: Seq<u8>,
    timeout_ms: u32,
    retries: u32,
    settle_ns: u64,
    rounds: Seq<Seq<Event>>,
)
    requires
        rounds.len() > 0,
        ask_rounds(fresh(cmd, timeout_ms, retries, settle_ns), rounds),
        written(outcome(rounds[0][0]), EP_CTRL_OUT, 12) is Err,
    ensures
        rounds.len() == 1,
        is_one_write(rounds[0], EP_CTRL_OUT, cmd, WRITE_TIMEOUT_MS),
        ask_said(fresh(cmd, timeout_ms, retries, settle_ns), rounds) == Answered::Done(None),
{
    let a = fresh(cmd, timeout_ms, retries, settle_ns);
    let before = rounds.drop_last();
    if before.len() > 0 {
        lemma_ask_prefix(cmd, timeout_ms, retries, settle_ns, before);
        assert(rounds[0] == before[0]);
    } else {
        assert(ask_end(a, before) == a);
        assert(rounds[0] == rounds.last());
    }
}

/// The first read that fails is followed by one recovery and the command once more, and
/// where that cannot be sent there is no answer; the second that fails ends the
/// question with no answer and no recovery. Where no read fails nothing is recovered.
/// However it goes, no more replies are read than may be.
pub proof fn law_a_question_recovers_once(
    cmd: Seq<u8>,
    timeout_ms: u32,
    retries: u32,
    settle_ns: u64,
    rounds: Seq<Seq<Event>>,
    i: int,
)
    requires
        ask_rounds(fresh(cmd, timeout_ms, retries, settle_ns), rounds),
        1 <= i < rounds.len(),
    ensures
        ({
            let said = ask_said(fresh(cmd, timeout_ms, retries, settle_ns), rounds);
            let last = rounds.len() - 1;
            &&& last <= most_reads(retries) + 1
            &&& last == most_reads(retries) + 1 ==> rounds[last].len() == 0 && said
                == Answered::Done(None)
            &&& !read_failed(rounds[i]) ==> rounds[i].len() <= 1
            &&& read_failed(rounds[i]) && !any_read_failed(rounds.take(i)) ==> {
                &&& rounds[i].len() == 10
                &&& is_read(rounds[i][0], EP_CTRL_IN, timeout_ms)
                &&& is_recovery(rounds[i].subrange(1, 9))
                &&& is_write(rounds[i][9], EP_CTRL_OUT, cmd, WRITE_TIMEOUT_MS)
                &&& written(outcome(rounds[i][9]), EP_CTRL_OUT, 12) is Err ==> i == last && said
                    == Answered::Done(None)
            }
            &&& read_failed(rounds[i]) && any_read_failed(rounds.take(i)) ==> {
                &&& rounds[i].len() == 1
                &&& i == last
                &&& said == Answered::Done(None)
            }
        }),
{
    let before = rounds.drop_last();
    let last = rounds.len() - 1;
    lemma_ask_prefix(cmd, timeout_ms, retries, settle_ns, before);
    assert(rounds[last] == rounds.last());
    assert(rounds.take(last) =~= before);
    if i < last {
        assert(rounds[i] == before[i]);
        assert(rounds.take(i) =~= before.take(i));
    }
}

// ---- scripts --------------------------------------------------------------

/// One thing to do on the board.
pub enum Step {
    /// Ask a command on EP 0x06 and keep the reply.
    Ask([u8; 12]),
    /// Write a command on EP 0x06; a failure ends the script.
    Command([u8; 12]),
    /// Read one reply within so many milliseconds; a failure ends the script.
    Reply(u32),
    /// Write raw bytes on EP 0x06, whatever comes of it.
    Send(Vec<u8>),
    /// Read one reply and drop it, whatever comes of it.
    Drain,
    /// Write a batch on EP 0x02; a failure ends the script.
    Data(Vec<u8>),
    /// Write a batch on EP 0x02, whatever comes of it.
    Offer(Vec<u8>),
    /// Write a batch that shuts a laser output. Where that fails, the output may
    /// still be driving: clear the endpoints and try once more.
    Silence(Vec<u8>),
    /// Wait this many nanoseconds.
    Pause(u64),
}

/// One thing to do on the board, with its bytes as a sequence.
pub enum Deed {
    Ask(Seq<u8>),
    Command(Seq<u8>),
    Reply(u32),
    Send(Seq<u8>),
    Drain,
    Data(Seq<u8>),
    Offer(Seq<u8>),
    Silence(Seq<u8>),
    Pause(u64),
}

impl View for Step {
    type V = Deed;

    open spec fn view(&self) -> Deed {
        match self {
            Step::Ask(c) => Deed::Ask(c@),
            Step::Command(c) => Deed::Command(c@),
            Step::Reply(ms) => Deed::Reply(*ms),
            Step::Send(b) => Deed::Send(b@),
            Step::Drain => Deed::Drain,
            Step::Data(b) => Deed::Data(b@),
            Step::Offer(b) => Deed::Offer(b@),
            Step::Silence(b) => Deed::Silence(b@),
            Step::Pause(ns) => Deed::Pause(*ns),
        }
    }
}

/// Whole 12-byte commands, at least one.
pub open spec fn is_batch(b: Seq<u8>) -> bool {
    b.len() > 0 && b.len() % 12 == 0
}

/// A step that a board can be asked to do.
pub open spec fn deed_ok(d: Deed) -> bool {
    match d {
        Deed::Data(b) => is_batch(b),
        Deed::Offer(b) => is_batch(b),
        Deed::Silence(b) => is_batch(b),
        Deed::Ask(c) => c.len() == 12,
        Deed::Command(c) => c.len() == 12,
        _ => true,
    }
}

/// A script that a board can be asked to carry out.
pub open spec fn script_ok(s: Seq<Deed>) -> bool {
    forall|i: int| 0 <= i < s.len() ==> deed_ok(#[trigger] s[i])
}

/// What to do on the board, in order.
pub struct Script {
    pub steps: Vec<Step>,
    /// The script carries lit vectors: once they have gone out, the job that made
    /// it has a laser output to silence.
    pub lands: bool,
}

impl View for Script {
    type V = Seq<Deed>;

    open spec fn view(&self) -> Seq<Deed> {
        self.steps@.map_values(|s: Step| s@)
    }
}

impl Script {
    pub fn new() -> (r: Script)
        ensures
            r@ == Seq::<Deed>::empty(),
            !r.lands,
    {
        let r = Script { steps: Vec::new(), lands: false };
        assert(r@ =~= Seq::<Deed>::empty());
        r
    }

    pub fn push(&mut self, s: Step)
        ensures
            final(self)@ == old(self)@.push(s@),
            final(self).lands == old(self).lands,
    {
        self.steps.push(s);
        assert(self@ =~= old(self)@.push(s@));
    }
}

/// Timing of a question inside a script.
pub const ASK_TIMEOUT_MS: u32 = 1200;

pub const ASK_RETRIES: u32 = 3;

pub const ASK_SETTLE_NS: u64 = 40_000_000;

/// How long a raw write may take, milliseconds.
pub const SEND_TIMEOUT_MS: u32 = 2000;

/// How long a dropped read may take, milliseconds.
pub const DRAIN_TIMEOUT_MS: u32 = 800;

// ---- running a script -----------------------------------------------------

/// A script being carried out.
pub struct Run {
    script: Script,
    at: usize,
    asking: Option<Ask>,
    taken: bool,
    reply: Option<Vec<u8>>,
    failure: Option<BoardError>,
    unsilenced: Option<(BoardError, BoardError)>,
}

/// The state of a run.
pub struct Running {
    pub steps: Seq<Deed>,
    /// The script carries lit vectors.
    pub lands: bool,
    /// The step that is due. At the end of the steps the run is over.
    pub at: int,
    /// The question that is open.
    pub asking: Option<Asking>,
    /// The board took a batch of the script.
    pub taken: bool,
    /// The last reply.
    pub reply: Option<Seq<u8>>,
    /// What ended the run before its last step.
    pub failure: Option<Failure>,
    /// Why the laser could not be silenced, before and after a recovery.
    pub unsilenced: Option<(Failure, Failure)>,
}

/// What a round of a run ends in.
#[derive(Clone, Copy, PartialEq, Eq, Structural, Debug)]
pub enum Next {
    /// Go on at once.
    Go,
    /// Wait this many nanoseconds, then go on.
    Pause(u64),
    /// The run is over.
    Done,
}

/// What a run came to.
pub struct Report {
    /// Lit vectors went out.
    pub lands: bool,
    pub reply: Option<Vec<u8>>,
    pub failure: Option<BoardError>,
    pub unsilenced: Option<(BoardError, BoardError)>,
}

/// An optional failure with its message as a sequence of characters.
pub open spec fn failed(f: Option<BoardError>) -> Option<Failure> {
    match f {
        Some(e) => Some(e@),
        None => None,
    }
}

/// Two failures with their messages as sequences of characters.
pub open spec fn failed_twice(f: Option<(BoardError, BoardError)>) -> Option<(Failure, Failure)> {
    match f {
        Some((a, b)) => Some((a@, b@)),
        None => None,
    }
}

impl View for Run {
    type V = Running;

    closed spec fn view(&self) -> Running {
        Running {
            steps: self.script@,
            lands: self.script.lands,
            at: self.at as int,
            asking: match self.asking {
                Some(a) => Some(a@),
                None => None,
            },
            taken: self.taken,
            reply: bytes(self.reply),
            failure: failed(self.failure),
            unsilenced: failed_twice(self.unsilenced),
        }
    }
}

/// The script carries lit vectors, and it went through or a batch of it was taken
/// ahead of the failure.
pub open spec fn landed(v: Running) -> bool {
    v.lands && (v.failure is None || v.taken)
}

/// A run before its first round.
pub open spec fn started(steps: Seq<Deed>, lands: bool) -> Running {
    Running {
        steps,
        lands,
        at: 0,
        asking: None,
        taken: false,
        reply: None,
        failure: None,
        unsilenced: None,
    }
}

/// A run that can go on: an open question is the one that the step at hand asks.
pub open spec fn run_ok(v: Running) -> bool {
    &&& script_ok(v.steps)
    &&& 0 <= v.at <= v.steps.len()
    &&& v.asking matches Some(a) ==> a.left >= 0 && v.at < v.steps.len() && v.steps[v.at]
        == Deed::Ask(a.cmd)
}

/// The run with its step done.
pub open spec fn stepped(v: Running) -> Running {
    Running { at: v.at + 1, ..v }
}

/// The run ended by a failure.
pub open spec fn ended(v: Running, f: Failure) -> Running {
    Running { at: v.steps.len() as int, failure: Some(f), ..v }
}

/// What one round of a run may do on the board.
pub open spec fn run_events(v: Running, ext: Seq<Event>) -> bool {
    if v.at >= v.steps.len() {
        ext.len() == 0
    } else if v.asking is Some {
        ask_events(v.asking->0, ext)
    } else {
        match v.steps[v.at] {
            Deed::Ask(_) => ext.len() == 0,
            Deed::Command(c) => is_one_write(ext, EP_CTRL_OUT, c, WRITE_TIMEOUT_MS),
            Deed::Reply(ms) => is_one_read(ext, EP_CTRL_IN, ms),
            Deed::Send(b) => is_one_write(ext, EP_CTRL_OUT, b, SEND_TIMEOUT_MS),
            Deed::Drain => is_one_read(ext, EP_CTRL_IN, DRAIN_TIMEOUT_MS),
            Deed::Data(b) => is_one_write(ext, EP_DATA_OUT, b, WRITE_TIMEOUT_MS),
            Deed::Offer(b) => is_one_write(ext, EP_DATA_OUT, b, WRITE_TIMEOUT_MS),
            Deed::Silence(b) => {
                &&& ext.len() > 0
                &&& is_write(ext[0], EP_DATA_OUT, b, WRITE_TIMEOUT_MS)
                &&& if written(outcome(ext[0]), EP_DATA_OUT, b.len()) is Ok {
                    ext.len() == 1
                } else {
                    &&& ext.len() == 10
                    &&& is_recovery(ext.subrange(1, 9))
                    &&& is_write(ext[9], EP_DATA_OUT, b, WRITE_TIMEOUT_MS)
                }
            },
            Deed::Pause(_) => ext.len() == 0,
        }
    }
}

/// Where a round leaves the run, given what came back.
pub open spec fn run_after(v: Running, ext: Seq<Event>) -> (Running, Next) {
    if v.at >= v.steps.len() {
        (v, Next::Done)
    } else if v.asking is Some {
        let (a, ans) = ask_after(v.asking->0, ext);
        match ans {
            Answered::Pause(ns) => (Running { asking: Some(a), ..v }, Next::Pause(ns)),
            Answered::Done(r) => (
                Running { asking: None, reply: r, ..stepped(v) },
                Next::Go,
            ),
        }
    } else {
        match v.steps[v.at] {
            Deed::Ask(c) => (
                Running {
                    asking: Some(fresh(c, ASK_TIMEOUT_MS, ASK_RETRIES, ASK_SETTLE_NS)),
                    ..v
                },
                Next::Go,
            ),
            Deed::Command(c) => match written(outcome(ext[0]), EP_CTRL_OUT, 12) {
                Ok(_) => (stepped(v), Next::Go),
                Err(f) => (ended(v, f), Next::Go),
            },
            Deed::Reply(_) => match outcome(ext[0]) {
                Ok(x) => (Running { reply: Some(x.data@), ..stepped(v) }, Next::Go),
                Err(e) => (Running { reply: None, ..ended(v, e@) }, Next::Go),
            },
            Deed::Send(_) => (stepped(v), Next::Go),
            Deed::Drain => (stepped(v), Next::Go),
            Deed::Data(b) => match written(outcome(ext[0]), EP_DATA_OUT, b.len()) {
                Ok(_) => (Running { taken: true, ..stepped(v) }, Next::Go),
                Err(f) => (ended(v, f), Next::Go),
            },
            Deed::Offer(_) => (stepped(v), Next::Go),
            Deed::Silence(b) => match written(outcome(ext[0]), EP_DATA_OUT, b.len()) {
                Ok(_) => (stepped(v), Next::Go),
                Err(f) => match written(outcome(ext[9]), EP_DATA_OUT, b.len()) {
                    Ok(_) => (stepped(v), Next::Go),
                    Err(g) => (Running { unsilenced: Some((f, g)), ..stepped(v) }, Next::Go),
                },
            },
            Deed::Pause(ns) => (stepped(v), Next::Pause(ns)),
        }
    }
}

impl Run {
    pub fn new(script: Script) -> (r: Run)
        ensures
            r@ == started(script@, script.lands),
            script_ok(script@) ==> run_ok(r@),
    {
        Run {
            script,
            at: 0,
            asking: None,
            taken: false,
            reply: None,
            failure: None,
            unsilenced: None,
        }
    }

    fn fail(&mut self, e: BoardError)
        ensures
            final(self)@ == ended(old(self)@, e@),
    {
        self.at = self.script.steps.len();
        self.failure = Some(e);
    }

    /// One round of the run.
    pub fn step<T: Transport>(&mut self, b: &mut Board<T>) -> (r: Next)
        requires
            run_ok(old(self)@),
        ensures
            run_ok(final(self)@),
            extends(old(b).history(), final(b).history()),
            ({
                let ext = since(old(b).history(), final(b).history());
                &&& run_events(old(self)@, ext)
                &&& (final(self)@, r) == run_after(old(self)@, ext)
            }),
            exists|ms: Seq<&mut T>| #[trigger]
                are_calls(ms, since(old(b).history(), final(b).history())) && if ms.len() == 0 {
                    old(b).transport() == final(b).transport()
                } else {
                    &&& *ms[0] == old(b).transport()
                    &&& *final(ms.last()) == final(b).transport()
                    &&& forall|i: int|
                        0 <= i < ms.len() - 1 ==> *final(#[trigger] ms[i]) == *ms[i + 1]
                },
    {
        let ghost h = b.history();
        let ghost t = b.transport();
        let ghost v = self@;
        proof {
            lemma_no_call(t);
            assert(since(h, h) =~= Seq::<Event>::empty());
            assert(h =~= h + since(h, h));
        }
        if self.at >= self.script.steps.len() {
            return Next::Done;
        }
        if let Some(mut q) = self.asking.take() {
            match b.ask(&mut q) {
                Answer::Pause(ns) => {
                    self.asking = Some(q);
                    return Next::Pause(ns);
                },
                Answer::Done(r) => {
                    self.reply = r;
                    self.at = self.at + 1;
                    return Next::Go;
                },
            }
        }
        assert(deed_ok(v.steps[v.at]));
        match &self.script.steps[self.at] {
            Step::Ask(c) => {
                let q = Ask::new(*c, ASK_TIMEOUT_MS, ASK_RETRIES, ASK_SETTLE_NS);
                self.asking = Some(q);
                Next::Go
            },
            Step::Command(c) => {
                match b.write_cmd(c.as_slice()) {
                    Ok(_) => {
                        self.at = self.at + 1;
                    },
                    Err(e) => {
                        self.fail(e);
                    },
                }
                Next::Go
            },
            Step::Reply(ms) => {
                match b.read_status(EP_CTRL_IN, *ms) {
                    Ok(r) => {
                        self.reply = Some(r);
                        self.at = self.at + 1;
                    },
                    Err(e) => {
                        self.fail(e);
                        self.reply = None;
                    },
                }
                Next::Go
            },
            Step::Send(raw) => {
                let sent = raw.as_slice();
                let o = b.xfer(EP_CTRL_OUT, sent, 0, SEND_TIMEOUT_MS);
                proof {
                    lemma_one_xfer(t, b.transport(), EP_CTRL_OUT, sent, 0, SEND_TIMEOUT_MS, o);
                    lemma_added(h, b.history());
                }
                self.at = self.at + 1;
                Next::Go
            },
            Step::Drain => {
                let _ = b.read_status(EP_CTRL_IN, DRAIN_TIMEOUT_MS);
                self.at = self.at + 1;
                Next::Go
            },
            Step::Data(blob) => {
                match b.write_data(blob.as_slice()) {
                    Ok(_) => {
                        self.taken = true;
                        self.at = self.at + 1;
                    },
                    Err(e) => {
                        self.fail(e);
                    },
                }
                Next::Go
            },
            Step::Offer(blob) => {
                let _ = b.write_data(blob.as_slice());
                self.at = self.at + 1;
                Next::Go
            },
            Step::Silence(blob) => {
                match b.write_data(blob.as_slice()) {
                    Ok(_) => {
                        self.at = self.at + 1;
                    },
                    Err(e) => {
                        let ghost (h1, t1) = (b.history(), b.transport());
                        b.recover();
                        let ghost (h2, t2) = (b.history(), b.transport());
                        let again = b.write_data(blob.as_slice());
                        proof {
                            let (h3, t3) = (b.history(), b.transport());
                            let ext = since(h, h3);
                            assert(h3 =~= h + ext);
                            assert(ext.subrange(1, 9) =~= since(h1, h2));
                            assert(ext[0] == since(h, h1)[0]);
                            assert(ext[9] == since(h2, h3)[0]);
                            lemma_calls_join(t, t1, t2, since(h, h1), since(h1, h2));
                            lemma_calls_join(
                                t,
                                t2,
                                t3,
                                since(h, h1) + since(h1, h2),
                                since(h2, h3),
                            );
                            assert(ext =~= since(h, h1) + since(h1, h2) + since(h2, h3));
                        }
                        match again {
                            Ok(_) => {},
                            Err(g) => {
                                self.unsilenced = Some((e, g));
                            },
                        }
                        self.at = self.at + 1;
                    },
                }
                Next::Go
            },
            Step::Pause(ns) => {
                let wait: u64 = *ns;
                self.at = self.at + 1;
                Next::Pause(wait)
            },
        }
    }

    /// What the run came to.
    pub fn finish(self) -> (r: Report)
        ensures
            r.lands == landed(self@),
            bytes(r.reply) == self@.reply,
            failed(r.failure) == self@.failure,
            failed_twice(r.unsilenced) == self@.unsilenced,
    {
        Report {
            lands: self.script.lands && (self.failure.is_none() || self.taken),
            reply: self.reply,
            failure: self.failure,
            unsilenced: self.unsilenced,
        }
    }
}

// ---- laws of a run --------------------------------------------------------

/// The bytes that an event wrote to `ep`, if it did.
pub open spec fn wrote(e: Event, ep: u8) -> Seq<Seq<u8>> {
    match e {
        Event::Xfer { ep: a, payload, read_len, .. } => if a == ep && read_len == 0 {
            seq![payload]
        } else {
            Seq::empty()
        },
        _ => Seq::empty(),
    }
}

/// What was written to `ep`, in order.
pub open spec fn all_written(ext: Seq<Event>, ep: u8) -> Seq<Seq<u8>>
    decreases ext.len(),
{
    if ext.len() == 0 {
        Seq::empty()
    } else {
        all_written(ext.drop_last(), ep) + wrote(ext.last(), ep)
    }
}

/// The batch that a step carries, if it does.
pub open spec fn batch_of(d: Deed) -> Seq<Seq<u8>> {
    match d {
        Deed::Data(b) => seq![b],
        Deed::Offer(b) => seq![b],
        Deed::Silence(b) => seq![b],
        _ => Seq::empty(),
    }
}

/// The batches that a script carries, in order.
pub open spec fn batches_of(steps: Seq<Deed>) -> Seq<Seq<u8>>
    decreases steps.len(),
{
    if steps.len() == 0 {
        Seq::empty()
    } else {
        batches_of(steps.drop_last()) + batch_of(steps.last())
    }
}

/// Rounds that a run can go through, one after the other, from `v`.
pub open spec fn run_rounds(v: Running, rounds: Seq<Seq<Event>>) -> bool
    decreases rounds.len(),
{
    rounds.len() == 0 || (run_rounds(v, rounds.drop_last()) && run_events(
        run_end(v, rounds.drop_last()),
        rounds.last(),
    ))
}

/// Where those rounds leave the run.
pub open spec fn run_end(v: Running, rounds: Seq<Seq<Event>>) -> Running
    decreases rounds.len(),
{
    if rounds.len() == 0 {
        v
    } else {
        run_after(run_end(v, rounds.drop_last()), rounds.last()).0
    }
}

/// What those rounds wrote to `ep`.
pub open spec fn rounds_written(rounds: Seq<Seq<Event>>, ep: u8) -> Seq<Seq<u8>>
    decreases rounds.len(),
{
    if rounds.len() == 0 {
        Seq::empty()
    } else {
        rounds_written(rounds.drop_last(), ep) + all_written(rounds.last(), ep)
    }
}

/// No step of the script repeats a batch after a failure.
pub open spec fn never_silences(steps: Seq<Deed>) -> bool {
    forall|i: int| 0 <= i < steps.len() ==> !(#[trigger] steps[i] is Silence)
}

proof fn lemma_no_writes(ext: Seq<Event>, ep: u8)
    requires
        forall|i: int| 0 <= i < ext.len() ==> wrote(#[trigger] ext[i], ep).len() == 0,
    ensures
        all_written(ext, ep) == Seq::<Seq<u8>>::empty(),
    decreases ext.len(),
{
    if ext.len() > 0 {
        assert forall|i: int| 0 <= i < ext.drop_last().len() implies wrote(
            #[trigger] ext.drop_last()[i],
            ep,
        ).len() == 0 by {
            assert(ext.drop_last()[i] == ext[i]);
        }
        lemma_no_writes(ext.drop_last(), ep);
        assert(ext.last() == ext[ext.len() - 1]);
        assert(all_written(ext, ep) =~= Seq::<Seq<u8>>::empty());
    }
}

/// A recovery writes nothing.
proof fn lemma_recovery_event(ext: Seq<Event>, i: int, ep: u8)
    requires
        is_recovery(ext),
        0 <= i < 8,
    ensures
        wrote(ext[i], ep).len() == 0,
{
    assert(ext[2 * (i / 2)] is Abort && ext[2 * (i / 2) + 1] is Reset);
    assert(i == 2 * (i / 2) || i == 2 * (i / 2) + 1);
}

proof fn lemma_ask_writes_no_data(a: Asking, ext: Seq<Event>)
    requires
        ask_events(a, ext),
    ensures
        all_written(ext, EP_DATA_OUT) == Seq::<Seq<u8>>::empty(),
{
    assert forall|i: int| 0 <= i < ext.len() implies wrote(
        #[trigger] ext[i],
        EP_DATA_OUT,
    ).len() == 0 by {
        if 1 <= i < 9 {
            lemma_recovery_event(ext.subrange(1, 9), i - 1, EP_DATA_OUT);
            assert(ext.subrange(1, 9)[i - 1] == ext[i]);
        }
    }
    lemma_no_writes(ext, EP_DATA_OUT);
}

proof fn lemma_one(ext: Seq<Event>, ep: u8)
    requires
        ext.len() == 1,
    ensures
        all_written(ext, ep) == wrote(ext[0], ep),
{
    assert(ext.drop_last() =~= Seq::<Event>::empty());
    assert(all_written(ext.drop_last(), ep) =~= Seq::<Seq<u8>>::empty());
    assert(all_written(ext, ep) =~= wrote(ext[0], ep));
}

/// Every round keeps the run sound.
pub proof fn law_run_stays_sound(v: Running, ext: Seq<Event>)
    requires
        run_ok(v),
        run_events(v, ext),
    ensures
        run_ok(run_after(v, ext).0),
        run_after(v, ext).0.steps == v.steps,
{
}

/// Every round of a run that is not over gets on: to a later step, or within the
/// step to a question, and within the question closer to its end.
pub proof fn law_run_ends(v: Running, ext: Seq<Event>)
    requires
        run_ok(v),
        run_events(v, ext),
        run_after(v, ext).1 !is Done,
    ensures
        ({
            let w = run_after(v, ext).0;
            ||| w.at > v.at
            ||| w.at == v.at && w.asking is Some && (v.asking is None || rounds_left(w.asking->0)
                < rounds_left(v.asking->0))
        }),
{
}

/// Once over, a run stays over and touches nothing.
pub proof fn law_run_stays_over(v: Running, ext: Seq<Event>)
    requires
        run_ok(v),
        v.at == v.steps.len(),
        run_events(v, ext),
    ensures
        ext.len() == 0,
        run_after(v, ext) == (v, Next::Done),
{
}

/// What a round writes on EP 0x02 is the batch of the step at hand, and what it
/// writes on EP 0x06 is that step's command: the two never mix.
pub proof fn law_run_routes(v: Running, ext: Seq<Event>, i: int)
    requires
        run_ok(v),
        run_events(v, ext),
        0 <= i < ext.len(),
        ext[i] is Xfer,
        ext[i]->read_len == 0,
    ensures
        v.at < v.steps.len(),
        ext[i]->Xfer_ep == EP_DATA_OUT || ext[i]->Xfer_ep == EP_CTRL_OUT,
        ext[i]->Xfer_ep == EP_DATA_OUT ==> batch_of(v.steps[v.at]) == seq![ext[i]->payload],
        ext[i]->Xfer_ep == EP_CTRL_OUT ==> match v.steps[v.at] {
            Deed::Ask(c) => ext[i]->payload == c,
            Deed::Command(c) => ext[i]->payload == c,
            Deed::Send(b) => ext[i]->payload == b,
            _ => false,
        },
{
    if v.asking is Some {
        if 1 <= i < 9 {
            lemma_recovery_event(ext.subrange(1, 9), i - 1, 0);
            assert(ext.subrange(1, 9)[i - 1] == ext[i]);
            assert(ext.subrange(1, 9)[2 * ((i - 1) / 2)] is Abort && ext.subrange(1, 9)[2 * ((i
                - 1) / 2) + 1] is Reset);
        }
    } else if v.steps[v.at] is Silence && 1 <= i < 9 {
        assert(ext.subrange(1, 9)[i - 1] == ext[i]);
        assert(ext.subrange(1, 9)[2 * ((i - 1) / 2)] is Abort && ext.subrange(1, 9)[2 * ((i - 1)
            / 2) + 1] is Reset);
    }
}

/// Batches land in order and once each: while nothing has failed, what went out
/// on EP 0x02 is exactly the batches of the steps that are done, and at the end
/// all of them.
pub proof fn law_batches_land_in_order(steps: Seq<Deed>, lands: bool, rounds: Seq<Seq<Event>>)
    requires
        script_ok(steps),
        never_silences(steps),
        run_rounds(started(steps, lands), rounds),
        run_end(started(steps, lands), rounds).failure is None,
    ensures
        ({
            let v = run_end(started(steps, lands), rounds);
            &&& run_ok(v)
            &&& v.steps == steps
            &&& rounds_written(rounds, EP_DATA_OUT) == batches_of(steps.take(v.at))
            &&& v.at == steps.len() ==> rounds_written(rounds, EP_DATA_OUT) == batches_of(steps)
        }),
    decreases rounds.len(),
{
    let v = run_end(started(steps, lands), rounds);
    if rounds.len() == 0 {
        assert(steps.take(0) =~= Seq::<Deed>::empty());
    } else {
        let u = run_end(started(steps, lands), rounds.drop_last());
        let ext = rounds.last();
        assert(u.failure is None);
        law_batches_land_in_order(steps, lands, rounds.drop_last());
        law_run_stays_sound(u, ext);
        if u.at >= steps.len() {
            assert(ext =~= Seq::<Event>::empty());
        } else {
            assert(steps.take(u.at + 1).drop_last() =~= steps.take(u.at));
            assert(steps.take(u.at + 1).last() == steps[u.at]);
            if u.asking is Some {
                lemma_ask_writes_no_data(u.asking->0, ext);
            } else if ext.len() == 0 {
            } else {
                lemma_one(ext, EP_DATA_OUT);
            }
        }
        assert(rounds_written(rounds, EP_DATA_OUT) =~= batches_of(steps.take(v.at)));
    }
    assert(steps.take(steps.len() as int) =~= steps);
}

/// A failure stops the rest: what went out on EP 0x02 is the batches of the
/// script up to the step that failed and nothing after it.
pub proof fn law_a_failure_stops_the_rest(
    steps: Seq<Deed>,
    lands: bool,
    rounds: Seq<Seq<Event>>,
) -> (k: int)
    requires
        script_ok(steps),
        never_silences(steps),
        run_rounds(started(steps, lands), rounds),
        run_end(started(steps, lands), rounds).failure is Some,
    ensures
        0 <= k < steps.len(),
        steps[k] is Data || steps[k] is Command || steps[k] is Reply,
        run_end(started(steps, lands), rounds).at == steps.len(),
        run_end(started(steps, lands), rounds).steps == steps,
        rounds_written(rounds, EP_DATA_OUT) == batches_of(steps.take(k + 1)),
    decreases rounds.len(),
{
    let u = run_end(started(steps, lands), rounds.drop_last());
    let ext = rounds.last();
    if u.failure is Some {
        let k = law_a_failure_stops_the_rest(steps, lands, rounds.drop_last());
        assert(ext =~= Seq::<Event>::empty());
        assert(rounds_written(rounds, EP_DATA_OUT) =~= batches_of(steps.take(k + 1)));
        k
    } else {
        law_batches_land_in_order(steps, lands, rounds.drop_last());
        assert(steps.take(u.at + 1).drop_last() =~= steps.take(u.at));
        assert(steps.take(u.at + 1).last() == steps[u.at]);
        lemma_one(ext, EP_DATA_OUT);
        assert(rounds_written(rounds, EP_DATA_OUT) =~= batches_of(steps.take(u.at + 1)));
        u.at
    }
}

/// Lit vectors that the board took have landed, whatever becomes of the run behind
/// them: no later round takes that back.
pub proof fn law_what_landed_stays_landed(v: Running, ext: Seq<Event>)
    requires
        run_ok(v),
        run_events(v, ext),
        v.lands,
    ensures
        ({
            let w = run_after(v, ext).0;
            &&& v.taken ==> landed(v) && w.taken && landed(w)
            &&& v.asking is None && v.at < v.steps.len() && v.steps[v.at] is Data ==> (w.taken
                <==> v.taken || written(outcome(ext[0]), EP_DATA_OUT, v.steps[v.at]->Data_0.len())
                is Ok)
        }),
{
}

/// The batch that silences the laser is heard or its loss is reported: after its
/// step either the board took the last write of it, or the run carries both
/// failures.
pub proof fn law_silence_is_heard_or_reported(v: Running, ext: Seq<Event>, b: Seq<u8>)
    requires
        run_ok(v),
        v.at < v.steps.len(),
        v.steps[v.at] == Deed::Silence(b),
        run_events(v, ext),
    ensures
        ({
            let w = run_after(v, ext).0;
            &&& w.at == v.at + 1
            &&& ext.len() > 0
            &&& is_write(ext.last(), EP_DATA_OUT, b, WRITE_TIMEOUT_MS)
            &&& if written(outcome(ext.last()), EP_DATA_OUT, b.len()) is Ok {
                w.unsilenced == v.unsilenced
            } else {
                &&& ext.len() == 10
                &&& is_recovery(ext.subrange(1, 9))
                &&& w.unsilenced == Some(
                    (
                        written(outcome(ext[0]), EP_DATA_OUT, b.len())->Err_0,
                        written(outcome(ext[9]), EP_DATA_OUT, b.len())->Err_0,
                    ),
                )
            }
        }),
{
}

} // verus!
