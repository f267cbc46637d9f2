//! What one round does on the board and what is made of what came back, step by step, in
//! the numbers of the endpoints and the waits.

use crate::script::{
    ask_after, ask_events, echoes, fresh, landed, run_after, run_events, run_ok, started, Answered,
    Asking, Deed, Next, Running, Script, Step,
};
use crate::usb::{
    are_calls, extends, is_call, is_one_read, is_one_write, is_recovery, outcome, seen, since,
    written, Event, Failure, Result, Transport, Xfer,
};
use vstd::prelude::*;

verus! {

/// What a write gives its caller: the transport's own failure as it is; a failed transfer
/// where the driver rejected it; else the bytes that were moved.
pub proof fn law_what_a_write_comes_to(o: Result<Xfer>, ep: u8, nbytes: nat)
    ensures
        match o {
            Err(e) => written(o, ep, nbytes) == Err::<usize, Failure>(e@),
            Ok(x) => {
                &&& x.nt == 0 ==> written(o, ep, nbytes) == Ok::<usize, Failure>(x.moved)
                &&& x.nt != 0 ==> written(o, ep, nbytes) is Err && written(o, ep, nbytes)->Err_0
                    is Transfer
            },
        },
{
}

/// A recovery aborts and resets each endpoint in turn: 0x88, 0x84, 0x06, 0x02.
pub proof fn law_a_recovery_in_order(ext: Seq<Event>)
    requires
        is_recovery(ext),
    ensures
        ext.len() == 8,
        ext[0] matches Event::Abort { ep, .. } && ep == 0x88,
        ext[1] matches Event::Reset { ep, .. } && ep == 0x88,
        ext[2] matches Event::Abort { ep, .. } && ep == 0x84,
        ext[3] matches Event::Reset { ep, .. } && ep == 0x84,
        ext[4] matches Event::Abort { ep, .. } && ep == 0x06,
        ext[5] matches Event::Reset { ep, .. } && ep == 0x06,
        ext[6] matches Event::Abort { ep, .. } && ep == 0x02,
        ext[7] matches Event::Reset { ep, .. } && ep == 0x02,
{
    let (a, b, c, d) = (0int, 1int, 2int, 3int);
    assert(ext[2 * a] is Abort && ext[2 * a + 1] is Reset);
    assert(ext[2 * b] is Abort && ext[2 * b + 1] is Reset);
    assert(ext[2 * c] is Abort && ext[2 * c + 1] is Reset);
    assert(ext[2 * d] is Abort && ext[2 * d + 1] is Reset);
}

/// `e` is a transfer with exactly these arguments.
pub open spec fn is_transfer(e: Event, ep: int, payload: Seq<u8>, read_len: int, ms: int) -> bool {
    e matches Event::Xfer { ep: a, payload: p, read_len: n, timeout_ms: t, .. } && a == ep && p
        == payload && n == read_len && t == ms
}

/// A question that was not sent: the command goes out on EP 0x06 within 3 s. Where that
/// fails there is no answer; else the board is given its time before the first read.
pub proof fn law_a_question_is_sent(a: Asking, ext: Seq<Event>)
    requires
        !a.sent,
        ask_events(a, ext),
    ensures
        ext.len() == 1,
        is_transfer(ext[0], 0x06, a.cmd, 0, 3000),
        ({
            let (b, said) = ask_after(a, ext);
            let o = ext[0]->outcome;
            let taken = o matches Ok(x) && x.nt == 0;
            &&& taken ==> b == (Asking { sent: true, ..a }) && said == Answered::Pause(a.settle_ns)
            &&& !taken ==> said == Answered::Done(None)
        }),
{
}

/// A question that was sent and has reads left: one reply of 12 bytes is read from EP 0x88
/// within its time. The reply that starts with the command's first two bytes is the answer;
/// behind any other it reads again 10 ms later, one read less.
pub proof fn law_a_reply_is_read(a: Asking, ext: Seq<Event>)
    requires
        a.sent,
        a.left > 0,
        a.cmd.len() == 12,
        ask_events(a, ext),
        ext[0]->outcome is Ok,
    ensures
        ext.len() == 1,
        is_transfer(ext[0], 0x88, Seq::empty(), 12, a.timeout_ms as int),
        ({
            let (b, said) = ask_after(a, ext);
            let r = ext[0]->outcome->Ok_0.data@;
            let own = r.len() >= 2 && r[0] == a.cmd[0] && r[1] == a.cmd[1];
            &&& b == (Asking { left: a.left - 1, ..a })
            &&& own ==> said == Answered::Done(Some(r))
            &&& !own ==> said == Answered::Pause(10_000_000)
        }),
        forall|r: Seq<u8>|
            #[trigger] echoes(r, a.cmd) == (r.len() >= 2 && r[0] == a.cmd[0] && r[1] == a.cmd[1]),
{
}

/// A read that fails: the first time the endpoints are recovered and the command goes out
/// again, and where that is taken the board is given its time; the second time there is no
/// answer. With no reads left there is none either, and nothing is done.
pub proof fn law_a_read_fails(a: Asking, ext: Seq<Event>)
    requires
        a.sent,
        ask_events(a, ext),
    ensures
        ({
            let (b, said) = ask_after(a, ext);
            &&& a.left == 0 ==> ext.len() == 0 && said == Answered::Done(None)
            &&& a.left != 0 && a.recovered && ext[0]->outcome is Err ==> ext.len() == 1 && said
                == Answered::Done(None)
            &&& a.left != 0 && !a.recovered && ext[0]->outcome is Err ==> {
                &&& ext.len() == 10
                &&& is_recovery(ext.subrange(1, 9))
                &&& is_transfer(ext[9], 0x06, a.cmd, 0, 3000)
                &&& b == (Asking { recovered: true, left: a.left - 1, ..a })
                &&& ({
                    let taken = ext[9]->outcome matches Ok(x) && x.nt == 0;
                    &&& taken ==> said == Answered::Pause(a.settle_ns)
                    &&& !taken ==> said == Answered::Done(None)
                })
            }
        }),
{
}

/// A step that is done at once: which transfer it makes, and where it leaves the run. What
/// fails for a command, a reply or a batch ends the run with the transport's own failure;
/// what a dropped reply, a raw write or an offered batch comes to does not matter. A pause
/// is the wait that it says. A question opens with three reads of 1200 ms, 40 ms behind
/// the command.
pub proof fn law_what_a_step_does(v: Running, ext: Seq<Event>)
    requires
        run_ok(v),
        run_events(v, ext),
        v.at < v.steps.len(),
        v.asking is None,
        !(v.steps[v.at] is Silence),
    ensures
        ({
            let (w, next) = run_after(v, ext);
            let d = v.steps[v.at];
            let o = ext[0]->outcome;
            let taken = o matches Ok(x) && x.nt == 0;
            let done = Running { at: v.at + 1, ..v };
            &&& w.steps == v.steps && w.lands == v.lands
            &&& d matches Deed::Pause(ns) ==> ext.len() == 0 && w == done && next
                == Next::Pause(ns)
            &&& !(d is Pause) ==> next == Next::Go
            &&& d matches Deed::Ask(c) ==> ext.len() == 0 && w == (Running {
                asking: Some(
                    Asking {
                        cmd: c,
                        timeout_ms: 1200,
                        settle_ns: 40_000_000,
                        left: 3,
                        sent: false,
                        recovered: false,
                    },
                ),
                ..v
            })
            &&& d matches Deed::Command(c) ==> {
                &&& ext.len() == 1 && is_transfer(ext[0], 0x06, c, 0, 3000)
                &&& taken ==> w == done
                &&& !taken ==> w.at == v.steps.len() && w.failure is Some
                &&& o matches Err(e) ==> w.failure == Some(e@)
            }
            &&& d matches Deed::Data(b) ==> {
                &&& ext.len() == 1 && is_transfer(ext[0], 0x02, b, 0, 3000)
                &&& taken ==> w == (Running { taken: true, ..done })
                &&& !taken ==> w.at == v.steps.len() && w.failure is Some && w.taken == v.taken
                &&& o matches Err(e) ==> w.failure == Some(e@)
            }
            &&& d matches Deed::Offer(b) ==> ext.len() == 1 && is_transfer(ext[0], 0x02, b, 0, 3000)
                && w == done
            &&& d matches Deed::Send(b) ==> ext.len() == 1 && is_transfer(ext[0], 0x06, b, 0, 2000)
                && w == done
            &&& d is Drain ==> ext.len() == 1 && is_transfer(ext[0], 0x88, Seq::empty(), 12, 800)
                && w == done
            &&& d matches Deed::Reply(ms) ==> {
                &&& ext.len() == 1 && is_transfer(ext[0], 0x88, Seq::empty(), 12, ms as int)
                &&& o matches Ok(x) ==> w == (Running { reply: Some(x.data@), ..done })
                &&& o matches Err(e) ==> w.at == v.steps.len() && w.failure == Some(e@) && w.reply
                    is None
            }
        }),
{
}

/// A silence is written on EP 0x02; where that is not taken the endpoints are recovered and
/// it is written once more. Whatever comes of it the run goes on.
pub proof fn law_what_a_silence_does(v: Running, ext: Seq<Event>, b: Seq<u8>)
    requires
        run_ok(v),
        run_events(v, ext),
        v.at < v.steps.len(),
        v.asking is None,
        v.steps[v.at] == Deed::Silence(b),
    ensures
        ({
            let (w, next) = run_after(v, ext);
            let taken = ext[0]->outcome matches Ok(x) && x.nt == 0;
            let again = ext[9]->outcome matches Ok(x) && x.nt == 0;
            let done = Running { at: v.at + 1, ..v };
            &&& next == Next::Go && w.at == v.at + 1 && w.failure == v.failure
            &&& is_transfer(ext[0], 0x02, b, 0, 3000)
            &&& taken ==> ext.len() == 1 && w == done
            &&& !taken ==> ext.len() == 10 && is_recovery(ext.subrange(1, 9)) && is_transfer(
                ext[9],
                0x02,
                b,
                0,
                3000,
            )
            &&& !taken && again ==> w == done
            &&& !taken && !again ==> w.unsilenced is Some
        }),
{
}

/// A question that is open: its answer is the reply of the step, and the run goes on to
/// the next; while it goes on the run waits as long as it says.
pub proof fn law_what_an_open_question_does(v: Running, ext: Seq<Event>)
    requires
        run_ok(v),
        run_events(v, ext),
        v.asking is Some,
    ensures
        ({
            let (w, next) = run_after(v, ext);
            let (a, said) = ask_after(v.asking->0, ext);
            &&& ask_events(v.asking->0, ext)
            &&& said matches Answered::Pause(ns) ==> w == (Running { asking: Some(a), ..v }) && next
                == Next::Pause(ns)
            &&& said matches Answered::Done(r) ==> w == (Running {
                at: v.at + 1,
                asking: None,
                reply: r,
                ..v
            }) && next == Next::Go
        }),
{
}

/// A run starts at the first step with nothing done; it has landed where it carries lit
/// vectors and did not fail, or failed behind a batch that was taken.
pub proof fn law_how_a_run_starts_and_lands(steps: Seq<Deed>, lands: bool, v: Running)
    ensures
        ({
            let u = started(steps, lands);
            &&& u.steps == steps && u.lands == lands && u.at == 0
            &&& u.asking is None && u.reply is None && u.failure is None && u.unsilenced is None
                && !u.taken
        }),
        landed(v) <==> v.lands && (v.failure is None || v.taken),
{
}

/// A question that is opened by hand reads as often as it may be tried, at least once.
pub proof fn law_how_a_question_starts(cmd: Seq<u8>, timeout_ms: u32, retries: u32, settle_ns: u64)
    ensures
        ({
            let a = fresh(cmd, timeout_ms, retries, settle_ns);
            &&& a.cmd == cmd && a.timeout_ms == timeout_ms && a.settle_ns == settle_ns
            &&& !a.sent && !a.recovered
            &&& retries > 0 ==> a.left == retries
            &&& retries == 0 ==> a.left == 1
        }),
{
}

/// A history keeps every event in its place, and what was added stands behind.
pub proof fn law_a_history_only_grows(before: Seq<Event>, after: Seq<Event>, i: int)
    requires
        extends(before, after),
    ensures
        before.len() + since(before, after).len() == after.len(),
        0 <= i < before.len() ==> after[i] == before[i],
        0 <= i < since(before, after).len() ==> since(before, after)[i] == after[before.len() + i],
{
    if 0 <= i < before.len() {
        assert((before + since(before, after))[i] == before[i]);
    }
}

/// A single write hands over its bytes and reads nothing; a single read asks for twelve
/// bytes and hands over none. Each gives back what came of it.
pub proof fn law_one_transfer_is_what_it_says(ext: Seq<Event>, ep: u8, payload: Seq<u8>, ms: u32)
    ensures
        is_one_write(ext, ep, payload, ms) ==> ext.len() == 1 && is_transfer(
            ext[0],
            ep as int,
            payload,
            0,
            ms as int,
        ),
        is_one_read(ext, ep, ms) ==> ext.len() == 1 && is_transfer(
            ext[0],
            ep as int,
            Seq::empty(),
            12,
            ms as int,
        ),
        ext.len() == 1 && ext[0] is Xfer ==> outcome(ext[0]) == ext[0]->outcome,
{
}

/// A failure is seen as it is, and so is what came of a success.
pub proof fn law_a_result_is_seen_as_it_is<A>(r: Result<A>)
    ensures
        r matches Ok(a) ==> seen(r) == Ok::<A, Failure>(a),
        r matches Err(e) ==> seen(r) == Err::<A, Failure>(e@),
{
}

/// Every event stands for one call on the transport with the same arguments, and what came
/// back of that call is what the event says.
pub proof fn law_every_event_is_a_call<T: Transport>(ms: Seq<&mut T>, ext: Seq<Event>, i: int)
    requires
        are_calls(ms, ext),
        0 <= i < ext.len(),
    ensures
        ms.len() == ext.len(),
        ext[i] matches Event::Xfer { ep, payload, read_len, timeout_ms, outcome } ==> exists|
            p: &[u8],
        |
            p@ == payload && #[trigger] call_ensures(
                T::xfer,
                (ms[i], ep, p, read_len, timeout_ms),
                outcome,
            ),
        ext[i] matches Event::Abort { ep, done } ==> call_ensures(T::abort_pipe, (ms[i], ep), done),
        ext[i] matches Event::Reset { ep, done } ==> call_ensures(T::reset_pipe, (ms[i], ep), done),
        ext[i] is Close ==> call_ensures(T::close, (ms[i],), ()),
{
    assert(is_call(ms[i], ext[i]));
}

/// A step stands for the deed of its own name with its own bytes, and a script for those of
/// its steps in order.
pub proof fn law_a_step_stands_for_its_deed(s: Step, script: Script, i: int)
    ensures
        s matches Step::Ask(c) ==> s@ == Deed::Ask(c@),
        s matches Step::Command(c) ==> s@ == Deed::Command(c@),
        s matches Step::Reply(ms) ==> s@ == Deed::Reply(ms),
        s matches Step::Send(b) ==> s@ == Deed::Send(b@),
        s is Drain ==> s@ is Drain,
        s matches Step::Data(b) ==> s@ == Deed::Data(b@),
        s matches Step::Offer(b) ==> s@ == Deed::Offer(b@),
        s matches Step::Silence(b) ==> s@ == Deed::Silence(b@),
        s matches Step::Pause(ns) ==> s@ == Deed::Pause(ns),
        script@.len() == script.steps@.len(),
        0 <= i < script@.len() ==> script@[i] == script.steps@[i]@,
{
}

} // verus!
