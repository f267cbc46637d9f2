//! Transport for the DBK2JP (Cypress FX2LP, VID 04B4 PID 1004).
//!
//! One public type, `Board`, on every platform. The platform-specific part is
//! only how bytes reach the endpoints, so that lives behind `Transport`.
//! Everything above that, command framing and endpoint recovery, is here.

use crate::text::{decimal, hexadecimal, push_decimal, push_hex};
use vstd::prelude::*;
use vstd::string::StringExecFns;

verus! {

pub const VID: u16 = 0x04B4;
pub const PID: u16 = 0x1004;

/// Job batch: parameters and geometry.
pub const EP_DATA_OUT: u8 = 0x02;
/// Session and control commands.
pub const EP_CTRL_OUT: u8 = 0x06;
pub const EP_DATA_IN: u8 = 0x84;
/// Replies.
pub const EP_CTRL_IN: u8 = 0x88;

/// How long a write may take, milliseconds.
pub const WRITE_TIMEOUT_MS: u32 = 3000;

// ---- failures -------------------------------------------------------------

/// A transfer the board refused or never completed.
///
/// Raised rather than returned quietly: a write that fails on a stalled pipe
/// looks exactly like a write that worked, and the board then sits there doing
/// nothing while the host reports success.
#[derive(Debug, Clone)]
pub enum BoardError {
    NotFound(String),
    Open(String),
    Transfer(String),
    Timeout(String),
    Unsupported(String),
}

/// A failure with its message as a sequence of characters.
pub enum Failure {
    NotFound(Seq<char>),
    Open(Seq<char>),
    Transfer(Seq<char>),
    Timeout(Seq<char>),
    Unsupported(Seq<char>),
}

impl View for BoardError {
    type V = Failure;

    open spec fn view(&self) -> Failure {
        match self {
            BoardError::NotFound(m) => Failure::NotFound(m@),
            BoardError::Open(m) => Failure::Open(m@),
            BoardError::Transfer(m) => Failure::Transfer(m@),
            BoardError::Timeout(m) => Failure::Timeout(m@),
            BoardError::Unsupported(m) => Failure::Unsupported(m@),
        }
    }
}

/// A result with its failure as a sequence of characters.
pub open spec fn seen<A>(r: Result<A>) -> std::result::Result<A, Failure> {
    match r {
        Ok(a) => Ok(a),
        Err(e) => Err(e@),
    }
}

pub type Result<T> = std::result::Result<T, BoardError>;

impl Failure {
    /// The failure in words.
    pub open spec fn text(self) -> Seq<char> {
        match self {
            Failure::NotFound(m) => "no DBK2JP found: "@ + m,
            Failure::Open(m) => "cannot open board: "@ + m,
            Failure::Transfer(m) => "transfer failed: "@ + m,
            Failure::Timeout(m) => "transfer timed out: "@ + m,
            Failure::Unsupported(m) => "unsupported: "@ + m,
        }
    }
}

impl BoardError {
    /// The failure in words.
    pub fn message(&self) -> (r: String)
        ensures
            r@ == self@.text(),
    {
        let (head, m) = match self {
            BoardError::NotFound(m) => ("no DBK2JP found: ", m),
            BoardError::Open(m) => ("cannot open board: ", m),
            BoardError::Transfer(m) => ("transfer failed: ", m),
            BoardError::Timeout(m) => ("transfer timed out: ", m),
            BoardError::Unsupported(m) => ("unsupported: ", m),
        };
        let mut r = String::from_str(head);
        r.append(m.as_str());
        r
    }
}

// ---- transport ------------------------------------------------------------

/// One transfer's outcome: the two driver status words exist to match the
/// Windows driver's shape and are 0 elsewhere.
pub struct Xfer {
    pub nt: u32,
    pub usbd: u32,
    pub data: Vec<u8>,
    pub moved: usize,
}

/// Something that was asked of a transport, with what came back.
pub enum Event {
    Xfer { ep: u8, payload: Seq<u8>, read_len: usize, timeout_ms: u32, outcome: Result<Xfer> },
    Abort { ep: u8, done: bool },
    Reset { ep: u8, done: bool },
    Close,
}

/// How bytes reach the endpoints of one board.
///
/// Nothing is promised of what a transport answers: what the library states, it
/// states whatever comes back.
pub trait Transport: Send {
    /// Where this board is, in the terms of the backend.
    fn path(&self) -> String;

    /// One transfer: a read of `read_len` bytes where that is not 0, else a
    /// write of `payload`.
    fn xfer(&mut self, ep: u8, payload: &[u8], read_len: usize, timeout_ms: u32) -> Result<Xfer>;

    fn abort_pipe(&mut self, ep: u8) -> bool;

    fn reset_pipe(&mut self, ep: u8) -> bool;

    fn close(&mut self);
}

// ---- what events mean -----------------------------------------------------

/// What was added to a history.
pub open spec fn since(before: Seq<Event>, after: Seq<Event>) -> Seq<Event> {
    after.skip(before.len() as int)
}

/// A history that only grew.
pub open spec fn extends(before: Seq<Event>, after: Seq<Event>) -> bool {
    before.len() <= after.len() && after == before + since(before, after)
}

/// `e` is a write of `payload` to `ep`.
pub open spec fn is_write(e: Event, ep: u8, payload: Seq<u8>, timeout_ms: u32) -> bool {
    e matches Event::Xfer { ep: a, payload: p, read_len: 0, timeout_ms: t, .. } && a == ep && p
        == payload && t == timeout_ms
}

/// `e` is a read of a 12-byte reply from `ep`.
pub open spec fn is_read(e: Event, ep: u8, timeout_ms: u32) -> bool {
    e matches Event::Xfer { ep: a, payload: p, read_len: 12, timeout_ms: t, .. } && a == ep
        && p == Seq::<u8>::empty() && t == timeout_ms
}

/// What came back of a transfer.
pub open spec fn outcome(e: Event) -> Result<Xfer> {
    e->outcome
}

/// The message of a transfer that the driver rejected.
pub open spec fn rejected(nt: u32, usbd: u32, ep: u8, nbytes: nat) -> Seq<char> {
    decimal(nbytes) + " bytes on EP 0x"@ + hexadecimal(ep as nat, 2) + ": NTSTATUS 0x"@
        + hexadecimal(nt as nat, 8) + ", USBD 0x"@ + hexadecimal(usbd as nat, 8)
        + ". The pipe is probably stalled, call recover()"@
}

/// What a write of `nbytes` to `ep` gives its caller: the transport's own
/// failure, a rejection by the driver, or the number of bytes moved. The number
/// of bytes is not held against `nbytes`.
pub open spec fn written(o: Result<Xfer>, ep: u8, nbytes: nat) -> std::result::Result<
    usize,
    Failure,
> {
    match o {
        Err(e) => Err(e@),
        Ok(x) => if x.nt != 0 {
            Err(Failure::Transfer(rejected(x.nt, x.usbd, ep, nbytes)))
        } else {
            Ok(x.moved)
        },
    }
}

/// The endpoints in the order in which they are recovered.
pub open spec fn endpoints() -> Seq<u8> {
    seq![EP_CTRL_IN, EP_DATA_IN, EP_CTRL_OUT, EP_DATA_OUT]
}

/// Every endpoint aborted, then reset, one after the other.
pub open spec fn is_recovery(ext: Seq<Event>) -> bool {
    &&& ext.len() == 8
    &&& forall|i: int|
        0 <= i < 4 ==> {
            &&& #[trigger] ext[2 * i] matches Event::Abort { ep, .. } && ep == endpoints()[i]
            &&& ext[2 * i + 1] matches Event::Reset { ep, .. } && ep == endpoints()[i]
        }
}

/// A single write was made.
pub open spec fn is_one_write(ext: Seq<Event>, ep: u8, payload: Seq<u8>, timeout_ms: u32) -> bool {
    ext.len() == 1 && is_write(ext[0], ep, payload, timeout_ms)
}

/// A single read was made.
pub open spec fn is_one_read(ext: Seq<Event>, ep: u8, timeout_ms: u32) -> bool {
    ext.len() == 1 && is_read(ext[0], ep, timeout_ms)
}

/// `e` is what a call on the transport behind `m` was and gave.
pub open spec fn is_call<T: Transport>(m: &mut T, e: Event) -> bool {
    match e {
        Event::Xfer { ep, payload, read_len, timeout_ms, outcome } => exists|p: &[u8]|
            p@ == payload && #[trigger] call_ensures(
                T::xfer,
                (m, ep, p, read_len, timeout_ms),
                outcome,
            ),
        Event::Abort { ep, done } => call_ensures(T::abort_pipe, (m, ep), done),
        Event::Reset { ep, done } => call_ensures(T::reset_pipe, (m, ep), done),
        Event::Close => call_ensures(T::close, (m,), ()),
    }
}

/// The events are what the calls behind `ms` were and gave, one each, in order.
pub open spec fn are_calls<T: Transport>(ms: Seq<&mut T>, ext: Seq<Event>) -> bool {
    ms.len() == ext.len() && forall|i: int| 0 <= i < ms.len() ==> is_call(#[trigger] ms[i], ext[i])
}

/// No event, no call: the transport is as it was.
pub(crate) proof fn lemma_no_call<T: Transport>(a: T)
    ensures
        exists|ms: Seq<&mut T>| #[trigger]
            are_calls(ms, Seq::<Event>::empty()) && if ms.len() == 0 {
                a == a
            } else {
                &&& *ms[0] == a
                &&& *final(ms.last()) == a
                &&& forall|i: int| 0 <= i < ms.len() - 1 ==> *final(#[trigger] ms[i]) == *ms[i + 1]
            },
{
    assert(are_calls(Seq::<&mut T>::empty(), Seq::<Event>::empty()));
}

/// One call takes the transport from `a` to `b`.
pub(crate) proof fn lemma_one_call<T: Transport>(a: T, b: T, e: Event)
    requires
        exists|m: &mut T| *m == a && *final(m) == b && #[trigger] is_call(m, e),
    ensures
        exists|ms: Seq<&mut T>| #[trigger]
            are_calls(ms, seq![e]) && if ms.len() == 0 {
                a == b
            } else {
                &&& *ms[0] == a
                &&& *final(ms.last()) == b
                &&& forall|i: int| 0 <= i < ms.len() - 1 ==> *final(#[trigger] ms[i]) == *ms[i + 1]
            },
{
    let m = choose|m: &mut T| *m == a && *final(m) == b && #[trigger] is_call(m, e);
    let ms = seq![m];
    assert(ms.last() == m);
    assert(are_calls(ms, seq![e]));
}

/// So does one transfer.
pub(crate) proof fn lemma_one_xfer<T: Transport>(
    a: T,
    b: T,
    ep: u8,
    payload: &[u8],
    read_len: usize,
    timeout_ms: u32,
    o: Result<Xfer>,
)
    requires
        exists|m: &mut T|
            *m == a && *final(m) == b && #[trigger] call_ensures(
                T::xfer,
                (m, ep, payload, read_len, timeout_ms),
                o,
            ),
    ensures
        exists|ms: Seq<&mut T>| #[trigger]
            are_calls(
                ms,
                seq![Event::Xfer { ep, payload: payload@, read_len, timeout_ms, outcome: o }],
            ) && if ms.len() == 0 {
                a == b
            } else {
                &&& *ms[0] == a
                &&& *final(ms.last()) == b
                &&& forall|i: int| 0 <= i < ms.len() - 1 ==> *final(#[trigger] ms[i]) == *ms[i + 1]
            },
{
    let e = Event::Xfer { ep, payload: payload@, read_len, timeout_ms, outcome: o };
    let m = choose|m: &mut T|
        *m == a && *final(m) == b && #[trigger] call_ensures(
            T::xfer,
            (m, ep, payload, read_len, timeout_ms),
            o,
        );
    assert(is_call(m, e));
    lemma_one_call(a, b, e);
}

/// What one event adds to a history.
pub(crate) proof fn lemma_added(h: Seq<Event>, after: Seq<Event>)
    requires
        after.len() == h.len() + 1,
        after == h.push(after.last()),
    ensures
        extends(h, after),
        since(h, after) == seq![after.last()],
{
    assert(since(h, after) =~= seq![after.last()]);
    assert(after =~= h + since(h, after));
}

/// Calls that take the transport from `a` to `b` and from there to `c` take it from
/// `a` to `c`.
pub(crate) proof fn lemma_calls_join<T: Transport>(
    a: T,
    b: T,
    c: T,
    x: Seq<Event>,
    y: Seq<Event>,
)
    requires
        exists|ms: Seq<&mut T>| #[trigger]
            are_calls(ms, x) && if ms.len() == 0 {
                a == b
            } else {
                &&& *ms[0] == a
                &&& *final(ms.last()) == b
                &&& forall|i: int| 0 <= i < ms.len() - 1 ==> *final(#[trigger] ms[i]) == *ms[i + 1]
            },
        exists|ms: Seq<&mut T>| #[trigger]
            are_calls(ms, y) && if ms.len() == 0 {
                b == c
            } else {
                &&& *ms[0] == b
                &&& *final(ms.last()) == c
                &&& forall|i: int| 0 <= i < ms.len() - 1 ==> *final(#[trigger] ms[i]) == *ms[i + 1]
            },
    ensures
        exists|ms: Seq<&mut T>| #[trigger]
            are_calls(ms, x + y) && if ms.len() == 0 {
                a == c
            } else {
                &&& *ms[0] == a
                &&& *final(ms.last()) == c
                &&& forall|i: int| 0 <= i < ms.len() - 1 ==> *final(#[trigger] ms[i]) == *ms[i + 1]
            },
{
    let m1 = choose|ms: Seq<&mut T>| #[trigger]
        are_calls(ms, x) && if ms.len() == 0 {
            a == b
        } else {
            &&& *ms[0] == a
            &&& *final(ms.last()) == b
            &&& forall|i: int| 0 <= i < ms.len() - 1 ==> *final(#[trigger] ms[i]) == *ms[i + 1]
        };
    let m2 = choose|ms: Seq<&mut T>| #[trigger]
        are_calls(ms, y) && if ms.len() == 0 {
            b == c
        } else {
            &&& *ms[0] == b
            &&& *final(ms.last()) == c
            &&& forall|i: int| 0 <= i < ms.len() - 1 ==> *final(#[trigger] ms[i]) == *ms[i + 1]
        };
    let n = m1.len() as int;
    let ms = m1 + m2;
    assert forall|i: int| 0 <= i < ms.len() implies is_call(#[trigger] ms[i], (x + y)[i]) by {
        if i < n {
            assert(ms[i] == m1[i]);
        } else {
            assert(ms[i] == m2[i - n]);
        }
    }
    assert(are_calls(ms, x + y));
    assert forall|i: int| 0 <= i < ms.len() - 1 implies *final(#[trigger] ms[i]) == *ms[i + 1] by {
        if i < n - 1 {
            assert(ms[i] == m1[i] && ms[i + 1] == m1[i + 1]);
        } else if i == n - 1 {
            assert(ms[i] == m1.last() && ms[i + 1] == m2[0]);
        } else {
            assert(ms[i] == m2[i - n] && ms[i + 1] == m2[i - n + 1]);
        }
    }
}

// ---- board ----------------------------------------------------------------

/// An open board.
///
/// The board keeps a ghost record of what it asks of its transport, in order, with
/// what came back. Every method that adds to it says that the events it added are the
/// calls it made: each call set out from the transport as the one before it left it,
/// and there was no other.
pub struct Board<T: Transport> {
    t: T,
    log: Ghost<Seq<Event>>,
}

impl<T: Transport> Board<T> {
    /// What was asked of the transport so far.
    pub closed spec fn history(&self) -> Seq<Event> {
        self.log@
    }

    /// The transport.
    pub closed spec fn transport(&self) -> T {
        self.t
    }

    /// Wrap an already-built transport.
    pub fn with_transport(t: T) -> (b: Self)
        ensures
            b.history() == Seq::<Event>::empty(),
            b.transport() == t,
    {
        Board { t, log: Ghost(Seq::empty()) }
    }

    /// Where this board is: what its transport says.
    pub fn path(&self) -> (r: String)
        ensures
            call_ensures(T::path, (&self.transport(),), r),
    {
        self.t.path()
    }

    pub fn close(&mut self)
        ensures
            final(self).history() == old(self).history().push(Event::Close),
            exists|m: &mut T|
                *m == old(self).transport() && *final(m) == final(self).transport()
                    && #[trigger] call_ensures(T::close, (m,), ()),
    {
        self.t.close();
        proof {
            self.log@ = self.log@.push(Event::Close);
        }
    }

    // ---- raw ------------------------------------------------------------

    pub fn xfer(&mut self, ep: u8, payload: &[u8], read_len: usize, timeout_ms: u32) -> (r: Result<
        Xfer,
    >)
        ensures
            final(self).history() == old(self).history().push(
                Event::Xfer { ep, payload: payload@, read_len, timeout_ms, outcome: r },
            ),
            exists|m: &mut T|
                *m == old(self).transport() && *final(m) == final(self).transport()
                    && #[trigger] call_ensures(T::xfer, (m, ep, payload, read_len, timeout_ms), r),
    {
        let r = self.t.xfer(ep, payload, read_len, timeout_ms);
        proof {
            self.log@ = self.log@.push(
                Event::Xfer { ep, payload: payload@, read_len, timeout_ms, outcome: r },
            );
        }
        r
    }

    pub fn abort_pipe(&mut self, ep: u8) -> (r: bool)
        ensures
            final(self).history() == old(self).history().push(Event::Abort { ep, done: r }),
            exists|m: &mut T|
                *m == old(self).transport() && *final(m) == final(self).transport()
                    && #[trigger] call_ensures(T::abort_pipe, (m, ep), r),
    {
        let r = self.t.abort_pipe(ep);
        proof {
            self.log@ = self.log@.push(Event::Abort { ep, done: r });
        }
        r
    }

    pub fn reset_pipe(&mut self, ep: u8) -> (r: bool)
        ensures
            final(self).history() == old(self).history().push(Event::Reset { ep, done: r }),
            exists|m: &mut T|
                *m == old(self).transport() && *final(m) == final(self).transport()
                    && #[trigger] call_ensures(T::reset_pipe, (m, ep), r),
    {
        let r = self.t.reset_pipe(ep);
        proof {
            self.log@ = self.log@.push(Event::Reset { ep, done: r });
        }
        r
    }

    /// Clear any stalled or pending state on all four endpoints.
    pub fn recover(&mut self)
        ensures
            extends(old(self).history(), final(self).history()),
            is_recovery(since(old(self).history(), final(self).history())),
            exists|ms: Seq<&mut T>| #[trigger]
                are_calls(ms, since(old(self).history(), final(self).history())) && if ms.len()
                    == 0 {
                    old(self).transport() == final(self).transport()
                } else {
                    &&& *ms[0] == old(self).transport()
                    &&& *final(ms.last()) == final(self).transport()
                    &&& forall|i: int|
                        0 <= i < ms.len() - 1 ==> *final(#[trigger] ms[i]) == *ms[i + 1]
                },
    {
        let ghost h = self.history();
        let ghost t = self.transport();
        self.clear(EP_CTRL_IN);
        let ghost (h1, t1) = (self.history(), self.transport());
        self.clear(EP_DATA_IN);
        let ghost (h2, t2) = (self.history(), self.transport());
        self.clear(EP_CTRL_OUT);
        let ghost (h3, t3) = (self.history(), self.transport());
        self.clear(EP_DATA_OUT);
        proof {
            let (h4, t4) = (self.history(), self.transport());
            let (a, b, c, d) = (since(h, h1), since(h1, h2), since(h2, h3), since(h3, h4));
            lemma_calls_join(t, t1, t2, a, b);
            lemma_calls_join(t, t2, t3, a + b, c);
            lemma_calls_join(t, t3, t4, a + b + c, d);
            let ext = since(h, h4);
            assert(ext =~= a + b + c + d);
            assert(h4 =~= h + ext);
            assert forall|i: int| 0 <= i < 4 implies {
                &&& #[trigger] ext[2 * i] matches Event::Abort { ep, .. } && ep == endpoints()[i]
                &&& ext[2 * i + 1] matches Event::Reset { ep, .. } && ep == endpoints()[i]
            } by {
                if i == 0 {
                    assert(ext[0] == a[0] && ext[1] == a[1]);
                } else if i == 1 {
                    assert(ext[2] == b[0] && ext[3] == b[1]);
                } else if i == 2 {
                    assert(ext[4] == c[0] && ext[5] == c[1]);
                } else {
                    assert(i == 3);
                    assert(ext[6] == d[0] && ext[7] == d[1]);
                }
            }
        }
    }

    /// Abort what is pending on an endpoint, then clear its stall.
    fn clear(&mut self, ep: u8)
        ensures
            extends(old(self).history(), final(self).history()),
            ({
                let ext = since(old(self).history(), final(self).history());
                &&& ext.len() == 2
                &&& ext[0] matches Event::Abort { ep: e, .. } && e == ep
                &&& ext[1] matches Event::Reset { ep: e, .. } && e == ep
            }),
            exists|ms: Seq<&mut T>| #[trigger]
                are_calls(ms, since(old(self).history(), final(self).history())) && if ms.len()
                    == 0 {
                    old(self).transport() == final(self).transport()
                } else {
                    &&& *ms[0] == old(self).transport()
                    &&& *final(ms.last()) == final(self).transport()
                    &&& forall|i: int|
                        0 <= i < ms.len() - 1 ==> *final(#[trigger] ms[i]) == *ms[i + 1]
                },
    {
        let ghost (h, t) = (self.history(), self.transport());
        let a = self.abort_pipe(ep);
        let ghost t1 = self.transport();
        let r = self.reset_pipe(ep);
        proof {
            let (x, y) = (Event::Abort { ep, done: a }, Event::Reset { ep, done: r });
            let m = choose|m: &mut T|
                *m == t && *final(m) == t1 && #[trigger] call_ensures(T::abort_pipe, (m, ep), a);
            assert(is_call(m, x));
            lemma_one_call(t, t1, x);
            let n = choose|m: &mut T|
                *m == t1 && *final(m) == self.transport() && #[trigger] call_ensures(
                    T::reset_pipe,
                    (m, ep),
                    r,
                );
            assert(is_call(n, y));
            lemma_one_call(t1, self.transport(), y);
            lemma_calls_join(t, t1, self.transport(), seq![x], seq![y]);
            assert(since(h, self.history()) =~= seq![x] + seq![y]);
            assert(self.history() =~= h + since(h, self.history()));
        }
    }

    // ---- framed ---------------------------------------------------------

    /// Turn the driver's status words into a failure. `nt` is an NTSTATUS on
    /// Windows and 0 everywhere else, so any other value is a real failure. The
    /// byte count is deliberately not checked: the Windows driver does not report
    /// a write length the same way on every build.
    pub fn check(nt: u32, usbd: u32, ep: u8, nbytes: usize) -> (r: Result<()>)
        ensures
            r is Ok == (nt == 0),
            nt != 0 ==> r->Err_0@ == Failure::Transfer(rejected(nt, usbd, ep, nbytes as nat)),
    {
        if nt != 0 {
            let mut m = String::new();
            push_decimal(&mut m, nbytes as u64);
            m.append(" bytes on EP 0x");
            push_hex(&mut m, ep as u32, 2);
            m.append(": NTSTATUS 0x");
            push_hex(&mut m, nt, 8);
            m.append(", USBD 0x");
            push_hex(&mut m, usbd, 8);
            m.append(". The pipe is probably stalled, call recover()");
            assert(m@ =~= rejected(nt, usbd, ep, nbytes as nat));
            return Err(BoardError::Transfer(m));
        }
        Ok(())
    }

    /// One 12-byte command on EP 0x06.
    pub fn write_cmd(&mut self, cmd: &[u8]) -> (r: Result<usize>)
        requires
            cmd@.len() == 12,
        ensures
            extends(old(self).history(), final(self).history()),
            ({
                let ext = since(old(self).history(), final(self).history());
                &&& is_one_write(ext, EP_CTRL_OUT, cmd@, WRITE_TIMEOUT_MS)
                &&& seen(r) == written(outcome(ext[0]), EP_CTRL_OUT, 12)
            }),
            exists|m: &mut T|
                *m == old(self).transport() && *final(m) == final(self).transport()
                    && #[trigger] call_ensures(
                    T::xfer,
                    (m, EP_CTRL_OUT, cmd, 0, WRITE_TIMEOUT_MS),
                    outcome(since(old(self).history(), final(self).history())[0]),
                ),
            exists|ms: Seq<&mut T>| #[trigger]
                are_calls(ms, since(old(self).history(), final(self).history())) && if ms.len()
                    == 0 {
                    old(self).transport() == final(self).transport()
                } else {
                    &&& *ms[0] == old(self).transport()
                    &&& *final(ms.last()) == final(self).transport()
                    &&& forall|i: int|
                        0 <= i < ms.len() - 1 ==> *final(#[trigger] ms[i]) == *ms[i + 1]
                },
    {
        let ghost h = self.history();
        let ghost t = self.transport();
        let o = self.xfer(EP_CTRL_OUT, cmd, 0, WRITE_TIMEOUT_MS);
        proof {
            lemma_one_xfer(t, self.transport(), EP_CTRL_OUT, cmd, 0, WRITE_TIMEOUT_MS, o);
            lemma_added(h, self.history());
        }
        match o {
            Err(e) => Err(e),
            Ok(x) => match Self::check(x.nt, x.usbd, EP_CTRL_OUT, cmd.len()) {
                Err(e) => Err(e),
                Ok(_) => Ok(x.moved),
            },
        }
    }

    /// Batched 12-byte commands on EP 0x02.
    pub fn write_data(&mut self, blob: &[u8]) -> (r: Result<usize>)
        requires
            blob@.len() > 0,
            blob@.len() % 12 == 0,
        ensures
            extends(old(self).history(), final(self).history()),
            ({
                let ext = since(old(self).history(), final(self).history());
                &&& is_one_write(ext, EP_DATA_OUT, blob@, WRITE_TIMEOUT_MS)
                &&& seen(r) == written(outcome(ext[0]), EP_DATA_OUT, blob@.len())
            }),
            exists|m: &mut T|
                *m == old(self).transport() && *final(m) == final(self).transport()
                    && #[trigger] call_ensures(
                    T::xfer,
                    (m, EP_DATA_OUT, blob, 0, WRITE_TIMEOUT_MS),
                    outcome(since(old(self).history(), final(self).history())[0]),
                ),
            exists|ms: Seq<&mut T>| #[trigger]
                are_calls(ms, since(old(self).history(), final(self).history())) && if ms.len()
                    == 0 {
                    old(self).transport() == final(self).transport()
                } else {
                    &&& *ms[0] == old(self).transport()
                    &&& *final(ms.last()) == final(self).transport()
                    &&& forall|i: int|
                        0 <= i < ms.len() - 1 ==> *final(#[trigger] ms[i]) == *ms[i + 1]
                },
    {
        let ghost h = self.history();
        let ghost t = self.transport();
        let o = self.xfer(EP_DATA_OUT, blob, 0, WRITE_TIMEOUT_MS);
        proof {
            lemma_one_xfer(t, self.transport(), EP_DATA_OUT, blob, 0, WRITE_TIMEOUT_MS, o);
            lemma_added(h, self.history());
        }
        match o {
            Err(e) => Err(e),
            Ok(x) => match Self::check(x.nt, x.usbd, EP_DATA_OUT, blob.len()) {
                Err(e) => Err(e),
                Ok(_) => Ok(x.moved),
            },
        }
    }

    /// One 12-byte read, as it comes.
    pub fn read_status(&mut self, ep: u8, timeout_ms: u32) -> (r: Result<Vec<u8>>)
        ensures
            extends(old(self).history(), final(self).history()),
            ({
                let ext = since(old(self).history(), final(self).history());
                &&& is_one_read(ext, ep, timeout_ms)
                &&& match outcome(ext[0]) {
                    Ok(x) => r == Ok::<Vec<u8>, BoardError>(x.data),
                    Err(e) => r == Err::<Vec<u8>, BoardError>(e),
                }
            }),
            exists|ms: Seq<&mut T>| #[trigger]
                are_calls(ms, since(old(self).history(), final(self).history())) && if ms.len()
                    == 0 {
                    old(self).transport() == final(self).transport()
                } else {
                    &&& *ms[0] == old(self).transport()
                    &&& *final(ms.last()) == final(self).transport()
                    &&& forall|i: int|
                        0 <= i < ms.len() - 1 ==> *final(#[trigger] ms[i]) == *ms[i + 1]
                },
    {
        let ghost h = self.history();
        let ghost t = self.transport();
        let none: [u8; 0] = [];
        let payload = none.as_slice();
        let o = self.xfer(ep, payload, 12, timeout_ms);
        proof {
            assert(payload@ =~= Seq::<u8>::empty());
            lemma_one_xfer(t, self.transport(), ep, payload, 12, timeout_ms, o);
            lemma_added(h, self.history());
        }
        match o {
            Err(e) => Err(e),
            Ok(x) => Ok(x.data),
        }
    }
}

} // verus!
