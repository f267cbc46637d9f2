//! Position streaming: one write per batch instead of one per call, and the
//! laser state carried per segment. Geometry only: no shapes, no fills.
//!
//! The geometry itself is real arithmetic and comes in as whole numbers: a leg
//! per segment, with its durations, its run-up and its traced points. What is
//! decided here is which vectors go out, in which order, with which dwell.

use crate::double::Double;
use crate::protocol::{cmd, frame, CMD_JUMP, CMD_MARK};
use crate::text::{decimal, push_decimal, push_signed, signed_decimal};
use vstd::prelude::*;
use vstd::string::StringExecFns;

verus! {

/// Commands per EP 0x02 transfer (the board's flush limit is 1920).
pub const MAX_SEGS: usize = 1400;

/// Conservative per-segment cost, microseconds.
pub const SEG_TIME_US: u64 = 830;

/// Measured floor, microseconds: about 32 800 segments a second with correct
/// pacing.
pub const SEG_MIN_US: u64 = 30;

/// Nanoseconds to wait for a microsecond of work: the board is kept a little
/// ahead.
pub const PACE_NS: u64 = 920;

pub const CENTRE: u16 = 0x8000;

/// The end of the travel on either axis.
pub const FULL: i64 = 0xFFFF;

/// A place in galvo counts.
pub type Point = (u16, u16);

/// Speed for a vector: either the raw Param0 duration or a feed rate.
///
/// Param0 is the time the board takes over one segment, in microseconds, so a
/// fixed value across mixed lengths gives mixed speeds. A feed rate is the
/// honest way to paint unequal segments evenly.
#[derive(Clone, Copy, PartialEq, Eq, Structural, Debug)]
pub enum Speed {
    /// Raw Param0, microseconds per vector.
    Micros(u16),
    /// Millimetres per second, converted per segment through the field.
    MmPerSec(Double),
}

/// Why no speed can be told from what was given.
#[derive(Clone, Copy, PartialEq, Eq, Structural, Debug)]
pub enum SpeedError {
    NotPositive,
    NotExactlyOne,
}

impl SpeedError {
    pub fn message(&self) -> (r: String)
        ensures
            r@ == match self {
                SpeedError::NotPositive => "mm_s must be positive"@,
                SpeedError::NotExactlyOne =>
                    "give exactly one of speed= (microseconds) or mm_s= (millimetres per second)"@,
            },
    {
        match self {
            SpeedError::NotPositive => String::from_str("mm_s must be positive"),
            SpeedError::NotExactlyOne => String::from_str(
                "give exactly one of speed= (microseconds) or mm_s= (millimetres per second)",
            ),
        }
    }
}

/// The speed that a duration or a feed rate asks for: exactly one of the two, and
/// a feed rate above zero.
pub fn speed_of(speed: Option<u16>, mm_s: Option<Double>) -> (r: Result<Speed, SpeedError>)
    ensures
        r == (match (speed, mm_s) {
            (Some(us), None) => Ok::<Speed, SpeedError>(Speed::Micros(us)),
            (None, Some(v)) => if (Double { bits: 0 }).below(v) {
                Ok(Speed::MmPerSec(v))
            } else {
                Err(SpeedError::NotPositive)
            },
            _ => Err(SpeedError::NotExactlyOne),
        }),
{
    match (speed, mm_s) {
        (Some(us), None) => Ok(Speed::Micros(us)),
        (None, Some(v)) => {
            let zero = Double { bits: 0 };
            if zero.lt(v) {
                Ok(Speed::MmPerSec(v))
            } else {
                Err(SpeedError::NotPositive)
            }
        },
        _ => Err(SpeedError::NotExactlyOne),
    }
}

/// What a batch cost and what it bought.
#[derive(Clone, Copy, PartialEq, Eq, Structural, Debug)]
pub struct Emitted {
    pub commands: usize,
    pub us: u64,
    /// Run-up actually granted, in counts, after trimming to the travel limits.
    pub overshoot: i64,
    /// Traced lit length over straight lit length: how many times the beam
    /// covers the cut line, which is what a wiggle is bought for.
    pub exposure: Double,
}

/// Options for the streaming methods. Defaults match the vendor hosts.
#[derive(Clone, Copy, PartialEq, Eq, Structural, Debug)]
pub struct PathOpts {
    pub jump_speed: u16,
    pub jump_delay: u16,
    /// Laser-off dwell, microseconds, on the vector that ends a lit run.
    pub delay: u16,
    /// Dwell at interior vertices. The vendors use tens of microseconds.
    pub corner_delay: u16,
    /// Laser-off run-up in counts, before each lit run and after it.
    pub overshoot: i64,
    /// Wiggle radius in counts. 0 is off.
    pub wiggle: i64,
    /// Counts of travel per full wiggle circle.
    pub wiggle_pitch: i64,
    /// Points per wiggle circle.
    pub wiggle_steps: u32,
    /// Run unlit segments at the marking rate instead of at jump speed.
    pub unlit_at_feed: bool,
}

impl Default for PathOpts {
    fn default() -> (r: Self)
        ensures
            r == (PathOpts {
                jump_speed: 0x2710,
                jump_delay: 0x01F4,
                delay: 500,
                corner_delay: 0,
                overshoot: 0,
                wiggle: 0,
                wiggle_pitch: 0,
                wiggle_steps: 16,
                unlit_at_feed: false,
            }),
    {
        PathOpts {
            jump_speed: 0x2710,
            jump_delay: 0x01F4,
            delay: 500,
            corner_delay: 0,
            overshoot: 0,
            wiggle: 0,
            wiggle_pitch: 0,
            wiggle_steps: 16,
            unlit_at_feed: false,
        }
    }
}

// ---- failures -------------------------------------------------------------

/// Why a path cannot be streamed.
#[derive(Clone, Copy, PartialEq, Eq, Structural, Debug)]
pub enum PathError {
    TooFewPoints,
    FlagCount { points: usize },
    NoPitch,
    TooFewSteps,
    WiggleOutOfField { x: i64, y: i64 },
    NoSegments,
}

impl PathError {
    /// The failure in words.
    pub open spec fn text(self) -> Seq<char> {
        match self {
            PathError::TooFewPoints => "path needs at least two points"@,
            PathError::FlagCount { points } => "lit needs one flag per segment: "@ + decimal(
                (points - 1) as nat,
            ) + " for "@ + decimal(points as nat) + " points"@,
            PathError::NoPitch => "wiggle needs a positive wiggle_pitch (counts per circle)"@,
            PathError::TooFewSteps => "wiggle_steps must be at least 4"@,
            PathError::WiggleOutOfField { x, y } => "wiggle point ("@ + signed_decimal(x as int)
                + ", "@ + signed_decimal(y as int)
                + ") is outside the galvo travel limits 0..65535"@,
            PathError::NoSegments => "no segments given"@,
        }
    }

    /// The failure in words.
    pub fn message(&self) -> (r: String)
        requires
            self matches PathError::FlagCount { points } ==> points > 0,
        ensures
            r@ == self.text(),
    {
        match *self {
            PathError::TooFewPoints => String::from_str("path needs at least two points"),
            PathError::FlagCount { points } => {
                let mut r = String::from_str("lit needs one flag per segment: ");
                push_decimal(&mut r, (points - 1) as u64);
                r.append(" for ");
                push_decimal(&mut r, points as u64);
                r.append(" points");
                r
            },
            PathError::NoPitch => String::from_str(
                "wiggle needs a positive wiggle_pitch (counts per circle)",
            ),
            PathError::TooFewSteps => String::from_str("wiggle_steps must be at least 4"),
            PathError::WiggleOutOfField { x, y } => {
                let mut r = String::from_str("wiggle point (");
                push_signed(&mut r, x);
                r.append(", ");
                push_signed(&mut r, y);
                r.append(") is outside the galvo travel limits 0..65535");
                r
            },
            PathError::NoSegments => String::from_str("no segments given"),
        }
    }
}

// ---- geometry that comes in -----------------------------------------------

/// A run-up before a lit run or behind it.
#[derive(Clone, Copy, PartialEq, Eq, Debug)]
pub struct Lead {
    pub at: Point,
    /// Its length, 0 where there was no room.
    pub counts: i64,
    /// Microseconds at the feed rate, rounded; nothing where that is no number.
    pub us: Option<i64>,
}

/// What a wiggle asks of the mirrors, in numbers.
#[derive(Clone, Copy, PartialEq, Eq, Structural, Debug)]
pub struct Load {
    pub radius_mm: Double,
    pub pitch_mm: Double,
    pub mm_s: Double,
    pub loop_hz: Double,
    pub accel_mm_s2: Double,
    pub accel_g: Double,
    pub exposure: Double,
    pub chord_mm: Double,
    pub vectors_per_s: Double,
}

/// The geometry of one segment.
pub struct Leg {
    /// Microseconds from end to end at the feed rate, rounded.
    pub feed_us: Option<i64>,
    /// Where a lit run starts with this segment.
    pub lead_in: Option<Lead>,
    /// Where a lit run ends with this segment.
    pub lead_out: Option<Lead>,
    /// The points that a wiggle traces, rounded, the first one behind the start
    /// of the segment.
    pub curve: Vec<(i64, i64)>,
    /// Microseconds to each of them: at the feed rate, or its share of a raw
    /// duration.
    pub curve_us: Vec<Option<i64>>,
    /// What the traced points ask of the mirrors, where the segment has a length.
    pub load: Option<Load>,
}

/// Inside the travel limits.
pub open spec fn in_field(p: (i64, i64)) -> bool {
    0 <= p.0 <= FULL && 0 <= p.1 <= FULL
}

fn is_in_field(p: (i64, i64)) -> (r: bool)
    ensures
        r == in_field(p),
{
    0 <= p.0 && p.0 <= FULL && 0 <= p.1 && p.1 <= FULL
}

/// A duration from a feed rate: what is no number comes out as 0, anything else
/// is held between 1 and 65535 microseconds.
pub open spec fn timed(us: Option<i64>) -> u16 {
    match us {
        None => 0,
        Some(v) => if v < 1 {
            1
        } else if v > 65535 {
            65535
        } else {
            v as u16
        },
    }
}

fn time(us: Option<i64>) -> (r: u16)
    ensures
        r == timed(us),
{
    match us {
        None => 0,
        Some(v) => if v < 1 {
            1
        } else if v > 65535 {
            65535
        } else {
            v as u16
        },
    }
}

/// A raw duration as it is used: never 0.
pub open spec fn at_least_one(us: u16) -> u16 {
    if us == 0 {
        1
    } else {
        us
    }
}

fn one_at_least(us: u16) -> (r: u16)
    ensures
        r == at_least_one(us),
{
    if us == 0 {
        1
    } else {
        us
    }
}

/// The duration of a straight vector.
pub open spec fn straight_us(speed: Speed, feed_us: Option<i64>) -> u16 {
    match speed {
        Speed::Micros(us) => at_least_one(us),
        Speed::MmPerSec(_) => timed(feed_us),
    }
}

fn straight_time(speed: Speed, feed_us: Option<i64>) -> (r: u16)
    ensures
        r == straight_us(speed, feed_us),
{
    match speed {
        Speed::Micros(us) => one_at_least(us),
        Speed::MmPerSec(_) => time(feed_us),
    }
}

/// The duration of a traced vector: a share of a raw duration is never 0.
pub open spec fn traced_us(speed: Speed, us: Option<i64>) -> u16 {
    match speed {
        Speed::Micros(_) => if us is None {
            1
        } else {
            timed(us)
        },
        Speed::MmPerSec(_) => timed(us),
    }
}

/// The entry at `k`, or nothing.
pub open spec fn entry(us: Seq<Option<i64>>, k: int) -> Option<i64> {
    if 0 <= k < us.len() {
        us[k]
    } else {
        None
    }
}

/// The duration of traced vector `k`.
pub fn traced_time(speed: Speed, us: &Vec<Option<i64>>, k: usize) -> (r: u16)
    ensures
        r == traced_us(speed, entry(us@, k as int)),
{
    let t: Option<i64> = if k < us.len() {
        us[k]
    } else {
        None
    };
    match speed {
        Speed::Micros(_) => if t.is_none() {
            1
        } else {
            time(t)
        },
        Speed::MmPerSec(_) => time(t),
    }
}

// ---- vectors --------------------------------------------------------------

/// A vector command and the microseconds that it takes.
pub type Vector = (Seq<u8>, int);

/// The vectors of some commands.
pub open spec fn vectors(v: Seq<([u8; 12], u32)>) -> Seq<Vector> {
    v.map_values(|c: ([u8; 12], u32)| (c.0@, c.1 as int))
}

/// An unlit vector.
pub open spec fn jump(us: u16, p: Point, delay: u16) -> Vector {
    (frame(CMD_JUMP, us, p.0, p.1, 0, delay), us as int)
}

/// A lit vector.
pub open spec fn mark(us: u16, p: Point, delay: u16) -> Vector {
    (frame(CMD_MARK, us, p.0, p.1, 0, delay), us as int)
}

fn push_jump(v: &mut Vec<([u8; 12], u32)>, us: u16, p: Point, delay: u16)
    ensures
        vectors(final(v)@) == vectors(old(v)@).push(jump(us, p, delay)),
{
    v.push((cmd(CMD_JUMP, us, p.0, p.1, 0, delay), us as u32));
    assert(vectors(v@) =~= vectors(old(v)@).push(jump(us, p, delay)));
}

fn push_mark(v: &mut Vec<([u8; 12], u32)>, us: u16, p: Point, delay: u16)
    ensures
        vectors(final(v)@) == vectors(old(v)@).push(mark(us, p, delay)),
{
    v.push((cmd(CMD_MARK, us, p.0, p.1, 0, delay), us as u32));
    assert(vectors(v@) =~= vectors(old(v)@).push(mark(us, p, delay)));
}

// ---- a path ---------------------------------------------------------------

/// Everything that decides a path: `lit[i]` and `legs[i]` belong to the segment
/// from `pts[i]` to `pts[i + 1]`.
pub struct Course {
    pub pts: Seq<Point>,
    pub lit: Seq<bool>,
    pub speed: Speed,
    pub o: PathOpts,
    pub legs: Seq<Leg>,
}

impl Course {
    /// One flag and one leg per segment.
    pub open spec fn wf(self) -> bool {
        &&& self.pts.len() >= 2
        &&& self.lit.len() == self.pts.len() - 1
        &&& self.legs.len() == self.lit.len()
    }

    /// Segment `i` is the first of a lit run.
    pub open spec fn starts_run(self, i: int) -> bool {
        self.lit[i] && (i == 0 || !self.lit[i - 1])
    }

    /// Segment `i` is the last of a lit run.
    pub open spec fn ends_run(self, i: int) -> bool {
        self.lit[i] && (i == self.lit.len() - 1 || !self.lit[i + 1])
    }

    pub open spec fn runs_up(self) -> bool {
        self.o.overshoot > 0
    }

    pub open spec fn wiggles(self) -> bool {
        self.o.wiggle > 0
    }

    /// The run-up before segment `i`; with none given, none of any length.
    pub open spec fn lead_in(self, i: int) -> Lead {
        match self.legs[i].lead_in {
            Some(l) => l,
            None => Lead { at: self.pts[i], counts: 0, us: None },
        }
    }

    /// The run-out behind segment `i`.
    pub open spec fn lead_out(self, i: int) -> Lead {
        match self.legs[i].lead_out {
            Some(l) => l,
            None => Lead { at: self.pts[i + 1], counts: 0, us: None },
        }
    }

    /// Segment `i` is followed by a run-out of some length.
    pub open spec fn runs_out(self, i: int) -> bool {
        self.runs_up() && self.ends_run(i) && self.lead_out(i).counts > 0
    }

    /// Where the vectors of the segments before `i` leave the mirrors.
    pub open spec fn left_at(self, i: int) -> Option<Point> {
        if i == 0 {
            None
        } else if self.runs_out(i - 1) {
            Some(self.lead_out(i - 1).at)
        } else {
            Some(self.pts[i])
        }
    }

    /// The vectors that bring the mirrors to the start of segment `i`.
    pub open spec fn approach(self, i: int) -> Seq<Vector> {
        if self.starts_run(i) && self.runs_up() {
            let l = self.lead_in(i);
            let to = seq![jump(self.o.jump_speed, l.at, self.o.jump_delay)];
            if l.counts > 0 {
                to.push(jump(straight_us(self.speed, l.us), self.pts[i], 0))
            } else {
                to
            }
        } else if self.left_at(i) != Some(self.pts[i]) {
            seq![jump(self.o.jump_speed, self.pts[i], self.o.jump_delay)]
        } else {
            Seq::empty()
        }
    }

    /// The points that a wiggle traces over segment `i`: the last one of a lit run
    /// is the end of the segment itself.
    pub open spec fn chain(self, i: int) -> Seq<(i64, i64)> {
        traced(self.legs[i].curve@, self.pts[i + 1], self.ends_run(i))
    }

    /// The vectors of segment `i` itself.
    pub open spec fn body(self, i: int) -> Seq<Vector> {
        let end = self.pts[i + 1];
        let leg = self.legs[i];
        if self.lit[i] && self.wiggles() {
            self.trace(i, self.chain(i).len() as int)
        } else if self.lit[i] {
            seq![
                mark(
                    straight_us(self.speed, leg.feed_us),
                    end,
                    if self.ends_run(i) {
                        self.o.delay
                    } else {
                        self.o.corner_delay
                    },
                ),
            ]
        } else if self.o.unlit_at_feed {
            seq![jump(straight_us(self.speed, leg.feed_us), end, 0)]
        } else {
            seq![jump(at_least_one(self.o.jump_speed), end, self.o.jump_delay)]
        }
    }

    /// The first `n` traced vectors of segment `i`. Inside a wiggle every point
    /// is an interior point, so only the last one of a lit run has a dwell.
    pub open spec fn trace(self, i: int, n: int) -> Seq<Vector> {
        let c = self.chain(i);
        Seq::new(
            n as nat,
            |k: int|
                mark(
                    traced_us(self.speed, entry(self.legs[i].curve_us@, k)),
                    (c[k].0 as u16, c[k].1 as u16),
                    if k == c.len() - 1 && self.ends_run(i) {
                        self.o.delay
                    } else {
                        0
                    },
                ),
        )
    }

    /// The vector that leaves the end of segment `i`.
    pub open spec fn run_out(self, i: int) -> Seq<Vector> {
        if self.runs_out(i) {
            let l = self.lead_out(i);
            seq![jump(straight_us(self.speed, l.us), l.at, 0)]
        } else {
            Seq::empty()
        }
    }

    /// The vectors of segment `i`.
    pub open spec fn segment(self, i: int) -> Seq<Vector> {
        self.approach(i) + self.body(i) + self.run_out(i)
    }

    /// The vectors of the first `n` segments.
    pub open spec fn vectors(self, n: int) -> Seq<Vector>
        decreases n,
    {
        if n <= 0 {
            Seq::empty()
        } else {
            self.vectors(n - 1) + self.segment(n - 1)
        }
    }

    /// Segment `i` is traced and one of its points leaves the field.
    pub open spec fn strays(self, i: int) -> bool {
        self.lit[i] && self.wiggles() && exists|k: int|
            0 <= k < self.chain(i).len() && !in_field(#[trigger] self.chain(i)[k])
    }

    /// The first traced point of segment `i` outside the field is number `k`.
    pub open spec fn first_stray(self, i: int, k: int) -> bool {
        &&& 0 <= k < self.chain(i).len()
        &&& !in_field(self.chain(i)[k])
        &&& forall|j: int| 0 <= j < k ==> in_field(#[trigger] self.chain(i)[j])
    }

    /// The run-up granted over the first `n` segments: the shortest.
    pub open spec fn granted(self, n: int) -> int
        decreases n,
    {
        if n <= 0 {
            if self.runs_up() {
                self.o.overshoot as int
            } else {
                0
            }
        } else {
            let g = self.granted(n - 1);
            let i = n - 1;
            let a = if self.starts_run(i) && self.runs_up() && self.lead_in(i).counts < g {
                self.lead_in(i).counts as int
            } else {
                g
            };
            if self.ends_run(i) && self.runs_up() && self.lead_out(i).counts < a {
                self.lead_out(i).counts as int
            } else {
                a
            }
        }
    }

    /// The load of the first of the first `n` segments that is traced and has
    /// one.
    pub open spec fn first_load(self, n: int) -> Option<Load>
        decreases n,
    {
        if n <= 0 {
            None
        } else {
            match self.first_load(n - 1) {
                Some(l) => Some(l),
                None => if self.lit[n - 1] && self.wiggles() {
                    self.legs[n - 1].load
                } else {
                    None
                },
            }
        }
    }
}

/// A traced curve that ends where the segment does, where it has to.
pub open spec fn traced(curve: Seq<(i64, i64)>, end: Point, ends_run: bool) -> Seq<(i64, i64)> {
    let e = (end.0 as i64, end.1 as i64);
    if curve.len() == 0 {
        seq![e]
    } else if ends_run {
        curve.update(curve.len() - 1, e)
    } else {
        curve
    }
}

pub(crate) fn trace_curve(curve: &Vec<(i64, i64)>, end: Point, ends_run: bool) -> (r: Vec<(i64, i64)>)
    ensures
        r@ == traced(curve@, end, ends_run),
{
    let mut r: Vec<(i64, i64)> = Vec::new();
    let n: usize = curve.len();
    for i in 0..n
        invariant
            n == curve@.len(),
            r@ == curve@.take(i as int),
    {
        r.push(curve[i]);
        assert(curve@.take(i + 1) =~= curve@.take(i as int).push(curve@[i as int]));
    }
    assert(curve@.take(n as int) =~= curve@);
    let e = (end.0 as i64, end.1 as i64);
    if r.len() == 0 {
        r.push(e);
        assert(r@ =~= seq![e]);
    } else if ends_run {
        let last: usize = r.len() - 1;
        r.set(last, e);
    }
    r
}

/// The vectors of a path, and what is to be said of it.
pub struct Built {
    pub vectors: Vec<([u8; 12], u32)>,
    /// The run-up granted, 0 where none was asked for.
    pub granted: i64,
    /// The load of the first traced segment that has one.
    pub load: Option<Load>,
    /// The first traced point outside the field. Nothing behind its segment was
    /// looked at.
    pub stray: Option<(i64, i64)>,
}

/// `b` is what a course comes to.
pub open spec fn is_built(c: Course, b: Built) -> bool {
    let n = c.lit.len() as int;
    match b.stray {
        None => {
            &&& forall|i: int| 0 <= i < n ==> !(#[trigger] c.strays(i))
            &&& vectors(b.vectors@) == c.vectors(n)
            &&& b.granted == c.granted(n)
            &&& b.load == c.first_load(n)
        },
        Some(p) => exists|i: int, k: int|
            {
                &&& 0 <= i < n
                &&& forall|j: int| 0 <= j < i ==> !(#[trigger] c.strays(j))
                &&& c.lit[i] && c.wiggles()
                &&& #[trigger] c.first_stray(i, k)
                &&& p == c.chain(i)[k]
                &&& b.load == c.first_load(i)
            },
    }
}

/// Where the first point outside the field stands, or the number of points.
fn first_outside(chain: &Vec<(i64, i64)>) -> (r: usize)
    ensures
        r <= chain@.len(),
        forall|j: int| 0 <= j < r ==> in_field(#[trigger] chain@[j]),
        r < chain@.len() ==> !in_field(chain@[r as int]),
{
    let n: usize = chain.len();
    let mut k: usize = 0;
    while k < n && is_in_field(chain[k])
        invariant
            n == chain@.len(),
            k <= n,
            forall|j: int| 0 <= j < k ==> in_field(#[trigger] chain@[j]),
        decreases n - k,
    {
        k = k + 1;
    }
    k
}

fn push_trace(
    out: &mut Vec<([u8; 12], u32)>,
    chain: &Vec<(i64, i64)>,
    leg: &Leg,
    speed: Speed,
    dwell: u16,
    Ghost(c): Ghost<Course>,
    Ghost(i): Ghost<int>,
)
    requires
        c.wf(),
        0 <= i < c.lit.len(),
        *leg == c.legs[i],
        chain@ == c.chain(i),
        speed == c.speed,
        dwell == if c.ends_run(i) {
            c.o.delay
        } else {
            0
        },
        forall|j: int| 0 <= j < chain@.len() ==> in_field(#[trigger] chain@[j]),
    ensures
        vectors(final(out)@) == vectors(old(out)@) + c.trace(i, chain@.len() as int),
{
    let n: usize = chain.len();
    let ghost start = vectors(out@);
    assert(start + c.trace(i, 0) =~= start);
    let mut k: usize = 0;
    while k < n
        invariant
            n == chain@.len(),
            k <= n,
            0 <= i < c.lit.len(),
            *leg == c.legs[i],
            chain@ == c.chain(i),
            speed == c.speed,
            dwell == if c.ends_run(i) {
                c.o.delay
            } else {
                0
            },
            forall|j: int| 0 <= j < chain@.len() ==> in_field(#[trigger] chain@[j]),
            vectors(out@) == start + c.trace(i, k as int),
        decreases n - k,
    {
        let p = chain[k];
        assert(in_field(chain@[k as int]));
        let us: u16 = traced_time(speed, &leg.curve_us, k);
        let delay: u16 = if k == n - 1 {
            dwell
        } else {
            0
        };
        push_mark(out, us, (p.0 as u16, p.1 as u16), delay);
        assert(c.trace(i, k + 1) =~= c.trace(i, k as int).push(
            mark(us, (p.0 as u16, p.1 as u16), delay),
        ));
        assert(vectors(out@) =~= start + c.trace(i, k + 1));
        k = k + 1;
    }
}

/// Bring the mirrors to the start of a segment. Gives the run-up granted so far.
fn push_approach(
    out: &mut Vec<([u8; 12], u32)>,
    starts: bool,
    p0: Point,
    at: Option<Point>,
    leg: &Leg,
    speed: Speed,
    o: PathOpts,
    granted: i64,
    Ghost(c): Ghost<Course>,
    Ghost(i): Ghost<int>,
) -> (r: i64)
    requires
        0 <= i < c.lit.len(),
        c.wf(),
        starts == c.starts_run(i),
        p0 == c.pts[i],
        at == c.left_at(i),
        *leg == c.legs[i],
        speed == c.speed,
        o == c.o,
    ensures
        vectors(final(out)@) == vectors(old(out)@) + c.approach(i),
        r == if c.starts_run(i) && c.runs_up() && c.lead_in(i).counts < granted {
            c.lead_in(i).counts
        } else {
            granted
        },
{
    let ghost base = vectors(out@);
    if starts && o.overshoot > 0 {
        let l: Lead = match leg.lead_in {
            Some(l) => l,
            None => Lead { at: p0, counts: 0, us: None },
        };
        push_jump(out, o.jump_speed, l.at, o.jump_delay);
        if l.counts > 0 {
            let us: u16 = straight_time(speed, l.us);
            push_jump(out, us, p0, 0);
        }
        assert(vectors(out@) =~= base + c.approach(i));
        if l.counts < granted {
            l.counts
        } else {
            granted
        }
    } else {
        let there: bool = match at {
            Some(q) => q.0 == p0.0 && q.1 == p0.1,
            None => false,
        };
        if !there {
            push_jump(out, o.jump_speed, p0, o.jump_delay);
        }
        assert(vectors(out@) =~= base + c.approach(i));
        granted
    }
}

/// Run a segment itself. Gives the first traced point outside the field, in which
/// case nothing was added.
fn push_body(
    out: &mut Vec<([u8; 12], u32)>,
    on: bool,
    ends: bool,
    p1: Point,
    leg: &Leg,
    speed: Speed,
    o: PathOpts,
    Ghost(c): Ghost<Course>,
    Ghost(i): Ghost<int>,
) -> (r: Option<(i64, i64)>)
    requires
        0 <= i < c.lit.len(),
        c.wf(),
        on == c.lit[i],
        ends == c.ends_run(i),
        p1 == c.pts[i + 1],
        *leg == c.legs[i],
        speed == c.speed,
        o == c.o,
    ensures
        match r {
            None => !c.strays(i) && vectors(final(out)@) == vectors(old(out)@) + c.body(i),
            Some(p) => c.lit[i] && c.wiggles() && exists|k: int| #[trigger]
                c.first_stray(i, k) && p == c.chain(i)[k],
        },
{
    let ghost base = vectors(out@);
    if on && o.wiggle > 0 {
        let chain = trace_curve(&leg.curve, p1, ends);
        let k: usize = first_outside(&chain);
        if k < chain.len() {
            assert(c.first_stray(i, k as int));
            return Some(chain[k]);
        }
        let dwell: u16 = if ends {
            o.delay
        } else {
            0
        };
        push_trace(out, &chain, leg, speed, dwell, Ghost(c), Ghost(i));
    } else if on {
        let us: u16 = straight_time(speed, leg.feed_us);
        let delay: u16 = if ends {
            o.delay
        } else {
            o.corner_delay
        };
        push_mark(out, us, p1, delay);
    } else if o.unlit_at_feed {
        let us: u16 = straight_time(speed, leg.feed_us);
        push_jump(out, us, p1, 0);
    } else {
        push_jump(out, one_at_least(o.jump_speed), p1, o.jump_delay);
    }
    assert(vectors(out@) =~= base + c.body(i));
    None
}

/// Leave the end of a segment. Gives where that leaves the mirrors and the run-up
/// granted so far.
fn push_run_out(
    out: &mut Vec<([u8; 12], u32)>,
    ends: bool,
    p1: Point,
    leg: &Leg,
    speed: Speed,
    o: PathOpts,
    granted: i64,
    Ghost(c): Ghost<Course>,
    Ghost(i): Ghost<int>,
) -> (r: (Point, i64))
    requires
        0 <= i < c.lit.len(),
        c.wf(),
        ends == c.ends_run(i),
        p1 == c.pts[i + 1],
        *leg == c.legs[i],
        speed == c.speed,
        o == c.o,
    ensures
        vectors(final(out)@) == vectors(old(out)@) + c.run_out(i),
        c.left_at(i + 1) == Some(r.0),
        r.1 == if c.ends_run(i) && c.runs_up() && c.lead_out(i).counts < granted {
            c.lead_out(i).counts
        } else {
            granted
        },
{
    let ghost base = vectors(out@);
    if ends && o.overshoot > 0 {
        let l: Lead = match leg.lead_out {
            Some(l) => l,
            None => Lead { at: p1, counts: 0, us: None },
        };
        let g: i64 = if l.counts < granted {
            l.counts
        } else {
            granted
        };
        if l.counts > 0 {
            let us: u16 = straight_time(speed, l.us);
            push_jump(out, us, l.at, 0);
            assert(vectors(out@) =~= base + c.run_out(i));
            (l.at, g)
        } else {
            assert(vectors(out@) =~= base + c.run_out(i));
            (p1, g)
        }
    } else {
        assert(vectors(out@) =~= base + c.run_out(i));
        (p1, granted)
    }
}

/// Turn the segments of a path into vectors.
///
/// Unlit segments travel at `jump_speed`, since they are traverses between pieces
/// of work: timing them at the marking feed rate spends the whole traverse at
/// cutting speed.
pub fn build(pts: &[Point], lit: &[bool], speed: Speed, o: PathOpts, legs: &[Leg]) -> (r: Built)
    requires
        (Course { pts: pts@, lit: lit@, speed, o, legs: legs@ }).wf(),
    ensures
        is_built((Course { pts: pts@, lit: lit@, speed, o, legs: legs@ }), r),
{
    let ghost c = Course { pts: pts@, lit: lit@, speed, o, legs: legs@ };
    let n: usize = lit.len();
    let mut out: Vec<([u8; 12], u32)> = Vec::new();
    let mut granted: i64 = if o.overshoot > 0 {
        o.overshoot
    } else {
        0
    };
    let mut load: Option<Load> = None;
    let mut at: Option<Point> = None;
    assert(vectors(out@) =~= c.vectors(0));
    let mut i: usize = 0;
    while i < n
        invariant
            c == (Course { pts: pts@, lit: lit@, speed, o, legs: legs@ }),
            c.wf(),
            n == lit@.len(),
            i <= n,
            at == c.left_at(i as int),
            forall|j: int| 0 <= j < i ==> !(#[trigger] c.strays(j)),
            vectors(out@) == c.vectors(i as int),
            granted == c.granted(i as int),
            load == c.first_load(i as int),
        decreases n - i,
    {
        let on: bool = lit[i];
        let p0: Point = pts[i];
        let p1: Point = pts[i + 1];
        let leg: &Leg = &legs[i];
        let starts: bool = on && (i == 0 || !lit[i - 1]);
        let ends: bool = on && (i == n - 1 || !lit[i + 1]);
        let ghost base = vectors(out@);
        let ghost ii = i as int;
        assert(c.vectors(ii + 1) == c.vectors(ii) + c.segment(ii));
        granted = push_approach(&mut out, starts, p0, at, leg, speed, o, granted, Ghost(c), Ghost(ii));
        match push_body(&mut out, on, ends, p1, leg, speed, o, Ghost(c), Ghost(ii)) {
            Some(p) => {
                return Built { vectors: out, granted, load, stray: Some(p) };
            },
            None => {},
        }
        if on && o.wiggle > 0 && load.is_none() {
            load = leg.load;
        }
        let (q, g) = push_run_out(&mut out, ends, p1, leg, speed, o, granted, Ghost(c), Ghost(ii));
        at = Some(q);
        granted = g;
        assert(vectors(out@) =~= base + c.segment(ii));
        i = i + 1;
    }
    Built { vectors: out, granted, load, stray: None }
}

// ---- what a path is made of -----------------------------------------------

/// The laser state of each segment: as given, or lit throughout.
pub open spec fn flags(points: nat, lit: Option<Seq<bool>>) -> Seq<bool> {
    match lit {
        Some(v) => v,
        None => Seq::new((points - 1) as nat, |i: int| true),
    }
}

/// What is wrong with a path, if anything is, before its geometry is looked at.
/// Every point is inside the travel limits by its type.
pub open spec fn refusal(points: nat, lit: Option<Seq<bool>>, o: PathOpts) -> Option<PathError> {
    if points < 2 {
        Some(PathError::TooFewPoints)
    } else if flags(points, lit).len() != points - 1 {
        Some(PathError::FlagCount { points: points as usize })
    } else if o.wiggle > 0 && o.wiggle_pitch <= 0 {
        Some(PathError::NoPitch)
    } else if o.wiggle > 0 && o.wiggle_steps < 4 {
        Some(PathError::TooFewSteps)
    } else {
        None
    }
}

/// The flags as a sequence.
pub open spec fn given(lit: Option<&[bool]>) -> Option<Seq<bool>> {
    match lit {
        Some(v) => Some(v@),
        None => None,
    }
}

/// Check a path and settle the laser state of each of its segments.
pub fn gates(points: &[Point], lit: Option<&[bool]>, o: PathOpts) -> (r: Result<
    Vec<bool>,
    PathError,
>)
    ensures
        match r {
            Ok(f) => refusal(points@.len(), given(lit), o) is None && f@ == flags(
                points@.len(),
                given(lit),
            ),
            Err(e) => refusal(points@.len(), given(lit), o) == Some(e),
        },
{
    let n: usize = points.len();
    if n < 2 {
        return Err(PathError::TooFewPoints);
    }
    let mut f: Vec<bool> = Vec::new();
    match lit {
        Some(v) => {
            if v.len() != n - 1 {
                return Err(PathError::FlagCount { points: n });
            }
            f.extend_from_slice(v);
            assert(f@ =~= v@);
        },
        None => {
            let mut i: usize = 0;
            while i < n - 1
                invariant
                    n >= 2,
                    i <= n - 1,
                    f@.len() == i,
                    forall|j: int| 0 <= j < i ==> f@[j],
                decreases n - i,
            {
                f.push(true);
                i = i + 1;
            }
            assert(f@ =~= flags(n as nat, None));
        },
    }
    if o.wiggle > 0 && o.wiggle_pitch <= 0 {
        return Err(PathError::NoPitch);
    }
    if o.wiggle > 0 && o.wiggle_steps < 4 {
        return Err(PathError::TooFewSteps);
    }
    Ok(f)
}

/// `run` is a whole lit run: lit throughout, dark or the end on either side.
pub open spec fn is_run(lit: Seq<bool>, run: (usize, usize)) -> bool {
    let (a, b) = run;
    &&& a < b <= lit.len()
    &&& forall|i: int| a <= i < b ==> lit[i]
    &&& a == 0 || !lit[a - 1]
    &&& b == lit.len() || !lit[b as int]
}

/// `runs` is every lit run, in order.
pub open spec fn are_runs(lit: Seq<bool>, runs: Seq<(usize, usize)>) -> bool {
    &&& forall|k: int| 0 <= k < runs.len() ==> is_run(lit, #[trigger] runs[k])
    &&& forall|k: int, m: int|
        0 <= k < m < runs.len() ==> (#[trigger] runs[k]).1 < (#[trigger] runs[m]).0
    &&& forall|i: int|
        0 <= i < lit.len() && lit[i] ==> exists|k: int|
            0 <= k < runs.len() && (#[trigger] runs[k]).0 <= i < runs[k].1
}

/// The lit runs of a path: from the first segment of each up to the one behind its
/// last. A wiggle belongs to a lit run, so its length is measured over the run.
pub fn lit_runs(lit: &[bool]) -> (r: Vec<(usize, usize)>)
    ensures
        are_runs(lit@, r@),
{
    let n: usize = lit.len();
    let mut r: Vec<(usize, usize)> = Vec::new();
    let mut i: usize = 0;
    while i < n
        invariant
            n == lit@.len(),
            i <= n,
            i > 0 && i < n ==> !lit@[i - 1],
            forall|k: int| 0 <= k < r@.len() ==> is_run(lit@, #[trigger] r@[k]),
            forall|k: int, m: int|
                0 <= k < m < r@.len() ==> (#[trigger] r@[k]).1 < (#[trigger] r@[m]).0,
            forall|k: int| 0 <= k < r@.len() ==> (#[trigger] r@[k]).1 < i || i == n,
            forall|x: int|
                0 <= x < i && lit@[x] ==> exists|k: int|
                    0 <= k < r@.len() && (#[trigger] r@[k]).0 <= x < r@[k].1,
        decreases n - i,
    {
        if !lit[i] {
            i = i + 1;
            continue ;
        }
        let a: usize = i;
        let mut b: usize = i;
        while b < n && lit[b]
            invariant
                n == lit@.len(),
                a <= b <= n,
                forall|x: int| a <= x < b ==> lit@[x],
            decreases n - b,
        {
            b = b + 1;
        }
        let ghost before = r@;
        r.push((a, b));
        proof {
            assert(is_run(lit@, (a, b)));
            assert forall|x: int| 0 <= x < b && lit@[x] implies exists|k: int|
                0 <= k < r@.len() && (#[trigger] r@[k]).0 <= x < r@[k].1 by {
                if x < a {
                    let k = choose|k: int|
                        0 <= k < before.len() && (#[trigger] before[k]).0 <= x < before[k].1;
                    assert(r@[k] == before[k]);
                } else {
                    assert(r@[r@.len() - 1] == (a, b));
                }
            }
        }
        i = if b < n {
            b + 1
        } else {
            n
        };
    }
    r
}

/// Disjoint segments as one path: every second leg is the connecting jump.
pub fn chain_segments(segs: &[(Point, Point)]) -> (r: Result<(Vec<Point>, Vec<bool>), PathError>)
    ensures
        match r {
            Ok((pts, lit)) => {
                &&& segs@.len() > 0
                &&& pts@ == Seq::new(
                    (2 * segs@.len()) as nat,
                    |i: int|
                        if i % 2 == 0 {
                            segs@[i / 2].0
                        } else {
                            segs@[i / 2].1
                        },
                )
                &&& lit@ == Seq::new((2 * segs@.len() - 1) as nat, |i: int| i % 2 == 0)
            },
            Err(e) => segs@.len() == 0 && e == PathError::NoSegments,
        },
{
    let n: usize = segs.len();
    if n == 0 {
        return Err(PathError::NoSegments);
    }
    let mut pts: Vec<Point> = Vec::new();
    let mut lit: Vec<bool> = Vec::new();
    let mut i: usize = 0;
    while i < n
        invariant
            n == segs@.len(),
            i <= n,
            pts@.len() == 2 * i,
            lit@.len() == if i == 0 {
                0
            } else {
                2 * i - 1
            },
            forall|j: int|
                0 <= j < pts@.len() ==> #[trigger] pts@[j] == if j % 2 == 0 {
                    segs@[j / 2].0
                } else {
                    segs@[j / 2].1
                },
            forall|j: int| 0 <= j < lit@.len() ==> #[trigger] lit@[j] == (j % 2 == 0),
        decreases n - i,
    {
        let (a, b) = segs[i];
        if i > 0 {
            lit.push(false);
        }
        pts.push(a);
        pts.push(b);
        lit.push(true);
        i = i + 1;
    }
    assert(pts@ =~= Seq::new(
        (2 * segs@.len()) as nat,
        |i: int|
            if i % 2 == 0 {
                segs@[i / 2].0
            } else {
                segs@[i / 2].1
            },
    ));
    assert(lit@ =~= Seq::new((2 * segs@.len() - 1) as nat, |i: int| i % 2 == 0));
    Ok((pts, lit))
}

/// Point marking: a jump to each point and a zero-length lit vector there.
pub open spec fn dot_vectors(points: Seq<Point>, dwell_us: u16, o: PathOpts) -> Seq<Vector> {
    Seq::new(
        (2 * points.len()) as nat,
        |i: int|
            if i % 2 == 0 {
                jump(o.jump_speed, points[i / 2], o.jump_delay)
            } else {
                mark(at_least_one(dwell_us), points[i / 2], 0)
            },
    )
}

pub fn dot_commands(points: &[Point], dwell_us: u16, o: PathOpts) -> (r: Vec<([u8; 12], u32)>)
    ensures
        vectors(r@) == dot_vectors(points@, dwell_us, o),
{
    let n: usize = points.len();
    let dwell: u16 = one_at_least(dwell_us);
    let mut out: Vec<([u8; 12], u32)> = Vec::new();
    let ghost all = dot_vectors(points@, dwell_us, o);
    assert(vectors(out@) =~= all.take(0));
    let mut i: usize = 0;
    while i < n
        invariant
            n == points@.len(),
            i <= n,
            dwell == at_least_one(dwell_us),
            all == dot_vectors(points@, dwell_us, o),
            vectors(out@) == all.take(2 * i),
        decreases n - i,
    {
        push_jump(&mut out, o.jump_speed, points[i], o.jump_delay);
        push_mark(&mut out, dwell, points[i], 0);
        assert(all[2 * i] == jump(o.jump_speed, points@[i as int], o.jump_delay));
        assert(all[2 * i + 1] == mark(dwell, points@[i as int], 0));
        assert(vectors(out@) =~= all.take(2 * (i + 1)));
        i = i + 1;
    }
    assert(all.take(2 * n) =~= all);
    out
}

/// Lit vectors through some points, all with one duration and dwell.
pub open spec fn line_vectors(points: Seq<Point>, us: u16, delay: u16) -> Seq<Vector> {
    points.map_values(|p: Point| mark(us, p, delay))
}

pub fn line_commands(points: &[Point], us: u16, delay: u16) -> (r: Vec<([u8; 12], u32)>)
    ensures
        vectors(r@) == line_vectors(points@, us, delay),
{
    let n: usize = points.len();
    let mut out: Vec<([u8; 12], u32)> = Vec::new();
    let ghost all = line_vectors(points@, us, delay);
    assert(vectors(out@) =~= all.take(0));
    let mut i: usize = 0;
    while i < n
        invariant
            n == points@.len(),
            i <= n,
            all == line_vectors(points@, us, delay),
            vectors(out@) == all.take(i as int),
        decreases n - i,
    {
        push_mark(&mut out, us, points[i], delay);
        assert(vectors(out@) =~= all.take(i + 1));
        i = i + 1;
    }
    assert(all.take(n as int) =~= all);
    out
}

} // verus!
