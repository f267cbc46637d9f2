//! Scan field: millimetres in, 16-bit galvo counts out.
//!
//! The board only ever sees raw 16-bit coordinates, 0x0000 to 0xFFFF with 0x8000
//! at the centre. The optical factors are kept here; the arithmetic on them is
//! the caller's, and comes back as rounded counts.

use crate::double::{can_write, push_number, writes, Double, Style, HUNDRED, ONE, ZERO};
use crate::markcfg::{
    config_of, entry_lines, has_key, heading, is_clean, laid, law_a_key_says_what_it_was_set_to,
    law_other_keys_are_kept, law_rewriting_keeps_what_was_read, map_of, ordered, read_markcfg,
    Config, Entry,
};
use crate::text::{same, to_chars};
use vstd::prelude::*;
use vstd::string::StringExecFns;
use vstd::utf8::encode_utf8;

verus! {

/// The factors of a scan field.
#[derive(Debug)]
pub struct Field {
    pub size_mm: Double,
    pub offset_mm: (Double, Double),
    /// Percent.
    pub aspect: (Double, Double),
    pub negate: (bool, bool),
    pub swap_xy: bool,
    pub distor: (Double, Double),
    pub horver: (Double, Double),
    pub trapezoid: (Double, Double),
    /// The file that these factors came from.
    pub path: Option<String>,
    /// That file was written because there was none.
    pub created: bool,
}

#[derive(Clone, Copy, PartialEq, Eq, Structural, Debug)]
pub enum Axis {
    X,
    Y,
}

/// What is wrong with a factor or a coordinate.
#[derive(Debug)]
pub enum FieldError {
    SizeNotPositive { size_mm: Double },
    AspectZero,
    OutOfField { axis: Axis, asked_mm: Double, size_mm: Double, offset_mm: (Double, Double) },
    NotANumber { key: String },
    UnknownFactor { key: String },
}

/// A square field of this size, centred, undistorted.
pub open spec fn sized(f: Field, size_mm: Double) -> bool {
    let one = Double { bits: ONE };
    let zero = Double { bits: ZERO };
    let hundred = Double { bits: HUNDRED };
    &&& f.size_mm == size_mm
    &&& f.offset_mm == (zero, zero)
    &&& f.aspect == (hundred, hundred)
    &&& f.negate == (false, false)
    &&& !f.swap_xy
    &&& f.distor == (one, one)
    &&& f.horver == (one, one)
    &&& f.trapezoid == (one, one)
    &&& f.path is None
    &&& !f.created
}

/// The text of an optional path.
pub open spec fn path_text(p: Option<String>) -> Option<Seq<char>> {
    match p {
        Some(t) => Some(t@),
        None => None,
    }
}

impl Clone for Field {
    fn clone(&self) -> (r: Self)
        ensures
            r == (Field { path: r.path, ..*self }),
            path_text(r.path) == path_text(self.path),
    {
        Field {
            size_mm: self.size_mm,
            offset_mm: self.offset_mm,
            aspect: self.aspect,
            negate: self.negate,
            swap_xy: self.swap_xy,
            distor: self.distor,
            horver: self.horver,
            trapezoid: self.trapezoid,
            path: match &self.path {
                Some(t) => Some(String::from_str(t.as_str())),
                None => None,
            },
            created: self.created,
        }
    }
}

impl Default for Field {
    fn default() -> (r: Self)
        ensures
            sized(r, (Double { bits: HUNDRED })),
    {
        Field::new(Double { bits: HUNDRED })
    }
}

/// A count that was rounded, on one axis: what is not a number counts as 0, and
/// what lies off the axis is held at its end where `clamp` says so.
pub open spec fn placed(v: Option<i64>, clamp: bool) -> Option<int> {
    match v {
        None => Some(0),
        Some(v) => if 0 <= v <= 0xFFFF {
            Some(v as int)
        } else if !clamp {
            None
        } else if v < 0 {
            Some(0)
        } else {
            Some(0xFFFF)
        },
    }
}

fn place(v: Option<i64>, clamp: bool) -> (r: Option<u16>)
    ensures
        match r {
            Some(c) => placed(v, clamp) == Some(c as int),
            None => placed(v, clamp) is None,
        },
{
    match v {
        None => Some(0),
        Some(v) => if 0 <= v && v <= 0xFFFF {
            Some(v as u16)
        } else if !clamp {
            None
        } else if v < 0 {
            Some(0)
        } else {
            Some(0xFFFF)
        },
    }
}

/// A factor as a configuration file holds it.
#[derive(Clone, Copy, PartialEq, Eq, Structural, Debug)]
pub enum Setting {
    Number(Double),
    Flag(bool),
}

/// The factors with their keys, in the order in which they are set.
pub open spec fn factors(f: Field) -> Seq<(Seq<char>, Setting)> {
    seq![
        ("FIELDSIZE"@, Setting::Number(f.size_mm)),
        ("FIELDOFFSETX"@, Setting::Number(f.offset_mm.0)),
        ("FIELDOFFSETY"@, Setting::Number(f.offset_mm.1)),
        ("GALVOASPECT0"@, Setting::Number(f.aspect.0)),
        ("GALVOASPECT1"@, Setting::Number(f.aspect.1)),
        ("GALVONEGATE0"@, Setting::Flag(f.negate.0)),
        ("GALVONEGATE1"@, Setting::Flag(f.negate.1)),
        ("GALVOX"@, Setting::Flag(f.swap_xy)),
        ("GALVODISTOR0"@, Setting::Number(f.distor.0)),
        ("GALVODISTOR1"@, Setting::Number(f.distor.1)),
        ("GALVOHORVER0"@, Setting::Number(f.horver.0)),
        ("GALVOHORVER1"@, Setting::Number(f.horver.1)),
        ("GALVOTRAPEDISTOR0"@, Setting::Number(f.trapezoid.0)),
        ("GALVOTRAPEDISTOR1"@, Setting::Number(f.trapezoid.1)),
    ]
}

/// `t` is the text of a setting: a number with six digits behind the point and a
/// power of ten, a flag as 0 or 1.
pub open spec fn setting_text<F: Fn(Double, Style) -> String>(
    number: F,
    s: Setting,
    t: Seq<char>,
) -> bool {
    match s {
        Setting::Number(d) => writes(number, d, Style::Scientific(6), t),
        Setting::Flag(b) => t == if b {
            "1"@
        } else {
            "0"@
        },
    }
}

/// `kv` is the factors of `f` as keys and texts.
pub open spec fn as_entries<F: Fn(Double, Style) -> String>(
    f: Field,
    number: F,
    kv: Seq<Entry>,
) -> bool {
    &&& kv.len() == factors(f).len()
    &&& forall|i: int|
        0 <= i < kv.len() ==> #[trigger] kv[i].0 == factors(f)[i].0 && setting_text(
            number,
            factors(f)[i].1,
            kv[i].1,
        )
}

/// The entries of a list of strings.
pub open spec fn entries_of(kv: Seq<(String, String)>) -> Seq<Entry> {
    kv.map_values(|e: (String, String)| (e.0@, e.1@))
}

/// `d` is what a key says, by a reader of numbers: its value where it is there
/// and is a number, else the default.
pub open spec fn reads<P: Fn(String) -> Option<Double>>(
    parse: P,
    table: Map<Seq<char>, Seq<char>>,
    key: Seq<char>,
    default: Double,
    d: Double,
) -> bool {
    if table.dom().contains(key) {
        exists|s: String, o: Option<Double>|
            s@ == table[key] && #[trigger] call_ensures(parse, (s,), o) && d == (match o {
                Some(x) => x,
                None => default,
            })
    } else {
        d == default
    }
}

/// `f` is the field that a configuration describes.
pub open spec fn described<P: Fn(String) -> Option<Double>>(
    parse: P,
    table: Map<Seq<char>, Seq<char>>,
    f: Field,
) -> bool {
    let one = Double { bits: ONE };
    let zero = Double { bits: ZERO };
    let hundred = Double { bits: HUNDRED };
    &&& reads(parse, table, "FIELDSIZE"@, hundred, f.size_mm)
    &&& reads(parse, table, "FIELDOFFSETX"@, zero, f.offset_mm.0)
    &&& reads(parse, table, "FIELDOFFSETY"@, zero, f.offset_mm.1)
    &&& reads(parse, table, "GALVOASPECT0"@, hundred, f.aspect.0)
    &&& reads(parse, table, "GALVOASPECT1"@, hundred, f.aspect.1)
    &&& reads_flag(parse, table, "GALVONEGATE0"@, f.negate.0)
    &&& reads_flag(parse, table, "GALVONEGATE1"@, f.negate.1)
    &&& reads_flag(parse, table, "GALVOX"@, f.swap_xy)
    &&& reads(parse, table, "GALVODISTOR0"@, one, f.distor.0)
    &&& reads(parse, table, "GALVODISTOR1"@, one, f.distor.1)
    &&& reads(parse, table, "GALVOHORVER0"@, one, f.horver.0)
    &&& reads(parse, table, "GALVOHORVER1"@, one, f.horver.1)
    &&& reads(parse, table, "GALVOTRAPEDISTOR0"@, one, f.trapezoid.0)
    &&& reads(parse, table, "GALVOTRAPEDISTOR1"@, one, f.trapezoid.1)
}

/// `b` is what a key says as a flag: any number but zero is true.
pub open spec fn reads_flag<P: Fn(String) -> Option<Double>>(
    parse: P,
    table: Map<Seq<char>, Seq<char>>,
    key: Seq<char>,
    b: bool,
) -> bool {
    let zero = Double { bits: ZERO };
    exists|d: Double| #[trigger] reads(parse, table, key, zero, d) && b == !d.equals(zero)
}

fn look_up<P: Fn(String) -> Option<Double>>(
    cfg: &Config,
    key: &str,
    default: Double,
    parse: &P,
) -> (r: Double)
    requires
        cfg.wf(),
        forall|s: String| call_requires(*parse, (s,)),
    ensures
        reads(*parse, cfg.table(), key@, default, r),
{
    match cfg.get(key) {
        None => default,
        Some(v) => {
            let ghost t = v;
            let o = parse(v);
            assert(call_ensures(*parse, (t,), o));
            match o {
                Some(x) => x,
                None => default,
            }
        },
    }
}

fn look_up_flag<P: Fn(String) -> Option<Double>>(cfg: &Config, key: &str, parse: &P) -> (r: bool)
    requires
        cfg.wf(),
        forall|s: String| call_requires(*parse, (s,)),
    ensures
        reads_flag(*parse, cfg.table(), key@, r),
{
    let d = look_up(cfg, key, Double { bits: ZERO }, parse);
    !d.same(Double { bits: ZERO })
}

fn is_text(a: &str, b: &str) -> (r: bool)
    ensures
        r == (a@ == b@),
{
    same(to_chars(a).as_slice(), to_chars(b).as_slice())
}

/// A field with one factor changed by its name.
pub open spec fn edited(f: Field, key: Seq<char>, v: Double) -> Option<Field> {
    let on = !v.equals(Double { bits: ZERO });
    if key == "size_mm"@ {
        Some(Field { size_mm: v, ..f })
    } else if key == "offset_x"@ {
        Some(Field { offset_mm: (v, f.offset_mm.1), ..f })
    } else if key == "offset_y"@ {
        Some(Field { offset_mm: (f.offset_mm.0, v), ..f })
    } else if key == "aspect_x"@ {
        Some(Field { aspect: (v, f.aspect.1), ..f })
    } else if key == "aspect_y"@ {
        Some(Field { aspect: (f.aspect.0, v), ..f })
    } else if key == "negate_x"@ {
        Some(Field { negate: (on, f.negate.1), ..f })
    } else if key == "negate_y"@ {
        Some(Field { negate: (f.negate.0, on), ..f })
    } else if key == "swap_xy"@ {
        Some(Field { swap_xy: on, ..f })
    } else {
        None
    }
}

/// `f` with some changes made to it in order, each a factor's name and the number
/// that was given for it. Nothing where one of them is no number or no factor.
pub open spec fn revised(f: Field, e: Seq<(Seq<char>, Option<Double>)>) -> Option<Field>
    decreases e.len(),
{
    if e.len() == 0 {
        Some(f)
    } else {
        match (revised(f, e.drop_last()), e.last().1) {
            (Some(g), Some(v)) => edited(g, e.last().0, v),
            _ => None,
        }
    }
}

/// The first so many changes, with the numbers that were read for them.
pub open spec fn changes(edits: Seq<(String, String)>, v: Seq<Option<Double>>) -> Seq<
    (Seq<char>, Option<Double>),
> {
    Seq::new(v.len(), |i: int| (edits[i].0@, v[i]))
}

/// `o` is what a reader of numbers makes of a text.
pub open spec fn reads_as<P: Fn(String) -> Option<Double>>(
    parse: P,
    text: Seq<char>,
    o: Option<Double>,
) -> bool {
    exists|s: String| s@ == text && #[trigger] call_ensures(parse, (s,), o)
}

/// `v` is what a reader of numbers makes of the first changes, in order.
pub open spec fn reads_in_order<P: Fn(String) -> Option<Double>>(
    parse: P,
    edits: Seq<(String, String)>,
    v: Seq<Option<Double>>,
) -> bool {
    &&& v.len() <= edits.len()
    &&& forall|i: int| 0 <= i < v.len() ==> reads_as(parse, edits[i].1@, #[trigger] v[i])
}

/// What some changes come to, for a field that was `f` and is `g` behind them: all
/// of them are made, and held to be sound, or none. The first that cannot be made is
/// the one that is told of, and nothing is read beyond it.
pub open spec fn is_revision(
    f: Field,
    g: Field,
    edits: Seq<(String, String)>,
    v: Seq<Option<Double>>,
    r: Result<bool, FieldError>,
) -> bool {
    let e = changes(edits, v);
    match r {
        Ok(changed) => {
            &&& v.len() == edits.len()
            &&& changed == (edits.len() > 0)
            &&& revised(f, e) == Some(g)
            &&& changed ==> fault(g) is None
        },
        Err(why) => {
            &&& g == f
            &&& e.len() > 0
            &&& match revised(f, e) {
                Some(h) => v.len() == edits.len() && fault(h) == Some(why),
                None => {
                    &&& revised(f, e.drop_last()) is Some
                    &&& if e.last().1 is None {
                        why matches FieldError::NotANumber { key: k } && k@ == e.last().0
                    } else {
                        why matches FieldError::UnknownFactor { key: k } && k@ == e.last().0
                    }
                },
            }
        },
    }
}

/// What is wrong with the factors of a field, if anything is.
pub open spec fn fault(f: Field) -> Option<FieldError> {
    let zero = Double { bits: ZERO };
    if f.size_mm.at_most(zero) {
        Some(FieldError::SizeNotPositive { size_mm: f.size_mm })
    } else if f.aspect.0.equals(zero) || f.aspect.1.equals(zero) {
        Some(FieldError::AspectZero)
    } else {
        None
    }
}

/// `f` with what was given in place of its own.
pub open spec fn with_factors(
    f: Field,
    size_mm: Option<Double>,
    offset_mm: Option<(Double, Double)>,
    aspect: Option<(Double, Double)>,
    negate: Option<(bool, bool)>,
    swap_xy: Option<bool>,
) -> Field {
    Field {
        size_mm: size_mm.unwrap_or(f.size_mm),
        offset_mm: offset_mm.unwrap_or(f.offset_mm),
        aspect: aspect.unwrap_or(f.aspect),
        negate: negate.unwrap_or(f.negate),
        swap_xy: swap_xy.unwrap_or(f.swap_xy),
        ..f
    }
}

impl Field {
    pub fn new(size_mm: Double) -> (r: Self)
        ensures
            sized(r, size_mm),
    {
        let one = Double { bits: ONE };
        let zero = Double { bits: ZERO };
        let hundred = Double { bits: HUNDRED };
        Field {
            size_mm,
            offset_mm: (zero, zero),
            aspect: (hundred, hundred),
            negate: (false, false),
            swap_xy: false,
            distor: (one, one),
            horver: (one, one),
            trapezoid: (one, one),
            path: None,
            created: false,
        }
    }

    /// Build from the bytes of a machine's markcfg0.
    pub fn from_markcfg<P: Fn(String) -> Option<Double>>(path: &str, raw: &[u8], parse: P) -> (r:
        Self)
        requires
            forall|s: String| call_requires(parse, (s,)),
        ensures
            described(parse, config_of(raw@), r),
            r.path is Some,
            r.path->0@ == path@,
            !r.created,
    {
        let one = Double { bits: ONE };
        let zero = Double { bits: ZERO };
        let hundred = Double { bits: HUNDRED };
        let cfg = read_markcfg(raw);
        Field {
            size_mm: look_up(&cfg, "FIELDSIZE", hundred, &parse),
            offset_mm: (
                look_up(&cfg, "FIELDOFFSETX", zero, &parse),
                look_up(&cfg, "FIELDOFFSETY", zero, &parse),
            ),
            aspect: (
                look_up(&cfg, "GALVOASPECT0", hundred, &parse),
                look_up(&cfg, "GALVOASPECT1", hundred, &parse),
            ),
            negate: (
                look_up_flag(&cfg, "GALVONEGATE0", &parse),
                look_up_flag(&cfg, "GALVONEGATE1", &parse),
            ),
            swap_xy: look_up_flag(&cfg, "GALVOX", &parse),
            distor: (
                look_up(&cfg, "GALVODISTOR0", one, &parse),
                look_up(&cfg, "GALVODISTOR1", one, &parse),
            ),
            horver: (
                look_up(&cfg, "GALVOHORVER0", one, &parse),
                look_up(&cfg, "GALVOHORVER1", one, &parse),
            ),
            trapezoid: (
                look_up(&cfg, "GALVOTRAPEDISTOR0", one, &parse),
                look_up(&cfg, "GALVOTRAPEDISTOR1", one, &parse),
            ),
            path: Some(String::from_str(path)),
            created: false,
        }
    }

    /// Every optical factor is 1, so that nothing is distorted: exactly.
    pub fn is_straight(&self) -> (r: bool)
        ensures
            r == ({
                let one = Double { bits: ONE };
                &&& self.distor.0.equals(one) && self.distor.1.equals(one)
                &&& self.horver.0.equals(one) && self.horver.1.equals(one)
                &&& self.trapezoid.0.equals(one) && self.trapezoid.1.equals(one)
            }),
    {
        let one = Double { bits: ONE };
        self.distor.0.same(one) && self.distor.1.same(one) && self.horver.0.same(one)
            && self.horver.1.same(one) && self.trapezoid.0.same(one) && self.trapezoid.1.same(one)
    }

    /// Two rounded coordinates, mirrored but not yet swapped, as a pair of 16-bit
    /// galvo counts. What is not a number comes as `None`.
    ///
    /// Fails outside the field unless `clamp` is set: wrapping a coordinate
    /// silently would put the beam somewhere else entirely rather than at the
    /// edge. X is looked at before Y.
    pub fn to_counts(
        &self,
        at: (Option<i64>, Option<i64>),
        asked_mm: (Double, Double),
        clamp: bool,
    ) -> (r: Result<(u16, u16), FieldError>)
        ensures
            ({
                let (x, y) = if self.swap_xy {
                    (at.1, at.0)
                } else {
                    at
                };
                match r {
                    Ok((cx, cy)) => placed(x, clamp) == Some(cx as int) && placed(y, clamp)
                        == Some(cy as int),
                    Err(e) => if placed(x, clamp) is None {
                        e == FieldError::OutOfField {
                            axis: Axis::X,
                            asked_mm: asked_mm.0,
                            size_mm: self.size_mm,
                            offset_mm: self.offset_mm,
                        }
                    } else {
                        &&& placed(y, clamp) is None
                        &&& e == FieldError::OutOfField {
                            axis: Axis::Y,
                            asked_mm: asked_mm.1,
                            size_mm: self.size_mm,
                            offset_mm: self.offset_mm,
                        }
                    },
                }
            }),
    {
        let (x, y) = if self.swap_xy {
            (at.1, at.0)
        } else {
            at
        };
        let cx = match place(x, clamp) {
            Some(c) => c,
            None => {
                return Err(
                    FieldError::OutOfField {
                        axis: Axis::X,
                        asked_mm: asked_mm.0,
                        size_mm: self.size_mm,
                        offset_mm: self.offset_mm,
                    },
                );
            },
        };
        match place(y, clamp) {
            Some(cy) => Ok((cx, cy)),
            None => Err(
                FieldError::OutOfField {
                    axis: Axis::Y,
                    asked_mm: asked_mm.1,
                    size_mm: self.size_mm,
                    offset_mm: self.offset_mm,
                },
            ),
        }
    }

    fn settings(&self) -> (r: Vec<(&'static str, Setting)>)
        ensures
            r@.map_values(|e: (&'static str, Setting)| (e.0@, e.1)) == factors(*self),
    {
        let r: Vec<(&'static str, Setting)> = vec![
            ("FIELDSIZE", Setting::Number(self.size_mm)),
            ("FIELDOFFSETX", Setting::Number(self.offset_mm.0)),
            ("FIELDOFFSETY", Setting::Number(self.offset_mm.1)),
            ("GALVOASPECT0", Setting::Number(self.aspect.0)),
            ("GALVOASPECT1", Setting::Number(self.aspect.1)),
            ("GALVONEGATE0", Setting::Flag(self.negate.0)),
            ("GALVONEGATE1", Setting::Flag(self.negate.1)),
            ("GALVOX", Setting::Flag(self.swap_xy)),
            ("GALVODISTOR0", Setting::Number(self.distor.0)),
            ("GALVODISTOR1", Setting::Number(self.distor.1)),
            ("GALVOHORVER0", Setting::Number(self.horver.0)),
            ("GALVOHORVER1", Setting::Number(self.horver.1)),
            ("GALVOTRAPEDISTOR0", Setting::Number(self.trapezoid.0)),
            ("GALVOTRAPEDISTOR1", Setting::Number(self.trapezoid.1)),
        ];
        assert(r@.map_values(|e: (&'static str, Setting)| (e.0@, e.1)) =~= factors(*self));
        r
    }

    /// These factors as markcfg0 key/value strings.
    pub fn as_markcfg<F: Fn(Double, Style) -> String>(&self, number: F) -> (r: Vec<
        (String, String),
    >)
        requires
            can_write(number),
        ensures
            as_entries(*self, number, entries_of(r@)),
    {
        let list = self.settings();
        let ghost fs = factors(*self);
        assert(list@.len() == list@.map_values(|e: (&'static str, Setting)| (e.0@, e.1)).len());
        let n: usize = list.len();
        let mut r: Vec<(String, String)> = Vec::new();
        let ghost mut kv: Seq<Entry> = Seq::empty();
        assert(kv =~= entries_of(r@));
        let mut i: usize = 0;
        while i < n
            invariant
                can_write(number),
                i <= n,
                n == list@.len(),
                n == fs.len(),
                fs == list@.map_values(|e: (&'static str, Setting)| (e.0@, e.1)),
                kv == entries_of(r@),
                kv.len() == i,
                forall|j: int|
                    0 <= j < i ==> #[trigger] kv[j].0 == fs[j].0 && setting_text(
                        number,
                        fs[j].1,
                        kv[j].1,
                    ),
            decreases n - i,
        {
            let (key, setting) = list[i];
            assert(fs[i as int] == (key@, setting));
            let mut text = String::new();
            match setting {
                Setting::Number(d) => {
                    let t = push_number(&mut text, &number, d, Style::Scientific(6));
                    assert(text@ =~= t@);
                },
                Setting::Flag(b) => {
                    text.append(
                        if b {
                            "1"
                        } else {
                            "0"
                        },
                    );
                    assert(text@ =~= if b {
                        "1"@
                    } else {
                        "0"@
                    });
                },
            }
            assert(setting_text(number, setting, text@));
            proof {
                kv = kv.push((key@, text@));
            }
            r.push((String::from_str(key), text));
            assert(kv =~= entries_of(r@));
            i = i + 1;
        }
        assert(kv.len() == factors(*self).len());
        assert forall|j: int| 0 <= j < kv.len() implies #[trigger] kv[j].0 == factors(*self)[j].0
            && setting_text(number, factors(*self)[j].1, kv[j].1) by {
            assert(kv[j].0 == fs[j].0);
            assert(setting_text(number, fs[j].1, kv[j].1));
        }
        r
    }

    /// The text of a markcfg0 with these factors, preserving keys this library
    /// ignores. `existing` is the bytes of the file as it is, where there is one.
    pub fn save<F: Fn(Double, Style) -> String>(
        &self,
        existing: Option<&[u8]>,
        number: F,
    ) -> (r: String)
        requires
            can_write(number),
        ensures
            exists|kv: Seq<Entry>, e: Seq<Entry>|
                {
                    &&& as_entries(*self, number, kv)
                    &&& ordered(e)
                    &&& map_of(e) == laid(
                        match existing {
                            Some(raw) => config_of(raw@),
                            None => Map::empty(),
                        },
                        kv,
                    )
                    &&& r@ == heading() + #[trigger] entry_lines(e)
                    &&& #[trigger] kv.len() == 14
                },
    {
        let mut cfg = match existing {
            Some(raw) => read_markcfg(raw),
            None => Config::new(),
        };
        let ghost m = cfg.table();
        let kv = self.as_markcfg(number);
        let n: usize = kv.len();
        let ghost own = entries_of(kv@);
        assert(own.take(0) =~= Seq::<Entry>::empty());
        for i in 0..n
            invariant
                n == kv@.len(),
                own == entries_of(kv@),
                cfg.wf(),
                cfg.table() == laid(m, own.take(i as int)),
        {
            assert(own.take(i + 1).drop_last() =~= own.take(i as int));
            assert(own.take(i + 1).last() == own[i as int]);
            cfg.insert(kv[i].0.as_str(), kv[i].1.as_str());
        }
        assert(own.take(n as int) =~= own);
        let r = cfg.render();
        assert(own.len() == 14 && r@ == heading() + entry_lines(cfg@));
        r
    }

    pub fn validate(&self) -> (r: Result<(), FieldError>)
        ensures
            match r {
                Ok(_) => fault(*self) is None,
                Err(e) => fault(*self) == Some(e),
            },
    {
        let zero = Double { bits: ZERO };
        if self.size_mm.le(zero) {
            return Err(FieldError::SizeNotPositive { size_mm: self.size_mm });
        }
        if self.aspect.0.same(zero) || self.aspect.1.same(zero) {
            return Err(FieldError::AspectZero);
        }
        Ok(())
    }

    /// Change factors in place, with validation: on a failure nothing changes.
    pub fn set(
        &mut self,
        size_mm: Option<Double>,
        offset_mm: Option<(Double, Double)>,
        aspect: Option<(Double, Double)>,
        negate: Option<(bool, bool)>,
        swap_xy: Option<bool>,
    ) -> (r: Result<(), FieldError>)
        ensures
            ({
                let new = with_factors(*old(self), size_mm, offset_mm, aspect, negate, swap_xy);
                match r {
                    Ok(_) => fault(new) is None && *final(self) == new,
                    Err(e) => fault(new) == Some(e) && *final(self) == *old(self),
                }
            }),
    {
        let was = (self.size_mm, self.offset_mm, self.aspect, self.negate, self.swap_xy);
        self.size_mm = size_mm.unwrap_or(self.size_mm);
        self.offset_mm = offset_mm.unwrap_or(self.offset_mm);
        self.aspect = aspect.unwrap_or(self.aspect);
        self.negate = negate.unwrap_or(self.negate);
        self.swap_xy = swap_xy.unwrap_or(self.swap_xy);
        let r = self.validate();
        if r.is_err() {
            self.put_back(was);
        }
        r
    }

    /// Change factors by their names, in order, with validation: on a failure nothing
    /// changes. Says whether there was anything to change.
    pub fn revise<P: Fn(String) -> Option<Double>>(
        &mut self,
        edits: &Vec<(String, String)>,
        parse: P,
    ) -> (r: Result<bool, FieldError>)
        requires
            forall|s: String| call_requires(parse, (s,)),
        ensures
            exists|v: Seq<Option<Double>>| #[trigger]
                reads_in_order(parse, edits@, v) && is_revision(
                    *old(self),
                    *final(self),
                    edits@,
                    v,
                    r,
                ),
    {
        let ghost f = *self;
        let was = (self.size_mm, self.offset_mm, self.aspect, self.negate, self.swap_xy);
        let n: usize = edits.len();
        let ghost mut v: Seq<Option<Double>> = Seq::empty();
        for i in 0..n
            invariant
                n == edits@.len(),
                f == *old(self),
                was == (f.size_mm, f.offset_mm, f.aspect, f.negate, f.swap_xy),
                forall|s: String| call_requires(parse, (s,)),
                v.len() == i,
                reads_in_order(parse, edits@, v),
                revised(f, changes(edits@, v)) == Some(*self),
                *self == (Field {
                    size_mm: self.size_mm,
                    offset_mm: self.offset_mm,
                    aspect: self.aspect,
                    negate: self.negate,
                    swap_xy: self.swap_xy,
                    ..f
                }),
        {
            let given = String::from_str(edits[i].1.as_str());
            let ghost text = given;
            let value = parse(given);
            proof {
                let w = v.push(value);
                assert(changes(edits@, w).drop_last() =~= changes(edits@, v));
                assert(changes(edits@, w).last() == (edits@[i as int].0@, value));
                assert forall|j: int| 0 <= j < w.len() implies reads_as(
                    parse,
                    edits@[j].1@,
                    #[trigger] w[j],
                ) by {
                    if j < i {
                        assert(w[j] == v[j]);
                    } else {
                        assert(text@ == edits@[j].1@ && call_ensures(parse, (text,), w[j]));
                    }
                }
                v = w;
                assert(reads_in_order(parse, edits@, v));
            }
            match self.edit(edits[i].0.as_str(), value) {
                Ok(_) => {},
                Err(e) => {
                    self.put_back(was);
                    assert(is_revision(f, *self, edits@, v, Err(e)));
                    return Err(e);
                },
            }
        }
        if n == 0 {
            assert(is_revision(f, *self, edits@, v, Ok(false)));
            return Ok(false);
        }
        match self.validate() {
            Ok(_) => {
                assert(is_revision(f, *self, edits@, v, Ok(true)));
                Ok(true)
            },
            Err(e) => {
                self.put_back(was);
                assert(is_revision(f, *self, edits@, v, Err(e)));
                Err(e)
            },
        }
    }

    fn put_back(
        &mut self,
        was: (Double, (Double, Double), (Double, Double), (bool, bool), bool),
    )
        ensures
            *final(self) == (Field {
                size_mm: was.0,
                offset_mm: was.1,
                aspect: was.2,
                negate: was.3,
                swap_xy: was.4,
                ..*old(self)
            }),
    {
        self.size_mm = was.0;
        self.offset_mm = was.1;
        self.aspect = was.2;
        self.negate = was.3;
        self.swap_xy = was.4;
    }

    /// Change one factor by its name. `value` is the number that was given, if it
    /// was one.
    pub fn edit(&mut self, key: &str, value: Option<Double>) -> (r: Result<(), FieldError>)
        ensures
            match value {
                None => *final(self) == *old(self) && (r matches Err(FieldError::NotANumber { key: k })
                    && k@ == key@),
                Some(v) => match edited(*old(self), key@, v) {
                    Some(f) => r is Ok && *final(self) == f,
                    None => *final(self) == *old(self) && (r matches Err(
                        FieldError::UnknownFactor { key: k },
                    ) && k@ == key@),
                },
            },
    {
        let v = match value {
            Some(v) => v,
            None => {
                return Err(FieldError::NotANumber { key: String::from_str(key) });
            },
        };
        let on = !v.same(Double { bits: ZERO });
        if is_text(key, "size_mm") {
            self.size_mm = v;
        } else if is_text(key, "offset_x") {
            self.offset_mm.0 = v;
        } else if is_text(key, "offset_y") {
            self.offset_mm.1 = v;
        } else if is_text(key, "aspect_x") {
            self.aspect.0 = v;
        } else if is_text(key, "aspect_y") {
            self.aspect.1 = v;
        } else if is_text(key, "negate_x") {
            self.negate.0 = on;
        } else if is_text(key, "negate_y") {
            self.negate.1 = on;
        } else if is_text(key, "swap_xy") {
            self.swap_xy = on;
        } else {
            return Err(FieldError::UnknownFactor { key: String::from_str(key) });
        }
        Ok(())
    }
}

// ---- failures in words ----------------------------------------------------

/// `t` is a failure in words, with its numbers as `number` writes them.
pub open spec fn says<F: Fn(Double, Style) -> String>(
    e: FieldError,
    number: F,
    t: Seq<char>,
) -> bool {
    match e {
        FieldError::SizeNotPositive { size_mm } => exists|a: Seq<char>|
            #[trigger] writes(number, size_mm, Style::Plain, a) && t
                == "size_mm must be positive, got "@ + a,
        FieldError::AspectZero => t == "aspect of 0% collapses the axis"@,
        FieldError::OutOfField { axis, asked_mm, size_mm, offset_mm } => exists|
            a: Seq<char>,
            b: Seq<char>,
            c: Seq<char>,
            d: Seq<char>,
        |
            {
                &&& #[trigger] writes(number, asked_mm, Style::Fixed(3), a)
                &&& #[trigger] writes(number, size_mm, Style::Plain, b)
                &&& #[trigger] writes(number, offset_mm.0, Style::Plain, c)
                &&& #[trigger] writes(number, offset_mm.1, Style::Plain, d)
                &&& t == (if axis == Axis::X {
                    "X="@
                } else {
                    "Y="@
                }) + a + " mm is outside the "@ + b + " mm field (centre "@ + c + ", "@ + d + ")"@
            },
        FieldError::NotANumber { key } => t == key@ + " needs a number"@,
        FieldError::UnknownFactor { key } => t == "unknown factor "@ + key@,
    }
}

impl FieldError {
    /// The failure in words.
    pub fn message<F: Fn(Double, Style) -> String>(&self, number: F) -> (r: String)
        requires
            can_write(number),
        ensures
            says(*self, number, r@),
    {
        match self {
            FieldError::SizeNotPositive { size_mm } => {
                let mut r = String::from_str("size_mm must be positive, got ");
                let a = push_number(&mut r, &number, *size_mm, Style::Plain);
                assert(writes(number, *size_mm, Style::Plain, a@));
                r
            },
            FieldError::AspectZero => String::from_str("aspect of 0% collapses the axis"),
            FieldError::OutOfField { axis, asked_mm, size_mm, offset_mm } => {
                let mut r = String::from_str(
                    if *axis == Axis::X {
                        "X="
                    } else {
                        "Y="
                    },
                );
                let a = push_number(&mut r, &number, *asked_mm, Style::Fixed(3));
                r.append(" mm is outside the ");
                let b = push_number(&mut r, &number, *size_mm, Style::Plain);
                r.append(" mm field (centre ");
                let c = push_number(&mut r, &number, offset_mm.0, Style::Plain);
                r.append(", ");
                let d = push_number(&mut r, &number, offset_mm.1, Style::Plain);
                r.append(")");
                assert(writes(number, *asked_mm, Style::Fixed(3), a@));
                assert(writes(number, *size_mm, Style::Plain, b@));
                assert(writes(number, offset_mm.0, Style::Plain, c@));
                assert(writes(number, offset_mm.1, Style::Plain, d@));
                r
            },
            FieldError::NotANumber { key } => {
                let mut r = String::from_str(key.as_str());
                r.append(" needs a number");
                r
            },
            FieldError::UnknownFactor { key } => {
                let mut r = String::from_str("unknown factor ");
                r.append(key.as_str());
                r
            },
        }
    }
}

// ---- laws -----------------------------------------------------------------

proof fn lemma_keys_are_clean(f: Field, i: int, v: Seq<char>)
    requires
        0 <= i < factors(f).len(),
        is_clean((seq!['0'], v)),
    ensures
        is_clean((factors(f)[i].0, v)),
{
    reveal_strlit("FIELDSIZE");
    reveal_strlit("FIELDOFFSETX");
    reveal_strlit("FIELDOFFSETY");
    reveal_strlit("GALVOASPECT0");
    reveal_strlit("GALVOASPECT1");
    reveal_strlit("GALVONEGATE0");
    reveal_strlit("GALVONEGATE1");
    reveal_strlit("GALVOX");
    reveal_strlit("GALVODISTOR0");
    reveal_strlit("GALVODISTOR1");
    reveal_strlit("GALVOHORVER0");
    reveal_strlit("GALVOHORVER1");
    reveal_strlit("GALVOTRAPEDISTOR0");
    reveal_strlit("GALVOTRAPEDISTOR1");
}

/// Clamping always gives a count, and changes nothing inside the field: a count that
/// is placed without it is placed the same with it. No count wraps either way.
pub proof fn law_clamping_changes_nothing_inside(v: Option<i64>, clamp: bool)
    ensures
        placed(v, true) is Some,
        placed(v, false) is Some ==> placed(v, true) == placed(v, false),
        placed(v, clamp) matches Some(c) ==> 0 <= c <= 0xFFFF,
        v matches Some(x) ==> 0 <= x <= 0xFFFF ==> placed(v, clamp) == Some(x as int),
{
}

/// Its length, its sixth character and its last one tell a factor's key from the
/// others.
spec fn key_mark(k: Seq<char>) -> int {
    k.len() * 65536 + (k[5] as int) * 256 + k.last() as int
}

/// Which factor a key is of.
spec fn key_rank(k: Seq<char>) -> int {
    let m = key_mark(k);
    if m == 611141 {
        0
    } else if m == 806744 {
        1
    } else if m == 806745 {
        2
    } else if m == 803120 {
        3
    } else if m == 803121 {
        4
    } else if m == 806448 {
        5
    } else if m == 806449 {
        6
    } else if m == 415832 {
        7
    } else if m == 803888 {
        8
    } else if m == 803889 {
        9
    } else if m == 804912 {
        10
    } else if m == 804913 {
        11
    } else if m == 1135664 {
        12
    } else if m == 1135665 {
        13
    } else {
        -1
    }
}

proof fn lemma_key_rank(f: Field, i: int)
    requires
        0 <= i < 14,
    ensures
        key_rank(factors(f)[i].0) == i,
{
    reveal_strlit("FIELDSIZE");
    reveal_strlit("FIELDOFFSETX");
    reveal_strlit("FIELDOFFSETY");
    reveal_strlit("GALVOASPECT0");
    reveal_strlit("GALVOASPECT1");
    reveal_strlit("GALVONEGATE0");
    reveal_strlit("GALVONEGATE1");
    reveal_strlit("GALVOX");
    reveal_strlit("GALVODISTOR0");
    reveal_strlit("GALVODISTOR1");
    reveal_strlit("GALVOHORVER0");
    reveal_strlit("GALVOHORVER1");
    reveal_strlit("GALVOTRAPEDISTOR0");
    reveal_strlit("GALVOTRAPEDISTOR1");
    if i == 0 {
        assert(key_mark("FIELDSIZE"@) == 611141);
    } else if i == 1 {
        assert(key_mark("FIELDOFFSETX"@) == 806744);
    } else if i == 2 {
        assert(key_mark("FIELDOFFSETY"@) == 806745);
    } else if i == 3 {
        assert(key_mark("GALVOASPECT0"@) == 803120);
    } else if i == 4 {
        assert(key_mark("GALVOASPECT1"@) == 803121);
    } else if i == 5 {
        assert(key_mark("GALVONEGATE0"@) == 806448);
    } else if i == 6 {
        assert(key_mark("GALVONEGATE1"@) == 806449);
    } else if i == 7 {
        assert(key_mark("GALVOX"@) == 415832);
    } else if i == 8 {
        assert(key_mark("GALVODISTOR0"@) == 803888);
    } else if i == 9 {
        assert(key_mark("GALVODISTOR1"@) == 803889);
    } else if i == 10 {
        assert(key_mark("GALVOHORVER0"@) == 804912);
    } else if i == 11 {
        assert(key_mark("GALVOHORVER1"@) == 804913);
    } else if i == 12 {
        assert(key_mark("GALVOTRAPEDISTOR0"@) == 1135664);
    } else if i == 13 {
        assert(key_mark("GALVOTRAPEDISTOR1"@) == 1135665);
    }
}

/// A saved field reads back, and nothing else is lost: the file says the factors
/// as they were written and, of every other key, what it said before.
pub proof fn law_a_saved_field_reads_back<F: Fn(Double, Style) -> String>(
    f: Field,
    number: F,
    raw: Seq<u8>,
    kv: Seq<Entry>,
    e: Seq<Entry>,
    k: Seq<char>,
)
    requires
        as_entries(f, number, kv),
        forall|i: int| 0 <= i < kv.len() ==> is_clean((seq!['0'], #[trigger] kv[i].1)),
        ordered(e),
        map_of(e) == laid(config_of(raw), kv),
    ensures
        ({
            let file = config_of(encode_utf8(heading() + entry_lines(e)));
            &&& file == laid(config_of(raw), kv)
            &&& forall|i: int|
                0 <= i < kv.len() ==> file.dom().contains((#[trigger] kv[i]).0) && file[kv[i].0]
                    == kv[i].1
            &&& !has_key(kv, k) ==> {
                &&& file.dom().contains(k) == config_of(raw).dom().contains(k)
                &&& file.dom().contains(k) ==> file[k] == config_of(raw)[k]
            }
        }),
{
    assert forall|i: int| 0 <= i < kv.len() implies is_clean(#[trigger] kv[i]) by {
        assert(kv[i].0 == factors(f)[i].0);
        assert(is_clean((seq!['0'], kv[i].1)));
        lemma_keys_are_clean(f, i, kv[i].1);
    }
    law_rewriting_keeps_what_was_read(raw, kv, e);
    assert forall|i: int| 0 <= i < kv.len() implies laid(config_of(raw), kv).dom().contains(
        (#[trigger] kv[i]).0,
    ) && laid(config_of(raw), kv)[kv[i].0] == kv[i].1 by {
        assert forall|j: int| i < j < kv.len() implies (#[trigger] kv[j]).0 != kv[i].0 by {
            assert(kv[i].0 == factors(f)[i].0 && kv[j].0 == factors(f)[j].0);
            lemma_key_rank(f, i);
            lemma_key_rank(f, j);
        }
        law_a_key_says_what_it_was_set_to(config_of(raw), kv, i);
    }
    if !has_key(kv, k) {
        law_other_keys_are_kept(config_of(raw), kv, k);
    }
}

/// A reader of numbers gives back what was written: of text `t` the number that the
/// setting is, or one that says the same flag.
pub open spec fn gives_back<P: Fn(String) -> Option<Double>>(
    parse: P,
    s: Setting,
    t: Seq<char>,
) -> bool {
    forall|x: String, o: Option<Double>| #[trigger]
        call_ensures(parse, (x,), o) && x@ == t ==> match s {
            Setting::Number(d) => o == Some(d),
            Setting::Flag(b) => o is Some && b == !o->0.equals(Double { bits: ZERO }),
        }
}

/// What is loaded from a table that holds a field's factors is that field, wherever
/// the reader of numbers gives back what the writer wrote.
pub proof fn law_what_was_saved_is_loaded<P: Fn(String) -> Option<Double>>(
    f: Field,
    kv: Seq<Entry>,
    file: Map<Seq<char>, Seq<char>>,
    parse: P,
    g: Field,
)
    requires
        kv.len() == factors(f).len(),
        forall|i: int|
            0 <= i < kv.len() ==> (#[trigger] kv[i]).0 == factors(f)[i].0 && file.dom().contains(
                kv[i].0,
            ) && file[kv[i].0] == kv[i].1 && gives_back(parse, factors(f)[i].1, kv[i].1),
        described(parse, file, g),
    ensures
        g == (Field { path: g.path, created: g.created, ..f }),
{
    let fs = factors(f);
    assert(kv[0].0 == fs[0].0 && kv[1].0 == fs[1].0 && kv[2].0 == fs[2].0);
    assert(kv[3].0 == fs[3].0 && kv[4].0 == fs[4].0 && kv[5].0 == fs[5].0);
    assert(kv[6].0 == fs[6].0 && kv[7].0 == fs[7].0 && kv[8].0 == fs[8].0);
    assert(kv[9].0 == fs[9].0 && kv[10].0 == fs[10].0 && kv[11].0 == fs[11].0);
    assert(kv[12].0 == fs[12].0 && kv[13].0 == fs[13].0);
}

} // verus!
