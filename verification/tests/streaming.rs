//! Offline checks of the geometry and timing layer, against a fake transport. No
//! hardware is touched: these assert what goes on the wire.

use dbk2jp::double::{Double, Style};
use dbk2jp::job::Job;
use dbk2jp::limits::Limits;
use dbk2jp::script::{Next, Run, Script};
use dbk2jp::stream::{
    chain_segments, gates, lit_runs, speed_of, traced_time, Leg, Load, PathError, PathOpts, Point,
    Speed, SpeedError, MAX_SEGS,
};
use dbk2jp::survey::fit_overshoot;
use dbk2jp::usb::{Board, Result, Transport, Xfer};
use dbk2jp::Field;
use std::sync::{Arc, Mutex};

// ---- a board that records -------------------------------------------------

struct Recorder {
    writes: Arc<Mutex<Vec<Vec<u8>>>>,
}

impl Transport for Recorder {
    fn path(&self) -> String {
        "fake".into()
    }
    fn xfer(&mut self, ep: u8, payload: &[u8], read_len: usize, _t: u32) -> Result<Xfer> {
        if read_len > 0 {
            // A plausible 0x0101 reply: armed, idle, 189 free slots.
            let mut st = vec![0u8; 12];
            st[0] = 0x01;
            st[1] = 0x01;
            st[2] = 0x2E;
            st[5] = 0x0F;
            st[6] = 0xBD;
            return Ok(Xfer {
                nt: 0,
                usbd: 0,
                data: st,
                moved: 12,
            });
        }
        if ep == 0x02 {
            self.writes.lock().unwrap().push(payload.to_vec());
        }
        Ok(Xfer {
            nt: 0,
            usbd: 0,
            data: Vec::new(),
            moved: payload.len(),
        })
    }
    fn abort_pipe(&mut self, _ep: u8) -> bool {
        true
    }
    fn reset_pipe(&mut self, _ep: u8) -> bool {
        true
    }
    fn close(&mut self) {}
}

// ---- real arithmetic ------------------------------------------------------

fn double(x: f64) -> Double {
    Double { bits: x.to_bits() }
}

fn value(d: Double) -> f64 {
    f64::from_bits(d.bits)
}

fn number(d: Double, style: Style) -> String {
    let x = value(d);
    match style {
        Style::Plain => format!("{}", x),
        Style::Fixed(n) => format!("{:.*}", n as usize, x),
        Style::Scientific(n) => format!("{:.*e}", n as usize, x),
    }
}

fn rounded(x: f64) -> Option<i64> {
    let v = x.round();
    if v.is_nan() {
        None
    } else {
        Some(v as i64)
    }
}

fn at(p: Point) -> (f64, f64) {
    (p.0 as f64, p.1 as f64)
}

/// A length in millimetres on the centred, undistorted field used here.
fn len_mm(f: &Field, a: (f64, f64), b: (f64, f64)) -> f64 {
    let mm = value(f.size_mm) / 2.0 / 32767.0;
    (((b.0 - a.0) * mm).powi(2) + ((b.1 - a.1) * mm).powi(2)).sqrt()
}

fn lead(p0: Point, p1: Point, counts: i64, at_start: bool) -> (i64, i64) {
    let (a, b) = (at(p0), at(p1));
    let (dx, dy) = (b.0 - a.0, b.1 - a.1);
    let d = (dx * dx + dy * dy).sqrt();
    if d == 0.0 || counts <= 0 {
        let p = if at_start { p0 } else { p1 };
        return (p.0 as i64, p.1 as i64);
    }
    let (ux, uy) = (dx / d, dy / d);
    let c = counts as f64;
    if at_start {
        ((a.0 - ux * c).round() as i64, (a.1 - uy * c).round() as i64)
    } else {
        ((b.0 + ux * c).round() as i64, (b.1 + uy * c).round() as i64)
    }
}

#[derive(Clone, Copy)]
struct Stretch {
    phase: f64,
    travelled: f64,
    run_len: f64,
}

fn wiggle_points(
    p0: Point,
    p1: Point,
    radius: f64,
    pitch: f64,
    steps: u32,
    s: Stretch,
) -> (Vec<(f64, f64)>, f64) {
    let (a, b) = (at(p0), at(p1));
    let (dx, dy) = (b.0 - a.0, b.1 - a.1);
    let length = (dx * dx + dy * dy).sqrt();
    if length == 0.0 || radius <= 0.0 {
        return (vec![b], s.phase);
    }
    let (ux, uy) = (dx / length, dy / length);
    let turns = length / pitch;
    let n = ((turns * steps as f64).round() as usize).max(2);
    let amp = |d: f64| -> f64 {
        if s.run_len <= 0.0 {
            return radius;
        }
        let ramp = pitch.min(s.run_len / 2.0);
        if ramp <= 0.0 {
            return radius;
        }
        let head = (d / ramp).min(1.0);
        let tail = ((s.run_len - d) / ramp).clamp(0.0, 1.0);
        radius * head.min(tail)
    };
    let on = |f: f64| -> (f64, f64) {
        let angle = s.phase + 2.0 * std::f64::consts::PI * turns * f;
        let r = amp(s.travelled + length * f);
        (
            a.0 + ux * length * f + r * angle.cos(),
            a.1 + uy * length * f + r * angle.sin(),
        )
    };
    let dense = (n * 8).max(64);
    let pts: Vec<(f64, f64)> = (0..=dense).map(|i| on(i as f64 / dense as f64)).collect();
    let mut cum = vec![0.0];
    let mut acc = 0.0;
    for w in pts.windows(2) {
        acc += ((w[1].0 - w[0].0).powi(2) + (w[1].1 - w[0].1).powi(2)).sqrt();
        cum.push(acc);
    }
    let total = if acc == 0.0 { 1.0 } else { acc };
    let mut out = Vec::with_capacity(n);
    let mut j = 0usize;
    for i in 1..=n {
        let want = total * i as f64 / n as f64;
        while j + 2 < cum.len() && cum[j + 1] < want {
            j += 1;
        }
        let span = cum[j + 1] - cum[j];
        let t = if span <= 0.0 { 0.0 } else { (want - cum[j]) / span };
        let (p, q) = (pts[j], pts[j + 1]);
        out.push((p.0 + (q.0 - p.0) * t, p.1 + (q.1 - p.1) * t));
    }
    let last = out.len() - 1;
    out[last] = on(1.0);
    (out, s.phase + 2.0 * std::f64::consts::PI * turns)
}

fn load(radius_mm: f64, pitch_mm: f64, mm_s: f64, steps: u32) -> Load {
    let steps = steps.max(4) as f64;
    let turn = ((2.0 * std::f64::consts::PI * radius_mm).powi(2) + pitch_mm * pitch_mm).sqrt();
    Load {
        radius_mm: double(radius_mm),
        pitch_mm: double(pitch_mm),
        mm_s: double(mm_s),
        loop_hz: double(mm_s / pitch_mm),
        accel_mm_s2: double(mm_s * mm_s / radius_mm),
        accel_g: double(mm_s * mm_s / radius_mm / 9810.0),
        exposure: double(turn / pitch_mm),
        chord_mm: double(turn / steps),
        vectors_per_s: double(mm_s * steps / pitch_mm),
    }
}

/// The rounded circles over each lit segment.
fn curves(points: &[Point], flags: &[bool], o: PathOpts) -> Vec<Vec<(i64, i64)>> {
    let mut out: Vec<Vec<(i64, i64)>> = vec![Vec::new(); flags.len()];
    if o.wiggle <= 0 {
        return out;
    }
    for (first, end) in lit_runs(flags) {
        let lens: Vec<f64> = (first..end)
            .map(|i| {
                let (a, b) = (at(points[i]), at(points[i + 1]));
                ((b.0 - a.0).powi(2) + (b.1 - a.1).powi(2)).sqrt()
            })
            .collect();
        let mut s = Stretch {
            phase: 0.0,
            travelled: 0.0,
            run_len: lens.iter().sum(),
        };
        for i in first..end {
            let (radius, pitch) = (o.wiggle as f64, o.wiggle_pitch as f64);
            let (curve, phase) =
                wiggle_points(points[i], points[i + 1], radius, pitch, o.wiggle_steps, s);
            out[i] = curve
                .iter()
                .map(|(x, y)| (x.round() as i64, y.round() as i64))
                .collect();
            s.phase = phase;
            s.travelled += lens[i - first];
        }
    }
    out
}

// ---- the rig --------------------------------------------------------------

struct Out {
    commands: usize,
    us: u64,
    overshoot: i64,
    exposure: f64,
}

struct Rig {
    board: Board<Recorder>,
    job: Job,
    writes: Arc<Mutex<Vec<Vec<u8>>>>,
}

fn rig() -> Rig {
    let writes = Arc::new(Mutex::new(Vec::new()));
    let board = Board::with_transport(Recorder {
        writes: writes.clone(),
    });
    let job = Job::new("co2", Some(Field::new(double(110.0)))).unwrap();
    Rig { board, job, writes }
}

impl Rig {
    /// Carry a script out without waiting for it.
    fn perform(&mut self, script: Script) -> Result<Option<Vec<u8>>> {
        let mut run = Run::new(script);
        while run.step(&mut self.board) != Next::Done {}
        self.job.finish(run.finish())
    }

    fn stream(
        &mut self,
        points: &[Point],
        lit: Option<&[bool]>,
        segs: Option<&[(Point, Point)]>,
        speed: Speed,
        o: PathOpts,
    ) -> std::result::Result<Out, String> {
        let field = self.job.field().clone();
        let flags = gates(points, lit, o).map_err(|e| e.message())?;
        let mm = value(field.size_mm) / 65535.0;
        let (radius, pitch) = (o.wiggle as f64, o.wiggle_pitch as f64);
        let curves = curves(points, &flags, o);
        let steps_mm = |i: usize, chain: &[(i64, i64)]| -> Vec<f64> {
            let mut prev = at(points[i]);
            chain
                .iter()
                .map(|c| {
                    let next = (c.0 as f64, c.1 as f64);
                    let d = len_mm(&field, prev, next);
                    prev = next;
                    d
                })
                .collect()
        };
        let straight_mm = |i: usize| len_mm(&field, at(points[i]), at(points[i + 1]));
        let times = |i: usize, chain: &Vec<(i64, i64)>| {
            let lens = steps_mm(i, chain);
            match speed {
                Speed::MmPerSec(v) => {
                    let us = lens.iter().map(|d| rounded(d / value(v) * 1e6)).collect();
                    (us, None)
                }
                Speed::Micros(us) => {
                    let total = lens.iter().sum::<f64>().max(f64::MIN_POSITIVE);
                    let shares: Vec<Option<i64>> = lens
                        .iter()
                        .map(|d| rounded(us as f64 * d / total))
                        .collect();
                    let seconds = (0..shares.len())
                        .map(|k| traced_time(speed, &shares, k) as f64)
                        .sum::<f64>()
                        * 1e-6;
                    let asked = if straight_mm(i) > 0.0 {
                        let mm_s = lens.iter().sum::<f64>() / seconds;
                        Some(load(radius * mm, pitch * mm, mm_s, o.wiggle_steps))
                    } else {
                        None
                    };
                    (shares, asked)
                }
            }
        };
        let feed = |a: Point, b: Point| match speed {
            Speed::MmPerSec(v) => rounded(len_mm(&field, at(a), at(b)) / value(v) * 1e6),
            Speed::Micros(_) => None,
        };
        let curve = |i: usize| curves[i].clone();
        let lengths = |legs: &Vec<Leg>| {
            let (mut straight, mut traced) = (0.0, 0.0);
            for i in (0..legs.len()).filter(|i| flags[*i]) {
                straight += straight_mm(i);
                traced += if o.wiggle > 0 {
                    steps_mm(i, &legs[i].curve).iter().sum::<f64>()
                } else {
                    straight_mm(i)
                };
            }
            (double(straight), double(traced / straight))
        };
        let asked = match speed {
            Speed::MmPerSec(v) => Some(load(radius * mm, pitch * mm, value(v), o.wiggle_steps)),
            Speed::Micros(_) => None,
        };
        let (script, e) = match segs {
            Some(segs) => self
                .job
                .segments(segs, speed, o, lead, feed, curve, times, asked, lengths),
            None => self
                .job
                .path(points, lit, speed, o, lead, feed, curve, times, asked, lengths),
        }
        .map_err(|e| e.message())?;
        self.perform(script).map_err(|e| e.message())?;
        Ok(Out {
            commands: e.commands,
            us: e.us,
            overshoot: e.overshoot,
            exposure: value(e.exposure),
        })
    }

    fn path(
        &mut self,
        points: &[Point],
        lit: Option<&[bool]>,
        speed: Speed,
        o: PathOpts,
    ) -> std::result::Result<Out, String> {
        self.stream(points, lit, None, speed, o)
    }

    fn segments(
        &mut self,
        segs: &[(Point, Point)],
        speed: Speed,
        o: PathOpts,
    ) -> std::result::Result<Out, String> {
        let (points, lit) = chain_segments(segs).map_err(|e| e.message())?;
        self.stream(&points, Some(&lit), Some(segs), speed, o)
    }

    fn cmds(&self) -> Vec<[u16; 6]> {
        let mut out = Vec::new();
        for blob in self.writes.lock().unwrap().iter() {
            for chunk in blob.chunks(12) {
                if let Some(f) = dbk2jp::parse(chunk) {
                    out.push(f);
                }
            }
        }
        out
    }
    fn marks(&self) -> Vec<[u16; 6]> {
        self.cmds().into_iter().filter(|c| c[0] == 0x0243).collect()
    }
    fn jumps(&self) -> Vec<[u16; 6]> {
        self.cmds().into_iter().filter(|c| c[0] == 0x0241).collect()
    }
    fn writes(&self) -> usize {
        self.writes.lock().unwrap().len()
    }
    fn warnings(&mut self) -> Vec<String> {
        self.job
            .take_warnings()
            .iter()
            .map(|w| w.message(&number))
            .collect()
    }
}

fn mm_s(v: f64) -> Speed {
    Speed::MmPerSec(double(v))
}

const A: Point = (0x4000, 0x8000);
const B: Point = (0x6000, 0x8000);
/// counts per mm on the 110 mm field used here
const CPM: f64 = 65535.0 / 110.0;

fn dist_to_line(p: (f64, f64), a: (f64, f64), b: (f64, f64)) -> f64 {
    let (dx, dy) = (b.0 - a.0, b.1 - a.1);
    ((dx * (a.1 - p.1) - (a.0 - p.0) * dy) / (dx * dx + dy * dy).sqrt()).abs()
}

#[test]
fn gates_the_laser_per_segment() {
    let mut r = rig();
    let pts = [A, B, (0x6000, 0x9000)];
    r.path(&pts, Some(&[true, false]), Speed::Micros(1000), PathOpts::default())
        .unwrap();
    assert_eq!(r.marks().len(), 1, "one lit segment");
    // The unlit leg is a traverse at jump speed, not a crawl at the feed rate.
    let gap = r.jumps().into_iter().find(|c| c[3] == 0x9000).unwrap();
    assert_eq!(gap[1], 0x2710);
}

#[test]
fn feed_rate_holds_across_unequal_segments() {
    let mut r = rig();
    let pts = [(0x8000, 0x8000), (0x9000, 0x8000), (0x9000, 0x8800)];
    r.path(&pts, None, mm_s(1000.0), PathOpts::default()).unwrap();
    let mut prev: (f64, f64) = (32768.0, 32768.0);
    for c in r.marks() {
        let d = ((c[2] as f64 - prev.0).powi(2) + (c[3] as f64 - prev.1).powi(2)).sqrt() / CPM;
        let mm_s = d / (c[1] as f64 * 1e-6);
        assert!((mm_s - 1000.0).abs() < 5.0, "{} mm/s", mm_s);
        prev = (c[2] as f64, c[3] as f64);
    }
}

#[test]
fn run_up_is_trimmed_to_the_travel_limits_rather_than_refused() {
    let mut r = rig();
    let out = r
        .path(
            &[(0x0064, 0x8000), B],
            None,
            Speed::Micros(1000),
            PathOpts {
                overshoot: 400,
                ..Default::default()
            },
        )
        .unwrap();
    assert_eq!(out.overshoot, 100, "only 100 counts of room existed");
    assert_eq!(r.jumps()[0][2], 0, "run-up starts at the limit");
}

#[test]
fn out_of_field_geometry_is_refused_before_anything_is_written() {
    let mut r = rig();
    let err = r
        .path(&[(0x8000, 0x8000); 1], None, Speed::Micros(100), PathOpts::default())
        .err()
        .unwrap();
    assert!(err.contains("at least two points"), "{}", err);
    assert_eq!(r.writes(), 0);
}

#[test]
fn dwell_lands_only_where_a_lit_run_ends() {
    let mut r = rig();
    r.path(
        &[A, B, (0x6000, 0x9000)],
        None,
        mm_s(600.0),
        PathOpts {
            delay: 500,
            corner_delay: 80,
            ..Default::default()
        },
    )
    .unwrap();
    let m = r.marks();
    assert_eq!(m[0][5], 80, "interior vertex takes the corner delay");
    assert_eq!(m[1][5], 500, "closing vector takes the laser-off delay");
}

#[test]
fn wiggle_widens_by_twice_the_radius_and_lands_on_the_ends() {
    let mut r = rig();
    let out = r
        .path(
            &[A, B],
            None,
            mm_s(300.0),
            PathOpts {
                wiggle: 60,
                wiggle_pitch: 400,
                ..Default::default()
            },
        )
        .unwrap();
    let m = r.marks();
    let offs: Vec<f64> = m
        .iter()
        .map(|c| {
            dist_to_line(
                (c[2] as f64, c[3] as f64),
                (A.0 as f64, A.1 as f64),
                (B.0 as f64, B.1 as f64),
            )
        })
        .collect();
    let max = offs.iter().cloned().fold(0.0, f64::max);
    assert!((max - 60.0).abs() <= 1.5, "kerf half-width {}", max);
    // The amplitude ramps in and out, so the cut starts and ends on the line.
    assert!(offs[0] < 10.0 && *offs.last().unwrap() < 10.0);
    assert_eq!(
        (m.last().unwrap()[2], m.last().unwrap()[3]),
        B,
        "ends exactly on the endpoint"
    );
    assert!(out.exposure > 1.15, "exposure {}", out.exposure);
    // Every wiggle point except the last carries no dwell of its own.
    assert!(m[..m.len() - 1].iter().all(|c| c[5] == 0));
}

#[test]
fn wiggle_belongs_to_the_run_not_to_each_segment() {
    let opts = PathOpts {
        wiggle: 60,
        wiggle_pitch: 400,
        ..Default::default()
    };
    let mut whole = rig();
    let w = whole.path(&[A, B], None, mm_s(300.0), opts).unwrap();
    let split_pts: Vec<(u16, u16)> = (0..6).map(|i| (0x4000 + i * 1638, 0x8000)).collect();
    let mut split = rig();
    let s = split.path(&split_pts, None, mm_s(300.0), opts).unwrap();
    assert!(
        (w.exposure - s.exposure).abs() < 0.02,
        "whole {} vs split {}",
        w.exposure,
        s.exposure
    );

    // A run shorter than one pitch gets a fraction of a turn, not a full loop.
    let short: Vec<(u16, u16)> = (0..6).map(|i| (0x8000 + i * 30, 0x8000)).collect();
    let mut r = rig();
    let out = r.path(&short, None, mm_s(300.0), opts).unwrap();
    assert!(out.commands < 20, "{} commands", out.commands);
    assert!(out.exposure < 2.5, "{}x", out.exposure);
}

#[test]
fn a_wiggle_leaving_the_field_is_refused() {
    let mut r = rig();
    let err = r
        .path(
            &[(0x4000, 100), (0x6000, 100)],
            None,
            mm_s(300.0),
            PathOpts {
                wiggle: 200,
                wiggle_pitch: 400,
                ..Default::default()
            },
        )
        .err()
        .unwrap();
    assert!(err.contains("wiggle point"), "{}", err);
    assert_eq!(r.writes(), 0, "nothing was written");
}

#[test]
fn raw_duration_is_split_across_the_traced_path() {
    let mut r = rig();
    r.path(
        &[A, B],
        None,
        Speed::Micros(5000),
        PathOpts {
            wiggle: 60,
            wiggle_pitch: 400,
            ..Default::default()
        },
    )
    .unwrap();
    let total: u32 = r.marks().iter().map(|c| c[1] as u32).sum();
    let n = r.marks().len() as u32;
    assert!(
        (total as i64 - 5000).unsigned_abs() <= n as u64,
        "{} us over {} marks",
        total,
        n
    );
}

#[test]
fn tighter_pitch_concentrates_more_exposure() {
    let mut wide = rig();
    let w = wide
        .path(
            &[A, B],
            None,
            mm_s(600.0),
            PathOpts {
                wiggle: 60,
                wiggle_pitch: 400,
                ..Default::default()
            },
        )
        .unwrap();
    let mut tight = rig();
    let t = tight
        .path(
            &[A, B],
            None,
            mm_s(600.0),
            PathOpts {
                wiggle: 60,
                wiggle_pitch: 120,
                ..Default::default()
            },
        )
        .unwrap();
    assert!(t.exposure > w.exposure * 2.0, "{} vs {}", t.exposure, w.exposure);
}

#[test]
fn segments_batch_into_one_write_and_report_the_kinematics() {
    let mut r = rig();
    let out = r
        .segments(
            &[(A, B), ((0xA000, 0x8000), (0xC000, 0x8000))],
            mm_s(2000.0),
            PathOpts {
                overshoot: 200,
                ..Default::default()
            },
        )
        .unwrap();
    assert_eq!(r.writes(), 1, "one write for both segments");
    assert_eq!(out.overshoot, 200);

    // The load report needs no machine data to state the physics.
    let load = r.job.wiggle_load(&load(0.1, 0.6, 600.0, 16)).unwrap();
    assert!((value(load.loop_hz) - 1000.0).abs() < 1.0);
    assert!((value(load.accel_g) - 367.0).abs() < 2.0, "{} g", value(load.accel_g));
}

#[test]
fn limits_flag_a_wiggle_the_mirrors_will_not_follow() {
    let mut r = rig();
    r.job.set_limits(Limits {
        max_mm_s: Some(double(3000.0)),
        max_accel_mm_s2: Some(double(200_000.0)),
        max_loop_hz: Some(double(250.0)),
    });
    let load = r.job.wiggle_load(&load(0.1, 0.6, 600.0, 16)).unwrap();
    assert_eq!(load.exceeded.len(), 2, "{:?}", load.exceeded);
    let a = value(r.job.runup_accel(None).unwrap());
    assert!((600.0 * 600.0 / (2.0 * a) - 0.9f64).abs() < 1e-9);

    r.path(
        &[A, B],
        None,
        mm_s(600.0),
        PathOpts {
            wiggle: 60,
            wiggle_pitch: 400,
            ..Default::default()
        },
    )
    .unwrap();
    let warnings = r.warnings();
    assert!(
        warnings.iter().any(|w| w.contains("lateral acceleration")),
        "{:?}",
        warnings
    );
    assert!(r.warnings().is_empty(), "taken once");
}

#[test]
fn batches_are_chunked_at_max_segs() {
    let mut r = rig();
    let out = r
        .path(
            &[(0x2000, 0x8000), (0xE000, 0x8000)],
            None,
            mm_s(500.0),
            PathOpts {
                wiggle: 40,
                wiggle_pitch: 100,
                ..Default::default()
            },
        )
        .unwrap();
    assert_eq!(r.writes(), out.commands.div_ceil(MAX_SEGS));
}

#[test]
fn a_path_is_one_opening_jump_and_its_marks() {
    let mut r = rig();
    let out = r
        .path(&[A, B], None, Speed::Micros(1000), PathOpts::default())
        .unwrap();
    assert_eq!(
        r.cmds(),
        vec![
            [0x0241, 0x2710, 0x4000, 0x8000, 0, 0x01F4],
            [0x0243, 1000, 0x6000, 0x8000, 0, 500],
        ]
    );
    assert_eq!((out.commands, out.us, out.overshoot), (2, 11000, 0));
    assert_eq!(out.exposure, 1.0);
    assert!(r.job.is_live(), "vectors that landed leave the laser live");
}

#[test]
fn a_run_up_is_dark_and_runs_at_the_marking_rate() {
    let mut r = rig();
    let o = PathOpts {
        overshoot: 0x200,
        ..Default::default()
    };
    let out = r.path(&[A, B], None, Speed::Micros(700), o).unwrap();
    assert_eq!(
        r.cmds(),
        vec![
            [0x0241, 0x2710, 0x3E00, 0x8000, 0, 0x01F4],
            [0x0241, 700, 0x4000, 0x8000, 0, 0],
            [0x0243, 700, 0x6000, 0x8000, 0, 500],
            [0x0241, 700, 0x6200, 0x8000, 0, 0],
        ]
    );
    assert_eq!(out.overshoot, 0x200);
}

#[test]
fn no_room_for_a_run_up_leaves_only_the_jump() {
    let mut r = rig();
    let o = PathOpts {
        overshoot: 300,
        ..Default::default()
    };
    let out = r.path(&[(0, 0x8000), A], None, Speed::Micros(700), o).unwrap();
    assert_eq!(out.overshoot, 0);
    assert_eq!(r.jumps()[0], [0x0241, 0x2710, 0, 0x8000, 0, 0x01F4]);
    assert_eq!(r.cmds()[1][0], 0x0243, "no run-up vector of length nothing");
}

#[test]
fn dark_legs_run_at_jump_speed_or_at_the_feed() {
    let pts = [A, B, (0x6000, 0x9000)];
    let lit = [true, false];
    let mut jumping = rig();
    jumping
        .path(&pts, Some(&lit), Speed::Micros(900), PathOpts::default())
        .unwrap();
    assert_eq!(
        *jumping.cmds().last().unwrap(),
        [0x0241, 0x2710, 0x6000, 0x9000, 0, 0x01F4]
    );
    let mut feeding = rig();
    let o = PathOpts {
        unlit_at_feed: true,
        ..Default::default()
    };
    feeding.path(&pts, Some(&lit), Speed::Micros(900), o).unwrap();
    assert_eq!(
        *feeding.cmds().last().unwrap(),
        [0x0241, 900, 0x6000, 0x9000, 0, 0]
    );
}

#[test]
fn a_duration_is_held_between_one_and_the_largest_word() {
    let mut r = rig();
    r.path(&[A, B, B], None, mm_s(0.001), PathOpts::default()).unwrap();
    assert_eq!(r.marks()[0][1], 65535, "a crawl takes the longest duration");
    assert_eq!(r.marks()[1][1], 1, "no way at all takes one microsecond");
    let mut zero = rig();
    zero.path(&[A, B], None, Speed::Micros(0), PathOpts::default()).unwrap();
    assert_eq!(zero.marks()[0][1], 1);
    // Nothing over nothing is no number, and a vector of no duration.
    let mut nan = rig();
    nan.path(&[A, A], None, mm_s(0.0), PathOpts::default()).unwrap();
    assert_eq!(nan.marks()[0][1], 0);
}

#[test]
fn each_refusal_of_a_path_says_what_is_wrong() {
    let mut r = rig();
    let o = PathOpts::default();
    let us = Speed::Micros(100);
    let told = |r: std::result::Result<Out, String>| r.err().unwrap();
    assert_eq!(told(r.path(&[], None, us, o)), "path needs at least two points");
    assert_eq!(
        told(r.path(&[A, B, A], Some(&[true]), us, o)),
        "lit needs one flag per segment: 2 for 3 points"
    );
    assert_eq!(
        told(r.path(&[A, B], None, us, PathOpts { wiggle: 5, ..o })),
        "wiggle needs a positive wiggle_pitch (counts per circle)"
    );
    assert_eq!(
        told(r.path(
            &[A, B],
            None,
            us,
            PathOpts {
                wiggle: 5,
                wiggle_pitch: 40,
                wiggle_steps: 3,
                ..o
            }
        )),
        "wiggle_steps must be at least 4"
    );
    assert_eq!(told(r.segments(&[], us, o)), "no segments given");
    assert_eq!(
        PathError::WiggleOutOfField { x: -3, y: 70000 }.message(),
        "wiggle point (-3, 70000) is outside the galvo travel limits 0..65535"
    );
    assert_eq!(r.writes(), 0);
    assert!(!r.job.is_live());
}

#[test]
fn the_run_up_that_fits_is_the_longest_one() {
    assert_eq!(fit_overshoot((100, 500), (900, 500), 400, true, &lead), ((0, 500), 100));
    assert_eq!(fit_overshoot((100, 500), (900, 500), 60, true, &lead), ((40, 500), 60));
    assert_eq!(
        fit_overshoot((100, 500), (65500, 500), 400, false, &lead),
        ((65535, 500), 35)
    );
    assert_eq!(fit_overshoot((100, 500), (900, 500), 0, false, &lead), ((900, 500), 0));
    assert_eq!(fit_overshoot((100, 500), (900, 500), -3, false, &lead), ((900, 500), 0));
    assert_eq!(fit_overshoot((100, 500), (900, 500), i64::MIN, true, &lead), ((100, 500), 0));
}

#[test]
fn segments_are_chained_by_dark_legs() {
    let c: Point = (1, 2);
    let d: Point = (3, 4);
    assert_eq!(
        chain_segments(&[(A, B), (c, d)]).unwrap(),
        (vec![A, B, c, d], vec![true, false, true])
    );
    assert_eq!(chain_segments(&[]).err(), Some(PathError::NoSegments));
    assert_eq!(lit_runs(&[true, true, false, true, false]), vec![(0, 2), (3, 4)]);
    assert_eq!(lit_runs(&[false]), vec![]);
}

#[test]
fn a_raw_duration_warns_by_what_was_traced() {
    let mut r = rig();
    r.job.set_limits(Limits {
        max_mm_s: Some(double(1.0)),
        max_accel_mm_s2: None,
        max_loop_hz: None,
    });
    let o = PathOpts {
        wiggle: 60,
        wiggle_pitch: 400,
        ..Default::default()
    };
    r.path(&[A, B, A], None, Speed::Micros(5000), o).unwrap();
    let w = r.warnings();
    assert_eq!(w.len(), 1, "once for the path: {:?}", w);
    assert!(w[0].contains("over the 1 limit"), "{}", w[0]);
    // A straight path asks nothing of the mirrors.
    r.path(&[A, B], None, Speed::Micros(5000), PathOpts::default()).unwrap();
    assert!(r.warnings().is_empty());
}

#[test]
fn every_batch_is_followed_by_its_pause() {
    let mut r = rig();
    let points: Vec<Point> = (0..1500).map(|i| (i as u16, 7)).collect();
    let script = r.job.lines(&points, 200, 500);
    let mut run = Run::new(script);
    let mut pauses = Vec::new();
    loop {
        match run.step(&mut r.board) {
            Next::Go => {}
            Next::Pause(ns) => pauses.push(ns),
            Next::Done => break,
        }
    }
    r.job.finish(run.finish()).unwrap();
    // 92% of 830 us for each vector, since 200 us is under that floor.
    assert_eq!(pauses, vec![1400 * 830 * 920, 100 * 830 * 920]);
    assert_eq!(r.writes(), 2);
    assert_eq!(r.marks()[1499], [0x0243, 200, 1499, 7, 0, 500]);

    // A mark slower than the floor sets the pace itself.
    let script = r.job.lines(&points[..10], 2000, 500);
    let mut run = Run::new(script);
    assert!(run.step(&mut r.board) == Next::Go);
    assert!(run.step(&mut r.board) == Next::Pause(10 * 2000 * 920));
}

#[test]
fn dots_jump_and_fire_in_place() {
    let mut r = rig();
    let (script, e) = r.job.dots(&[A, B], 0, PathOpts::default());
    r.perform(script).unwrap();
    assert_eq!(
        r.cmds(),
        vec![
            [0x0241, 0x2710, 0x4000, 0x8000, 0, 0x01F4],
            [0x0243, 1, 0x4000, 0x8000, 0, 0],
            [0x0241, 0x2710, 0x6000, 0x8000, 0, 0x01F4],
            [0x0243, 1, 0x6000, 0x8000, 0, 0],
        ]
    );
    assert_eq!((e.commands, e.us, e.overshoot), (4, 20002, 0));
    assert_eq!(value(e.exposure), 1.0);
}

#[test]
fn a_speed_is_exactly_one_of_the_two() {
    assert_eq!(speed_of(Some(7), None), Ok(Speed::Micros(7)));
    assert_eq!(speed_of(None, Some(double(2.5))), Ok(mm_s(2.5)));
    assert_eq!(speed_of(None, Some(double(-0.0))), Err(SpeedError::NotPositive));
    assert_eq!(speed_of(None, Some(double(f64::NAN))), Err(SpeedError::NotPositive));
    assert_eq!(speed_of(None, None), Err(SpeedError::NotExactlyOne));
    assert_eq!(
        speed_of(Some(7), Some(double(2.5))),
        Err(SpeedError::NotExactlyOne)
    );
    assert_eq!(SpeedError::NotPositive.message(), "mm_s must be positive");
    assert_eq!(
        SpeedError::NotExactlyOne.message(),
        "give exactly one of speed= (microseconds) or mm_s= (millimetres per second)"
    );
}

#[test]
fn pitch_is_the_dose_control() {
    let exposure = |pitch: i64| {
        let o = PathOpts {
            wiggle: 60,
            wiggle_pitch: pitch,
            ..Default::default()
        };
        rig().path(&[A, (0xC000, 0x8000)], None, mm_s(600.0), o).unwrap().exposure
    };
    assert!((exposure(400) - 1.21).abs() < 0.05, "{}", exposure(400));
    assert!((exposure(120) - 3.20).abs() < 0.05, "{}", exposure(120));
}

#[test]
fn a_segment_costs_its_run_ups_too() {
    // 20 mm at 1500 mm/s with half a millimetre of run-up at either end.
    let mut r = rig();
    let overshoot = r.job.counts(double(0.5), (0.5f64 * CPM).round() as i64, "run-up");
    let o = PathOpts {
        overshoot,
        ..Default::default()
    };
    let half = (10.0f64 / 55.0 * 32767.0).round() as u16;
    let seg = ((0x8000 - half, 0x8000), (0x8000 + half, 0x8000));
    let out = r.segments(&[seg], mm_s(1500.0), o).unwrap();
    assert_eq!((out.commands, out.overshoot), (4, 298));
    assert_eq!(out.us, 24000);
}

#[test]
fn a_load_states_the_physics() {
    let r = rig();
    let w = r.job.wiggle_load(&load(0.1, 0.6, 600.0, 16)).unwrap();
    assert!((value(w.exposure) - 1.45).abs() < 0.005);
    assert!((value(w.vectors_per_s) - 16000.0).abs() < 1.0);
    assert!((value(w.accel_mm_s2) - 3.6e6).abs() < 1.0);
    assert!(w.exceeded.is_empty());
}

#[test]
fn known_geometry_is_streamed_as_it_stands() {
    let mut r = rig();
    let leg = |feed_us: i64| Leg {
        feed_us: Some(feed_us),
        lead_in: None,
        lead_out: None,
        curve: Vec::new(),
        curve_us: Vec::new(),
        load: None,
    };
    let legs = [leg(70), leg(80)];
    let lit = [true, false];
    let o = PathOpts {
        unlit_at_feed: true,
        ..Default::default()
    };
    let (script, e) = r
        .job
        .path_along(&[A, B, A], Some(&lit), mm_s(9.0), o, &legs, None, double(2.0), double(1.5))
        .unwrap();
    r.perform(script).unwrap();
    assert_eq!(r.cmds()[1], [0x0243, 70, 0x6000, 0x8000, 0, 500]);
    assert_eq!(r.cmds()[2], [0x0241, 80, 0x4000, 0x8000, 0, 0]);
    assert_eq!((e.commands, value(e.exposure)), (3, 1.5));
}
