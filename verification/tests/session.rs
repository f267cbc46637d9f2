//! A session against a fake board: what is asked, what is written, and what is made
//! of the answers.

use dbk2jp::double::{Double, Style};
use dbk2jp::job::{ConfigError, Equivalent, Job, Wave};
use dbk2jp::limits::{Excess, Limits};
use dbk2jp::protocol::{cmd, parse, PulseTicks};
use dbk2jp::script::{Answer, Ask, Next, Report, Run, Script};
use dbk2jp::stream::Load;
use dbk2jp::unlock::{ask_encrypt_state, encrypt_state, unlock, Move, Unlocking};
use dbk2jp::usb::{Board, BoardError, Result, Transport, Xfer};
use dbk2jp::{Field, Power};
use std::sync::{Arc, Mutex};

#[derive(Clone, Debug, PartialEq)]
enum Ev {
    Write(u8, Vec<u8>),
    Read(u8, u32),
    Abort(u8),
    Reset(u8),
    Close,
}

#[derive(Default)]
struct Wire {
    log: Vec<Ev>,
    /// Replies in the order they come; nothing is a read that times out. Behind the
    /// last one every command on EP 0x06 is echoed.
    replies: Vec<Option<Vec<u8>>>,
    /// So many batches on EP 0x02 are refused.
    stalled: u32,
    /// So many commands on EP 0x06 are refused.
    deaf: u32,
    last: Vec<u8>,
}

#[derive(Clone, Default)]
struct Fake(Arc<Mutex<Wire>>);

impl Transport for Fake {
    fn path(&self) -> String {
        "fake".into()
    }
    fn xfer(&mut self, ep: u8, payload: &[u8], read_len: usize, t: u32) -> Result<Xfer> {
        let mut w = self.0.lock().unwrap();
        if read_len > 0 {
            w.log.push(Ev::Read(ep, t));
            let reply = if w.replies.is_empty() {
                Some(w.last.clone())
            } else {
                w.replies.remove(0)
            };
            return match reply {
                Some(data) => Ok(Xfer {
                    nt: 0,
                    usbd: 0,
                    moved: data.len(),
                    data,
                }),
                None => Err(BoardError::Timeout(format!("{} ms", t))),
            };
        }
        w.log.push(Ev::Write(ep, payload.to_vec()));
        if ep == 0x06 {
            w.last = payload.to_vec();
        }
        let refused = if ep == 0x02 { w.stalled } else { w.deaf };
        let nt = if refused > 0 { 0xC000_0001 } else { 0 };
        if refused > 0 && ep == 0x02 {
            w.stalled -= 1;
        } else if refused > 0 {
            w.deaf -= 1;
        }
        Ok(Xfer {
            nt,
            usbd: 4,
            data: Vec::new(),
            moved: payload.len(),
        })
    }
    fn abort_pipe(&mut self, ep: u8) -> bool {
        self.0.lock().unwrap().log.push(Ev::Abort(ep));
        true
    }
    fn reset_pipe(&mut self, ep: u8) -> bool {
        self.0.lock().unwrap().log.push(Ev::Reset(ep));
        true
    }
    fn close(&mut self) {
        self.0.lock().unwrap().log.push(Ev::Close);
    }
}

fn double(x: f64) -> Double {
    Double { bits: x.to_bits() }
}

fn value(d: Double) -> f64 {
    f64::from_bits(d.bits)
}

fn number(d: Double, style: Style) -> String {
    match style {
        Style::Plain => format!("{}", value(d)),
        Style::Fixed(n) => format!("{:.*}", n as usize, value(d)),
        Style::Scientific(n) => format!("{:.*e}", n as usize, value(d)),
    }
}

fn ticks(khz: f64, pct: f64) -> PulseTicks {
    PulseTicks {
        period: (48000.0 / khz).round() as u32,
        width: ((pct / 100.0) * (1000.0 / khz) * 48.0).round() as i64,
        half_khz: (khz * 0.5).round() as i64,
    }
}

/// Nothing of a power is asked for.
const NONE: Equivalent = Equivalent {
    pct_255: 0,
    byte_pct: Double { bits: 0 },
};

fn equivalent(pct: f64, byte: u8) -> Equivalent {
    Equivalent {
        pct_255: (pct * 255.0) as i64,
        byte_pct: double(byte as f64 * 100.0 / 255.0),
    }
}

struct Rig {
    wire: Fake,
    board: Board<Fake>,
    job: Job,
}

fn rig(laser: &str) -> Rig {
    let wire = Fake::default();
    Rig {
        wire: wire.clone(),
        board: Board::with_transport(wire),
        job: Job::new(laser, None).unwrap(),
    }
}

impl Rig {
    fn perform(&mut self, script: Script) -> Result<Option<Vec<u8>>> {
        let mut run = Run::new(script);
        while run.step(&mut self.board) != Next::Done {}
        self.job.finish(run.finish())
    }
    fn wave(&self) -> Wave {
        let pct = value(self.job.power_pct());
        Wave {
            mark: ticks(value(self.job.freq_khz()), pct),
            pct_255: (pct * 255.0) as i64,
            tick_period: (48000.0 / value(self.job.tick_khz())).round() as u16,
            tick_width: (value(self.job.tick_us()) * 48.0).round() as u16,
        }
    }
    fn log(&self) -> Vec<Ev> {
        self.wire.0.lock().unwrap().log.clone()
    }
    /// The fields of what was written on an endpoint, command by command.
    fn sent(&self, ep: u8) -> Vec<[u16; 6]> {
        let mut out = Vec::new();
        for ev in self.log() {
            if let Ev::Write(e, bytes) = ev {
                if e == ep {
                    out.extend(bytes.chunks(12).filter_map(parse));
                }
            }
        }
        out
    }
    fn asked(&self) -> Vec<u16> {
        self.sent(0x06).iter().map(|c| c[0]).collect()
    }
    fn warnings(&mut self) -> Vec<String> {
        self.job
            .take_warnings()
            .iter()
            .map(|w| w.message(&number))
            .collect()
    }
}

const ARM: [u16; 3] = [0x0106, 0x0105, 0x0104];

fn status(byte2: u8, word: u16) -> Vec<u8> {
    vec![1, 1, byte2, 0, 0, (word >> 8) as u8, word as u8, 0, 0, 0, 0, 0]
}

fn locked(state: u8) -> Vec<u8> {
    vec![1, 2, 0, 0, 0, 0, 0, state, 0, 0, 0, 0]
}

// ---- the board --------------------------------------------------------------

#[test]
fn a_write_moves_its_bytes() {
    let wire = Fake::default();
    let mut b = Board::with_transport(wire.clone());
    assert_eq!(b.write_cmd(&cmd(0x0105, 0, 0, 0, 0, 0)).unwrap(), 12);
    assert_eq!(b.write_data(&[7; 24]).unwrap(), 24);
    assert_eq!(b.path(), "fake");
    assert_eq!(
        wire.0.lock().unwrap().log,
        vec![
            Ev::Write(0x06, cmd(0x0105, 0, 0, 0, 0, 0).to_vec()),
            Ev::Write(0x02, vec![7; 24]),
        ]
    );
}

#[test]
fn a_refused_write_names_the_status_words() {
    let wire = Fake::default();
    wire.0.lock().unwrap().stalled = 1;
    let mut b = Board::with_transport(wire);
    assert_eq!(
        b.write_data(&[0; 12]).err().unwrap().message(),
        "transfer failed: 12 bytes on EP 0x02: NTSTATUS 0xC0000001, USBD 0x00000004. The pipe is \
         probably stalled, call recover()"
    );
    assert!(b.write_data(&[0; 12]).is_ok());
}

#[test]
fn every_failure_has_its_words() {
    let m = || "x".to_string();
    assert_eq!(BoardError::NotFound(m()).message(), "no DBK2JP found: x");
    assert_eq!(BoardError::Open(m()).message(), "cannot open board: x");
    assert_eq!(BoardError::Transfer(m()).message(), "transfer failed: x");
    assert_eq!(BoardError::Timeout(m()).message(), "transfer timed out: x");
    assert_eq!(BoardError::Unsupported(m()).message(), "unsupported: x");
}

#[test]
fn recovery_clears_all_four_endpoints() {
    let wire = Fake::default();
    let mut b = Board::with_transport(wire.clone());
    b.recover();
    let eps = [0x88, 0x84, 0x06, 0x02];
    let want: Vec<Ev> = eps
        .iter()
        .flat_map(|e| vec![Ev::Abort(*e), Ev::Reset(*e)])
        .collect();
    assert_eq!(wire.0.lock().unwrap().log, want);
}

/// Carry a question to its end; gives the reply and the waits in between.
fn ask(b: &mut Board<Fake>, mut q: Ask) -> (Option<Vec<u8>>, Vec<u64>) {
    let mut waits = Vec::new();
    loop {
        match b.ask(&mut q) {
            Answer::Pause(ns) => waits.push(ns),
            Answer::Done(r) => return (r, waits),
        }
    }
}

#[test]
fn a_stale_reply_is_never_handed_back() {
    let wire = Fake::default();
    wire.0.lock().unwrap().replies = vec![
        Some(status(0, 0)),
        Some(vec![1]),
        Some(locked(2)),
    ];
    let mut b = Board::with_transport(wire);
    let (reply, waits) = ask(&mut b, Ask::new(cmd(0x0102, 0, 0, 0, 0, 0), 1200, 3, 40_000_000));
    assert_eq!(reply, Some(locked(2)));
    assert_eq!(waits, vec![40_000_000, 10_000_000, 10_000_000]);
}

#[test]
fn a_question_gives_up_after_its_retries() {
    let wire = Fake::default();
    wire.0.lock().unwrap().replies = vec![Some(status(0, 0)); 9];
    let mut b = Board::with_transport(wire.clone());
    let (reply, _) = ask(&mut b, Ask::new(cmd(0x0102, 0, 0, 0, 0, 0), 1200, 0, 0));
    assert_eq!(reply, None);
    assert_eq!(
        wire.0.lock().unwrap().log[1..],
        [Ev::Read(0x88, 1200)],
        "no retries is one read"
    );
}

#[test]
fn a_question_recovers_once() {
    let wire = Fake::default();
    wire.0.lock().unwrap().replies = vec![None, Some(locked(2))];
    let mut b = Board::with_transport(wire.clone());
    let c = cmd(0x0102, 0, 0, 0, 0, 0);
    let (reply, waits) = ask(&mut b, Ask::new(c, 1200, 3, 5));
    assert_eq!(reply, Some(locked(2)));
    assert_eq!(waits, vec![5, 5]);
    let log = wire.0.lock().unwrap().log.clone();
    assert_eq!(log.len(), 12, "write, read, eight clears, write, read");
    assert_eq!(log[10], Ev::Write(0x06, c.to_vec()));

    wire.0.lock().unwrap().replies = vec![None, None, Some(locked(2))];
    let (reply, _) = ask(&mut b, Ask::new(c, 1200, 3, 5));
    assert_eq!(reply, None, "a second dead read is the end");
}

#[test]
fn a_refused_question_is_no_answer() {
    let wire = Fake::default();
    wire.0.lock().unwrap().deaf = 1;
    let mut b = Board::with_transport(wire.clone());
    let (reply, waits) = ask(&mut b, Ask::new(cmd(0x0101, 0, 0, 0, 0, 0), 1200, 3, 5));
    assert_eq!((reply, waits), (None, vec![]));
    assert_eq!(wire.0.lock().unwrap().log.len(), 1);
}

// ---- the header -------------------------------------------------------------

#[test]
fn begin_arms_then_sends_header_and_opening_jump() {
    let mut r = rig("co2");
    let wave = r.wave();
    let script = r.job.begin((0x4000, 0x8000), 200, wave);
    r.perform(script).unwrap();
    assert_eq!(r.asked(), ARM.to_vec());
    assert_eq!(
        r.sent(0x02),
        vec![
            [0x0211, 0x2200, 0, 0, 0, 0],
            [0x0210, 0, 0x0A09, 0x6004, 0xB07F, 0],
            [0x0217, 0x0100, 9600, 48, 0, 0],
            [0x0208, 0, 0, 0, 0, 0],
            [0x0241, 200, 0x4000, 0x8000, 0, 500],
        ]
    );
    assert!(r.job.is_live());
    assert!(r.job.owes_silence());
}

#[test]
fn a_fiber_header_carries_power_word_enable_and_pulse_width() {
    let mut r = rig("fiber");
    r.job
        .configure(None, None, Some(0x82), Some(100), Some(true), None, equivalent(0.0, 0x82))
        .unwrap();
    let wave = r.wave();
    let script = r.job.begin((1, 2), 3, wave);
    r.perform(script).unwrap();
    assert_eq!(
        r.sent(0x02),
        vec![
            [0x0211, 0x1100, 0x0100, 0, 0, 0],
            [0x0210, 0, 0x0A09, 0x6004, 0xC882, 0],
            [0x0206, 0xA501, 100, 0, 0, 0],
            [0x0217, 0, 9600, 48, 0, 0],
            [0x0208, 0, 0, 0, 0, 0],
            [0x0241, 3, 1, 2, 0, 500],
        ]
    );
    assert_eq!(
        r.warnings(),
        vec![
            "power byte 0x82 has bit 1 or 2 set, and those are the MOPA SPI lines: every frame \
             after the first will be mangled"
        ]
    );
}

#[test]
fn a_failed_batch_is_reported() {
    let mut r = rig("co2");
    r.wire.0.lock().unwrap().stalled = 1;
    let wave = r.wave();
    let script = r.job.begin((0, 0), 1, wave);
    assert!(matches!(r.perform(script), Err(BoardError::Transfer(_))));
    assert!(r.job.is_live(), "the board may have taken some of it");
    // Vectors that did not land do not make an untouched job live.
    let mut s = rig("co2");
    s.wire.0.lock().unwrap().stalled = 1;
    let script = s.job.lines(&[(1, 2)], 3, 4);
    assert!(s.perform(script).is_err());
    assert!(!s.job.is_live());
    let script = s.job.lines(&[(1, 2)], 3, 4);
    assert!(s.perform(script).is_ok());
    assert!(s.job.is_live());
}

// ---- configuration ----------------------------------------------------------

#[test]
fn configuration_is_held_against_the_laser() {
    let mut j = Job::new("co2", None).unwrap();
    let told = |r: std::result::Result<(), ConfigError>| {
        r.err().unwrap().message(number)
    };
    assert_eq!(
        told(j.configure(Some(double(0.5)), None, None, None, None, None, NONE)),
        "0.5 kHz outside the co2 range 1..40 kHz"
    );
    assert_eq!(
        told(j.configure(None, Some(double(100.5)), None, None, None, None, NONE)),
        "power 100.5% outside 0..100"
    );
    assert_eq!(
        told(j.configure(None, Some(double(f64::NAN)), None, None, None, None, NONE)),
        "power NaN% outside 0..100"
    );
    assert_eq!(
        told(j.configure(None, None, Some(1), None, None, None, NONE)),
        "co2 has no parallel power word"
    );
    assert_eq!(
        told(j.configure(None, None, None, Some(1), None, None, NONE)),
        "co2 has no pulse-width setting: it is not a parallel-power laser"
    );
    j.select("fiber").unwrap();
    assert_eq!(
        told(j.configure(None, None, None, None, None, Some(true), NONE)),
        "fiber has no tickle"
    );
    assert!(j.configure(None, None, None, None, None, Some(false), NONE).is_ok());
}

#[test]
fn what_stood_before_a_refused_setting_stays_set() {
    let mut j = Job::new("co2", None).unwrap();
    assert!(j
        .configure(Some(double(30.0)), Some(double(-1.0)), None, None, Some(true), None, NONE)
        .is_err());
    assert_eq!(value(j.freq_khz()), 30.0, "looked at before the power");
    assert_eq!(value(j.power_pct()), 50.0);
    assert!(!j.settings(double(1.0)).mo, "looked at after the power");
}

#[test]
fn settings_say_what_goes_on_the_wire() {
    let mut j = Job::new("co2", None).unwrap();
    let other = equivalent(25.0, 0);
    j.configure(Some(double(20.0)), Some(double(25.0)), None, None, None, None, other)
        .unwrap();
    let s = j.settings(double(48e3 / 2401.0));
    assert_eq!((s.laser, s.code, s.power_byte), ("co2", 0x22, 63));
    assert_eq!((s.mopa_pulse, s.mo, s.tickle, s.verified), (None, false, true, true));
    assert!((value(s.freq_khz) - 19.991670).abs() < 1e-5);
    assert_eq!(value(s.power_pct), 25.0);
    assert_eq!(s.tick_khz.map(value), Some(5.0));
    assert_eq!(s.tick_us.map(value), Some(1.0));
    j.select("uv").unwrap();
    let s = j.settings(double(0.0));
    assert_eq!((s.tick_khz, s.tick_us, s.tickle), (None, None, false));
    assert_eq!(value(s.power_pct), 50.0, "a new laser starts over");
}

#[test]
fn an_unknown_laser_changes_nothing() {
    let mut j = Job::new("fiber", None).unwrap();
    j.configure(Some(double(33.0)), None, None, None, None, None, NONE).unwrap();
    assert_eq!(j.select("plasma").err().unwrap().kind, "plasma");
    assert_eq!(value(j.freq_khz()), 33.0);
    assert_eq!(j.laser().power, Power::Byte);
    assert!(Job::new("plasma", None).is_err());
}

#[test]
fn a_tickle_fits_into_its_period() {
    let mut j = Job::new("co2", None).unwrap();
    let (khz, us) = j.tick(Some(double(10.0)), Some(double(2.0)), Some(false), double(100.0)).unwrap();
    assert_eq!((value(khz), value(us)), (10.0, 2.0));
    assert!(!j.settings(double(1.0)).tickle);
    assert_eq!(
        j.tick(Some(double(0.5)), None, None, double(2000.0)).err().unwrap().message(number),
        "tickle frequency 0.5 kHz outside 0.74..100 kHz"
    );
    assert_eq!(
        j.tick(None, Some(double(100.0)), None, double(100.0)).err().unwrap().message(number),
        "tickle width 100 us must be >0 and shorter than the 100.0 us period at 10 kHz"
    );
    assert!(j.tick(None, Some(double(0.0)), None, double(100.0)).is_err());
    assert_eq!(value(j.tick_us()), 2.0, "a refused shape changes nothing");
}

#[test]
fn limits_keep_what_they_are_not_told() {
    let mut j = Job::new("co2", None).unwrap();
    let none = Limits::default();
    assert!(j.runup_accel(None).is_none());
    j.set_limits(Limits { max_mm_s: Some(double(5.0)), ..none });
    j.set_limits(Limits { max_accel_mm_s2: Some(double(7.0)), ..none });
    assert_eq!(j.limits().max_mm_s.map(value), Some(5.0));
    assert_eq!(j.runup_accel(None).map(value), Some(7.0));
    assert_eq!(j.runup_accel(Some(double(8.0))).map(value), Some(8.0));
}

#[test]
fn a_distance_under_one_count_is_warned_of() {
    let mut r = rig("co2");
    r.job.set_field(Field::new(double(110.0)));
    assert_eq!(value(r.job.field().size_mm), 110.0);
    assert_eq!(r.job.counts(double(0.0), 9, "run-up"), 0);
    assert_eq!(r.job.counts(double(1.0), 596, "run-up"), 596);
    assert_eq!(r.job.counts(double(0.0005), 0, ""), 0);
    assert!(r.warnings().is_empty());
    assert_eq!(r.job.counts(double(0.0005), 0, "run-up"), 0);
    assert_eq!(
        r.warnings(),
        vec!["run-up of 0.0005 mm is under one galvo count on a 110 mm field, so it is ignored"]
    );
}

#[test]
fn a_load_is_held_against_every_limit() {
    let mut j = Job::new("co2", None).unwrap();
    let l = Load {
        radius_mm: double(0.1),
        pitch_mm: double(0.01),
        mm_s: double(600.0),
        loop_hz: double(60000.0),
        accel_mm_s2: double(3.6e6),
        accel_g: double(367.0),
        exposure: double(62.0),
        chord_mm: double(0.04),
        vectors_per_s: double(960000.0),
    };
    let free = j.wiggle_load(&l).unwrap();
    assert_eq!(free.exceeded.len(), 1, "only the board's own rate");
    assert!(matches!(free.exceeded[0], Excess::Vectors { .. }));
    j.set_limits(Limits {
        max_mm_s: Some(double(500.0)),
        max_accel_mm_s2: Some(double(200000.0)),
        max_loop_hz: Some(double(250.0)),
    });
    let told: Vec<String> = j
        .wiggle_load(&l)
        .unwrap()
        .exceeded
        .iter()
        .map(|e| e.message(&number))
        .collect();
    assert_eq!(
        told,
        vec![
            "feed 600 mm/s over the 500 limit",
            "needs 3.600e6 mm/s^2 lateral, limit 2.000e5",
            "60000 loops/s over the 250 limit",
            "960000 vectors/s over the board's measured 33333",
        ]
    );
    let e = j.wiggle_load(&Load { mm_s: double(0.0), ..l }).err().unwrap();
    assert_eq!(e.message(), "radius, pitch and mm_s must all be positive");
}

// ---- outputs and hardware ---------------------------------------------------

#[test]
fn outputs_go_on_the_control_endpoint() {
    let mut r = rig("co2");
    let script = r.job.out(3, 1);
    let reply = r.perform(script).unwrap();
    assert_eq!(reply, Some(cmd(0x0111, 0x0300, 1, 0, 0, 0).to_vec()));
    let script = r.job.out_state();
    r.perform(script).unwrap();
    let script = r.job.stop();
    r.perform(script).unwrap();
    assert_eq!(r.asked(), vec![0x0111, 0x0112, 0x0105]);
    assert!(r.sent(0x02).is_empty());
    assert!(!r.job.is_live());
}

#[test]
fn a_pulse_width_set_alone_is_warned_of_once() {
    let mut r = rig("fiber");
    r.job.configure(None, None, Some(0x06), None, None, None, NONE).unwrap();
    let wave = r.wave();
    let script = r.job.mopa_pulse(200, wave);
    r.perform(script).unwrap();
    assert_eq!(r.asked(), ARM.to_vec());
    let sent: Vec<u16> = r.sent(0x02).iter().map(|c| c[0]).collect();
    assert_eq!(sent, vec![0x0211, 0x0210, 0x0217, 0x0208, 0x0206]);
    assert_eq!(r.sent(0x02)[4][2], 200);
    assert_eq!(r.warnings().len(), 1);
    assert_eq!(r.job.settings(double(1.0)).mopa_pulse, Some(200));
}

#[test]
fn a_power_word_goes_out_without_a_pulse() {
    let mut r = rig("fiber");
    let script = r.job.power_byte(0x40, ticks(20.0, 90.0));
    r.perform(script).unwrap();
    assert_eq!(
        r.sent(0x02),
        vec![
            [0x0211, 0x1100, 0, 0, 0, 0],
            [0x0210, 0, 0x0A09, 0x6000, 0x0040, 0],
            [0x0208, 0, 0, 0, 0, 0],
        ]
    );
    assert!(r.job.is_live());
}

#[test]
fn the_pointer_is_the_low_byte_of_the_type_word() {
    let mut r = rig("fiber");
    let wave = r.wave();
    let script = r.job.red_light(true, wave);
    r.perform(script).unwrap();
    let wave = r.wave();
    let script = r.job.red_light(false, wave);
    r.perform(script).unwrap();
    let types: Vec<u16> = r
        .sent(0x02)
        .iter()
        .filter(|c| c[0] == 0x0211)
        .map(|c| c[1])
        .collect();
    assert_eq!(types, vec![0x1122, 0x1100]);
}

#[test]
fn an_axis_move_sets_count_rate_and_direction() {
    let mut r = rig("co2");
    let script = r
        .job
        .axis_move(0x12345, 400, true, 0x0002, None, 100, 175, ticks(20.0, 0.0));
    r.perform(script).unwrap();
    assert_eq!(
        r.sent(0x02)[3..],
        [
            [0x0230, 1, 0x2345, 0, 0, 0x0102],
            [0x0231, 400, 400, 0x6400, 0, 0],
            [0x0232, 175, 0, 0, 0, 0],
            [0x0233, 0, 0, 0, 0, 0],
        ]
    );
    assert!(r.job.is_live(), "a power word was left standing");
}

#[test]
fn the_tickle_is_stopped_in_a_batch() {
    let mut r = rig("co2");
    let wave = r.wave();
    let script = r.job.tick_off(wave);
    r.perform(script).unwrap();
    assert_eq!(r.asked(), vec![0x0106, 0x0105, 0x0104, 0x0105]);
    assert_eq!(
        r.sent(0x02),
        vec![
            [0x0217, 0, 9600, 48, 0, 0],
            [0x0241, 200, 0x4000, 0x8000, 0, 500]
        ]
    );
    assert!(!r.job.settings(double(1.0)).tickle);
}

#[test]
fn an_analog_word_has_twelve_bits() {
    let mut r = rig("co2");
    let (script, set) = r.job.dac(0xF123, true, ticks(20.0, 0.0));
    r.perform(script).unwrap();
    assert_eq!(set, 0x0123);
    assert_eq!(r.sent(0x02)[2], [0x0207, 0x0123, 0, 0, 0, 0]);
    assert_eq!(r.sent(0x02)[4], [0x0241, 200, 0x4000, 0x8000, 0, 500]);
    let mut s = rig("co2");
    let (script, _) = s.job.dac(1, false, ticks(20.0, 0.0));
    s.perform(script).unwrap();
    assert_eq!(s.sent(0x02).len(), 4);
}

#[test]
fn a_timed_pulse_spreads_its_ticks() {
    let mut r = rig("co2");
    let script = r.job.out_pulse(2, 1, 1000);
    r.perform(script).unwrap();
    // 2 000 000 ticks are 0x001E8480, and 1000 times -0x3000 ends in 0x8000.
    assert_eq!(
        r.sent(0x02),
        vec![[0x2F82, 0x0201, 0x0100, 0x1E84, 0x8000, 0]]
    );
    let script = r.job.out_pulse(2, 1, 0);
    r.perform(script).unwrap();
    assert_eq!(r.sent(0x02)[1], [0x2F82, 0x0200, 0x0100, 0, 0, 0]);
}

#[test]
fn the_port_switch_wraps_its_words() {
    let mut r = rig("co2");
    let script = r.job.laser_port_switch(0x0102, 9, 0x8001, 0x0304, 0x0100, 0x7FFF);
    r.perform(script).unwrap();
    assert_eq!(r.asked(), ARM.to_vec());
    assert_eq!(
        r.sent(0x02),
        vec![[0x2F84, 0x0504, 0x0000, 0x0002, 0xFFFE, 0]]
    );
}

// ---- safety -----------------------------------------------------------------

const SILENT: [[u16; 6]; 4] = [
    [0x0211, 0x2200, 0, 0, 0, 0],
    [0x0210, 0, 0, 0, 0, 0],
    [0x0217, 0, 0, 0, 0, 0],
    [0x0208, 0, 0, 0, 0, 0],
];

#[test]
fn silence_zeroes_the_generators_before_anything_else() {
    let mut r = rig("co2");
    let script = r.job.laser_off();
    r.perform(script).unwrap();
    assert_eq!(r.sent(0x02), SILENT.to_vec());
    assert!(matches!(r.log()[0], Ev::Write(0x02, _)));
    assert_eq!(r.asked(), vec![0x0106, 0x0105]);
    assert!(!r.job.is_live() && !r.job.settings(double(1.0)).tickle);
    assert!(r.warnings().is_empty());
}

#[test]
fn silence_is_tried_again_behind_a_recovery() {
    let mut r = rig("co2");
    r.wire.0.lock().unwrap().stalled = 1;
    let script = r.job.laser_off();
    r.perform(script).unwrap();
    assert_eq!(r.log().len(), 10 + 4, "write, eight clears, write, two questions");
    assert!(matches!(r.log()[9], Ev::Write(0x02, _)));
    assert!(r.warnings().is_empty());
}

#[test]
fn a_laser_that_was_not_silenced_is_warned_of() {
    let mut r = rig("co2");
    r.wire.0.lock().unwrap().stalled = 2;
    let script = r.job.laser_off();
    r.perform(script).unwrap();
    let w = r.warnings();
    assert_eq!(w.len(), 1);
    assert!(w[0].starts_with("could not silence the laser (transfer failed: 48 bytes on EP 0x02"));
    assert!(w[0].ends_with("an output may still be driving. Power-cycle the board."));
    assert_eq!(r.asked(), vec![0x0106, 0x0105], "the reset is tried all the same");
}

#[test]
fn closing_silences_a_live_job_and_resets_another() {
    let mut r = rig("co2");
    let script = r.job.close(true);
    r.perform(script).unwrap();
    assert_eq!((r.asked(), r.sent(0x02).len()), (vec![0x0105], 0));
    assert!(!r.job.owes_silence());

    let mut live = rig("co2");
    let wave = live.wave();
    let script = live.job.begin((0, 0), 1, wave);
    live.perform(script).unwrap();
    assert!(live.job.owes_silence());
    let script = live.job.close(true);
    live.perform(script).unwrap();
    assert_eq!(live.sent(0x02)[5..], SILENT);
    assert!(!live.job.owes_silence());

    let mut loud = rig("co2");
    let wave = loud.wave();
    let script = loud.job.begin((0, 0), 1, wave);
    loud.perform(script).unwrap();
    let script = loud.job.close(false);
    loud.perform(script).unwrap();
    assert_eq!(loud.sent(0x02).len(), 5, "nothing silenced");
    assert!(!loud.job.owes_silence(), "closed is closed");
}

#[test]
fn an_abort_gates_the_laser_first() {
    let mut r = rig("co2");
    let script = r.job.abort();
    r.perform(script).unwrap();
    assert_eq!(r.log()[0], Ev::Write(0x02, cmd(0x0208, 0, 0, 0, 0, 0).to_vec()));
    assert_eq!(r.sent(0x02), vec![[0x0208, 0, 0, 0, 0, 0]]);
    assert_eq!(r.asked(), vec![0x0106, 0x0105, 0x0104, 0x0105]);
    assert!(!r.job.settings(double(1.0)).tickle);
    assert!(r.warnings().is_empty());
}

#[test]
fn an_abort_goes_on_where_the_gate_write_fails() {
    let mut r = rig("co2");
    r.wire.0.lock().unwrap().stalled = 1;
    let script = r.job.abort();
    r.perform(script).unwrap();
    assert!(matches!(r.log()[9], Ev::Write(0x02, _)), "tried again behind a recovery");
    assert_eq!(r.asked(), vec![0x0106, 0x0105, 0x0104, 0x0105]);
    assert!(r.warnings().is_empty());

    let mut dead = rig("co2");
    dead.wire.0.lock().unwrap().stalled = 2;
    let script = dead.job.abort();
    dead.perform(script).unwrap();
    assert_eq!(dead.asked(), vec![0x0106, 0x0105, 0x0104, 0x0105]);
    assert_eq!(dead.warnings().len(), 1);
}

#[test]
fn closing_silences_behind_the_pointer_and_behind_an_axis_move() {
    let mut r = rig("co2");
    let wave = r.wave();
    let script = r.job.red_light(true, wave);
    r.perform(script).unwrap();
    assert_eq!(
        r.sent(0x02),
        vec![
            [0x0211, 0x2222, 0, 0, 0, 0],
            [0x0210, 0, 0x0A09, 0x6004, 0xB07F, 0],
            [0x0217, 0x0100, 9600, 48, 0, 0],
            [0x0208, 0, 0, 0, 0, 0],
        ]
    );
    assert!(r.job.is_live() && r.job.owes_silence());
    let script = r.job.close(true);
    r.perform(script).unwrap();
    assert_eq!(r.sent(0x02)[4..], SILENT);
    assert!(!r.job.owes_silence());

    let mut axis = rig("co2");
    let script = axis
        .job
        .axis_move(10, 400, false, 0, None, 100, 175, ticks(20.0, 0.0));
    axis.perform(script).unwrap();
    let script = axis.job.close(true);
    axis.perform(script).unwrap();
    assert_eq!(axis.sent(0x02)[7..], SILENT);
}

#[test]
fn lit_vectors_that_landed_ahead_of_a_failure_are_silenced() {
    let points: Vec<(u16, u16)> = (0..1500).map(|i| (i, i)).collect();
    let mut r = rig("co2");
    let mut run = Run::new(r.job.lines(&points, 1, 1));
    assert_eq!(run.step(&mut r.board), Next::Go, "the first batch is taken");
    r.wire.0.lock().unwrap().stalled = 1;
    while run.step(&mut r.board) != Next::Done {}
    assert!(matches!(r.job.finish(run.finish()), Err(BoardError::Transfer(_))));
    assert!(r.job.owes_silence());
}

#[test]
fn a_guard_stops_the_machine_only_on_a_fault() {
    let mut r = rig("co2");
    assert!(r.job.guard_round(None).is_none());
    assert!(r.job.guard_round(Some(&status(0x2E, 0))).is_none());
    let script = r.job.guard_round(Some(&status(0x2C, 0))).unwrap();
    r.perform(script).unwrap();
    assert_eq!(r.sent(0x02), vec![[0x0208, 0, 0, 0, 0, 0]]);
    assert_eq!(r.asked(), vec![0x0106, 0x0105, 0x0104, 0x0105]);
    assert!(!r.job.settings(double(1.0)).tickle);
}

#[test]
fn a_burst_fills_what_the_queue_has_room_for() {
    let mut r = rig("co2");
    let (script, n) = r.job.burst_round(189, 48, 200, (0x4000, 0xC000));
    assert_eq!(n, 141);
    r.perform(script).unwrap();
    let sent = r.sent(0x02);
    assert_eq!(sent.len(), 141);
    assert_eq!(sent[0], [0x0243, 200, 0xC000, 0x8000, 0, 500]);
    assert_eq!(sent[1], [0x0243, 200, 0x4000, 0x8000, 0, 500]);
    for (free, margin, want) in [(111, 48, 0), (112, 48, 64), (10, 48, 0), (65535, 0, 1400)] {
        assert_eq!(r.job.burst_round(free, margin, 1, (0, 1)).1, want);
    }
}

#[test]
fn a_report_without_a_failure_hands_the_reply_on() {
    let mut j = Job::new("co2", None).unwrap();
    let report = Report {
        lands: true,
        reply: Some(vec![1, 2]),
        failure: None,
        unsilenced: None,
    };
    assert_eq!(j.finish(report).unwrap(), Some(vec![1, 2]));
    assert!(j.is_live());
}

// ---- what the replies say ---------------------------------------------------

#[test]
fn a_status_reply_is_read_bit_by_bit() {
    let st = status(0x2E, 0x0FBD);
    let r = Some(st.as_slice());
    assert_eq!(Job::status_word(r), Some(0x0FBD));
    assert_eq!(Job::inputs(r), Some(0x0F));
    assert_eq!(Job::input_pin(r, 3), Some(true));
    assert_eq!(Job::input_pin(r, 4), Some(false));
    assert_eq!(Job::remark(r), Some(true));
    assert_eq!(Job::free_cache(r), 189);
    assert_eq!(Job::running(r), Some(true));
    assert_eq!(Job::armed(r), Some(true));
    assert_eq!(Job::busy(r), Some(false));
    assert!(Job::idle_round(r));
    assert_eq!(Job::sgin(r), Some(true));

    let dark = status(0xD1, 0xF7FF);
    let r = Some(dark.as_slice());
    assert_eq!(Job::remark(r), Some(false));
    assert_eq!(Job::free_cache(r), 255);
    assert_eq!(Job::running(r), Some(false));
    assert_eq!(Job::armed(r), Some(false));
    assert_eq!(Job::busy(r), Some(true));
    assert!(!Job::idle_round(r));
    assert_eq!(Job::sgin(r), Some(false));
}

#[test]
fn a_short_reply_says_nothing() {
    let two: Option<&[u8]> = Some(&[1, 1]);
    let six: Option<&[u8]> = Some(&[1, 1, 0xFF, 0, 0, 0]);
    assert_eq!(Job::running(two), None);
    assert_eq!(Job::running(six), Some(true));
    assert_eq!(Job::status_word(six), None);
    assert_eq!(Job::free_cache(six), 0);
    assert_eq!(Job::busy(None), None);
    assert!(!Job::idle_round(None) && !Job::idle_round(two), "not known to be idle");
    assert_eq!(Job::input_pin(None, 7), None);
}

#[test]
fn authentication_is_byte_seven() {
    assert!(Job::unlocked(Some(&locked(2))));
    assert!(!Job::unlocked(Some(&locked(0))));
    assert!(!Job::unlocked(Some(&[2; 7])));
    assert!(!Job::unlocked(None));
    let mut r = rig("co2");
    r.wire.0.lock().unwrap().replies = vec![Some(locked(2))];
    let script = r.job.ask_unlocked();
    let reply = r.perform(script).unwrap();
    assert!(Job::unlocked(reply.as_deref()));
    assert_eq!(r.asked(), vec![0x0102]);
}

// ---- the unlock -------------------------------------------------------------

#[test]
fn a_replay_writes_each_frame_and_reads_its_answer() {
    let mut r = rig("co2");
    r.wire.0.lock().unwrap().replies = vec![
        None,
        Some(vec![9]),
        None,
        Some(locked(2)),
    ];
    let outcome = r.perform(unlock(None, true));
    assert_eq!(encrypt_state(&outcome), Some(2));
    let log = r.log();
    let sizes: Vec<usize> = log
        .iter()
        .filter_map(|e| match e {
            Ev::Write(0x06, b) => Some(b.len()),
            _ => None,
        })
        .collect();
    assert_eq!(sizes, vec![36, 42, 4, 12], "digest, MAC, token, state");
    assert_eq!(log[1], Ev::Read(0x88, 800));
    assert_eq!(log[7], Ev::Read(0x88, 1500));
    assert!(r.sent(0x02).is_empty());
}

#[test]
fn the_arm_tail_jumps_to_the_centre() {
    let mut r = rig("co2");
    let _ = r.perform(unlock(Some(&[70]), true));
    assert_eq!(
        r.sent(0x02),
        vec![[0x0241, 0x2710, 0x8000, 0x8000, 0, 0x01F4]]
    );
    let mut s = rig("co2");
    let _ = s.perform(unlock(Some(&[70]), false));
    assert!(s.sent(0x02).is_empty());
}

#[test]
fn an_unreadable_state_is_not_a_locked_one() {
    let mut r = rig("co2");
    r.wire.0.lock().unwrap().replies = vec![Some(locked(0)), None, Some(vec![1; 7])];
    let outcome = r.perform(ask_encrypt_state());
    assert_eq!(encrypt_state(&outcome), Some(0));
    let outcome = r.perform(ask_encrypt_state());
    assert_eq!(encrypt_state(&outcome), None);
    let outcome = r.perform(ask_encrypt_state());
    assert_eq!(encrypt_state(&outcome), None);
    r.wire.0.lock().unwrap().deaf = 1;
    let outcome = r.perform(ask_encrypt_state());
    assert_eq!(encrypt_state(&outcome), None);
}

/// Unlock to the end; gives the outcome and the number of replays.
fn unlock_all(r: &mut Rig, attempts: u32) -> (bool, usize) {
    let mut u = Unlocking::new(attempts);
    let mut reply = None;
    loop {
        match r.job.ensure_unlocked(&mut u, attempts, &reply) {
            Move::Run(script) => reply = r.perform(script).unwrap_or(None),
            Move::Over(green) => {
                let replays = r
                    .log()
                    .iter()
                    .filter(|e| matches!(e, Ev::Write(0x06, b) if b.len() == 36))
                    .count();
                return (green, replays);
            }
        }
    }
}

#[test]
fn a_green_board_is_not_replayed() {
    let mut r = rig("co2");
    r.wire.0.lock().unwrap().replies = vec![
        Some(vec![1, 5]),
        Some(vec![1, 6]),
        Some(vec![1, 5]),
        Some(locked(2)),
    ];
    assert_eq!(unlock_all(&mut r, 2), (true, 0));
    assert_eq!(r.asked(), vec![0x0105, 0x0106, 0x0105, 0x0102]);
    assert!(r.warnings().is_empty());
}

#[test]
fn a_board_that_stays_locked_is_warned_of() {
    let mut r = rig("co2");
    assert_eq!(unlock_all(&mut r, 2), (false, 2));
    assert_eq!(
        r.warnings(),
        vec![
            "board still reports locked after 2 unlock attempts: it will accept commands and emit \
             nothing"
        ]
    );
    let mut s = rig("co2");
    assert_eq!(unlock_all(&mut s, 0), (false, 1), "no attempts is one");
}

#[test]
fn a_percentage_and_a_power_byte_follow_from_each_other() {
    let mut r = rig("fiber");
    let pct = |p: f64| Some(double(p));
    r.job.configure(None, pct(50.0), None, None, None, None, equivalent(50.0, 0)).unwrap();
    assert_eq!(r.job.settings(double(1.0)).power_byte, 127, "not 128");
    r.job.configure(None, pct(51.0), None, None, None, None, equivalent(51.0, 0)).unwrap();
    assert_eq!(r.job.settings(double(1.0)).power_byte, 130);
    let wave = r.wave();
    let script = r.job.begin((0, 0), 1, wave);
    r.perform(script).unwrap();
    assert_eq!(r.sent(0x02)[1][4] & 0xFF, 130);

    r.job.configure(None, None, Some(0x33), None, None, None, equivalent(0.0, 0x33)).unwrap();
    let s = r.job.settings(double(1.0));
    assert_eq!((s.power_byte, value(s.power_pct)), (0x33, 20.0));
    // Both are taken as given.
    let both = equivalent(75.0, 0x80);
    r.job.configure(None, pct(75.0), Some(0x80), None, None, None, both).unwrap();
    let s = r.job.settings(double(1.0));
    assert_eq!((s.power_byte, value(s.power_pct)), (0x80, 75.0));
}
