//! Command frames, byte for byte.

use dbk2jp::protocol::{cmd, mopa_pulse_ns, parse, set_power_0210, set_power_raw, PulseTicks};

/// A frequency and a duty on the board's 48 MHz clock.
fn ticks(freq_khz: f64, duty_pct: f64) -> PulseTicks {
    let duty_us = (duty_pct / 100.0) * (1000.0 / freq_khz);
    PulseTicks {
        period: (48000.0 / freq_khz).round() as u32,
        width: (duty_us * 48.0).round() as i64,
        half_khz: (freq_khz * 0.5).round() as i64,
    }
}

#[test]
fn frame_is_big_endian() {
    assert_eq!(
        cmd(0x0243, 1495, 0x9C45, 0x952B, 0, 10),
        [0x02, 0x43, 0x05, 0xD7, 0x9C, 0x45, 0x95, 0x2B, 0x00, 0x00, 0x00, 0x0A]
    );
}

#[test]
fn parse_round_trips() {
    let c = cmd(0x0101, 1, 2, 3, 4, 5);
    assert_eq!(parse(&c).unwrap(), [0x0101, 1, 2, 3, 4, 5]);
}

#[test]
fn mopa_frame_is_a5_01_then_the_width() {
    assert_eq!(&mopa_pulse_ns(100)[..6], &[0x02, 0x06, 0xA5, 0x01, 0x00, 0x64]);
}

#[test]
fn power_matches_the_python_packing() {
    // 20 kHz, 50 %: period 2400 ticks, width 1200 ticks.
    let (bytes, period, width) = set_power_0210(ticks(20.0, 50.0), (50.0f64 * 255.0) as i64, 0);
    assert_eq!((period, width), (2400, 1200));
    let f = parse(&bytes).unwrap();
    assert_eq!(f[0], 0x0210);
    assert_eq!(f[2], ((period >> 8) & 0xFF) as u16 | (10u16 << 8));
    assert_eq!(f[4] & 0xFF, 127); // (50*255)/100
}

#[test]
fn power_splits_period_and_width_over_three_words() {
    let (bytes, _, _) = set_power_0210(ticks(20.0, 50.0), 12750, 7);
    assert_eq!(parse(&bytes).unwrap(), [0x0210, 0, 0x0A09, 0x6004, 0xB07F, 7]);
    let raw = set_power_raw(ticks(20.0, 0.0), 0x80, 0);
    assert_eq!(parse(&raw).unwrap(), [0x0210, 0, 0x0A09, 0x6000, 0x0080, 0]);
}

#[test]
fn power_keeps_the_low_bits_of_what_is_too_large() {
    let t = PulseTicks {
        period: 0x12345,
        width: -1,
        half_khz: 0x1FF,
    };
    let (bytes, period, width) = set_power_0210(t, -100, 0);
    assert_eq!((period, width), (0x12345, 0xFFFF));
    assert_eq!(parse(&bytes).unwrap(), [0x0210, 0, 0xFF23, 0x45FF, 0xFFFF, 0]);
    let (bytes, _, _) = set_power_0210(t, i64::MIN, 0);
    assert_eq!(
        parse(&bytes).unwrap()[4] & 0xFF,
        ((i64::MIN / 100) as u8) as u16
    );
}

#[test]
fn a_reply_is_twelve_bytes() {
    assert!(parse(&[0; 11]).is_none());
    assert!(parse(&[]).is_none());
    // What stands behind the first twelve bytes is not looked at.
    assert_eq!(parse(&[1; 13]), Some([0x0101; 6]));
}

#[test]
fn a_pulse_width_travels_in_sixteen_bits() {
    assert_eq!(parse(&mopa_pulse_ns(0x1_0005)).unwrap()[2], 5);
}
