//! Scan fields, their files, and the lasers by name.

use dbk2jp::double::{Double, Style, ONE};
use dbk2jp::field::{Field, FieldError};
use dbk2jp::laser::{all, get, get_code, Laser, Power, UnknownLaser};
use dbk2jp::markcfg::{read_markcfg, Config};

fn double(x: f64) -> Double {
    Double { bits: x.to_bits() }
}

fn value(d: Double) -> f64 {
    f64::from_bits(d.bits)
}

fn number(d: Double, style: Style) -> String {
    match style {
        Style::Plain => format!("{}", value(d)),
        Style::Fixed(n) => format!("{:.*}", n as usize, value(d)),
        Style::Scientific(n) => format!("{:.*e}", n as usize, value(d)),
    }
}

fn parse(s: String) -> Option<Double> {
    s.parse::<f64>().ok().map(double)
}

// ---- millimetres ------------------------------------------------------------

fn half_mm(f: &Field) -> f64 {
    value(f.size_mm) / 2.0
}

fn rounded(x: f64) -> Option<i64> {
    let v = x.round();
    if v.is_nan() {
        None
    } else {
        Some(v as i64)
    }
}

/// Undistorted millimetres to counts.
fn to_counts(f: &Field, x_mm: f64, y_mm: f64, clamp: bool) -> Result<(u16, u16), FieldError> {
    assert!(f.is_straight());
    let turn = |mm: f64, offset: Double, aspect: Double, negate: bool| {
        let c = 32768.0 + (mm - value(offset)) / half_mm(f) * (value(aspect) / 100.0) * 32767.0;
        if negate {
            65535.0 - c
        } else {
            c
        }
    };
    let x = turn(x_mm, f.offset_mm.0, f.aspect.0, f.negate.0);
    let y = turn(y_mm, f.offset_mm.1, f.aspect.1, f.negate.1);
    f.to_counts((rounded(x), rounded(y)), (double(x_mm), double(y_mm)), clamp)
}

/// Counts back to millimetres.
fn to_mm(f: &Field, x: f64, y: f64) -> (f64, f64) {
    let (x, y) = if f.swap_xy { (y, x) } else { (x, y) };
    let turn = |c: f64, offset: Double, aspect: Double, negate: bool| {
        let c = if negate { 65535.0 - c } else { c };
        (c - 32768.0) / 32767.0 / (value(aspect) / 100.0) * half_mm(f) + value(offset)
    };
    (
        turn(x, f.offset_mm.0, f.aspect.0, f.negate.0),
        turn(y, f.offset_mm.1, f.aspect.1, f.negate.1),
    )
}

#[test]
fn round_trips_through_counts() {
    let f = Field::new(double(110.0));
    let (cx, cy) = to_counts(&f, 10.0, -5.0, false).unwrap();
    let (x, y) = to_mm(&f, cx as f64, cy as f64);
    assert!((x - 10.0).abs() < 0.01 && (y + 5.0).abs() < 0.01);
}

#[test]
fn matches_the_captured_geometry() {
    // LightBurn marked 55.000 / 54.000 mm on a 110 mm lens at these counts.
    let f = Field {
        offset_mm: (double(55.0), double(55.0)),
        ..Field::new(double(110.0))
    };
    let (x, y) = to_mm(&f, 40005.0, 39278.0);
    assert!((x - 67.13).abs() < 0.05, "x was {}", x);
    assert!((y - 65.91).abs() < 0.05, "y was {}", y);
}

#[test]
fn outside_the_field_is_an_error_unless_clamped() {
    let f = Field::new(double(100.0));
    assert!(to_counts(&f, 80.0, 0.0, false).is_err());
    assert_eq!(to_counts(&f, 80.0, 0.0, true).unwrap().0, 65535);
}

#[test]
fn a_swapped_field_trades_its_axes_behind_the_mirrors() {
    let mut f = Field::new(double(100.0));
    f.set(None, None, None, Some((true, false)), Some(true)).unwrap();
    assert_eq!(f.to_counts((Some(10), Some(20)), (double(0.0), double(0.0)), false).unwrap(), (20, 10));
    let (cx, cy) = to_counts(&f, 10.0, -5.0, false).unwrap();
    let (x, y) = to_mm(&f, cx as f64, cy as f64);
    assert!((x - 10.0).abs() < 0.01 && (y + 5.0).abs() < 0.01);
}

#[test]
fn a_point_outside_names_the_axis() {
    let f = Field {
        offset_mm: (double(1.0), double(2.5)),
        ..Field::new(double(100.0))
    };
    let asked = (double(80.0), double(-90.0));
    let e = f.to_counts((Some(70000), Some(-5)), asked, false).err().unwrap();
    assert_eq!(
        e.message(number),
        "X=80.000 mm is outside the 100 mm field (centre 1, 2.5)"
    );
    let e = f.to_counts((Some(65535), Some(-5)), asked, false).err().unwrap();
    assert_eq!(
        e.message(number),
        "Y=-90.000 mm is outside the 100 mm field (centre 1, 2.5)"
    );
    assert_eq!(f.to_counts((Some(65535), Some(-5)), asked, true).unwrap(), (65535, 0));
    // What is no number at all comes out at the edge.
    assert_eq!(f.to_counts((None, Some(7)), asked, false).unwrap(), (0, 7));
}

// ---- factors ----------------------------------------------------------------

#[test]
fn a_field_starts_square_and_straight() {
    let f = Field::default();
    assert_eq!(value(f.size_mm), 100.0);
    assert_eq!((value(f.aspect.0), value(f.aspect.1)), (100.0, 100.0));
    assert_eq!((f.negate, f.swap_xy, f.created), ((false, false), false, false));
    assert!(f.path.is_none() && f.is_straight());
    let bent = Field {
        horver: (double(1.0), double(1.01)),
        ..f.clone()
    };
    assert!(!bent.is_straight());
    assert_eq!(f.distor.0.bits, ONE);
}

#[test]
fn a_refused_change_leaves_the_field_alone() {
    let mut f = Field::new(double(110.0));
    let e = f.set(Some(double(-1.0)), None, None, None, Some(true)).err().unwrap();
    assert_eq!(e.message(number), "size_mm must be positive, got -1");
    assert_eq!((value(f.size_mm), f.swap_xy), (110.0, false));
    let e = f
        .set(None, None, Some((double(100.0), double(0.0))), None, None)
        .err()
        .unwrap();
    assert_eq!(e.message(number), "aspect of 0% collapses the axis");
    f.set(Some(double(90.0)), Some((double(1.0), double(2.0))), None, None, None)
        .unwrap();
    assert_eq!((value(f.size_mm), value(f.offset_mm.1)), (90.0, 2.0));
    assert!(Field::new(double(0.0)).validate().is_err());
}

#[test]
fn a_factor_is_edited_by_its_name() {
    let mut f = Field::default();
    for (k, v) in [
        ("size_mm", 110.0),
        ("offset_x", 1.0),
        ("offset_y", 2.0),
        ("aspect_x", 99.0),
        ("aspect_y", 98.0),
        ("negate_x", 1.0),
        ("negate_y", 0.0),
        ("swap_xy", -2.0),
    ] {
        f.edit(k, Some(double(v))).unwrap();
    }
    assert_eq!((value(f.size_mm), value(f.offset_mm.0), value(f.offset_mm.1)), (110.0, 1.0, 2.0));
    assert_eq!((value(f.aspect.0), value(f.aspect.1)), (99.0, 98.0));
    assert_eq!((f.negate, f.swap_xy), ((true, false), true));
    assert_eq!(
        f.edit("gain", Some(double(1.0))).err().unwrap().message(number),
        "unknown factor gain"
    );
    assert_eq!(
        f.edit("size_mm", None).err().unwrap().message(number),
        "size_mm needs a number"
    );
}

#[test]
fn a_field_is_revised_as_a_whole_or_not_at_all() {
    let edits = |e: &[(&str, &str)]| -> Vec<(String, String)> {
        e.iter().map(|(k, v)| (k.to_string(), v.to_string())).collect()
    };
    let mut f = Field::new(double(100.0));
    assert!(!f.revise(&Vec::new(), parse).unwrap());
    let e = edits(&[("size_mm", "0"), ("negate_y", "1"), ("size_mm", "110")]);
    assert!(f.revise(&e, parse).unwrap(), "only the last size counts");
    assert_eq!((value(f.size_mm), f.negate), (110.0, (false, true)));
    for (e, told) in [
        (edits(&[("size_mm", "7"), ("offset_x", "far")]), "offset_x needs a number"),
        (edits(&[("size_mm", "7"), ("gain", "1"), ("x", "y")]), "unknown factor gain"),
        (edits(&[("offset_x", "7"), ("size_mm", "-1")]), "size_mm must be positive, got -1"),
        (edits(&[("offset_x", "7"), ("aspect_y", "0")]), "aspect of 0% collapses the axis"),
    ] {
        assert_eq!(f.revise(&e, parse).err().unwrap().message(number), told);
        assert_eq!((value(f.size_mm), value(f.offset_mm.0)), (110.0, 0.0), "{}", told);
        assert_eq!((value(f.aspect.1), f.negate), (100.0, (false, true)), "{}", told);
    }
    // A field that is not sound is left so where there is nothing to change.
    let mut flat = Field::new(double(0.0));
    assert!(!flat.revise(&Vec::new(), parse).unwrap());
}

// ---- files ------------------------------------------------------------------

#[test]
fn a_configuration_is_lines_of_keys() {
    let cfg = read_markcfg(b"[FileBegin]\r\n[default]\n A = 1 \nB=2=3\nno equals sign\n\0C=4\0\nA=5\n=6");
    assert_eq!(cfg.get("A").as_deref(), Some("5"), "the last one counts");
    assert_eq!(cfg.get("B").as_deref(), Some("2=3"));
    assert_eq!(cfg.get("C").as_deref(), Some("4"));
    assert_eq!(cfg.get("").as_deref(), Some("6"));
    assert_eq!(cfg.get("no equals sign"), None);
    assert_eq!(
        cfg.render(),
        "[FileBegin]\n[default]\n=6\nA=5\nB=2=3\nC=4\n"
    );
}

#[test]
fn bytes_that_are_no_text_become_replacement_characters() {
    let cfg = read_markcfg(b"K\xFF=caf\xC3\xA9\n");
    assert_eq!(cfg.get("K\u{FFFD}").as_deref(), Some("caf\u{E9}"));
}

#[test]
fn keys_are_kept_in_order_and_replaced() {
    let mut cfg = Config::new();
    cfg.insert("b", "2");
    cfg.insert("a", "1");
    cfg.insert("b", "3");
    assert_eq!(cfg.render(), "[FileBegin]\n[default]\na=1\nb=3\n");
    assert_eq!(cfg.get("c"), None);
}

#[test]
fn a_saved_field_reads_back() {
    let mut f = Field::new(double(110.0));
    f.set(
        None,
        Some((double(-1.5), double(2.25))),
        Some((double(99.5), double(101.0))),
        Some((false, true)),
        Some(true),
    )
    .unwrap();
    f.trapezoid = (double(1.0), double(1.125));
    let text = f.save(None, number);
    assert!(text.contains("\nFIELDSIZE=1.100000e2\n"), "{}", text);
    assert!(text.contains("\nGALVONEGATE1=1\n"), "{}", text);
    let g = Field::from_markcfg("markcfg0", text.as_bytes(), parse);
    assert_eq!(g.size_mm, f.size_mm);
    assert_eq!(g.offset_mm, f.offset_mm);
    assert_eq!(g.aspect, f.aspect);
    assert_eq!((g.negate, g.swap_xy), (f.negate, f.swap_xy));
    assert_eq!(g.trapezoid, f.trapezoid);
    assert_eq!(g.path.as_deref(), Some("markcfg0"));
    assert!(!g.created);
}

#[test]
fn saving_keeps_the_keys_of_others() {
    let old = b"[FileBegin]\n[default]\nLASERTYPE=3\nFIELDSIZE=7\n";
    let text = Field::new(double(110.0)).save(Some(old), number);
    let cfg = read_markcfg(text.as_bytes());
    assert_eq!(cfg.get("LASERTYPE").as_deref(), Some("3"));
    assert_eq!(cfg.get("FIELDSIZE").as_deref(), Some("1.100000e2"));
    assert_eq!(Field::default().as_markcfg(number).len(), 14);
}

#[test]
fn a_missing_or_unreadable_factor_takes_its_default() {
    let f = Field::from_markcfg("x", b"FIELDSIZE=wide\nGALVOX=2\nGALVODISTOR0=1.5\n", parse);
    assert_eq!(value(f.size_mm), 100.0);
    assert!(f.swap_xy);
    assert_eq!((value(f.distor.0), value(f.distor.1)), (1.5, 1.0));
    assert_eq!(value(f.aspect.1), 100.0);
}

// ---- doubles ----------------------------------------------------------------

#[test]
fn doubles_compare_as_numbers() {
    let values = [f64::NEG_INFINITY, -2.5, -0.0, 0.0, 1e-310, 1.0, 40.0, f64::INFINITY, f64::NAN];
    for a in values {
        for b in values {
            assert_eq!(double(a).lt(double(b)), a < b, "{} < {}", a, b);
            assert_eq!(double(a).le(double(b)), a <= b, "{} <= {}", a, b);
            assert_eq!(double(a).same(double(b)), a == b, "{} == {}", a, b);
        }
    }
}

// ---- lasers -----------------------------------------------------------------

#[test]
fn names_and_codes_resolve() {
    assert_eq!(get("CO2").unwrap().code, 0x22);
    assert_eq!(get("fiber").unwrap().power, Power::Byte);
    assert_eq!(get("0x33").unwrap().name, "uv");
    assert!(get("plasma").is_err());
}

#[test]
fn every_laser_is_found_by_name_and_code() {
    let codes: Vec<u8> = all().iter().map(|l| l.code).collect();
    assert_eq!(codes, vec![0x22, 0x11, 0x33, 0x44, 0x55, 0x00]);
    for l in all() {
        assert_eq!(get(l.name).unwrap().code, l.code);
        assert_eq!(get_code(l.code).name, l.name);
        assert_eq!((value(l.freq_range.0), value(l.freq_range.1)), (1.0, 40.0));
        assert_eq!((value(l.tick_range.0), value(l.tick_range.1)), (0.74, 100.0));
    }
}

#[test]
fn a_code_of_its_own_is_driven_by_duty() {
    let l: Laser = get(" 119 ").unwrap();
    assert_eq!((l.name, l.code, l.power), ("custom", 119, Power::Pwm));
    assert_eq!((value(l.freq_khz), l.tickle, l.verified), (20.0, false, false));
    assert!(get("0x1FF").is_err() && get("256").is_err() && get("-1").is_err());
    assert_eq!(get("0X11").unwrap().name, "fiber");
}

#[test]
fn an_unknown_laser_is_quoted() {
    let e = get("plas\"ma").err().unwrap();
    assert_eq!(
        UnknownLaser::message(&format!("{:?}", e.kind)),
        "unknown laser \"plas\\\"ma\", pick one of: co2, fiber, green, mopa, uv, yag"
    );
}

#[test]
fn lasers_with_a_power_word_take_a_pulse_width() {
    for l in all() {
        assert_eq!(l.mopa_pulse, l.power == Power::Byte, "{}", l.name);
    }
}

#[test]
fn millimetres_come_out_at_their_counts() {
    let f = Field::default();
    assert_eq!(to_counts(&f, 25.0, -10.0, false).unwrap(), (0xC000, 0x6667));
    assert_eq!(to_mm(&f, 32768.0, 32768.0), (0.0, 0.0));
    let e = to_counts(&f, 80.0, 0.0, false).err().unwrap();
    assert_eq!(
        e.message(number),
        "X=80.000 mm is outside the 100 mm field (centre 0, 0)"
    );
}
