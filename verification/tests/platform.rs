//! Finding a board, framing its transfers, and the command line.

use dbk2jp::cli::{hex, num, request, Request, Usage};
use dbk2jp::cyusb::{
    choose_path, collected, detail_path, find_devices, frame_transfer, from_wide, interface_guids,
    issued, parse_transfer, reg_strings, registry_guids, timed_out, to_units, waited, wide, Guid, Instance,
    Io, CYUSBDRV_GUID,
};
use dbk2jp::devices::{
    cannot_open, choose_board, halt_order, is_board, location, read_outcome, write_outcome, Bulk,
};
use dbk2jp::unlock::{full, minimal, unhex, EP2_BLOB, FRAMES};
use dbk2jp::usb::BoardError;
use dbk2jp::{parse, PID, VID};

fn texts(v: &[&str]) -> Vec<String> {
    v.iter().map(|s| s.to_string()).collect()
}

// ---- CYUSB3 -----------------------------------------------------------------

#[test]
fn a_guid_is_read_from_its_digits() {
    let g = Guid::parse(CYUSBDRV_GUID).unwrap();
    assert_eq!((g.data1, g.data2, g.data3), (0xAE18AA60, 0x7F6A, 0x11D4));
    assert_eq!(g.data4, [0x97, 0xDD, 0x00, 0x01, 0x02, 0x29, 0xB9, 0x59]);
    assert!(Guid::parse("ae18aa607f6a11d497dd00010229b959").is_some());
    assert!(Guid::parse("{AE18AA60}").is_none());
}

#[test]
fn wide_strings_read_back() {
    assert_eq!(wide("a\u{1F600}"), vec![0x61, 0xD83D, 0xDE00, 0]);
    for s in ["", "usb", "\u{E9}\u{20AC}\u{1F600}"] {
        assert_eq!(from_wide(&wide(s)), s);
    }
    assert_eq!(from_wide(&[0x61, 0, 0x62]), "a", "up to the first nul");
    assert_eq!(from_wide(&[0xD800]), "\u{FFFD}");
}

#[test]
fn a_surrogate_without_its_partner_is_replaced() {
    assert_eq!(from_wide(&[0xDC00, 0xD83D, 0xDE00]), "\u{FFFD}\u{1F600}");
    assert_eq!(from_wide(&[0xD83D, 0xD83D, 0xDE00]), "\u{FFFD}\u{1F600}");
    assert_eq!(from_wide(&[0xD83D, 0x61]), "\u{FFFD}a");
    assert_eq!(from_wide(&[0xD7FF, 0xE000, 0xDFFF]), "\u{D7FF}\u{E000}\u{FFFD}");
    assert_eq!(from_wide(&[0xDBFF, 0xDFFF]), "\u{10FFFF}");
}

#[test]
fn registry_values_are_split_on_nuls() {
    let mut bytes = Vec::new();
    for u in wide("{A}").into_iter().chain(wide("b")).chain([0]) {
        bytes.extend(u.to_le_bytes());
    }
    bytes.push(7);
    assert_eq!(reg_strings(&bytes), texts(&["{A}", "b"]));
    assert_eq!(reg_strings(&[0, 0, 0, 0]), Vec::<String>::new());
    assert_eq!(to_units(&[1, 2, 3]), vec![0x0201]);
    let detail = [8, 0, 0, 0, b'x', 0, b'y', 0, 0, 0, b'z', 0];
    assert_eq!(detail_path(&detail), "xy");
}

#[test]
fn a_transfer_is_framed_behind_its_header() {
    let b = frame_transfer(0x02, &[9, 8, 7], 0);
    assert_eq!(b.len(), 0x26 + 3);
    assert_eq!(b[0x0D], 0x02);
    assert_eq!(b[0x1E..0x26], [0x26, 0, 0, 0, 3, 0, 0, 0]);
    assert_eq!(b[0x26..], [9, 8, 7]);
    let r = frame_transfer(0x88, &[], 12);
    assert_eq!((r.len(), r[0x22]), (0x26 + 12, 12));
    assert!(r[0x26..].iter().all(|v| *v == 0));
}

#[test]
fn a_transfer_is_read_behind_its_header() {
    let mut b = frame_transfer(0x88, &[], 3);
    b[0x0E..0x12].copy_from_slice(&0xC000_0001u32.to_le_bytes());
    b[0x12..0x16].copy_from_slice(&0x8000_0004u32.to_le_bytes());
    b[0x26..].copy_from_slice(&[1, 2, 3]);
    let x = parse_transfer(&b, 0x26 + 3);
    assert_eq!((x.nt, x.usbd, x.moved), (0xC000_0001, 0x8000_0004, 3));
    assert_eq!(x.data, vec![1, 2, 3]);
    assert_eq!(parse_transfer(&b, 5).moved, 0, "less than a header");
}

#[test]
fn overlapped_requests_are_waited_for() {
    assert!(matches!(issued(true, 5), Io::Done));
    assert!(matches!(issued(false, 997), Io::Wait));
    match issued(false, 5) {
        Io::Failed(e) => assert_eq!(e.message(), "transfer failed: Windows error 5"),
        _ => panic!("not pending is a failure"),
    }
    assert!(matches!(waited(0, 9), Io::Done));
    match waited(258, 800) {
        Io::Cancel(e) => assert_eq!(e.message(), "transfer timed out: 800 ms"),
        _ => panic!("a wait that ran out is cancelled"),
    }
    assert!(matches!(collected(true, 0), Io::Done));
    match collected(false, 31) {
        Io::Failed(e) => assert_eq!(e.message(), "transfer failed: Windows error 31"),
        _ => panic!("a failed result is a failure"),
    }
    assert_eq!(timed_out(3).message(), "transfer timed out: 3 ms");
}

#[test]
fn only_boards_are_kept_and_each_once() {
    let paths = texts(&[
        "\\\\?\\usb#VID_04B4&PID_1004#1",
        "\\\\?\\usb#vid_1234&pid_0001#1",
        "\\\\?\\USB#vid_04b4&pid_1004#1",
        "\\\\?\\usb#vid_04b4&pid_1004#2",
    ]);
    assert_eq!(find_devices(&paths, false), texts(&[&paths[0], &paths[3]]));
    assert_eq!(
        find_devices(&paths, true),
        texts(&[&paths[0], &paths[1], &paths[3]])
    );
}

#[test]
fn guids_of_the_right_driver_come_first() {
    let of = |service: &str, guids: &[&str]| Instance {
        service: service.to_string(),
        guids: texts(guids),
    };
    let found = registry_guids(&vec![
        of("WinUSB", &["{aa}", " {} "]),
        of("cyusb3", &["bb", "{AA}"]),
        of("CYUSB", &["{BB}"]),
    ]);
    assert_eq!(found, texts(&["{bb}", "{AA}"]));
}

#[test]
fn the_stock_guid_comes_last() {
    let stock = CYUSBDRV_GUID.to_string();
    assert_eq!(interface_guids(&Vec::new()), vec![stock.clone()]);
    let inst = |g: &str| Instance {
        service: "cyusb3".to_string(),
        guids: texts(&[g]),
    };
    assert_eq!(
        interface_guids(&vec![inst("{bb}"), inst(CYUSBDRV_GUID)]),
        vec!["{bb}".to_string(), stock.clone(), stock]
    );
}

#[test]
fn a_path_is_taken_as_given_or_by_place() {
    let boards = texts(&["a", "b"]);
    assert_eq!(choose_path(Some("c"), &boards, 9).unwrap(), "c");
    assert_eq!(choose_path(None, &boards, 1).unwrap(), "b");
    assert_eq!(
        choose_path(None, &boards, 2).err().unwrap().message(),
        "no DBK2JP found: only 2 board(s) present"
    );
    assert_eq!(
        choose_path(None, &Vec::new(), 0).err().unwrap().message(),
        "no DBK2JP found: VID 04B4 PID 1004: unplugged, or bound to a driver other than CYUSB3"
    );
}

// ---- bulk transfers ---------------------------------------------------------

#[test]
fn a_board_is_chosen_by_place() {
    let found = vec![(1, 4), (2, 13)];
    assert!(is_board(VID, PID) && !is_board(VID, 0x1005));
    assert_eq!(location((2, 13)), "usb:2.13");
    assert_eq!(choose_board(&found, Some("usb:2.13"), 0).unwrap(), 1);
    assert_eq!(choose_board(&found, Some("1.4"), 0).unwrap(), 0);
    assert_eq!(choose_board(&found, None, 1).unwrap(), 1);
    for (i, place) in found.iter().enumerate() {
        assert_eq!(choose_board(&found, Some(&location(*place)), 0).unwrap(), i);
    }
    assert_eq!(
        choose_board(&found, Some("usb:2.1"), 0).err().unwrap().message(),
        "no DBK2JP found: no board at usb:2.1"
    );
    assert_eq!(
        choose_board(&found, None, 2).err().unwrap().message(),
        "no DBK2JP found: only 2 board(s) present"
    );
    assert_eq!(
        choose_board(&Vec::new(), None, 0).err().unwrap().message(),
        "no DBK2JP found: VID 04B4 PID 1004"
    );
    assert_eq!(
        cannot_open("usb:1.4", "Access denied").message(),
        "cannot open board: usb:1.4: Access denied. On Linux this is usually permissions: add a \
         udev rule for 04b4:1004 or run as root"
    );
    assert_eq!(halt_order(), [0x88, 0x84, 0x06, 0x02]);
}

#[test]
fn a_read_keeps_the_whole_buffer() {
    let x = read_outcome(Bulk::Moved(2), vec![1, 2, 0], 800).unwrap();
    assert_eq!((x.nt, x.usbd, x.moved, x.data), (0, 0, 2, vec![1, 2, 0]));
    assert_eq!(
        read_outcome(Bulk::Timeout, vec![0], 800).err().unwrap().message(),
        "transfer timed out: 800 ms"
    );
    let e = read_outcome(Bulk::Failed("Pipe error".into()), vec![0], 800).err().unwrap();
    assert!(matches!(e, BoardError::Transfer(m) if m == "Pipe error"));
}

#[test]
fn a_short_write_is_a_failure() {
    assert_eq!(write_outcome(Bulk::Moved(24), 0x02, 24, 3000).unwrap().moved, 24);
    assert_eq!(
        write_outcome(Bulk::Moved(12), 0x02, 24, 3000).err().unwrap().message(),
        "transfer failed: short write on EP 0x02: 12 of 24 bytes"
    );
    assert!(matches!(
        write_outcome(Bulk::Timeout, 0x06, 12, 3000),
        Err(BoardError::Timeout(_))
    ));
}

// ---- frames of the unlock ---------------------------------------------------

#[test]
fn captured_frames_are_hexadecimal() {
    assert_eq!(unhex("0C5CBB"), vec![0x0C, 0x5C, 0xBB]);
    assert_eq!(unhex("0c5g1"), vec![0x0C, 0], "what is no digit counts as nothing");
    assert_eq!(unhex("+a-a"), vec![0x0A, 0]);
    assert_eq!(unhex("0c\u{E9}5g1f\u{7FF}a"), vec![0x0C, 0, 0, 0x1F, 0]);
    assert_eq!(
        parse(&unhex(EP2_BLOB)).unwrap(),
        [0x0241, 0x2710, 0x8000, 0x8000, 0, 0x01F4]
    );
    for (gap_ms, frame) in FRAMES {
        assert!(gap_ms >= 10 && frame.len() % 2 == 0);
    }
}

#[test]
fn named_sets_are_frames() {
    assert_eq!(dbk2jp::unlock::set("bare"), Some(vec![10, 11, 12]));
    assert_eq!(dbk2jp::unlock::set("bare"), Some(minimal()));
    assert_eq!(dbk2jp::unlock::set("rb"), Some((10..18).collect()));
    assert_eq!(dbk2jp::unlock::set("wake"), Some((8..18).collect()));
    assert_eq!(dbk2jp::unlock::set("core").unwrap()[..4], [0, 1, 8, 9]);
    assert_eq!(dbk2jp::unlock::set("auth"), Some((0..18).collect()));
    assert_eq!(dbk2jp::unlock::set("min").unwrap().len(), 25);
    assert_eq!(dbk2jp::unlock::set("full"), Some(full()));
    assert_eq!(dbk2jp::unlock::set("tailonly"), Some((67..74).collect()));
    assert_eq!(dbk2jp::unlock::set("all"), None);
    assert_eq!(full().len(), FRAMES.len());
}

// ---- command line -----------------------------------------------------------

#[test]
fn numbers_are_decimal_or_hexadecimal() {
    assert_eq!(num(" 0x8000 "), Some(0x8000));
    assert_eq!(num("0XfF"), Some(255));
    assert_eq!(num("-12"), Some(-12));
    assert_eq!(num("+12"), Some(12));
    assert_eq!(num("0x-1"), Some(-1));
    assert_eq!(num("9223372036854775808"), None);
    assert_eq!(num("-9223372036854775808"), Some(i64::MIN));
    assert_eq!(num(""), None);
    assert_eq!(num("0x"), None);
    assert_eq!(num("12px"), None);
    assert_eq!(hex(&[0x01, 0xAB]), "01 ab");
    assert_eq!(hex(&[]), "");
}

#[test]
fn a_command_becomes_a_request() {
    let ask = |cmd: &str, rest: &[&str]| request(cmd, &texts(rest));
    assert!(matches!(ask("devices", &[]), Ok(Request::Devices)));
    assert!(matches!(ask("status", &[]), Ok(Request::Status)));
    assert!(matches!(ask("unlock", &[]), Ok(Request::Unlock)));
    assert!(matches!(ask("off", &[]), Ok(Request::Off)));
    assert!(matches!(ask("help", &[]), Ok(Request::Help)));
    assert!(matches!(ask("mark", &[]), Ok(Request::Help)));
    assert!(matches!(ask("inputs", &[]), Ok(Request::Inputs { secs: None })));
    match ask("inputs", &["2.5"]) {
        Ok(Request::Inputs { secs }) => assert_eq!(secs.as_deref(), Some("2.5")),
        _ => panic!("inputs takes seconds"),
    }
}

#[test]
fn numbers_of_a_command_wrap() {
    let ask = |cmd: &str, rest: &[&str]| request(cmd, &texts(rest));
    assert!(matches!(
        ask("out", &["3", "1"]),
        Ok(Request::Out { port: 3, value: 1 })
    ));
    assert!(matches!(
        ask("out", &["0x103", "-1"]),
        Ok(Request::Out { port: 3, value: 0xFFFF })
    ));
    assert!(matches!(
        ask("jump", &["0x8000", "100", "more"]),
        Ok(Request::Jump { x: 0x8000, y: 100 })
    ));
    assert_eq!(ask("out", &["3"]).err(), Some(Usage::Out));
    assert_eq!(ask("jump", &["a", "1"]).err(), Some(Usage::Jump));
    assert_eq!(Usage::Out.message(), "usage: dbk2jp out <port> <0|1>");
    assert_eq!(
        Usage::Jump.message(),
        "usage: dbk2jp jump <x> <y>   (0x8000 is centre)"
    );
}

#[test]
fn a_field_is_named_first_and_edited_behind() {
    let ask = |rest: &[&str]| match request("field", &texts(rest)) {
        Ok(Request::Field { path, edits }) => (path, edits),
        _ => panic!("field is a field"),
    };
    assert_eq!(ask(&[]), ("markcfg0".to_string(), vec![]));
    assert_eq!(
        ask(&["lens", "size_mm=110", "ignored", "a=b=c"]),
        (
            "lens".to_string(),
            vec![
                ("size_mm".to_string(), "110".to_string()),
                ("a".to_string(), "b=c".to_string())
            ]
        )
    );
    assert_eq!(ask(&["size_mm=1"]).0, "markcfg0");
}
