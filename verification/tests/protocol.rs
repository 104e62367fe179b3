use control_app::antenna::{aperture_label, select_antenna};
use control_app::easycom::{
    error_answer, frame_takes_byte, handle_command, receive_frame, split_frame, uppercase_ascii, AngleError,
    AzAngle, EasycomCommands, ElAngle, FrameAction, Pointing, RCV_BUF_LEN,
};
use control_app::text::{ascii_text, decimal_digits, push_decimal};

fn bytes(s: &str) -> Vec<u8> {
    s.as_bytes().to_vec()
}

#[test]
fn decimal_digits_of_numbers() {
    assert_eq!(decimal_digits(0), bytes("0"));
    assert_eq!(decimal_digits(7), bytes("7"));
    assert_eq!(decimal_digits(1234), bytes("1234"));
    assert_eq!(decimal_digits(4294967295), bytes("4294967295"));
}

#[test]
fn push_decimal_pads_with_zeros() {
    let mut out = bytes("x");
    push_decimal(&mut out, 7, 3);
    assert_eq!(out, bytes("x007"));
    let mut out = Vec::new();
    push_decimal(&mut out, 12345, 3);
    assert_eq!(out, bytes("12345"));
    let mut out = Vec::new();
    push_decimal(&mut out, 42, 5);
    assert_eq!(out, bytes("00042"));
    let mut out = Vec::new();
    push_decimal(&mut out, 0, 0);
    assert_eq!(out, bytes("0"));
}

#[test]
fn ascii_text_copies_bytes() {
    assert_eq!(ascii_text("ON "), bytes("ON "));
}

#[test]
fn antenna_sectors_at_low_elevation() {
    let cases: [(u16, u16); 13] = [
        (0, 2),
        (7, 2),
        (8, 3),
        (79, 3),
        (80, 4),
        (151, 4),
        (152, 5),
        (223, 5),
        (224, 1),
        (295, 1),
        (296, 2),
        (360, 2),
        (361, 6),
    ];
    for (az, ant) in cases {
        assert_eq!(select_antenna(az, 10), ant, "azimuth {}", az);
        assert_eq!(select_antenna(az, 49), ant, "azimuth {}", az);
        assert_eq!(select_antenna(az, 92), ant, "azimuth {}", az);
    }
}

#[test]
fn antenna_high_elevation_is_zenith() {
    assert_eq!(select_antenna(100, 50), 6);
    assert_eq!(select_antenna(250, 91), 6);
    assert_eq!(select_antenna(0, 70), 6);
}

#[test]
fn aperture_labels_match_sectors() {
    assert_eq!(aperture_label(1), bytes("<  224 .. 295   >"));
    assert_eq!(aperture_label(2), bytes("<0..7,  296..360>"));
    assert_eq!(aperture_label(3), bytes("<   8  ..  79   >"));
    assert_eq!(aperture_label(4), bytes("<  80  .. 151   >"));
    assert_eq!(aperture_label(5), bytes("<  152 .. 223   >"));
    assert_eq!(aperture_label(6), bytes("<  360 HIGH EL  >"));
    assert_eq!(aperture_label(0), bytes("---- UNKNOWN ----"));
    assert_eq!(aperture_label(7), bytes("---- UNKNOWN ----"));
    // each label's sector selects its own antenna
    assert_eq!(select_antenna(224, 0), 1);
    assert_eq!(select_antenna(295, 0), 1);
    assert_eq!(select_antenna(152, 0), 5);
}

#[test]
fn azimuth_text_parsing() {
    let zero = AzAngle::default();
    let a = zero.from_degrees(b"123.4").unwrap();
    assert_eq!(a.tenths(), 1234);
    assert_eq!(a.degrees(), 123);
    let a = zero.from_degrees(b"0.5").unwrap();
    assert_eq!(a.tenths(), 5);
    assert_eq!(a.degrees(), 1);
    let a = zero.from_degrees(b"12.4").unwrap();
    assert_eq!(a.degrees(), 12);
    let a = zero.from_degrees(b"359.5").unwrap();
    assert_eq!(a.degrees(), 360);
    let a = zero.from_degrees(b"360.0").unwrap();
    assert_eq!(a.tenths(), 3600);
    assert_eq!(zero.from_degrees(b"360.1").unwrap_err(), AngleError::OutOfRange);
    assert_eq!(zero.from_degrees(b"999.9").unwrap_err(), AngleError::OutOfRange);
    assert_eq!(zero.from_degrees(b"12.34").unwrap_err(), AngleError::Malformed);
    assert_eq!(zero.from_degrees(b"1a.4").unwrap_err(), AngleError::Malformed);
    assert_eq!(zero.from_degrees(b"12,4").unwrap_err(), AngleError::Malformed);
    assert_eq!(zero.from_degrees(b"12.x").unwrap_err(), AngleError::Malformed);
    assert_eq!(zero.from_degrees(b".4").unwrap_err(), AngleError::Malformed);
    assert_eq!(zero.from_degrees(b"1234.5").unwrap_err(), AngleError::Malformed);
}

#[test]
fn elevation_text_parsing() {
    let zero = ElAngle::default();
    assert_eq!(zero.tenths(), 0);
    let e = zero.from_degrees(b"180.0").unwrap();
    assert_eq!(e.degrees(), 180);
    let e = zero.from_degrees(b"45.5").unwrap();
    assert_eq!(e.degrees(), 46);
    assert_eq!(zero.from_degrees(b"180.1").unwrap_err(), AngleError::OutOfRange);
    assert_eq!(zero.from_degrees(b"4.").unwrap_err(), AngleError::Malformed);
}

#[test]
fn command_codes() {
    assert_eq!(EasycomCommands::parse(b"VE"), Some(EasycomCommands::VE));
    assert_eq!(EasycomCommands::parse(b"AZ123.4"), Some(EasycomCommands::AZ));
    assert_eq!(EasycomCommands::parse(b"EL"), Some(EasycomCommands::EL));
    assert_eq!(EasycomCommands::parse(b"az"), None);
    assert_eq!(EasycomCommands::parse(b"XY"), None);
}

fn start() -> Pointing {
    Pointing { az: 0, el: 0, antenna: 1 }
}

#[test]
fn version_request() {
    let o = handle_command(start(), b"VE").unwrap();
    assert_eq!(o.reply, bytes("VE1.0\n"));
    assert_eq!(o.pointing, Pointing { az: 0, el: 0, antenna: 2 });
    assert!(o.antenna_changed);
}

#[test]
fn azimuth_set_then_query() {
    let p = Pointing { az: 0, el: 0, antenna: 2 };
    let o = handle_command(p, b"AZ123.4").unwrap();
    assert_eq!(o.reply, Vec::<u8>::new());
    assert_eq!(o.pointing, Pointing { az: 123, el: 0, antenna: 4 });
    assert!(o.antenna_changed);
    let q = handle_command(o.pointing, b"AZ").unwrap();
    assert_eq!(q.reply, bytes("+123.0\n"));
    assert_eq!(q.pointing, o.pointing);
    assert!(!q.antenna_changed);
}

#[test]
fn elevation_set_then_query() {
    let p = Pointing { az: 250, el: 0, antenna: 1 };
    let o = handle_command(p, b"EL60.0").unwrap();
    assert_eq!(o.reply, Vec::<u8>::new());
    assert_eq!(o.pointing, Pointing { az: 250, el: 60, antenna: 6 });
    assert!(o.antenna_changed);
    let q = handle_command(o.pointing, b"EL").unwrap();
    assert_eq!(q.reply, bytes("+60.0\n"));
}

#[test]
fn refused_requests_answer_question_mark() {
    let p = Pointing { az: 10, el: 5, antenna: 3 };
    for req in [&b"AZ12"[..], b"AZ12345678", b"AZ361.0", b"ELx.y", b"QQ", b"AZ1.23"] {
        let o = handle_command(p, req).unwrap();
        assert_eq!(o.reply, bytes("?\n"));
        assert_eq!(o.pointing, p);
        assert!(!o.antenna_changed);
    }
    assert_eq!(error_answer(), bytes("?\n"));
}

#[test]
fn short_pieces_are_skipped() {
    assert_eq!(handle_command(start(), b""), None);
    assert_eq!(handle_command(start(), b"A"), None);
}

#[test]
fn frames_are_upper_cased_and_split() {
    let mut frame = bytes("az123.4 el45.0\n");
    let action = receive_frame(&mut frame);
    assert_eq!(frame, bytes("AZ123.4 EL45.0\n"));
    assert_eq!(
        action,
        FrameAction::Requests(vec![bytes("AZ123.4"), bytes("EL45.0"), Vec::new()])
    );
}

#[test]
fn lone_character_is_answered() {
    let mut frame = bytes("x");
    assert_eq!(receive_frame(&mut frame), FrameAction::Answer(bytes("?\n")));
    assert_eq!(frame, bytes("X"));
    let mut empty: Vec<u8> = Vec::new();
    assert_eq!(receive_frame(&mut empty), FrameAction::Nothing);
}

#[test]
fn splitting_keeps_empty_pieces() {
    assert_eq!(split_frame(b""), vec![Vec::<u8>::new()]);
    assert_eq!(split_frame(b"\r\n"), vec![Vec::new(), Vec::new(), Vec::new()]);
    assert_eq!(split_frame(b"VE"), vec![bytes("VE")]);
    assert_eq!(split_frame(b"AZ EL"), vec![bytes("AZ"), bytes("EL")]);
}

#[test]
fn uppercase_only_touches_letters() {
    let mut b = bytes("az{`}09Zz\n");
    uppercase_ascii(&mut b);
    assert_eq!(b, bytes("AZ{`}09ZZ\n"));
    let again = b.clone();
    uppercase_ascii(&mut b);
    assert_eq!(b, again);
}

#[test]
fn frame_reception_ends_on_empty_read_or_full_buffer() {
    assert!(frame_takes_byte(1, 0));
    assert!(frame_takes_byte(1, RCV_BUF_LEN - 1));
    assert!(!frame_takes_byte(1, RCV_BUF_LEN));
    assert!(!frame_takes_byte(0, 5));
    assert_eq!(RCV_BUF_LEN, 128);
}
