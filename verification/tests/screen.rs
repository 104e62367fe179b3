use control_app::renderer::{DrawOp, DrawText, LcdView, Readings, Style};

fn text(ops: &[DrawOp], i: usize) -> &DrawText {
    match &ops[i] {
        DrawOp::Text(t) => t,
        DrawOp::ClearBlack => panic!("not a text"),
    }
}

fn s(t: &DrawText) -> String {
    String::from_utf8(t.text.clone()).unwrap()
}

fn readings() -> Readings {
    Readings {
        a_req: 3,
        a_cnf: 11,
        power_state: true,
        lna144_state: false,
        lna430_state: true,
        voltage: 12034,
        current: 560,
        az: 7,
        el: 45,
    }
}

#[test]
fn loading_screen_layout() {
    let mut v = LcdView::new();
    let ops = v.loading();
    assert_eq!(ops.len(), 12);
    assert_eq!(ops[0], DrawOp::ClearBlack);
    let title = text(&ops, 1);
    assert_eq!(s(title), "R2AJP AntSwitcher");
    assert_eq!((title.x, title.y, title.style, title.centered), (120, 30, Style::TitleBlue, true));
    let labels = [
        "Sat AZ:", "Sat EL:", "ANT Requested:", "ANT Confirmed:", "Voltage:", "Current:",
        "Power:", "LNA 144:", "LNA 430:", "ANT Aperture:",
    ];
    for (k, label) in labels.iter().enumerate() {
        let t = text(&ops, k + 2);
        assert_eq!(s(t), *label);
        assert_eq!((t.x, t.y), (20, 70 + 20 * k as i32));
        assert_eq!(t.style, Style::WhiteOnBlack);
        assert!(!t.centered);
    }
}

#[test]
fn first_render_draws_every_changed_field() {
    let mut v = LcdView::new();
    let ops = v.render(readings());
    let got: Vec<(String, i32, i32, Style, bool)> = (0..ops.len())
        .map(|i| {
            let t = text(&ops, i);
            (s(t), t.x, t.y, t.style, t.centered)
        })
        .collect();
    let want: Vec<(String, i32, i32, Style, bool)> = vec![
        ("007".to_string(), 100, 70, Style::GreenOnBlack, false),
        ("045".to_string(), 100, 90, Style::GreenOnBlack, false),
        ("3".to_string(), 170, 110, Style::GreenOnBlack, false),
        ("11 ".to_string(), 170, 130, Style::GreenOnBlack, false),
        ("<   8  ..  79   >".to_string(), 120, 270, Style::GreenOnBlack, true),
        ("12034 mV".to_string(), 110, 150, Style::GreenOnBlack, false),
        ("00560 mA".to_string(), 110, 170, Style::GreenOnBlack, false),
        ("ON ".to_string(), 90, 190, Style::GreenOnBlack, false),
        ("OFF".to_string(), 110, 210, Style::GreenOnBlack, false),
    ];
    // lna430 stays on, as the placeholder shows it on
    assert_eq!(got, want);
}

#[test]
fn second_render_draws_nothing() {
    let mut v = LcdView::new();
    let _ = v.render(readings());
    assert!(v.render(readings()).is_empty());
}

#[test]
fn mismatched_confirmation_is_red() {
    let mut v = LcdView::new();
    let _ = v.render(readings());
    let mut r = readings();
    r.a_cnf = 9;
    r.power_state = false;
    let ops = v.render(r);
    assert_eq!(ops.len(), 3);
    let cnf = text(&ops, 0);
    assert_eq!(s(cnf), "9 ");
    assert_eq!(cnf.style, Style::RedOnBlack);
    assert_eq!(s(text(&ops, 1)), "<  224 .. 295   >");
    let power = text(&ops, 2);
    assert_eq!(s(power), "OFF");
    assert_eq!(power.style, Style::RedOnBlack);
}

#[test]
fn unknown_confirmation_code() {
    let mut v = LcdView::new();
    let mut r = readings();
    r.a_cnf = 8;
    let ops = v.render(r);
    assert_eq!(s(text(&ops, 4)), "---- UNKNOWN ----");
    assert_eq!(text(&ops, 3).style, Style::RedOnBlack);
}

#[test]
fn wide_values_are_not_cut() {
    let mut v = LcdView::new();
    let mut r = readings();
    r.az = 1234;
    r.voltage = 123456;
    let ops = v.render(r);
    assert_eq!(s(text(&ops, 0)), "1234");
    assert_eq!(s(text(&ops, 5)), "123456 mV");
}

#[test]
fn values_stand_right_of_their_labels() {
    let mut v = LcdView::new();
    let labels = v.loading();
    let mut r = readings();
    r.az = 65535;
    r.voltage = 4294967295;
    let ops = v.render(r);
    for i in 0..ops.len() {
        let t = text(&ops, i);
        if t.centered {
            assert_eq!((t.x, t.y), (120, 270));
            continue;
        }
        let label = (2..12)
            .map(|k| text(&labels, k))
            .find(|l| l.y == t.y)
            .expect("value on a label row");
        assert!(t.x >= label.x + 10 * label.text.len() as i32, "row {}", t.y);
    }
}

#[test]
fn value_cells_keep_their_width() {
    let mut v = LcdView::new();
    let mut r = readings();
    for step in 0..3u32 {
        r.az = [0, 999, 45][step as usize];
        r.el = [1, 90, 999][step as usize];
        r.a_req = [9, 1, 5][step as usize];
        r.a_cnf = [8, 20, 13][step as usize];
        r.voltage = [0, 99999, 123][step as usize];
        r.current = [7, 0, 99999][step as usize];
        r.power_state = step % 2 == 0;
        r.lna144_state = step % 2 == 1;
        r.lna430_state = step % 2 == 0;
        for op in v.render(r) {
            let DrawOp::Text(t) = op else { panic!("not a text") };
            let (x, len) = match t.y {
                70 | 90 => (100, Some(3)),
                110 => (170, Some(1)),
                130 => (170, None),
                150 | 170 => (110, Some(8)),
                190 => (90, Some(3)),
                210 | 230 => (110, Some(3)),
                270 => (120, Some(17)),
                y => panic!("unexpected row {}", y),
            };
            assert_eq!(t.x, x);
            assert_ne!(t.style, Style::TitleBlue);
            if let Some(len) = len {
                assert_eq!(t.text.len(), len, "row {}", t.y);
            }
        }
    }
}
