//! The LCD status screen: its static layout, and the updates that bring it
//! in line with fresh readings. The screen is described as drawing
//! operations; putting them on the display is left to the caller.

use vstd::prelude::*;
use vstd::string::is_ascii;
use crate::text::{
    ascii, ascii_text, decimal, decimal_padded, push_decimal, lemma_decimal_digits, lemma_decimal_len,
    pow10,
};
use crate::antenna::{aperture_text, aperture_label};
use crate::easycom::{digits_only, digits_value, lemma_decimal_reads_back};

verus! {

/// The text styles of the screen (10x20 font).
#[derive(Debug, Clone, Copy, PartialEq, Eq, Structural)]
pub enum Style {
    /// Blue text on whatever lies beneath: the title.
    TitleBlue,
    /// White text on black: field labels.
    WhiteOnBlack,
    /// Green text on black: good values.
    GreenOnBlack,
    /// Red text on black: values that need attention.
    RedOnBlack,
}

/// One piece of text to draw at a point; `centered` texts are centred on
/// the point, the others start there.
#[derive(Debug, PartialEq, Eq)]
pub struct DrawText {
    pub text: Vec<u8>,
    pub x: i32,
    pub y: i32,
    pub style: Style,
    pub centered: bool,
}

/// A drawing operation.
#[derive(Debug, PartialEq, Eq)]
pub enum DrawOp {
    /// Fill the whole screen with black.
    ClearBlack,
    /// Draw a text.
    Text(DrawText),
}

/// The abstract drawing operation: text as bytes, coordinates as integers.
pub enum Drawing {
    ClearBlack,
    Text { text: Seq<u8>, x: int, y: int, style: Style, centered: bool },
}

impl View for DrawOp {
    type V = Drawing;

    open spec fn view(&self) -> Drawing {
        match self {
            DrawOp::ClearBlack => Drawing::ClearBlack,
            DrawOp::Text(t) => Drawing::Text {
                text: t.text@,
                x: t.x as int,
                y: t.y as int,
                style: t.style,
                centered: t.centered,
            },
        }
    }
}

/// The drawings that a list of operations performs.
pub open spec fn drawings(ops: Seq<DrawOp>) -> Seq<Drawing> {
    ops.map_values(|o: DrawOp| o@)
}

/// A left-aligned text drawing.
pub open spec fn left(text: Seq<u8>, x: int, y: int, style: Style) -> Drawing {
    Drawing::Text { text, x, y, style, centered: false }
}

/// A centred text drawing.
pub open spec fn centered(text: Seq<u8>, x: int, y: int, style: Style) -> Drawing {
    Drawing::Text { text, x, y, style, centered: true }
}

/// The values the screen shows.
#[derive(Debug, Clone, Copy, PartialEq, Eq, Structural)]
pub struct Readings {
    /// The requested antenna.
    pub a_req: u16,
    /// The code the remote switch confirmed.
    pub a_cnf: u16,
    pub power_state: bool,
    pub lna144_state: bool,
    pub lna430_state: bool,
    /// Bus voltage in millivolts.
    pub voltage: u32,
    /// Bus current in milliamperes.
    pub current: u32,
    /// Requested azimuth, whole degrees.
    pub az: u16,
    /// Requested elevation, whole degrees.
    pub el: u16,
}

/// The static part of the screen: black background, title and field labels.
pub open spec fn loading_screen() -> Seq<Drawing> {
    seq![
        Drawing::ClearBlack,
        centered(ascii("R2AJP AntSwitcher"@), 120, 30, Style::TitleBlue),
        left(ascii("Sat AZ:"@), 20, 70, Style::WhiteOnBlack),
        left(ascii("Sat EL:"@), 20, 90, Style::WhiteOnBlack),
        left(ascii("ANT Requested:"@), 20, 110, Style::WhiteOnBlack),
        left(ascii("ANT Confirmed:"@), 20, 130, Style::WhiteOnBlack),
        left(ascii("Voltage:"@), 20, 150, Style::WhiteOnBlack),
        left(ascii("Current:"@), 20, 170, Style::WhiteOnBlack),
        left(ascii("Power:"@), 20, 190, Style::WhiteOnBlack),
        left(ascii("LNA 144:"@), 20, 210, Style::WhiteOnBlack),
        left(ascii("LNA 430:"@), 20, 230, Style::WhiteOnBlack),
        left(ascii("ANT Aperture:"@), 20, 250, Style::WhiteOnBlack),
    ]
}

/// `ON ` or `OFF`.
pub open spec fn on_off(on: bool) -> Seq<u8> {
    if on {
        ascii("ON "@)
    } else {
        ascii("OFF"@)
    }
}

/// The drawing for field `text` when the field changed, else nothing.
pub open spec fn if_changed(changed: bool, d: Drawing) -> Seq<Drawing> {
    if changed {
        seq![d]
    } else {
        Seq::empty()
    }
}

/// The azimuth field: three digits at least.
pub open spec fn az_part(shown: Readings, now: Readings) -> Seq<Drawing> {
    if_changed(
        shown.az != now.az,
        left(decimal_padded(now.az as nat, 3), 100, 70, Style::GreenOnBlack),
    )
}

/// The elevation field: three digits at least.
pub open spec fn el_part(shown: Readings, now: Readings) -> Seq<Drawing> {
    if_changed(
        shown.el != now.el,
        left(decimal_padded(now.el as nat, 3), 100, 90, Style::GreenOnBlack),
    )
}

/// The requested antenna field.
pub open spec fn req_part(shown: Readings, now: Readings) -> Seq<Drawing> {
    if_changed(
        shown.a_req != now.a_req,
        left(decimal(now.a_req as nat), 170, 110, Style::GreenOnBlack),
    )
}

/// The confirmed antenna field, green when the confirmation code is the
/// requested antenna plus 8, red otherwise, and the aperture of antenna
/// `code - 8` below it.
pub open spec fn cnf_part(shown: Readings, now: Readings) -> Seq<Drawing> {
    if shown.a_cnf != now.a_cnf {
        seq![
            left(
                decimal(now.a_cnf as nat) + seq![32u8],
                170,
                130,
                if now.a_req + 8 == now.a_cnf { Style::GreenOnBlack } else { Style::RedOnBlack },
            ),
            centered(aperture_text(now.a_cnf - 8), 120, 270, Style::GreenOnBlack),
        ]
    } else {
        Seq::empty()
    }
}

/// The voltage field: five digits at least and ` mV`.
pub open spec fn voltage_part(shown: Readings, now: Readings) -> Seq<Drawing> {
    if_changed(
        shown.voltage != now.voltage,
        left(decimal_padded(now.voltage as nat, 5) + ascii(" mV"@), 110, 150, Style::GreenOnBlack),
    )
}

/// The current field: five digits at least and ` mA`.
pub open spec fn current_part(shown: Readings, now: Readings) -> Seq<Drawing> {
    if_changed(
        shown.current != now.current,
        left(decimal_padded(now.current as nat, 5) + ascii(" mA"@), 110, 170, Style::GreenOnBlack),
    )
}

/// The power field: green `ON ` or red `OFF`.
pub open spec fn power_part(shown: Readings, now: Readings) -> Seq<Drawing> {
    if_changed(
        shown.power_state != now.power_state,
        left(
            on_off(now.power_state),
            90,
            190,
            if now.power_state { Style::GreenOnBlack } else { Style::RedOnBlack },
        ),
    )
}

/// The 144 MHz amplifier field.
pub open spec fn lna144_part(shown: Readings, now: Readings) -> Seq<Drawing> {
    if_changed(
        shown.lna144_state != now.lna144_state,
        left(on_off(now.lna144_state), 110, 210, Style::GreenOnBlack),
    )
}

/// The 430 MHz amplifier field.
pub open spec fn lna430_part(shown: Readings, now: Readings) -> Seq<Drawing> {
    if_changed(
        shown.lna430_state != now.lna430_state,
        left(on_off(now.lna430_state), 110, 230, Style::GreenOnBlack),
    )
}

/// The drawings for the fields of `now` that differ from `shown`, in screen order.
pub open spec fn updates(shown: Readings, now: Readings) -> Seq<Drawing> {
    az_part(shown, now) + el_part(shown, now) + req_part(shown, now) + cnf_part(shown, now)
        + voltage_part(shown, now) + current_part(shown, now) + power_part(shown, now)
        + lna144_part(shown, now) + lna430_part(shown, now)
}

/// The readings that `render` can take after `shown`: a changed confirmation
/// code is shown with its aperture, which needs the code to be at least 8
/// and the requested antenna plus 8 to fit in 16 bits.
pub open spec fn renderable(shown: Readings, now: Readings) -> bool {
    shown.a_cnf != now.a_cnf ==> (now.a_cnf >= 8 && now.a_req + 8 <= u16::MAX)
}

/// The status screen, remembering the values it shows so that only
/// changed fields are redrawn.
pub struct LcdView {
    a_req: u16,
    a_cnf: u16,
    power_state: bool,
    lna144_state: bool,
    lna430_state: bool,
    voltage: u32,
    current: u32,
    az: u16,
    el: u16,
}

impl View for LcdView {
    type V = Readings;

    /// The values on the screen.
    closed spec fn view(&self) -> Readings {
        Readings {
            a_req: self.a_req,
            a_cnf: self.a_cnf,
            power_state: self.power_state,
            lna144_state: self.lna144_state,
            lna430_state: self.lna430_state,
            voltage: self.voltage,
            current: self.current,
            az: self.az,
            el: self.el,
        }
    }
}

fn text_op(text: Vec<u8>, x: i32, y: i32, style: Style, centered: bool) -> (op: DrawOp)
    ensures
        op@ == (Drawing::Text { text: text@, x: x as int, y: y as int, style, centered }),
{
    DrawOp::Text(DrawText { text, x, y, style, centered })
}

fn label_op(s: &str, x: i32, y: i32, style: Style, centered: bool) -> (op: DrawOp)
    requires
        is_ascii(s),
    ensures
        op@ == (Drawing::Text { text: ascii(s@), x: x as int, y: y as int, style, centered }),
{
    text_op(ascii_text(s), x, y, style, centered)
}

fn on_off_text(on: bool) -> (t: Vec<u8>)
    ensures
        t@ == on_off(on),
{
    if on {
        proof {
            reveal_strlit("ON ");
        }
        ascii_text("ON ")
    } else {
        proof {
            reveal_strlit("OFF");
        }
        ascii_text("OFF")
    }
}

fn padded_with_unit(n: u32, unit: &str) -> (t: Vec<u8>)
    requires
        is_ascii(unit),
    ensures
        t@ == decimal_padded(n as nat, 5) + ascii(unit@),
{
    let mut t: Vec<u8> = Vec::new();
    push_decimal(&mut t, n, 5);
    let mut u = ascii_text(unit);
    t.append(&mut u);
    t
}

fn push_op(ops: &mut Vec<DrawOp>, op: DrawOp)
    ensures
        drawings(final(ops)@) == drawings(old(ops)@).push(op@),
{
    let ghost before = ops@;
    ops.push(op);
    assert(drawings(ops@) =~= drawings(before).push(op@));
}

impl LcdView {
    /// A screen that shows placeholder values (42 everywhere, power off,
    /// both amplifiers on), so that the first real readings are all drawn.
    pub fn new() -> (v: Self)
        ensures
            v@ == (Readings {
                a_req: 42,
                a_cnf: 42,
                power_state: false,
                lna144_state: true,
                lna430_state: true,
                voltage: 42,
                current: 42,
                az: 42,
                el: 42,
            }),
    {
        LcdView {
            a_req: 42,
            a_cnf: 42,
            power_state: false,
            lna144_state: true,
            lna430_state: true,
            voltage: 42,
            current: 42,
            az: 42,
            el: 42,
        }
    }

    /// Whether `render` can take `now`: a changed confirmation code must be
    /// at least 8, and the requested antenna plus 8 must fit in 16 bits.
    pub fn can_render(&self, now: &Readings) -> (ok: bool)
        ensures
            ok == renderable(self@, *now),
    {
        self.a_cnf == now.a_cnf || (now.a_cnf >= 8 && now.a_req <= u16::MAX - 8)
    }

    /// The drawing operations for the static part of the screen.
    pub fn loading(&mut self) -> (ops: Vec<DrawOp>)
        ensures
            drawings(ops@) == loading_screen(),
            final(self)@ == old(self)@,
    {
        let mut ops: Vec<DrawOp> = Vec::new();
        push_op(&mut ops, DrawOp::ClearBlack);
        proof {
            reveal_strlit("R2AJP AntSwitcher");
            reveal_strlit("Sat AZ:");
            reveal_strlit("Sat EL:");
            reveal_strlit("ANT Requested:");
            reveal_strlit("ANT Confirmed:");
            reveal_strlit("Voltage:");
            reveal_strlit("Current:");
            reveal_strlit("Power:");
            reveal_strlit("LNA 144:");
            reveal_strlit("LNA 430:");
            reveal_strlit("ANT Aperture:");
        }
        push_op(&mut ops, label_op("R2AJP AntSwitcher", 120, 30, Style::TitleBlue, true));
        push_op(&mut ops, label_op("Sat AZ:", 20, 70, Style::WhiteOnBlack, false));
        push_op(&mut ops, label_op("Sat EL:", 20, 90, Style::WhiteOnBlack, false));
        push_op(&mut ops, label_op("ANT Requested:", 20, 110, Style::WhiteOnBlack, false));
        push_op(&mut ops, label_op("ANT Confirmed:", 20, 130, Style::WhiteOnBlack, false));
        push_op(&mut ops, label_op("Voltage:", 20, 150, Style::WhiteOnBlack, false));
        push_op(&mut ops, label_op("Current:", 20, 170, Style::WhiteOnBlack, false));
        push_op(&mut ops, label_op("Power:", 20, 190, Style::WhiteOnBlack, false));
        push_op(&mut ops, label_op("LNA 144:", 20, 210, Style::WhiteOnBlack, false));
        push_op(&mut ops, label_op("LNA 430:", 20, 230, Style::WhiteOnBlack, false));
        push_op(&mut ops, label_op("ANT Aperture:", 20, 250, Style::WhiteOnBlack, false));
        assert(drawings(ops@) =~= loading_screen());
        ops
    }

    /// Brings the screen in line with `now`: returns the drawings for the
    /// fields that changed, in screen order, and remembers `now` as shown.
    pub fn render(&mut self, now: Readings) -> (ops: Vec<DrawOp>)
        requires
            renderable(old(self)@, now),
        ensures
            drawings(ops@) == updates(old(self)@, now),
            final(self)@ == now,
    {
        let ghost shown = self@;
        let mut ops: Vec<DrawOp> = Vec::new();
        assert(drawings(ops@) =~= Seq::<Drawing>::empty());
        self.show_az(now, &mut ops);
        self.show_el(now, &mut ops);
        self.show_req(now, &mut ops);
        self.show_cnf(now, &mut ops);
        self.show_voltage(now, &mut ops);
        self.show_current(now, &mut ops);
        self.show_power(now, &mut ops);
        self.show_lna144(now, &mut ops);
        self.show_lna430(now, &mut ops);
        assert(drawings(ops@) =~= updates(shown, now));
        ops
    }

    fn show_az(&mut self, now: Readings, ops: &mut Vec<DrawOp>)
        ensures
            drawings(final(ops)@) == drawings(old(ops)@) + az_part(old(self)@, now),
            final(self)@ == (Readings { az: now.az, ..old(self)@ }),
    {
        let ghost before = drawings(ops@);
        if self.az != now.az {
            let mut t: Vec<u8> = Vec::new();
            push_decimal(&mut t, now.az as u32, 3);
            self.az = now.az;
            push_op(ops, text_op(t, 100, 70, Style::GreenOnBlack, false));
        }
        assert(drawings(ops@) =~= before + az_part(old(self)@, now));
    }

    fn show_el(&mut self, now: Readings, ops: &mut Vec<DrawOp>)
        ensures
            drawings(final(ops)@) == drawings(old(ops)@) + el_part(old(self)@, now),
            final(self)@ == (Readings { el: now.el, ..old(self)@ }),
    {
        let ghost before = drawings(ops@);
        if self.el != now.el {
            let mut t: Vec<u8> = Vec::new();
            push_decimal(&mut t, now.el as u32, 3);
            self.el = now.el;
            push_op(ops, text_op(t, 100, 90, Style::GreenOnBlack, false));
        }
        assert(drawings(ops@) =~= before + el_part(old(self)@, now));
    }

    fn show_req(&mut self, now: Readings, ops: &mut Vec<DrawOp>)
        ensures
            drawings(final(ops)@) == drawings(old(ops)@) + req_part(old(self)@, now),
            final(self)@ == (Readings { a_req: now.a_req, ..old(self)@ }),
    {
        let ghost before = drawings(ops@);
        if self.a_req != now.a_req {
            let mut t: Vec<u8> = Vec::new();
            push_decimal(&mut t, now.a_req as u32, 1);
            self.a_req = now.a_req;
            push_op(ops, text_op(t, 170, 110, Style::GreenOnBlack, false));
        }
        assert(drawings(ops@) =~= before + req_part(old(self)@, now));
    }

    fn show_cnf(&mut self, now: Readings, ops: &mut Vec<DrawOp>)
        requires
            renderable(old(self)@, now),
        ensures
            drawings(final(ops)@) == drawings(old(ops)@) + cnf_part(old(self)@, now),
            final(self)@ == (Readings { a_cnf: now.a_cnf, ..old(self)@ }),
    {
        let ghost before = drawings(ops@);
        if self.a_cnf != now.a_cnf {
            let mut t: Vec<u8> = Vec::new();
            push_decimal(&mut t, now.a_cnf as u32, 1);
            proof {
                lemma_decimal_digits(now.a_cnf as nat);
            }
            assert(t@ == decimal(now.a_cnf as nat));
            t.push(32u8);
            assert(t@ =~= decimal(now.a_cnf as nat) + seq![32u8]);
            self.a_cnf = now.a_cnf;
            let style = if now.a_req + 8 == now.a_cnf {
                Style::GreenOnBlack
            } else {
                Style::RedOnBlack
            };
            let first = text_op(t, 170, 130, style, false);
            assert(first@ == cnf_part(old(self)@, now)[0]);
            push_op(ops, first);
            let aperture = aperture_label(now.a_cnf - 8);
            let second = text_op(aperture, 120, 270, Style::GreenOnBlack, true);
            assert(second@ == cnf_part(old(self)@, now)[1]);
            push_op(ops, second);
            assert(cnf_part(old(self)@, now) =~= seq![first@, second@]);
        }
        assert(drawings(ops@) =~= before + cnf_part(old(self)@, now));
    }

    fn show_voltage(&mut self, now: Readings, ops: &mut Vec<DrawOp>)
        ensures
            drawings(final(ops)@) == drawings(old(ops)@) + voltage_part(old(self)@, now),
            final(self)@ == (Readings { voltage: now.voltage, ..old(self)@ }),
    {
        let ghost before = drawings(ops@);
        if self.voltage != now.voltage {
            proof {
                reveal_strlit(" mV");
            }
            let t = padded_with_unit(now.voltage, " mV");
            self.voltage = now.voltage;
            push_op(ops, text_op(t, 110, 150, Style::GreenOnBlack, false));
        }
        assert(drawings(ops@) =~= before + voltage_part(old(self)@, now));
    }

    fn show_current(&mut self, now: Readings, ops: &mut Vec<DrawOp>)
        ensures
            drawings(final(ops)@) == drawings(old(ops)@) + current_part(old(self)@, now),
            final(self)@ == (Readings { current: now.current, ..old(self)@ }),
    {
        let ghost before = drawings(ops@);
        if self.current != now.current {
            proof {
                reveal_strlit(" mA");
            }
            let t = padded_with_unit(now.current, " mA");
            self.current = now.current;
            push_op(ops, text_op(t, 110, 170, Style::GreenOnBlack, false));
        }
        assert(drawings(ops@) =~= before + current_part(old(self)@, now));
    }

    fn show_power(&mut self, now: Readings, ops: &mut Vec<DrawOp>)
        ensures
            drawings(final(ops)@) == drawings(old(ops)@) + power_part(old(self)@, now),
            final(self)@ == (Readings { power_state: now.power_state, ..old(self)@ }),
    {
        let ghost before = drawings(ops@);
        if self.power_state != now.power_state {
            let t = on_off_text(now.power_state);
            self.power_state = now.power_state;
            let style = if now.power_state {
                Style::GreenOnBlack
            } else {
                Style::RedOnBlack
            };
            push_op(ops, text_op(t, 90, 190, style, false));
        }
        assert(drawings(ops@) =~= before + power_part(old(self)@, now));
    }

    fn show_lna144(&mut self, now: Readings, ops: &mut Vec<DrawOp>)
        ensures
            drawings(final(ops)@) == drawings(old(ops)@) + lna144_part(old(self)@, now),
            final(self)@ == (Readings { lna144_state: now.lna144_state, ..old(self)@ }),
    {
        let ghost before = drawings(ops@);
        if self.lna144_state != now.lna144_state {
            let t = on_off_text(now.lna144_state);
            self.lna144_state = now.lna144_state;
            push_op(ops, text_op(t, 110, 210, Style::GreenOnBlack, false));
        }
        assert(drawings(ops@) =~= before + lna144_part(old(self)@, now));
    }

    fn show_lna430(&mut self, now: Readings, ops: &mut Vec<DrawOp>)
        ensures
            drawings(final(ops)@) == drawings(old(ops)@) + lna430_part(old(self)@, now),
            final(self)@ == (Readings { lna430_state: now.lna430_state, ..old(self)@ }),
    {
        let ghost before = drawings(ops@);
        if self.lna430_state != now.lna430_state {
            let t = on_off_text(now.lna430_state);
            self.lna430_state = now.lna430_state;
            push_op(ops, text_op(t, 110, 230, Style::GreenOnBlack, false));
        }
        assert(drawings(ops@) =~= before + lna430_part(old(self)@, now));
    }
}

/// Once the screen shows some readings, rendering the same readings again
/// draws nothing.
pub proof fn lemma_render_settles(now: Readings)
    ensures
        renderable(now, now),
        updates(now, now) == Seq::<Drawing>::empty(),
{
    assert(updates(now, now) =~= Seq::<Drawing>::empty());
}

/// Each changed field is drawn, and only changed fields are: the number of
/// drawings is the number of changed fields, the confirmation field
/// counting twice for its aperture line.
pub proof fn lemma_render_draws_changes(shown: Readings, now: Readings)
    ensures
        updates(shown, now).len() == (if shown.az != now.az { 1int } else { 0 }) + (if shown.el
            != now.el { 1int } else { 0 }) + (if shown.a_req != now.a_req { 1int } else { 0 }) + (
        if shown.a_cnf != now.a_cnf { 2int } else { 0 }) + (if shown.voltage != now.voltage {
            1int
        } else { 0 }) + (if shown.current != now.current { 1int } else { 0 }) + (
        if shown.power_state != now.power_state { 1int } else { 0 }) + (if shown.lna144_state
            != now.lna144_state { 1int } else { 0 }) + (if shown.lna430_state
            != now.lna430_state { 1int } else { 0 }),
{
}

/// When the confirmation code is the requested antenna plus 8, the
/// confirmation is drawn green and the aperture shown is the requested
/// antenna's.
pub proof fn lemma_confirmed_shows_requested_aperture(shown: Readings, now: Readings)
    requires
        shown.a_cnf != now.a_cnf,
        now.a_req + 8 == now.a_cnf,
    ensures
        cnf_part(shown, now) == seq![
            left(decimal(now.a_cnf as nat) + seq![32u8], 170, 130, Style::GreenOnBlack),
            centered(aperture_text(now.a_req as int), 120, 270, Style::GreenOnBlack),
        ],
{
}

/// The label of row `y` of the static screen (empty on other rows).
pub open spec fn label_at(y: int) -> Seq<u8> {
    if y == 70 {
        ascii("Sat AZ:"@)
    } else if y == 90 {
        ascii("Sat EL:"@)
    } else if y == 110 {
        ascii("ANT Requested:"@)
    } else if y == 130 {
        ascii("ANT Confirmed:"@)
    } else if y == 150 {
        ascii("Voltage:"@)
    } else if y == 170 {
        ascii("Current:"@)
    } else if y == 190 {
        ascii("Power:"@)
    } else if y == 210 {
        ascii("LNA 144:"@)
    } else if y == 230 {
        ascii("LNA 430:"@)
    } else if y == 250 {
        ascii("ANT Aperture:"@)
    } else {
        Seq::empty()
    }
}

/// Characters of the screen font are 10 pixels wide.
pub open spec fn char_width() -> int {
    10
}

/// A value drawing that keeps clear of the labels: a left-aligned value
/// stands on the row of a value label (azimuth to 430 MHz amplifier),
/// starting right of the label's end; the centred aperture line stands at
/// the middle of the row below the "ANT Aperture:" label.
pub open spec fn beside_label(d: Drawing) -> bool {
    match d {
        Drawing::Text { x, y, centered, .. } => if centered {
            y == 270 && x == 120
        } else {
            &&& 70 <= y <= 230
            &&& label_at(y).len() > 0
            &&& x >= 20 + char_width() * label_at(y).len()
        },
        Drawing::ClearBlack => false,
    }
}

/// Every drawing of `s` keeps clear of the labels.
pub open spec fn all_beside_labels(s: Seq<Drawing>) -> bool {
    forall|i: int| 0 <= i < s.len() ==> beside_label(#[trigger] s[i])
}

proof fn lemma_all_beside_concat(a: Seq<Drawing>, b: Seq<Drawing>)
    requires
        all_beside_labels(a),
        all_beside_labels(b),
    ensures
        all_beside_labels(a + b),
{
    assert forall|i: int| 0 <= i < (a + b).len() implies beside_label(#[trigger] (a + b)[i]) by {
        if i < a.len() {
            assert((a + b)[i] == a[i]);
        } else {
            assert((a + b)[i] == b[i - a.len()]);
        }
    }
}

/// The static screen puts each label at the left edge of its row, and
/// every value that `render` draws stands on the row of its label, right of
/// the label's end, or (the aperture) centred on the row below the last
/// label: no value overwrites a label.
pub proof fn lemma_values_beside_labels(shown: Readings, now: Readings)
    ensures
        forall|k: int|
            2 <= k < 12 ==> loading_screen()[k] == left(
                label_at(30 + 20 * k),
                20,
                30 + 20 * k,
                Style::WhiteOnBlack,
            ),
        all_beside_labels(updates(shown, now)),
{
    reveal_strlit("Sat AZ:");
    reveal_strlit("Sat EL:");
    reveal_strlit("ANT Requested:");
    reveal_strlit("ANT Confirmed:");
    reveal_strlit("Voltage:");
    reveal_strlit("Current:");
    reveal_strlit("Power:");
    reveal_strlit("LNA 144:");
    reveal_strlit("LNA 430:");
    reveal_strlit("ANT Aperture:");
    assert(label_at(70).len() == 7);
    assert(label_at(90).len() == 7);
    assert(label_at(110).len() == 14);
    assert(label_at(130).len() == 14);
    assert(label_at(150).len() == 8);
    assert(label_at(170).len() == 8);
    assert(label_at(190).len() == 6);
    assert(label_at(210).len() == 8);
    assert(label_at(230).len() == 8);
    assert forall|k: int| 2 <= k < 12 implies loading_screen()[k] == left(
        label_at(30 + 20 * k),
        20,
        30 + 20 * k,
        Style::WhiteOnBlack,
    ) by {
        if k == 2 {
            assert(loading_screen()[2] == left(label_at(70), 20, 70, Style::WhiteOnBlack));
        } else if k == 3 {
            assert(loading_screen()[3] == left(label_at(90), 20, 90, Style::WhiteOnBlack));
        } else if k == 4 {
            assert(loading_screen()[4] == left(label_at(110), 20, 110, Style::WhiteOnBlack));
        } else if k == 5 {
            assert(loading_screen()[5] == left(label_at(130), 20, 130, Style::WhiteOnBlack));
        } else if k == 6 {
            assert(loading_screen()[6] == left(label_at(150), 20, 150, Style::WhiteOnBlack));
        } else if k == 7 {
            assert(loading_screen()[7] == left(label_at(170), 20, 170, Style::WhiteOnBlack));
        } else if k == 8 {
            assert(loading_screen()[8] == left(label_at(190), 20, 190, Style::WhiteOnBlack));
        } else if k == 9 {
            assert(loading_screen()[9] == left(label_at(210), 20, 210, Style::WhiteOnBlack));
        } else if k == 10 {
            assert(loading_screen()[10] == left(label_at(230), 20, 230, Style::WhiteOnBlack));
        } else if k == 11 {
            assert(loading_screen()[11] == left(label_at(250), 20, 250, Style::WhiteOnBlack));
        }
    }
    assert(all_beside_labels(az_part(shown, now)));
    assert(all_beside_labels(el_part(shown, now)));
    assert(all_beside_labels(req_part(shown, now)));
    assert(all_beside_labels(cnf_part(shown, now)));
    assert(all_beside_labels(voltage_part(shown, now)));
    assert(all_beside_labels(current_part(shown, now)));
    assert(all_beside_labels(power_part(shown, now)));
    assert(all_beside_labels(lna144_part(shown, now)));
    assert(all_beside_labels(lna430_part(shown, now)));
    lemma_all_beside_concat(az_part(shown, now), el_part(shown, now));
    let s2 = az_part(shown, now) + el_part(shown, now);
    lemma_all_beside_concat(s2, req_part(shown, now));
    let s3 = s2 + req_part(shown, now);
    lemma_all_beside_concat(s3, cnf_part(shown, now));
    let s4 = s3 + cnf_part(shown, now);
    lemma_all_beside_concat(s4, voltage_part(shown, now));
    let s5 = s4 + voltage_part(shown, now);
    lemma_all_beside_concat(s5, current_part(shown, now));
    let s6 = s5 + current_part(shown, now);
    lemma_all_beside_concat(s6, power_part(shown, now));
    let s7 = s6 + power_part(shown, now);
    lemma_all_beside_concat(s7, lna144_part(shown, now));
    let s8 = s7 + lna144_part(shown, now);
    lemma_all_beside_concat(s8, lna430_part(shown, now));
}

/// Where the value cell of row `y` begins (the aperture line: its centre).
pub open spec fn cell_x(y: int) -> int {
    if y == 70 || y == 90 {
        100
    } else if y == 110 || y == 130 {
        170
    } else if y == 190 {
        90
    } else if y == 270 {
        120
    } else {
        110
    }
}

/// How many characters the value cell of row `y` holds: three for the
/// angles and the on/off fields, one for the requested antenna, eight for
/// the meter readings with their units, seventeen for the aperture line.
/// (The confirmation cell, row 130, holds the code and a space.)
pub open spec fn cell_len(y: int) -> int {
    if y == 70 || y == 90 || y == 190 || y == 210 || y == 230 {
        3
    } else if y == 110 {
        1
    } else if y == 150 || y == 170 {
        8
    } else if y == 270 {
        17
    } else {
        0
    }
}

/// Readings whose numbers fit their cells: angles up to 999, the requested
/// antenna up to 9, voltage and current up to 99999.
pub open spec fn fits_cells(r: Readings) -> bool {
    &&& r.az <= 999
    &&& r.el <= 999
    &&& r.a_req <= 9
    &&& r.voltage <= 99999
    &&& r.current <= 99999
}

/// `d` fills the value cell of its row exactly: it starts at the cell's
/// anchor, is as long as the cell (the confirmation cell aside), and is
/// drawn on a black background, so it covers whatever the cell showed.
pub open spec fn fills_cell(d: Drawing) -> bool {
    match d {
        Drawing::Text { text, x, y, style, .. } => {
            &&& x == cell_x(y)
            &&& style != Style::TitleBlue
            &&& y != 130 ==> text.len() == cell_len(y)
        },
        Drawing::ClearBlack => false,
    }
}

/// Every drawing of `s` fills its cell exactly.
pub open spec fn all_fill_cells(s: Seq<Drawing>) -> bool {
    forall|i: int| 0 <= i < s.len() ==> fills_cell(#[trigger] s[i])
}

proof fn lemma_all_fill_concat(a: Seq<Drawing>, b: Seq<Drawing>)
    requires
        all_fill_cells(a),
        all_fill_cells(b),
    ensures
        all_fill_cells(a + b),
{
    assert forall|i: int| 0 <= i < (a + b).len() implies fills_cell(#[trigger] (a + b)[i]) by {
        if i < a.len() {
            assert((a + b)[i] == a[i]);
        } else {
            assert((a + b)[i] == b[i - a.len()]);
        }
    }
}

/// When the readings fit their cells, every value that `render` draws
/// starts at its cell's anchor, has the cell's fixed length, and is drawn
/// on black: each redraw of a field covers the previous text of that field
/// entirely.
pub proof fn lemma_cells_fixed(shown: Readings, now: Readings)
    requires
        fits_cells(now),
    ensures
        all_fill_cells(updates(shown, now)),
{
    reveal_strlit("ON ");
    reveal_strlit("OFF");
    reveal_strlit(" mV");
    reveal_strlit(" mA");
    reveal_strlit("<  224 .. 295   >");
    reveal_strlit("<0..7,  296..360>");
    reveal_strlit("<   8  ..  79   >");
    reveal_strlit("<  80  .. 151   >");
    reveal_strlit("<  152 .. 223   >");
    reveal_strlit("<  360 HIGH EL  >");
    reveal_strlit("---- UNKNOWN ----");
    assert(pow10(0) == 1);
    assert(pow10(1) == 10);
    assert(pow10(2) == 100);
    assert(pow10(3) == 1000);
    assert(pow10(4) == 10000);
    assert(pow10(5) == 100000);
    lemma_decimal_len(now.az as nat, 3);
    lemma_decimal_len(now.el as nat, 3);
    lemma_decimal_len(now.a_req as nat, 1);
    lemma_decimal_digits(now.a_req as nat);
    lemma_decimal_len(now.voltage as nat, 5);
    lemma_decimal_len(now.current as nat, 5);
    assert(on_off(true).len() == 3);
    assert(on_off(false).len() == 3);
    assert(aperture_text(now.a_cnf - 8).len() == 17);
    assert(decimal(now.a_req as nat).len() == 1);
    assert(all_fill_cells(az_part(shown, now)));
    assert(all_fill_cells(el_part(shown, now)));
    assert(all_fill_cells(req_part(shown, now)));
    assert(all_fill_cells(cnf_part(shown, now)));
    assert(all_fill_cells(voltage_part(shown, now)));
    assert(all_fill_cells(current_part(shown, now)));
    assert(all_fill_cells(power_part(shown, now)));
    assert(all_fill_cells(lna144_part(shown, now)));
    assert(all_fill_cells(lna430_part(shown, now)));
    lemma_all_fill_concat(az_part(shown, now), el_part(shown, now));
    let s2 = az_part(shown, now) + el_part(shown, now);
    lemma_all_fill_concat(s2, req_part(shown, now));
    let s3 = s2 + req_part(shown, now);
    lemma_all_fill_concat(s3, cnf_part(shown, now));
    let s4 = s3 + cnf_part(shown, now);
    lemma_all_fill_concat(s4, voltage_part(shown, now));
    let s5 = s4 + voltage_part(shown, now);
    lemma_all_fill_concat(s5, current_part(shown, now));
    let s6 = s5 + current_part(shown, now);
    lemma_all_fill_concat(s6, power_part(shown, now));
    let s7 = s6 + power_part(shown, now);
    lemma_all_fill_concat(s7, lna144_part(shown, now));
    let s8 = s7 + lna144_part(shown, now);
    lemma_all_fill_concat(s8, lna430_part(shown, now));
}

/// `ON ` when `on`, `OFF` otherwise.
pub open spec fn relay_text(on: bool) -> Seq<u8> {
    if on {
        seq![79u8, 78u8, 32u8]
    } else {
        seq![79u8, 70u8, 70u8]
    }
}

/// `text` is a number in decimal digits followed by the bytes `unit`, and
/// the number is `value`.
pub open spec fn shows_number(text: Seq<u8>, value: nat, unit: Seq<u8>) -> bool {
    &&& text.len() >= unit.len()
    &&& text.skip(text.len() - unit.len()) == unit
    &&& digits_only(text.take(text.len() - unit.len()))
    &&& digits_value(text.take(text.len() - unit.len())) == value
}

/// Drawing `d`, on whichever row it stands, shows that row's reading of
/// `now`: the angles and the requested antenna as decimal numbers, the
/// confirmation code as a number and a space, voltage and current as
/// numbers with ` mV` and ` mA`, and each relay as `ON ` or `OFF` of its own
/// state.
pub open spec fn shows_reading(d: Drawing, now: Readings) -> bool {
    match d {
        Drawing::Text { text, y, .. } => {
            &&& y == 70 ==> shows_number(text, now.az as nat, Seq::empty())
            &&& y == 90 ==> shows_number(text, now.el as nat, Seq::empty())
            &&& y == 110 ==> shows_number(text, now.a_req as nat, Seq::empty())
            &&& y == 130 ==> shows_number(text, now.a_cnf as nat, seq![32u8])
            &&& y == 150 ==> shows_number(text, now.voltage as nat, seq![32u8, 109u8, 86u8])
            &&& y == 170 ==> shows_number(text, now.current as nat, seq![32u8, 109u8, 65u8])
            &&& y == 190 ==> text == relay_text(now.power_state)
            &&& y == 210 ==> text == relay_text(now.lna144_state)
            &&& y == 230 ==> text == relay_text(now.lna430_state)
        },
        Drawing::ClearBlack => true,
    }
}

/// Every drawing of `s` shows its row's reading of `now`.
pub open spec fn all_show_readings(s: Seq<Drawing>, now: Readings) -> bool {
    forall|i: int| 0 <= i < s.len() ==> shows_reading(#[trigger] s[i], now)
}

proof fn lemma_all_show_concat(a: Seq<Drawing>, b: Seq<Drawing>, now: Readings)
    requires
        all_show_readings(a, now),
        all_show_readings(b, now),
    ensures
        all_show_readings(a + b, now),
{
    assert forall|i: int| 0 <= i < (a + b).len() implies shows_reading(#[trigger] (a + b)[i], now) by {
        if i < a.len() {
            assert((a + b)[i] == a[i]);
        } else {
            assert((a + b)[i] == b[i - a.len()]);
        }
    }
}

proof fn lemma_number_with_unit(digits: Seq<u8>, value: nat, unit: Seq<u8>)
    requires
        digits_only(digits),
        digits_value(digits) == value,
    ensures
        shows_number(digits + unit, value, unit),
{
    let t = digits + unit;
    assert(t.skip(t.len() - unit.len()) =~= unit);
    assert(t.take(t.len() - unit.len()) =~= digits);
}

/// Each field `render` draws shows its own reading: whatever row a drawing
/// stands on, its text is that row's value of `now` (the relays each their
/// own state), and a relay's row is drawn, as the last of the update for
/// the 430 MHz amplifier, whenever that relay's reading changed.
pub proof fn lemma_cells_show_readings(shown: Readings, now: Readings)
    ensures
        all_show_readings(updates(shown, now), now),
        shown.lna430_state != now.lna430_state ==> updates(shown, now).last() == left(
            relay_text(now.lna430_state),
            110,
            230,
            Style::GreenOnBlack,
        ),
{
    reveal_strlit("ON ");
    reveal_strlit("OFF");
    reveal_strlit(" mV");
    reveal_strlit(" mA");
    assert(on_off(true) =~= relay_text(true));
    assert(on_off(false) =~= relay_text(false));
    assert(ascii(" mV"@) =~= seq![32u8, 109u8, 86u8]);
    assert(ascii(" mA"@) =~= seq![32u8, 109u8, 65u8]);
    lemma_decimal_reads_back(now.az as nat, 3);
    lemma_number_with_unit(decimal_padded(now.az as nat, 3), now.az as nat, Seq::empty());
    assert(decimal_padded(now.az as nat, 3) + Seq::<u8>::empty() =~= decimal_padded(now.az as nat, 3));
    lemma_decimal_reads_back(now.el as nat, 3);
    lemma_number_with_unit(decimal_padded(now.el as nat, 3), now.el as nat, Seq::empty());
    assert(decimal_padded(now.el as nat, 3) + Seq::<u8>::empty() =~= decimal_padded(now.el as nat, 3));
    lemma_decimal_reads_back(now.a_req as nat, 0);
    lemma_decimal_digits(now.a_req as nat);
    assert(decimal_padded(now.a_req as nat, 0) == decimal(now.a_req as nat));
    lemma_number_with_unit(decimal(now.a_req as nat), now.a_req as nat, Seq::empty());
    assert(decimal(now.a_req as nat) + Seq::<u8>::empty() =~= decimal(now.a_req as nat));
    lemma_decimal_reads_back(now.a_cnf as nat, 0);
    lemma_decimal_digits(now.a_cnf as nat);
    assert(decimal_padded(now.a_cnf as nat, 0) == decimal(now.a_cnf as nat));
    lemma_number_with_unit(decimal(now.a_cnf as nat), now.a_cnf as nat, seq![32u8]);
    lemma_decimal_reads_back(now.voltage as nat, 5);
    lemma_number_with_unit(
        decimal_padded(now.voltage as nat, 5),
        now.voltage as nat,
        seq![32u8, 109u8, 86u8],
    );
    lemma_decimal_reads_back(now.current as nat, 5);
    lemma_number_with_unit(
        decimal_padded(now.current as nat, 5),
        now.current as nat,
        seq![32u8, 109u8, 65u8],
    );
    assert(all_show_readings(az_part(shown, now), now));
    assert(all_show_readings(el_part(shown, now), now));
    assert(all_show_readings(req_part(shown, now), now));
    assert(all_show_readings(cnf_part(shown, now), now));
    assert(all_show_readings(voltage_part(shown, now), now));
    assert(all_show_readings(current_part(shown, now), now));
    assert(all_show_readings(power_part(shown, now), now));
    assert(all_show_readings(lna144_part(shown, now), now));
    assert(all_show_readings(lna430_part(shown, now), now));
    lemma_all_show_concat(az_part(shown, now), el_part(shown, now), now);
    let s2 = az_part(shown, now) + el_part(shown, now);
    lemma_all_show_concat(s2, req_part(shown, now), now);
    let s3 = s2 + req_part(shown, now);
    lemma_all_show_concat(s3, cnf_part(shown, now), now);
    let s4 = s3 + cnf_part(shown, now);
    lemma_all_show_concat(s4, voltage_part(shown, now), now);
    let s5 = s4 + voltage_part(shown, now);
    lemma_all_show_concat(s5, current_part(shown, now), now);
    let s6 = s5 + current_part(shown, now);
    lemma_all_show_concat(s6, power_part(shown, now), now);
    let s7 = s6 + power_part(shown, now);
    lemma_all_show_concat(s7, lna144_part(shown, now), now);
    let s8 = s7 + lna144_part(shown, now);
    lemma_all_show_concat(s8, lna430_part(shown, now), now);
}

} // verus!
