//! The Easycom rotator-control protocol as spoken over the serial line:
//! angle values, two-letter commands and the frames that carry them.

use vstd::prelude::*;
use crate::text::{decimal, decimal_padded, lemma_decimal_digits, push_decimal};
use crate::antenna::{antenna_for, select_antenna};

verus! {

/// Why an angle text was refused.
#[derive(Debug, Clone, Copy, PartialEq, Eq, Structural)]
pub enum AngleError {
    /// The text is not of the form `X.X`, `XX.X` or `XXX.X`.
    Malformed,
    /// The value lies outside the axis' range.
    OutOfRange,
}

/// Largest azimuth, in tenths of a degree.
pub const AZ_MAX_TENTHS: u16 = 3600;
/// Largest elevation, in tenths of a degree.
pub const EL_MAX_TENTHS: u16 = 1800;

/// An ASCII decimal digit.
pub open spec fn is_digit(b: u8) -> bool {
    48 <= b <= 57
}

/// The value of a string of decimal digits.
pub open spec fn digits_value(s: Seq<u8>) -> nat
    decreases s.len(),
{
    if s.len() == 0 {
        0
    } else {
        digits_value(s.drop_last()) * 10 + (s.last() - 48) as nat
    }
}

/// An angle in tenths of a degree, written `X.X`, `XX.X` or `XXX.X`:
/// one to three digits, a dot, one digit.
pub open spec fn parse_tenths(s: Seq<u8>) -> Option<nat> {
    if 3 <= s.len() <= 5 && s[s.len() - 2] == 46u8 && (forall|i: int|
        0 <= i < s.len() && i != s.len() - 2 ==> is_digit(#[trigger] s[i])) {
        Some(digits_value(s.take(s.len() - 2)) * 10 + (s.last() - 48) as nat)
    } else {
        None
    }
}

/// The whole degrees nearest to `tenths` tenths of a degree, halves rounded up.
pub open spec fn round_tenths(tenths: nat) -> nat {
    (tenths + 5) / 10
}

/// What parsing an angle text yields on an axis whose largest value is `max` tenths.
pub open spec fn angle_from_text(text: Seq<u8>, max: nat) -> Result<nat, AngleError> {
    match parse_tenths(text) {
        Some(t) => if t <= max {
            Ok(t)
        } else {
            Err(AngleError::OutOfRange)
        },
        None => Err(AngleError::Malformed),
    }
}

proof fn lemma_digits_value_step(s: Seq<u8>, i: int)
    requires
        0 <= i < s.len(),
    ensures
        digits_value(s.take(i + 1)) == digits_value(s.take(i)) * 10 + (s[i] - 48) as nat,
{
    assert(s.take(i + 1).drop_last() =~= s.take(i));
}

/// Reads an angle text into tenths of a degree.
fn parse_angle_text(text: &[u8]) -> (r: Option<u16>)
    ensures
        match parse_tenths(text@) {
            Some(v) => r == Some(v as u16) && v <= 9999,
            None => r is None,
        },
{
    let n = text.len();
    if n < 3 || n > 5 {
        return None;
    }
    if text[n - 2] != 46u8 {
        return None;
    }
    let mut value: u16 = 0;
    let mut i: usize = 0;
    while i < n - 2
        invariant
            n == text@.len(),
            3 <= n <= 5,
            text@[n - 2] == 46u8,
            i <= n - 2,
            value == digits_value(text@.take(i as int)),
            value <= (if i == 0 { 0int } else if i == 1 { 9int } else if i == 2 { 99int } else { 999int }),
            forall|j: int| 0 <= j < i ==> is_digit(#[trigger] text@[j]),
        decreases n - 2 - i,
    {
        let b = text[i];
        if b < 48u8 || b > 57u8 {
            return None;
        }
        proof {
            lemma_digits_value_step(text@, i as int);
        }
        value = value * 10 + (b - 48u8) as u16;
        i = i + 1;
    }
    let last = text[n - 1];
    if last < 48u8 || last > 57u8 {
        return None;
    }
    assert(forall|j: int| 0 <= j < n && j != n - 2 ==> is_digit(#[trigger] text@[j]));
    Some(value * 10 + (last - 48u8) as u16)
}

/// A requested azimuth, 0.0 to 360.0 degrees, kept in tenths of a degree.
#[derive(Debug)]
pub struct AzAngle {
    tenths: u16,
}

/// A requested elevation, 0.0 to 180.0 degrees, kept in tenths of a degree.
#[derive(Debug)]
pub struct ElAngle {
    tenths: u16,
}

impl View for AzAngle {
    type V = nat;

    closed spec fn view(&self) -> nat {
        self.tenths as nat
    }
}

impl View for ElAngle {
    type V = nat;

    closed spec fn view(&self) -> nat {
        self.tenths as nat
    }
}

impl AzAngle {
    #[verifier::type_invariant]
    spec fn in_range(self) -> bool {
        self.tenths <= AZ_MAX_TENTHS
    }

    /// Parses an azimuth written `X.X`, `XX.X` or `XXX.X` degrees.
    pub fn from_degrees(&self, text: &[u8]) -> (r: Result<AzAngle, AngleError>)
        ensures
            match angle_from_text(text@, AZ_MAX_TENTHS as nat) {
                Ok(t) => r matches Ok(a) && a@ == t,
                Err(e) => r == Err::<AzAngle, AngleError>(e),
            },
    {
        match parse_angle_text(text) {
            Some(t) => if t <= AZ_MAX_TENTHS {
                Ok(AzAngle { tenths: t })
            } else {
                Err(AngleError::OutOfRange)
            },
            None => Err(AngleError::Malformed),
        }
    }

    /// The angle in tenths of a degree.
    pub fn tenths(&self) -> (t: u16)
        ensures
            t == self@,
            t <= AZ_MAX_TENTHS,
    {
        proof {
            use_type_invariant(self);
        }
        self.tenths
    }

    /// The angle rounded to whole degrees, halves away from zero.
    pub fn degrees(&self) -> (d: u16)
        ensures
            d == round_tenths(self@),
            d <= 360,
    {
        proof {
            use_type_invariant(self);
        }
        (self.tenths + 5) / 10
    }
}

impl ElAngle {
    #[verifier::type_invariant]
    spec fn in_range(self) -> bool {
        self.tenths <= EL_MAX_TENTHS
    }

    /// Parses an elevation written `X.X`, `XX.X` or `XXX.X` degrees.
    pub fn from_degrees(&self, text: &[u8]) -> (r: Result<ElAngle, AngleError>)
        ensures
            match angle_from_text(text@, EL_MAX_TENTHS as nat) {
                Ok(t) => r matches Ok(a) && a@ == t,
                Err(e) => r == Err::<ElAngle, AngleError>(e),
            },
    {
        match parse_angle_text(text) {
            Some(t) => if t <= EL_MAX_TENTHS {
                Ok(ElAngle { tenths: t })
            } else {
                Err(AngleError::OutOfRange)
            },
            None => Err(AngleError::Malformed),
        }
    }

    /// The angle in tenths of a degree.
    pub fn tenths(&self) -> (t: u16)
        ensures
            t == self@,
            t <= EL_MAX_TENTHS,
    {
        proof {
            use_type_invariant(self);
        }
        self.tenths
    }

    /// The angle rounded to whole degrees, halves away from zero.
    pub fn degrees(&self) -> (d: u16)
        ensures
            d == round_tenths(self@),
            d <= 180,
    {
        proof {
            use_type_invariant(self);
        }
        (self.tenths + 5) / 10
    }
}

impl Default for AzAngle {
    fn default() -> (a: AzAngle)
        ensures
            a@ == 0,
    {
        AzAngle { tenths: 0 }
    }
}

impl Default for ElAngle {
    fn default() -> (a: ElAngle)
        ensures
            a@ == 0,
    {
        ElAngle { tenths: 0 }
    }
}

/// The two-letter commands of the protocol that the switcher answers.
#[derive(Debug, Clone, Copy, PartialEq, Eq, Structural)]
pub enum EasycomCommands {
    /// `VE`: protocol version.
    VE,
    /// `AZ`: query or set the azimuth.
    AZ,
    /// `EL`: query or set the elevation.
    EL,
}

/// The command named by the first two characters of `piece`.
pub open spec fn command_code(piece: Seq<u8>) -> Option<EasycomCommands> {
    if piece.len() < 2 {
        None
    } else if piece[0] == 86u8 && piece[1] == 69u8 {
        Some(EasycomCommands::VE)
    } else if piece[0] == 65u8 && piece[1] == 90u8 {
        Some(EasycomCommands::AZ)
    } else if piece[0] == 69u8 && piece[1] == 76u8 {
        Some(EasycomCommands::EL)
    } else {
        None
    }
}

impl EasycomCommands {
    /// Recognises the two-letter command at the start of `piece`
    /// (`VE`, `AZ` or `EL`, upper case).
    pub fn parse(piece: &[u8]) -> (r: Option<EasycomCommands>)
        requires
            piece@.len() >= 2,
        ensures
            r == command_code(piece@),
    {
        let a = piece[0];
        let b = piece[1];
        if a == 86u8 && b == 69u8 {
            Some(EasycomCommands::VE)
        } else if a == 65u8 && b == 90u8 {
            Some(EasycomCommands::AZ)
        } else if a == 69u8 && b == 76u8 {
            Some(EasycomCommands::EL)
        } else {
            None
        }
    }
}

/// The answer to an unknown or malformed request: `?` and a line feed.
pub open spec fn error_reply() -> Seq<u8> {
    seq![63u8, 10u8]
}

/// The answer to `VE`: `VE1.0` and a line feed.
pub open spec fn version_reply() -> Seq<u8> {
    seq![86u8, 69u8, 49u8, 46u8, 48u8, 10u8]
}

/// The answer to an angle query: `+`, the angle in whole degrees, `.0`
/// and a line feed, as `format!("+{:.1}\n", degrees as f32)` writes it.
pub open spec fn angle_reply(degrees: nat) -> Seq<u8> {
    seq![43u8] + decimal(degrees) + seq![46u8, 48u8, 10u8]
}

/// Builds the answer to an unknown or malformed request.
pub fn error_answer() -> (r: Vec<u8>)
    ensures
        r@ == error_reply(),
{
    let mut r: Vec<u8> = Vec::new();
    r.push(63u8);
    r.push(10u8);
    r
}

fn version_answer() -> (r: Vec<u8>)
    ensures
        r@ == version_reply(),
{
    let mut r: Vec<u8> = Vec::new();
    r.push(86u8);
    r.push(69u8);
    r.push(49u8);
    r.push(46u8);
    r.push(48u8);
    r.push(10u8);
    r
}

fn angle_answer(degrees: u16) -> (r: Vec<u8>)
    ensures
        r@ == angle_reply(degrees as nat),
{
    let mut r: Vec<u8> = Vec::new();
    r.push(43u8);
    push_decimal(&mut r, degrees as u32, 0);
    r.push(46u8);
    r.push(48u8);
    r.push(10u8);
    r
}

/// The requested pointing that the serial link reads and writes: azimuth
/// and elevation in whole degrees, and the antenna chosen for them.
#[derive(Debug, Clone, Copy, PartialEq, Eq, Structural)]
pub struct Pointing {
    pub az: u16,
    pub el: u16,
    pub antenna: u16,
}

/// The reply to an `AZ` or `EL` request on an axis that stands at `current`
/// degrees and reaches `max` tenths, and the axis' new value.
pub open spec fn axis_effect(current: u16, piece: Seq<u8>, max: nat) -> (Seq<u8>, u16) {
    if piece.len() == 2 {
        (angle_reply(current as nat), current)
    } else if 5 <= piece.len() <= 7 {
        match angle_from_text(piece.skip(2), max) {
            Ok(t) => (Seq::empty(), round_tenths(t) as u16),
            Err(_) => (error_reply(), current),
        }
    } else {
        (error_reply(), current)
    }
}

/// The reply to a request `piece` (at least two characters long) and the
/// azimuth and elevation after it.
pub open spec fn command_effect(p: Pointing, piece: Seq<u8>) -> (Seq<u8>, u16, u16) {
    match command_code(piece) {
        Some(EasycomCommands::VE) => (version_reply(), p.az, p.el),
        Some(EasycomCommands::AZ) => {
            let (reply, az) = axis_effect(p.az, piece, AZ_MAX_TENTHS as nat);
            (reply, az, p.el)
        },
        Some(EasycomCommands::EL) => {
            let (reply, el) = axis_effect(p.el, piece, EL_MAX_TENTHS as nat);
            (reply, p.az, el)
        },
        None => (error_reply(), p.az, p.el),
    }
}

/// The pointing after request `piece`: the new angles and the antenna that
/// serves them.
pub open spec fn pointing_after(p: Pointing, piece: Seq<u8>) -> Pointing {
    let (_, az, el) = command_effect(p, piece);
    Pointing { az, el, antenna: antenna_for(az as int, el as int) }
}

/// What one request does: the bytes to send back (possibly none), the
/// pointing after it, and whether the antenna must be switched.
#[derive(Debug, PartialEq, Eq)]
pub struct CommandOutcome {
    pub reply: Vec<u8>,
    pub pointing: Pointing,
    pub antenna_changed: bool,
}

fn axis_request(current: u16, piece: &[u8], az_axis: bool) -> (r: (Vec<u8>, u16))
    requires
        piece@.len() >= 2,
    ensures
        (r.0@, r.1) == axis_effect(
            current,
            piece@,
            if az_axis { AZ_MAX_TENTHS as nat } else { EL_MAX_TENTHS as nat },
        ),
{
    let n = piece.len();
    if n == 2 {
        (angle_answer(current), current)
    } else if 5 <= n && n <= 7 {
        let text = slice_from(piece, 2);
        if az_axis {
            let zero: AzAngle = AzAngle::default();
            match zero.from_degrees(&text) {
                Ok(a) => (Vec::new(), a.degrees()),
                Err(_) => (error_answer(), current),
            }
        } else {
            let zero: ElAngle = ElAngle::default();
            match zero.from_degrees(&text) {
                Ok(a) => (Vec::new(), a.degrees()),
                Err(_) => (error_answer(), current),
            }
        }
    } else {
        (error_answer(), current)
    }
}

/// The bytes of `s` from index `start` on.
fn slice_from(s: &[u8], start: usize) -> (r: Vec<u8>)
    requires
        start <= s@.len(),
    ensures
        r@ == s@.skip(start as int),
{
    let n = s.len();
    let mut r: Vec<u8> = Vec::new();
    let mut i: usize = start;
    while i < n
        invariant
            n == s@.len(),
            start <= i <= n,
            r@ == s@.subrange(start as int, i as int),
        decreases n - i,
    {
        r.push(s[i]);
        i = i + 1;
        assert(s@.subrange(start as int, i as int) == s@.subrange(start as int, (i - 1) as int).push(s@[i - 1]));
    }
    assert(s@.subrange(start as int, n as int) == s@.skip(start as int));
    r
}

/// Carries out one request of a frame. Pieces shorter than two characters
/// are not requests and are skipped (`None`). Otherwise the request is
/// answered, the angles are updated, and the antenna is chosen anew for
/// them.
pub fn handle_command(p: Pointing, piece: &[u8]) -> (r: Option<CommandOutcome>)
    ensures
        piece@.len() < 2 ==> r is None,
        piece@.len() >= 2 ==> (r matches Some(o) && {
            &&& o.reply@ == command_effect(p, piece@).0
            &&& o.pointing == pointing_after(p, piece@)
            &&& o.antenna_changed == (o.pointing.antenna != p.antenna)
        }),
{
    if piece.len() < 2 {
        return None;
    }
    let (reply, az, el) = match EasycomCommands::parse(piece) {
        Some(EasycomCommands::VE) => (version_answer(), p.az, p.el),
        Some(EasycomCommands::AZ) => {
            let (reply, az) = axis_request(p.az, piece, true);
            (reply, az, p.el)
        },
        Some(EasycomCommands::EL) => {
            let (reply, el) = axis_request(p.el, piece, false);
            (reply, p.az, el)
        },
        None => (error_answer(), p.az, p.el),
    };
    let antenna = select_antenna(az, el);
    Some(CommandOutcome {
        reply,
        pointing: Pointing { az, el, antenna },
        antenna_changed: antenna != p.antenna,
    })
}

/// `b` with ASCII lower-case letters turned to upper case.
pub open spec fn upper(b: u8) -> u8 {
    if 97 <= b <= 122 {
        (b - 32) as u8
    } else {
        b
    }
}

/// Line feed, carriage return and space separate the requests of a frame.
pub open spec fn is_separator(b: u8) -> bool {
    b == 10 || b == 13 || b == 32
}

/// The pieces of `s` between separators, as `slice::split` yields them: a
/// frame with `k` separators has `k + 1` pieces, some of them empty.
pub open spec fn split_pieces(s: Seq<u8>) -> Seq<Seq<u8>>
    decreases s.len(),
{
    if s.len() == 0 {
        seq![Seq::empty()]
    } else {
        let init = split_pieces(s.drop_last());
        if is_separator(s.last()) {
            init.push(Seq::empty())
        } else {
            init.update(init.len() - 1, init.last().push(s.last()))
        }
    }
}

/// Turns the ASCII lower-case letters of `buf` to upper case in place.
pub fn uppercase_ascii(buf: &mut Vec<u8>)
    ensures
        final(buf)@ == old(buf)@.map_values(|b: u8| upper(b)),
{
    let n = buf.len();
    let mut i: usize = 0;
    while i < n
        invariant
            n == buf@.len(),
            n == old(buf)@.len(),
            i <= n,
            forall|j: int| 0 <= j < i ==> buf@[j] == upper(old(buf)@[j]),
            forall|j: int| i <= j < n ==> buf@[j] == old(buf)@[j],
        decreases n - i,
    {
        let c = buf[i];
        if 0x61u8 <= c && c <= 0x7au8 {
            assert(c & !0x20u8 == c - 32) by (bit_vector)
                requires
                    0x61u8 <= c <= 0x7au8,
            ;
            buf.set(i, c & !0x20u8);
        }
        i = i + 1;
    }
    assert(buf@ =~= old(buf)@.map_values(|b: u8| upper(b)));
}

/// Splits a frame into the pieces between separators.
pub fn split_frame(frame: &[u8]) -> (pieces: Vec<Vec<u8>>)
    ensures
        pieces.deep_view() == split_pieces(frame@),
{
    let n = frame.len();
    let mut pieces: Vec<Vec<u8>> = Vec::new();
    let mut cur: Vec<u8> = Vec::new();
    let mut i: usize = 0;
    assert(frame@.take(0) =~= Seq::<u8>::empty());
    assert(pieces.deep_view().push(cur@) =~= split_pieces(frame@.take(0)));
    while i < n
        invariant
            n == frame@.len(),
            i <= n,
            pieces.deep_view().push(cur@) == split_pieces(frame@.take(i as int)),
        decreases n - i,
    {
        let ghost before = pieces.deep_view();
        let ghost cur_before = cur@;
        let b = frame[i];
        assert(frame@.take(i + 1).drop_last() =~= frame@.take(i as int));
        assert(frame@.take(i + 1).last() == b);
        if b == 10u8 || b == 13u8 || b == 32u8 {
            let done = cur;
            assert(done.deep_view() =~= done@);
            pieces.push(done);
            cur = Vec::new();
            assert(pieces.deep_view() =~= before.push(cur_before));
            assert(pieces.deep_view().push(cur@) =~= before.push(cur_before).push(Seq::empty()));
        } else {
            cur.push(b);
            assert(pieces.deep_view().push(cur@) =~= before.push(cur_before).update(
                before.len() as int,
                cur_before.push(b),
            ));
        }
        i = i + 1;
    }
    assert(frame@.take(n as int) =~= frame@);
    let ghost before = pieces.deep_view();
    assert(cur.deep_view() =~= cur@);
    pieces.push(cur);
    assert(pieces.deep_view() =~= before.push(cur@));
    pieces
}

/// The most bytes a frame holds.
pub const RCV_BUF_LEN: usize = 128;

/// Whether a byte just read from the serial line belongs to the frame being
/// received: a read that delivered a byte while the frame has room. A read
/// of nothing, or a full frame, ends the frame (as does a read timeout,
/// which the caller sees itself).
pub fn frame_takes_byte(bytes_read: usize, buffered: usize) -> (take: bool)
    ensures
        take == (bytes_read > 0 && buffered < RCV_BUF_LEN),
{
    bytes_read > 0 && buffered < RCV_BUF_LEN
}

/// What to do with one frame received on the serial line.
#[derive(Debug, PartialEq, Eq)]
pub enum FrameAction {
    /// Nothing was received.
    Nothing,
    /// A frame too short to hold a request: send these bytes back.
    Answer(Vec<u8>),
    /// The pieces of the frame, each to be handled as a request in turn.
    Requests(Vec<Vec<u8>>),
}

/// Accepts a received frame: turns it to upper case in place, and tells
/// whether it is empty, a lone character (answered with `?`), or a list of
/// pieces that may hold requests.
pub fn receive_frame(frame: &mut Vec<u8>) -> (r: FrameAction)
    ensures
        final(frame)@ == old(frame)@.map_values(|b: u8| upper(b)),
        old(frame)@.len() == 0 ==> r is Nothing,
        old(frame)@.len() == 1 ==> (r matches FrameAction::Answer(a) && a@ == error_reply()),
        old(frame)@.len() > 1 ==> (r matches FrameAction::Requests(ps)
            && ps.deep_view() == split_pieces(final(frame)@)),
{
    uppercase_ascii(frame);
    let n = frame.len();
    if n == 0 {
        FrameAction::Nothing
    } else if n == 1 {
        FrameAction::Answer(error_answer())
    } else {
        FrameAction::Requests(split_frame(frame.as_slice()))
    }
}

/// Setting an axis and then querying it answers the value set, rounded to
/// whole degrees: a request `AZ` followed by a valid angle text, then a
/// bare `AZ`, answers `+`, the rounded angle and `.0`. The same holds of `EL`.
pub proof fn lemma_set_then_query(p: Pointing, set: Seq<u8>, query: Seq<u8>)
    requires
        5 <= set.len() <= 7,
        query.len() == 2,
        query == set.take(2),
        command_code(set) == Some(EasycomCommands::AZ) || command_code(set) == Some(
            EasycomCommands::EL,
        ),
        angle_from_text(
            set.skip(2),
            if command_code(set) == Some(EasycomCommands::AZ) {
                AZ_MAX_TENTHS as nat
            } else {
                EL_MAX_TENTHS as nat
            },
        ) is Ok,
    ensures
        command_effect(p, set).0 == Seq::<u8>::empty(),
        command_effect(pointing_after(p, set), query).0 == angle_reply(
            round_tenths(parse_tenths(set.skip(2))->0),
        ),
        pointing_after(pointing_after(p, set), query) == pointing_after(p, set),
{
    assert(query[0] == set[0] && query[1] == set[1]);
    let t = parse_tenths(set.skip(2))->0;
    assert(t <= 3600);
    assert(round_tenths(t) <= 361);
}

/// A query, and the version request, change neither angle.
pub proof fn lemma_query_keeps_pointing(p: Pointing, query: Seq<u8>)
    requires
        query.len() == 2,
        command_code(query) is Some,
    ensures
        command_effect(p, query).1 == p.az,
        command_effect(p, query).2 == p.el,
{
}

/// A request that is refused is answered with `?` and changes neither angle.
pub proof fn lemma_refusal_keeps_angles(p: Pointing, piece: Seq<u8>)
    requires
        piece.len() >= 2,
        command_effect(p, piece).0 == error_reply(),
    ensures
        command_effect(p, piece).1 == p.az,
        command_effect(p, piece).2 == p.el,
{
}

/// After any request the antenna is the one that serves the requested
/// angles, and it is switched exactly when it differs from the one before.
pub proof fn lemma_antenna_follows_angles(p: Pointing, piece: Seq<u8>)
    ensures
        pointing_after(p, piece).antenna == antenna_for(
            pointing_after(p, piece).az as int,
            pointing_after(p, piece).el as int,
        ),
        1 <= pointing_after(p, piece).antenna <= 6,
{
}

/// Turning a frame to upper case twice changes nothing more than once.
pub proof fn lemma_upper_idempotent(s: Seq<u8>)
    ensures
        s.map_values(|b: u8| upper(b)).map_values(|b: u8| upper(b)) == s.map_values(
            |b: u8| upper(b),
        ),
{
    assert(s.map_values(|b: u8| upper(b)).map_values(|b: u8| upper(b)) =~= s.map_values(
        |b: u8| upper(b),
    ));
}

/// No piece of a frame holds a separator, and a frame with no separator is
/// a single piece.
pub proof fn lemma_pieces_have_no_separator(s: Seq<u8>)
    ensures
        split_pieces(s).len() >= 1,
        forall|i: int, j: int|
            0 <= i < split_pieces(s).len() && 0 <= j < split_pieces(s)[i].len()
                ==> !is_separator(#[trigger] split_pieces(s)[i][j]),
        (forall|k: int| 0 <= k < s.len() ==> !is_separator(#[trigger] s[k])) ==> split_pieces(s)
            == seq![s],
    decreases s.len(),
{
    if s.len() > 0 {
        let init = s.drop_last();
        lemma_pieces_have_no_separator(init);
        if forall|k: int| 0 <= k < s.len() ==> !is_separator(#[trigger] s[k]) {
            assert forall|k: int| 0 <= k < init.len() implies !is_separator(#[trigger] init[k]) by {
                assert(init[k] == s[k]);
            }
            assert(init.push(s.last()) =~= s);
        }
        let ps = split_pieces(init);
        if !is_separator(s.last()) {
            let last = ps.last().push(s.last());
            assert forall|i: int, j: int|
                0 <= i < split_pieces(s).len() && 0 <= j < split_pieces(s)[i].len()
                implies !is_separator(#[trigger] split_pieces(s)[i][j]) by {
                if i == ps.len() - 1 {
                    assert(split_pieces(s)[i] == last);
                    if j < ps.last().len() {
                        assert(last[j] == ps[i][j]);
                    }
                } else {
                    assert(split_pieces(s)[i] == ps[i]);
                }
            }
        } else {
            assert forall|i: int, j: int|
                0 <= i < split_pieces(s).len() && 0 <= j < split_pieces(s)[i].len()
                implies !is_separator(#[trigger] split_pieces(s)[i][j]) by {
                assert(i < ps.len());
                assert(split_pieces(s)[i] == ps[i]);
            }
        }
    } else {
        assert(s =~= Seq::<u8>::empty());
    }
}

/// Setting one axis leaves the other as it was: after any request that
/// starts with `AZ` the elevation is unchanged, and the antenna is the one
/// for the new azimuth at that elevation; after `EL`, likewise for the
/// azimuth.
pub proof fn lemma_set_one_axis_keeps_other(p: Pointing, piece: Seq<u8>)
    requires
        piece.len() >= 2,
    ensures
        piece[0] == 65 && piece[1] == 90 ==> pointing_after(p, piece).el == p.el
            && pointing_after(p, piece).antenna == antenna_for(
            pointing_after(p, piece).az as int,
            p.el as int,
        ),
        piece[0] == 69 && piece[1] == 76 ==> pointing_after(p, piece).az == p.az
            && pointing_after(p, piece).antenna == antenna_for(
            p.az as int,
            pointing_after(p, piece).el as int,
        ),
{
}

/// Every decimal digit is accepted: `a.d`, `bc.d` and `abc.d`, for any
/// digits, read as the tenths `10a + d`, `100b + 10c + d` and
/// `1000a + 100b + 10c + d`.
pub proof fn lemma_every_digit_accepted(a: u8, b: u8, c: u8, d: u8)
    requires
        a < 10,
        b < 10,
        c < 10,
        d < 10,
    ensures
        parse_tenths(seq![(48 + a) as u8, 46u8, (48 + d) as u8]) == Some((10 * a + d) as nat),
        parse_tenths(seq![(48 + b) as u8, (48 + c) as u8, 46u8, (48 + d) as u8]) == Some(
            (100 * b + 10 * c + d) as nat,
        ),
        parse_tenths(seq![(48 + a) as u8, (48 + b) as u8, (48 + c) as u8, 46u8, (48 + d) as u8])
            == Some((1000 * a + 100 * b + 10 * c + d) as nat),
{
    let ca = (48 + a) as u8;
    let cb = (48 + b) as u8;
    let cc = (48 + c) as u8;
    let cd = (48 + d) as u8;
    let dot = 46u8;
    let s1 = seq![ca, dot, cd];
    assert(s1.take(1) =~= seq![ca]);
    assert(seq![ca].drop_last() =~= Seq::<u8>::empty());
    assert(digits_value(Seq::<u8>::empty()) == 0);
    assert(seq![ca].last() == ca);
    assert(digits_value(seq![ca]) == a);
    assert forall|i: int| 0 <= i < s1.len() && i != s1.len() - 2 implies is_digit(#[trigger] s1[i]) by {
        assert(i == 0 || i == 2);
    }
    let s2 = seq![cb, cc, dot, cd];
    assert(s2.take(2) =~= seq![cb, cc]);
    assert(seq![cb, cc].drop_last() =~= seq![cb]);
    assert(seq![cb].drop_last() =~= Seq::<u8>::empty());
    assert(seq![cb].last() == cb);
    assert(digits_value(seq![cb]) == b);
    assert(digits_value(seq![cb, cc]) == 10 * b + c);
    assert forall|i: int| 0 <= i < s2.len() && i != s2.len() - 2 implies is_digit(#[trigger] s2[i]) by {
        assert(i == 0 || i == 1 || i == 3);
    }
    let s3 = seq![ca, cb, cc, dot, cd];
    assert(s3.take(3) =~= seq![ca, cb, cc]);
    assert(seq![ca, cb, cc].drop_last() =~= seq![ca, cb]);
    assert(seq![ca, cb].drop_last() =~= seq![ca]);
    assert(digits_value(seq![ca, cb]) == 10 * a + b);
    assert(digits_value(seq![ca, cb, cc]) == 100 * a + 10 * b + c);
    assert forall|i: int| 0 <= i < s3.len() && i != s3.len() - 2 implies is_digit(#[trigger] s3[i]) by {
        assert(i == 0 || i == 1 || i == 2 || i == 4);
    }
}

/// `s` consists of decimal digits only.
pub open spec fn digits_only(s: Seq<u8>) -> bool {
    forall|i: int| 0 <= i < s.len() ==> is_digit(#[trigger] s[i])
}

proof fn lemma_decimal_value(n: nat)
    ensures
        digits_value(decimal(n)) == n,
    decreases n,
{
    if n >= 10 {
        lemma_decimal_value(n / 10);
        assert(decimal(n).drop_last() =~= decimal(n / 10));
    } else {
        assert(decimal(n).drop_last() =~= Seq::<u8>::empty());
        assert(digits_value(Seq::<u8>::empty()) == 0);
    }
}

proof fn lemma_leading_zeros(k: nat, s: Seq<u8>)
    ensures
        digits_value(Seq::new(k, |i: int| 48u8) + s) == digits_value(s),
    decreases s.len(), k,
{
    let z = Seq::new(k, |i: int| 48u8);
    if s.len() == 0 {
        assert(z + s =~= z);
        if k > 0 {
            let z1 = Seq::new((k - 1) as nat, |i: int| 48u8);
            assert(z.drop_last() =~= z1 + s);
            lemma_leading_zeros((k - 1) as nat, s);
        }
    } else {
        assert((z + s).drop_last() =~= z + s.drop_last());
        lemma_leading_zeros(k, s.drop_last());
    }
}

/// A number written in decimal, padded with zeros to any width, consists of
/// digits only and reads back as the number.
pub proof fn lemma_decimal_reads_back(n: nat, width: nat)
    ensures
        digits_only(decimal_padded(n, width)),
        digits_value(decimal_padded(n, width)) == n,
{
    lemma_decimal_value(n);
    lemma_decimal_digits(n);
    let d = decimal(n);
    if d.len() < width {
        lemma_leading_zeros((width - d.len()) as nat, d);
        let z = Seq::new((width - d.len()) as nat, |i: int| 48u8);
        assert forall|i: int| 0 <= i < (z + d).len() implies is_digit(#[trigger] (z + d)[i]) by {
            if i >= z.len() {
                assert((z + d)[i] == d[i - z.len()]);
            }
        }
    }
}

/// Upper-casing turns each ASCII lower-case letter into its upper-case
/// letter, 32 below it, and leaves every other byte as it is; no lower-case
/// letter remains.
pub proof fn lemma_upper_letters(b: u8)
    ensures
        97 <= b <= 122 ==> upper(b) + 32 == b,
        !(97 <= b <= 122) ==> upper(b) == b,
        !(97 <= upper(b) <= 122),
{
}

/// A query answers `+`, the axis' current whole degrees in decimal digits,
/// and `.0` with a line feed: the digits read back as the current angle.
pub proof fn lemma_query_reply_reads_back(p: Pointing, query: Seq<u8>)
    requires
        query.len() == 2,
        (query[0] == 65 && query[1] == 90) || (query[0] == 69 && query[1] == 76),
    ensures
        ({
            let reply = command_effect(p, query).0;
            let angle = if query[0] == 65 { p.az } else { p.el };
            &&& reply.len() >= 4
            &&& reply[0] == 43
            &&& reply.skip(reply.len() - 3) == seq![46u8, 48u8, 10u8]
            &&& digits_only(reply.subrange(1, reply.len() - 3))
            &&& digits_value(reply.subrange(1, reply.len() - 3)) == angle
        }),
{
    let angle = if query[0] == 65 { p.az } else { p.el };
    lemma_decimal_reads_back(angle as nat, 0);
    lemma_decimal_digits(angle as nat);
    let reply = command_effect(p, query).0;
    assert(reply == angle_reply(angle as nat));
    let d = decimal(angle as nat);
    assert(decimal_padded(angle as nat, 0) == d);
    assert(reply.skip(reply.len() - 3) =~= seq![46u8, 48u8, 10u8]);
    assert(reply.subrange(1, reply.len() - 3) =~= d);
}

/// A set request stores the whole degrees nearest to the angle given, halves
/// rounded up: the stored `d` degrees lie within half a degree of the
/// `t` tenths given (`10d - 5 <= t < 10d + 5`).
pub proof fn lemma_set_rounds_to_nearest(p: Pointing, piece: Seq<u8>)
    requires
        5 <= piece.len() <= 7,
        (piece[0] == 65 && piece[1] == 90) || (piece[0] == 69 && piece[1] == 76),
        parse_tenths(piece.skip(2)) is Some,
        command_effect(p, piece).0.len() == 0,
    ensures
        ({
            let t = parse_tenths(piece.skip(2))->0;
            let d = if piece[0] == 65 { command_effect(p, piece).1 } else { command_effect(p, piece).2 };
            10 * d - 5 <= t < 10 * d + 5
        }),
{
    let t = parse_tenths(piece.skip(2))->0;
    assert(t <= 9999);
    assert(10 * ((t + 5) / 10) <= t + 5 < 10 * ((t + 5) / 10) + 10);
}

} // verus!
