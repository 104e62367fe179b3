//! The front panel: what a key does to the relays and the requested
//! antenna, how an antenna request is sent as DTMF tones, and how meter
//! readings are bounded before they are shown.

use vstd::prelude::*;
use crate::easycom::{pointing_after, Pointing};

verus! {

/// The switchable state of the front panel.
#[derive(Debug, Clone, Copy, PartialEq, Eq, Structural)]
pub struct Switches {
    /// The power relay.
    pub power: bool,
    /// The 144 MHz low-noise amplifier relay.
    pub lna144: bool,
    /// The 430 MHz low-noise amplifier relay.
    pub lna430: bool,
    /// The requested antenna.
    pub antenna: u16,
}

/// The key code of a keypad event: `None` for events with the top bit set
/// (which the panel ignores), else the low seven bits less one.
pub open spec fn key_of_event(event: u8) -> Option<u8> {
    if event >= 128 {
        None
    } else {
        Some((event - 1) as u8)
    }
}

/// Decodes a keypad event into the code of the key it reports. Events with
/// the top bit set are not acted upon (`None`).
pub fn decode_key_event(event: u8) -> (key: Option<u8>)
    requires
        event != 0,
    ensures
        key == key_of_event(event),
{
    if (event & 0x80u8) > 0 {
        assert(event & 0x80u8 > 0 <==> event >= 128) by (bit_vector);
        None
    } else {
        assert(event & 0x80u8 == 0 ==> event & 0x7fu8 == event) by (bit_vector);
        assert(event & 0x80u8 > 0 <==> event >= 128) by (bit_vector);
        Some((event & 0x7Fu8) - 1)
    }
}

/// The antenna that a key selects: the top row (keys 0, 1, 2) selects
/// antennas 1 to 3, keys 10, 11, 12 select antennas 4 to 6.
pub open spec fn antenna_key(key: u8) -> Option<u16> {
    if key == 0 {
        Some(1)
    } else if key == 1 {
        Some(2)
    } else if key == 2 {
        Some(3)
    } else if key == 10 {
        Some(4)
    } else if key == 11 {
        Some(5)
    } else if key == 12 {
        Some(6)
    } else {
        None
    }
}

/// The panel state after key `key` is released: keys 20, 21, 22 toggle the
/// power, 144 MHz and 430 MHz relays; antenna keys select their antenna.
pub open spec fn switches_after(s: Switches, key: u8) -> Switches {
    if key == 20 {
        Switches { power: !s.power, ..s }
    } else if key == 21 {
        Switches { lna144: !s.lna144, ..s }
    } else if key == 22 {
        Switches { lna430: !s.lna430, ..s }
    } else {
        match antenna_key(key) {
            Some(a) => Switches { antenna: a, ..s },
            None => s,
        }
    }
}

/// What releasing a key does.
#[derive(Debug, Clone, Copy, PartialEq, Eq, Structural)]
pub struct KeyOutcome {
    /// The panel state afterwards.
    pub switches: Switches,
    /// The relay outputs must be driven anew (keys 20 to 22).
    pub drive_relays: bool,
    /// The requested antenna must be sent (keys 0 to 12).
    pub send_antenna: bool,
}

/// Applies the release of key `key` to the panel state.
pub fn release_key(s: Switches, key: u8) -> (r: KeyOutcome)
    ensures
        r.switches == switches_after(s, key),
        r.drive_relays == (20 <= key <= 22),
        r.send_antenna == (key < 13),
{
    let mut sw = s;
    let mut drive_relays = false;
    let mut send_antenna = false;
    if key > 19 && key < 23 {
        if key == 20 {
            sw.power = !sw.power;
        } else if key == 21 {
            sw.lna144 = !sw.lna144;
        } else {
            sw.lna430 = !sw.lna430;
        }
        drive_relays = true;
    }
    if key < 13 {
        if key == 0 {
            sw.antenna = 1;
        } else if key == 1 {
            sw.antenna = 2;
        } else if key == 2 {
            sw.antenna = 3;
        } else if key == 10 {
            sw.antenna = 4;
        } else if key == 11 {
            sw.antenna = 5;
        } else if key == 12 {
            sw.antenna = 6;
        }
        send_antenna = true;
    }
    KeyOutcome { switches: sw, drive_relays, send_antenna }
}

/// The strobe line of the DTMF encoder.
pub const DTMF_STROBE: u8 = 0b0010000;

/// The two bytes written to the DTMF encoder to request antenna `ant`:
/// the antenna number with the strobe raised, then with it lowered.
/// Only antennas 1 to 6 exist; for any other number nothing is sent.
pub open spec fn dtmf_frames(ant: u16) -> Option<(u8, u8)> {
    if 1 <= ant <= 6 {
        Some(((ant + DTMF_STROBE) as u8, ant as u8))
    } else {
        None
    }
}

/// The bytes that request antenna `ant` from the remote switch.
pub fn dtmf_request(ant: u16) -> (r: Option<(u8, u8)>)
    requires
        ant <= 255,
    ensures
        r == dtmf_frames(ant),
{
    let a = ant as u8;
    if a < 1 || a > 6 {
        return None;
    }
    Some((a + DTMF_STROBE, a))
}

/// Largest bus voltage shown, in millivolts.
pub const MAX_SHOWN_MILLIVOLTS: i64 = 15000;
/// Largest bus current shown, in milliamperes.
pub const MAX_SHOWN_MILLIAMPS: i64 = 10000;

/// A non-negative meter reading, cut down to `limit`.
pub fn bounded_reading(value: i64, limit: i64) -> (r: u32)
    requires
        0 <= value,
        0 <= limit <= u32::MAX,
    ensures
        r == (if value > limit { limit } else { value }),
{
    let v = if value > limit { limit } else { value };
    v as u32
}

/// Pressing a relay key twice leaves the panel as it was.
pub proof fn lemma_relay_key_twice(s: Switches, key: u8)
    requires
        20 <= key <= 22,
    ensures
        switches_after(switches_after(s, key), key) == s,
{
}

/// A relay key flips its own relay and nothing else.
pub proof fn lemma_relay_key_flips_one(s: Switches, key: u8)
    requires
        20 <= key <= 22,
    ensures
        switches_after(s, key).power == (if key == 20 { !s.power } else { s.power }),
        switches_after(s, key).lna144 == (if key == 21 { !s.lna144 } else { s.lna144 }),
        switches_after(s, key).lna430 == (if key == 22 { !s.lna430 } else { s.lna430 }),
        switches_after(s, key).antenna == s.antenna,
{
}

/// An antenna key requests its antenna, one of 1 to 6, leaves the relays
/// alone, and pressing it again changes nothing more.
pub proof fn lemma_antenna_key(s: Switches, key: u8)
    requires
        antenna_key(key) is Some,
    ensures
        switches_after(s, key).antenna == antenna_key(key)->0,
        1 <= switches_after(s, key).antenna <= 6,
        switches_after(s, key).power == s.power,
        switches_after(s, key).lna144 == s.lna144,
        switches_after(s, key).lna430 == s.lna430,
        switches_after(switches_after(s, key), key) == switches_after(s, key),
{
}

/// Keys that are neither relay nor antenna keys change nothing.
pub proof fn lemma_other_keys_inert(s: Switches, key: u8)
    requires
        !(20 <= key <= 22),
        antenna_key(key) is None,
    ensures
        switches_after(s, key) == s,
{
}

/// The two DTMF bytes of a request differ only in the strobe line: the
/// first has it raised, the second lowered, and both carry the antenna.
pub proof fn lemma_dtmf_strobe(ant: u16)
    requires
        dtmf_frames(ant) is Some,
    ensures
        ({
            let (on, off) = dtmf_frames(ant)->0;
            &&& off == ant
            &&& on == off | DTMF_STROBE
            &&& on & DTMF_STROBE == DTMF_STROBE
            &&& off & DTMF_STROBE == 0
            &&& on & 0x0f == off
        }),
{
    let off = ant as u8;
    assert(1 <= off <= 6);
    assert(1 <= off <= 6 ==> (off + 16) as u8 == off | 16u8 && (off | 16u8) & 16u8 == 16u8 && off
        & 16u8 == 0 && (off | 16u8) & 0x0fu8 == off) by (bit_vector);
}

/// Every antenna that the panel or the serial link can request is one the
/// DTMF link can send: antenna keys and pointing requests both yield an
/// antenna from 1 to 6.
pub proof fn lemma_requested_antennas_are_sendable(s: Switches, key: u8, p: Pointing, piece: Seq<u8>)
    requires
        antenna_key(key) is Some,
    ensures
        dtmf_frames(switches_after(s, key).antenna) is Some,
        dtmf_frames(pointing_after(p, piece).antenna) is Some,
{
}

/// A keypad event below 0x80 reports the key whose code is one less than
/// the event; events from 0x80 up report no key.
pub proof fn lemma_event_names_key(e: u8)
    ensures
        1 <= e < 128 ==> (key_of_event(e) matches Some(k) && k + 1 == e),
        e >= 128 ==> key_of_event(e) is None,
{
}

/// The antenna keys are the first three keys of the top row (codes 0 to 2)
/// and of the second-from-bottom row (codes 10 to 12), selecting antennas 1
/// to 3 and 4 to 6 in keypad order; no other key selects an antenna.
pub proof fn lemma_antenna_keys_in_order(key: u8)
    ensures
        key <= 2 ==> antenna_key(key) == Some((key + 1) as u16),
        10 <= key <= 12 ==> antenna_key(key) == Some((key - 6) as u16),
        !(key <= 2 || 10 <= key <= 12) ==> antenna_key(key) is None,
{
}

} // verus!
