use control_app::panel::{
    bounded_reading, decode_key_event, dtmf_request, release_key, Switches, DTMF_STROBE,
    MAX_SHOWN_MILLIAMPS, MAX_SHOWN_MILLIVOLTS,
};
use control_app::state::RotorState;
use control_app::easycom::{AzAngle, ElAngle};
use control_app::tsa8418::{pending_events, TSA8418_ADDR};

#[test]
fn key_events_decode() {
    assert_eq!(decode_key_event(0x81), None);
    assert_eq!(decode_key_event(0xD0), None);
    assert_eq!(decode_key_event(0x01), Some(0));
    assert_eq!(decode_key_event(0x15), Some(20));
    assert_eq!(decode_key_event(0x7F), Some(126));
}

#[test]
fn relay_keys_toggle() {
    let s = Switches { power: true, lna144: false, lna430: false, antenna: 1 };
    let o = release_key(s, 20);
    assert!(!o.switches.power);
    assert!(o.drive_relays);
    assert!(!o.send_antenna);
    let back = release_key(o.switches, 20);
    assert_eq!(back.switches, s);
    let o = release_key(s, 21);
    assert!(o.switches.lna144);
    assert_eq!(o.switches.power, s.power);
    let o = release_key(s, 22);
    assert!(o.switches.lna430);
    assert_eq!(o.switches.antenna, 1);
}

#[test]
fn antenna_keys_select() {
    let s = Switches { power: true, lna144: false, lna430: false, antenna: 1 };
    let expected: [(u8, u16); 6] = [(0, 1), (1, 2), (2, 3), (10, 4), (11, 5), (12, 6)];
    for (key, ant) in expected {
        let o = release_key(s, key);
        assert_eq!(o.switches.antenna, ant);
        assert!(o.send_antenna);
        assert!(!o.drive_relays);
        assert_eq!(release_key(o.switches, key).switches, o.switches);
    }
}

#[test]
fn other_keys() {
    let s = Switches { power: false, lna144: true, lna430: false, antenna: 4 };
    let o = release_key(s, 5);
    assert_eq!(o.switches, s);
    assert!(o.send_antenna);
    let o = release_key(s, 13);
    assert_eq!(o.switches, s);
    assert!(!o.send_antenna);
    assert!(!o.drive_relays);
    let o = release_key(s, 23);
    assert_eq!(o.switches, s);
    assert!(!o.drive_relays);
}

#[test]
fn dtmf_bytes() {
    assert_eq!(dtmf_request(1), Some((17, 1)));
    assert_eq!(dtmf_request(6), Some((22, 6)));
    assert_eq!(dtmf_request(3), Some((3 | DTMF_STROBE, 3)));
    assert_eq!(dtmf_request(0), None);
    assert_eq!(dtmf_request(7), None);
    assert_eq!(dtmf_request(255), None);
}

#[test]
fn readings_are_bounded() {
    assert_eq!(bounded_reading(12000, MAX_SHOWN_MILLIVOLTS), 12000);
    assert_eq!(bounded_reading(15000, MAX_SHOWN_MILLIVOLTS), 15000);
    assert_eq!(bounded_reading(15001, MAX_SHOWN_MILLIVOLTS), 15000);
    assert_eq!(bounded_reading(123456, MAX_SHOWN_MILLIAMPS), 10000);
    assert_eq!(bounded_reading(0, MAX_SHOWN_MILLIAMPS), 0);
}

#[test]
fn event_count_is_low_nibble() {
    assert_eq!(pending_events(0xF3), 3);
    assert_eq!(pending_events(0x0A), 10);
    assert_eq!(pending_events(0x10), 0);
    assert_eq!(TSA8418_ADDR, 0x34);
}

#[test]
fn rotor_state() {
    let mut st = RotorState::new();
    assert_eq!(st.ant_required, 1);
    assert_eq!(st.ant_confirmed, 0);
    let (az, el) = st.get_angles();
    assert_eq!(az.tenths(), 0);
    assert_eq!(el.tenths(), 0);
    let a = AzAngle::default().from_degrees(b"90.5").unwrap();
    st.set_az(a);
    let e = ElAngle::default().from_degrees(b"12.3").unwrap();
    st.set_el(e);
    let (az, el) = st.get_angles();
    assert_eq!(az.tenths(), 905);
    assert_eq!(el.tenths(), 123);
    assert_eq!(st.ant_required, 1);
}
