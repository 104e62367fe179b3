//! Control logic of a satellite antenna switcher: keypad decoding, relay and
//! antenna selection, the Easycom rotator protocol, and the LCD view.

pub mod text;
pub mod antenna;
pub mod easycom;
pub mod panel;
pub mod state;
pub mod renderer;
pub mod tsa8418;
