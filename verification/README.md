# control_app

Control software for a satellite antenna switcher: a keypad, relays, a DTMF
link to a remote antenna switch, an Easycom serial link from the tracking
software, and an LCD status screen.

- `src/` is the verified library (Verus): the Easycom protocol
  (`easycom`), antenna selection (`antenna`), the front panel's key, relay,
  DTMF and meter logic (`panel`), the status screen as drawing operations
  (`renderer`), the rotator state (`state`), decimal text (`text`) and the
  TSA8418 keypad driver (`tsa8418`).
- `app/` is the program around it: threads, GPIO, SPI display, serial port,
  the INA226 meter and drawing on the display.
- `tests/` exercises the library on concrete values.
