# kolibri

Firmware for the Seeed Studio XIAO ESP32-C3, with its logic verified by Verus.

- `src/` is the verified library: a record store in NOR flash that survives
  losing power in the middle of a save, text formatting on the stack,
  temperature readings, the layout of the screens, and the decisions of the
  tasks.
- `tests/` runs the library on concrete values.
- `app/` is the firmware around it: the Embassy tasks, the OLED driver, the flash
  adapter and the board's entry point.

What the library promises is stated in the contracts of its functions and, where
a promise spans several of them, in the proof functions named `law_...`:
`src/nor.rs`, `src/storage.rs` and `src/record.rs` for the store, `src/crc.rs`
for the checksum, `src/text.rs` and `src/temperature.rs` for what is shown,
`src/display.rs` and `src/blinky.rs` for the layout, `src/screen.rs` for the life
of a panel, `src/heartbeat.rs` for the blink rate.

Two things are taken on trust. `core::str::from_utf8` accepts exactly the valid
UTF-8 and leaves the bytes as they are. An implementation of the trait `Flash`
from outside the library has a history to which each operation adds what was
asked for and what came of it; `src/ram.rs` is an implementation for which this
is proved.
