//! The MCU-independent half of the kolibri firmware, verified.
//!
//! Nothing in here waits, touches a bus or knows a chip. The modules hold what
//! the firmware decides and computes; the tasks around them perform what comes
//! out and hand back how it went.
//!
//! - [`storage`] keeps a small record in NOR flash across power cycles, on top
//!   of [`flash`], [`record`] and [`crc`]. [`nor`] proves what that achieves on
//!   a chip that works, and on one that loses power. [`ram`] is such a chip, in
//!   memory.
//! - [`text`] formats text on the stack, [`temperature`] a reading.
//! - [`screen`] says what can be drawn on a panel and in what order a panel is
//!   served. [`display`] lays out the boot splash and the status screen,
//!   [`blinky`] the status screen of a board without a sensor.
//! - [`blink`] and [`heartbeat`] decide when an LED toggles and how fast it
//!   blinks.
pub mod blink;
pub mod blinky;
pub mod crc;
pub mod display;
pub mod flash;
pub mod heartbeat;
pub mod nor;
pub mod ram;
pub mod record;
pub mod screen;
pub mod storage;
pub mod temperature;
pub mod text;
