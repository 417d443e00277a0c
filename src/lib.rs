//! Control logic of a point-of-sale till: debounced buttons, the transaction
//! state machine, the receipt compositor and the status LED's wire encoding.
//! The hardware (pins, serial printer, LED sequencer, timers) drives these
//! from outside; every decision is made here.
pub mod bitmap;
pub mod color;
pub mod images;
pub mod input;
pub mod led;
pub mod printer;
pub mod state;
