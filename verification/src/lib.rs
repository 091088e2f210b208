//! Verified core of the Busicom 141-PF calculator front panel.
//!
//! The calculator's chips are emulated elsewhere; this crate holds the rules
//! by which the front panel talks to them: which keyboard line a pressed key
//! drives, how a key press and the paper-advance pulse are timed, how the
//! printer drum turns and which glyphs its hammers strike, and which rows of
//! the diagnostic side panel need to be redrawn.
//!
//! A 4-bit chip port is carried as a `u8` whose value is below 16.

use vstd::prelude::*;

pub mod keyboard;
pub mod printer;
pub mod side_panel;

verus! {

/// Milliseconds between two screen refreshes.
pub const REFRESH_RATE: i32 = 16;

/// Nanoseconds per emulated processor cycle (8 clock ticks at 740 kHz).
pub const CLOCK_RATE: i32 = 10_800;

/// Processor cycles run between two screen refreshes.
pub const CYCLES: i32 = 1481;

/// `CYCLES` is the number of whole processor cycles that fit in one refresh.
pub proof fn lemma_cycles_per_refresh()
    ensures
        CYCLES as int == (REFRESH_RATE as int) * 1_000_000 / (CLOCK_RATE as int),
{
}

/// The serial lines that ROM 0's output port drives on the shift registers
/// during one processor cycle.
pub struct ShifterLines {
    /// Data line of the keyboard shift register.
    pub keyboard_data: bool,
    /// Clock line of the keyboard shift register.
    pub keyboard_clock: bool,
    /// Data line of the first printer shift register.
    pub printer_data: bool,
    /// Clock line shared by both printer shift registers (the second one is
    /// fed by the first one's output).
    pub printer_clock: bool,
}

/// The shift-register lines that ROM 0's port drives.
pub open spec fn rom0_lines(rom0_ports: u8) -> ShifterLines {
    ShifterLines {
        keyboard_data: rom0_ports & 0b10 == 0,
        keyboard_clock: rom0_ports & 0b1 == 0,
        printer_data: rom0_ports & 0b10 == 0b10,
        printer_clock: rom0_ports & 0b100 == 0,
    }
}

/// Decodes ROM 0's port into the shift-register lines: bit 0 is the inverted
/// keyboard clock, bit 1 the printer data and the inverted keyboard data,
/// bit 2 the inverted printer clock.
pub fn shifter_lines(rom0_ports: u8) -> (lines: ShifterLines)
    ensures
        lines == rom0_lines(rom0_ports),
        lines.keyboard_data == (rom0_ports & 0b10 == 0),
        lines.keyboard_clock == (rom0_ports & 0b1 == 0),
        lines.printer_data == (rom0_ports & 0b10 == 0b10),
        lines.printer_clock == (rom0_ports & 0b100 == 0),
{
    ShifterLines {
        keyboard_data: rom0_ports & 0b10 == 0,
        keyboard_clock: rom0_ports & 0b1 == 0,
        printer_data: rom0_ports & 0b10 == 0b10,
        printer_clock: rom0_ports & 0b100 == 0,
    }
}

/// What ROM 0's port drives on the shift registers, bit by bit: bit 0 low
/// clocks the keyboard register, bit 1 is the printer register's data and,
/// inverted, the keyboard register's data, bit 2 low clocks the printer
/// registers.
pub proof fn lemma_rom0_lines(rom0_ports: u8)
    ensures
        rom0_lines(rom0_ports).keyboard_clock == (rom0_ports % 2 == 0),
        rom0_lines(rom0_ports).keyboard_data == ((rom0_ports / 2) % 2 == 0),
        rom0_lines(rom0_ports).printer_data == ((rom0_ports / 2) % 2 == 1),
        rom0_lines(rom0_ports).printer_clock == ((rom0_ports / 4) % 2 == 0),
{
    let x = rom0_ports;
    assert((x & 0b1 == 0) == (x % 2 == 0)) by (bit_vector);
    assert((x & 0b10 == 0) == ((x / 2) % 2 == 0)) by (bit_vector);
    assert((x & 0b10 == 0b10) == ((x / 2) % 2 == 1)) by (bit_vector);
    assert((x & 0b100 == 0) == ((x / 4) % 2 == 0)) by (bit_vector);
}

} // verus!
