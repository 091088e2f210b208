# busicom_gui

The front panel of an emulated Busicom 141-PF calculator, as a verified
library and a thin browser shell around it.

- `src/` (verified with Verus): the keyboard's key matrix and key-press
  timing, the precision/rounding switches and status lamps
  (`keyboard`), the printer's drum, edge-detected paper and hammer signals,
  ribbon colour and struck glyphs (`printer`), the side panel's redraw cache
  and cell contents (`side_panel`), and the shift-register wiring of ROM 0
  (`lib.rs`). Chip ports are plain `u8` values below 16.
- `app/`: the page and the emulated chips. It reads the DOM and the chips,
  hands the library plain values, and writes back what the library answers.
- `tests/`: scenarios for each module.
