use busicom_gui::printer::{
    annotation_glyph_at, digit_glyph_at, operation_glyph_at, printer_shift_bits, spin_printer,
    write_digits, Printer, DRUM_STEPS,
};

#[test]
fn new_printer_is_at_rest() {
    let p = Printer::new();
    assert_eq!(p.spin_count(), 0);
    assert!(!p.red_color());
}

#[test]
fn advance_paper_signal_fires_only_on_rising_edge() {
    let mut p = Printer::new();
    assert!(!p.new_advance_paper_signal(0b0111));
    assert!(p.new_advance_paper_signal(0b1000));
    assert!(!p.new_advance_paper_signal(0b1000));
    assert!(!p.new_advance_paper_signal(0b1111));
    assert!(!p.new_advance_paper_signal(0b0000));
    assert!(p.new_advance_paper_signal(0b1010));
}

#[test]
fn hammer_signal_fires_only_on_rising_edge() {
    let mut p = Printer::new();
    assert!(!p.new_hammer_signal(0b1101));
    assert!(p.new_hammer_signal(0b0010));
    assert!(!p.new_hammer_signal(0b0010));
    assert!(!p.new_hammer_signal(0b0001));
    assert!(p.new_hammer_signal(0b1111));
}

#[test]
fn red_ribbon_lasts_until_the_paper_advances() {
    let mut p = Printer::new();
    let c = p.run_cycle(0b0001);
    assert!(!c.advance_paper && !c.hammer && !c.red);
    assert!(p.red_color());
    let c = p.run_cycle(0b0010);
    assert!(c.hammer && c.red && !c.advance_paper);
    assert!(p.red_color());
    let c = p.run_cycle(0b0000);
    assert!(!c.hammer && c.red);
    let c = p.run_cycle(0b1010);
    assert!(c.advance_paper && c.hammer && !c.red);
    assert!(!p.red_color());
    let c = p.run_cycle(0b1011);
    assert!(!c.advance_paper && !c.hammer && !c.red);
    assert!(p.red_color());
}

#[test]
fn drum_turns_with_a_period_of_26_sleep_cycles() {
    let mut p = Printer::new();
    let first = p.run_sleep_cycle(0b1111);
    assert!(first.test_flag);
    assert_eq!(first.drum, Some(0));
    assert_eq!(first.rom_ports, Some(0b1110));
    assert_eq!(p.spin_count(), 1);
    let mut homes = 0;
    for step in 1..=(3 * DRUM_STEPS) {
        let before = p.spin_count();
        let c = p.run_sleep_cycle(0b0100);
        assert!(before >= 1 && before <= DRUM_STEPS);
        if before % 2 == 1 {
            assert!(!c.test_flag);
            assert_eq!(c.drum, None);
            assert_eq!(c.rom_ports, None);
        } else {
            assert!(c.test_flag);
            assert_eq!(c.drum, Some(before));
            if before == DRUM_STEPS {
                homes += 1;
                assert_eq!(c.rom_ports, Some(0b0101));
            } else {
                assert_eq!(c.rom_ports, Some(0b0100));
            }
        }
        assert_eq!(p.spin_count(), if before == DRUM_STEPS { 1 } else { before + 1 });
        if step % DRUM_STEPS == 0 {
            assert_eq!(p.spin_count(), 1);
        }
    }
    assert_eq!(homes, 3);
}

#[test]
fn drum_glyphs_by_count() {
    assert_eq!(digit_glyph_at(0), "-");
    assert_eq!(digit_glyph_at(1), "-");
    assert_eq!(digit_glyph_at(2), "0");
    assert_eq!(digit_glyph_at(3), "0");
    assert_eq!(digit_glyph_at(12), "5");
    assert_eq!(digit_glyph_at(20), "9");
    assert_eq!(digit_glyph_at(22), ".");
    assert_eq!(digit_glyph_at(24), ".");
    assert_eq!(digit_glyph_at(26), "-");
    assert_eq!(operation_glyph_at(2), "\u{25C7}");
    assert_eq!(operation_glyph_at(8), "\u{00D7}");
    assert_eq!(operation_glyph_at(20), "\u{221A}");
    assert_eq!(operation_glyph_at(26), "R");
    assert_eq!(operation_glyph_at(0), "R");
    assert_eq!(annotation_glyph_at(6), "\u{2160}");
    assert_eq!(annotation_glyph_at(22), "Ex");
    assert_eq!(annotation_glyph_at(26), "M");
}

#[test]
fn hammers_strike_the_cells_of_their_bits() {
    let bits: u32 = (1 << 3) | (1 << 5) | (1 << 17) | 0b11;
    let cells = write_digits(bits, 4);
    assert_eq!(cells, vec![(0, "1"), (2, "1"), (14, "1"), (16, "+"), (17, "*")]);
    assert_eq!(write_digits(0, 4), vec![]);
    assert_eq!(write_digits(0b100, 4), vec![]);
}

#[test]
fn spinning_drum_shows_its_glyph_everywhere() {
    let cells = spin_printer(2);
    assert_eq!(cells.len(), 17);
    for (i, cell) in cells.iter().take(15).enumerate() {
        assert_eq!(*cell, (i as u32, "0"));
    }
    assert_eq!(cells[15], (16, "\u{25C7}"));
    assert_eq!(cells[16], (17, "#"));
}

#[test]
fn printer_shift_bits_stack_the_registers() {
    assert_eq!(printer_shift_bits(0x3FF, 1), 0x7FF);
    assert_eq!(printer_shift_bits(0, 0x3FF), 0xFFC00);
    let bits = printer_shift_bits(0x155, 0x2AA);
    assert_eq!(bits & 0x3FF, 0x155);
    assert_eq!(bits >> 10, 0x2AA);
}
