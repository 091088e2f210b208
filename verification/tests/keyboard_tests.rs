use busicom_gui::keyboard::{
    handle_leds, led_style, parse_digit_precision, Keyboard, KEY_HOLD_CYCLES, PAPER_ADVANCE_BIT,
    PAPER_ADVANCE_KEY, PAPER_RELEASE_CYCLES, ROUNDING_FLOAT, ROUNDING_ROUND, ROUNDING_TRUNCATE,
};

#[test]
fn new_keyboard_is_idle_with_eight_digits_floating() {
    let k = Keyboard::new();
    assert_eq!(k.current_scan_code(), 0);
    assert_eq!(k.timer(), 0);
    assert_eq!(k.digit_precision(), 8);
    assert_eq!(k.rounding(), ROUNDING_FLOAT);
    assert!(k.awaits_keypress());
}

#[test]
fn idle_keyboard_drives_no_key_line() {
    let k = Keyboard::new();
    for row in 0..8u32 {
        assert_eq!(k.run_cycle(1u16 << row), 0);
    }
    assert_eq!(k.run_cycle(0), 0);
    assert_eq!(k.run_cycle(0b11), 0);
}

#[test]
fn pressed_digit_five_drives_row_five_line_one() {
    let mut k = Keyboard::new();
    assert_eq!(k.handle_keypress(Some(150), 0b0110), 0b0110);
    assert_eq!(k.current_scan_code(), 150);
    assert_eq!(k.timer(), KEY_HOLD_CYCLES);
    assert_eq!(k.run_cycle(0b0000100000), 0b0010);
    assert_eq!(k.run_cycle(0b0000010000), 0);
    assert_eq!(k.run_cycle(0b0001000000), 0);
}

#[test]
fn every_matrix_key_drives_one_line_of_its_row() {
    for code in 129u8..=160 {
        let mut k = Keyboard::new();
        k.handle_keypress(Some(code), 0);
        let row = (code - 129) / 4;
        let line = (code - 129) % 4;
        for r in 0..8u8 {
            let expected = if r == row { 1u8 << line } else { 0 };
            assert_eq!(k.run_cycle(1u16 << r), expected, "code {} row {}", code, r);
        }
    }
}

#[test]
fn switch_rows_read_the_low_four_bits() {
    let mut k = Keyboard::new();
    assert_eq!(k.run_cycle(0b0100000000), 8);
    assert_eq!(k.run_cycle(0b1000000000), 0);
    k.handle_switches(18, false, false, true);
    assert_eq!(k.run_cycle(0b0100000000), 2);
    assert_eq!(k.run_cycle(0b1000000000), 8);
    k.handle_switches(3, false, true, true);
    assert_eq!(k.run_cycle(0b1000000000), 1);
}

#[test]
fn switches_prefer_float_then_round_then_truncate() {
    let mut k = Keyboard::new();
    k.handle_switches(4, true, true, true);
    assert_eq!((k.digit_precision(), k.rounding()), (4, ROUNDING_FLOAT));
    k.handle_switches(5, false, true, true);
    assert_eq!((k.digit_precision(), k.rounding()), (5, ROUNDING_ROUND));
    k.handle_switches(6, false, false, true);
    assert_eq!((k.digit_precision(), k.rounding()), (6, ROUNDING_TRUNCATE));
    k.handle_switches(7, false, false, false);
    assert_eq!((k.digit_precision(), k.rounding()), (7, ROUNDING_TRUNCATE));
}

#[test]
fn ordinary_key_is_held_one_cycle_then_released() {
    let mut k = Keyboard::new();
    assert_eq!(k.handle_keypress(Some(160), 0b1010), 0b1010);
    assert!(!k.awaits_keypress());
    // The hold: the timer runs down, the key stays, a report is ignored.
    assert_eq!(k.handle_keypress(Some(129), 0b1010), 0b1010);
    assert_eq!(k.current_scan_code(), 160);
    assert_eq!(k.timer(), 0);
    // The release.
    assert_eq!(k.handle_keypress(None, 0b1010), 0b1010);
    assert_eq!(k.current_scan_code(), 0);
    assert_eq!(k.timer(), KEY_HOLD_CYCLES);
    assert_eq!(k.run_cycle(0b0010000000), 0);
    k.handle_keypress(None, 0);
    assert!(k.awaits_keypress());
}

#[test]
fn paper_advance_key_pulses_rom_bit_three() {
    let mut k = Keyboard::new();
    let held = k.handle_keypress(Some(PAPER_ADVANCE_KEY), 0b0101);
    assert_eq!(held, 0b1101);
    assert_eq!(held & PAPER_ADVANCE_BIT, PAPER_ADVANCE_BIT);
    let waited = k.handle_keypress(None, held);
    assert_eq!(waited, held);
    let released = k.handle_keypress(None, waited);
    assert_eq!(released, 0b0101);
    assert_eq!(k.current_scan_code(), 0);
    assert_eq!(k.timer(), PAPER_RELEASE_CYCLES);
    for left in (0..PAPER_RELEASE_CYCLES).rev() {
        assert!(!k.awaits_keypress());
        assert_eq!(k.handle_keypress(Some(150), 0b0101), 0b0101);
        assert_eq!(k.timer(), left);
    }
    assert!(k.awaits_keypress());
}

#[test]
fn scan_code_zero_and_no_report_change_nothing() {
    let mut k = Keyboard::new();
    assert_eq!(k.handle_keypress(Some(0), 0b1111), 0b1111);
    assert!(k.awaits_keypress());
    assert_eq!(k.handle_keypress(None, 0b0011), 0b0011);
    assert!(k.awaits_keypress());
}

#[test]
fn digit_precision_parses_like_u8_from_str() {
    let cases = [
        "0", "8", "15", "+12", "007", "255", "256", "1000", "", "+", "-1", " 5", "5 ", "12a",
        "++1", "+0", "00000000000000000000255", "99999999999999999999", "\u{0663}",
    ];
    for text in cases {
        assert_eq!(parse_digit_precision(text), text.parse::<u8>().ok(), "text {:?}", text);
    }
    assert_eq!(parse_digit_precision("8"), Some(8));
    assert_eq!(parse_digit_precision("+12"), Some(12));
    assert_eq!(parse_digit_precision("255"), Some(255));
    assert_eq!(parse_digit_precision("256"), None);
    assert_eq!(parse_digit_precision(""), None);
}

#[test]
fn lamps_follow_ram_one_bits() {
    assert_eq!(handle_leds(0), ("none", "none", "none"));
    assert_eq!(handle_leds(0b001), ("lightblue", "none", "none"));
    assert_eq!(handle_leds(0b010), ("none", "#ffcccb", "none"));
    assert_eq!(handle_leds(0b100), ("none", "none", "lightgreen"));
    assert_eq!(handle_leds(0b1111), ("lightblue", "#ffcccb", "lightgreen"));
}

#[test]
fn lamp_style_sets_background_colour() {
    assert_eq!(led_style("lightblue"), "background-color: lightblue");
    assert_eq!(led_style("none"), "background-color: none");
}
