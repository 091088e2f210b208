use busicom_gui::side_panel::{
    hex_digit_of, print_line_ports, print_line_shifts, print_register, SidePanel,
};
use busicom_gui::{shifter_lines, CLOCK_RATE, CYCLES, REFRESH_RATE};

#[test]
fn memory_redraws_only_changed_registers() {
    let mut panel = SidePanel::new();
    let mut chars = [0u64; 8];
    let mut statuses = [0u16; 8];
    assert_eq!(panel.print_memory(chars, statuses), vec![]);
    chars[0] = 0x12;
    statuses[5] = 0x3;
    chars[7] = 0xFFFF;
    assert_eq!(
        panel.print_memory(chars, statuses),
        vec![(2, 0x12, 0), (10, 0, 0x3), (12, 0xFFFF, 0)]
    );
    assert_eq!(panel.print_memory(chars, statuses), vec![]);
    chars[3] = 1;
    assert_eq!(panel.print_memory(chars, statuses), vec![(5, 1, 0)]);
}

#[test]
fn ports_redraw_only_changed_rows() {
    let mut panel = SidePanel::new();
    assert_eq!(panel.print_ports([0; 5], [0; 2]), vec![]);
    assert_eq!(
        panel.print_ports([1, 0, 0, 0, 15], [0, 9]),
        vec![(1, 1), (5, 15), (7, 9)]
    );
    assert_eq!(panel.print_ports([1, 0, 0, 0, 15], [0, 9]), vec![]);
    assert_eq!(panel.print_ports([1, 0, 0, 0, 15], [4, 9]), vec![(6, 4)]);
}

#[test]
fn shifts_redraw_only_changed_rows() {
    let mut panel = SidePanel::new();
    assert_eq!(panel.print_shifts([0, 0x3FF, 0]), vec![(2, 0x3FF)]);
    assert_eq!(panel.print_shifts([0, 0x3FF, 0]), vec![]);
    assert_eq!(panel.print_shifts([1, 0x3FF, 2]), vec![(1, 1), (3, 2)]);
}

#[test]
fn register_row_shows_hex_most_significant_first() {
    let cells = print_register(0x0123456789ABCDEF, 0x1A2F);
    let expected_chars = "0123456789ABCDEF";
    assert_eq!(cells.len(), 20);
    for (k, c) in expected_chars.chars().enumerate() {
        assert_eq!(cells[k], (2 + k as u32, c));
    }
    assert_eq!(cells[16], (19, '1'));
    assert_eq!(cells[17], (20, 'A'));
    assert_eq!(cells[18], (21, '2'));
    assert_eq!(cells[19], (22, 'F'));
}

#[test]
fn hex_digits_match_upper_case_format() {
    for n in 0u8..16 {
        assert_eq!(hex_digit_of(n).to_string(), format!("{:X}", n));
    }
}

#[test]
fn port_row_shows_bits_in_present_cells() {
    assert_eq!(
        print_line_ports(0b1010, [true; 4]),
        vec![(1, false), (2, true), (3, false), (4, true)]
    );
    assert_eq!(
        print_line_ports(0b1010, [true, false, true, true]),
        vec![(1, false), (3, true), (4, false)]
    );
    assert_eq!(print_line_ports(0b1111, [false; 4]), vec![]);
}

#[test]
fn shift_row_shows_ten_bits() {
    let cells = print_line_shifts(0b10_0000_0001);
    assert_eq!(cells.len(), 10);
    for (i, cell) in cells.iter().enumerate() {
        assert_eq!(*cell, (i as u32 + 1, i == 0 || i == 9));
    }
}

#[test]
fn rom_zero_drives_the_shift_registers() {
    let idle = shifter_lines(0);
    assert!(idle.keyboard_data && idle.keyboard_clock && !idle.printer_data && idle.printer_clock);
    let busy = shifter_lines(0b111);
    assert!(!busy.keyboard_data && !busy.keyboard_clock && busy.printer_data && !busy.printer_clock);
    let data = shifter_lines(0b010);
    assert!(!data.keyboard_data && data.keyboard_clock && data.printer_data && data.printer_clock);
}

#[test]
fn cycles_fill_one_refresh() {
    assert_eq!(CYCLES, REFRESH_RATE * 1_000_000 / CLOCK_RATE);
}
