//! The calculator's drum printer: the turning drum and its home signal, the
//! paper-advance and hammer signals, the red ribbon, and which glyph each
//! hammer strikes.
use vstd::prelude::*;

verus! {

/// Sleep cycles of one drum revolution: 13 positions, each reported to the
/// processor once with the test line up and once with it down.
pub const DRUM_STEPS: usize = 26;

/// Hammer bits of a spinning drum: every column shows the drum's glyph.
pub const DRUM_FACE: u32 = 0b11111111111111111111;

/// What the printer remembers between cycles.
pub struct Printer {
    spin_count: usize,
    red_color: bool,
    advance_paper: bool,
    hammering: bool,
}

/// The abstract state of a [`Printer`].
pub struct PrinterView {
    /// Sleep cycles since the drum last passed its home position.
    pub spin_count: usize,
    /// Whether the line being printed is red.
    pub red_color: bool,
    /// The paper-advance line as last seen.
    pub advance_paper: bool,
    /// The hammer line as last seen.
    pub hammering: bool,
}

impl View for Printer {
    type V = PrinterView;

    closed spec fn view(&self) -> PrinterView {
        PrinterView {
            spin_count: self.spin_count,
            red_color: self.red_color,
            advance_paper: self.advance_paper,
            hammering: self.hammering,
        }
    }
}

/// What the page must do after one processor cycle of the printer.
pub struct PrinterCycle {
    /// Scroll the paper up by one line.
    pub advance_paper: bool,
    /// Strike the hammers on the lowest paper line.
    pub hammer: bool,
    /// Whether what the hammers strike is red.
    pub red: bool,
}

/// What the page and the processor must be told after one sleep cycle of
/// the printer.
pub struct SleepCycle {
    /// The processor's test line.
    pub test_flag: bool,
    /// The drum count whose glyphs the drum row shows, when it moved.
    pub drum: Option<usize>,
    /// The value to write to ROM 2's port, when it changes.
    pub rom_ports: Option<u8>,
}

/// The paper-advance line: bit 3 of RAM 0's port.
pub open spec fn advance_line(ram0_data: u8) -> bool {
    ram0_data & 0b1000 == 0b1000
}

/// The hammer line: bit 1 of RAM 0's port.
pub open spec fn hammer_line(ram0_data: u8) -> bool {
    ram0_data & 0b10 == 0b10
}

/// The red-ribbon line: bit 0 of RAM 0's port.
pub open spec fn red_line(ram0_data: u8) -> bool {
    ram0_data & 0b1 == 0b1
}

/// An edge detector: given the line as last seen and as seen now, the value
/// to remember and whether it fires (only on a change from low to high).
pub open spec fn rising_edge(last: bool, now: bool) -> (bool, bool) {
    (now, !last && now)
}

/// The printer after the paper-advance line is read, and whether it fired.
pub open spec fn advance_step(s: PrinterView, ram0_data: u8) -> (PrinterView, bool) {
    let (seen, fired) = rising_edge(s.advance_paper, advance_line(ram0_data));
    (PrinterView { advance_paper: seen, ..s }, fired)
}

/// The printer after the hammer line is read, and whether it fired.
pub open spec fn hammer_step(s: PrinterView, ram0_data: u8) -> (PrinterView, bool) {
    let (seen, fired) = rising_edge(s.hammering, hammer_line(ram0_data));
    (PrinterView { hammering: seen, ..s }, fired)
}

/// One processor cycle of the printer: the paper advances on a rising
/// paper-advance line (which starts a line in black), the hammers strike on a
/// rising hammer line in the ribbon colour of the moment, and the red line
/// turns the rest of the current line red.
pub open spec fn printer_cycle_step(s: PrinterView, ram0_data: u8) -> (PrinterView, PrinterCycle) {
    let (s1, advance) = advance_step(s, ram0_data);
    let s2 = if advance { PrinterView { red_color: false, ..s1 } } else { s1 };
    let (s3, hammer) = hammer_step(s2, ram0_data);
    let s4 = if red_line(ram0_data) { PrinterView { red_color: true, ..s3 } } else { s3 };
    (s4, PrinterCycle { advance_paper: advance, hammer: hammer, red: s2.red_color })
}

/// The drum count after one sleep cycle: it counts up and falls back to 1
/// after the home position.
pub open spec fn next_spin(spin_count: int) -> int {
    if spin_count == DRUM_STEPS {
        1
    } else {
        spin_count + 1
    }
}

/// One sleep cycle of the drum, given ROM 2's port. On even counts the test
/// line goes up, the drum row shows the glyphs of that count, and ROM 2's bit 0
/// is raised at the home position and lowered elsewhere; on odd counts the
/// test line goes down and nothing else changes.
pub open spec fn sleep_step(s: PrinterView, rom_ports: u8) -> (PrinterView, SleepCycle) {
    let next = PrinterView { spin_count: next_spin(s.spin_count as int) as usize, ..s };
    if s.spin_count % 2 == 1 {
        (next, SleepCycle { test_flag: false, drum: None, rom_ports: None })
    } else {
        let ports = if s.spin_count == DRUM_STEPS {
            rom_ports | 0b1
        } else {
            rom_ports & 0b1110
        };
        (next, SleepCycle { test_flag: true, drum: Some(s.spin_count), rom_ports: Some(ports) })
    }
}

/// The drum count after `n` sleep cycles.
pub open spec fn spin_after(spin_count: int, n: nat) -> int
    decreases n,
{
    if n == 0 {
        spin_count
    } else {
        next_spin(spin_after(spin_count, (n - 1) as nat))
    }
}

/// The drum row facing the hammers at drum count `spin_count`; rows 0 to 11
/// carry glyphs, any other row (the one before the first, at counts 0 and 1,
/// and the blank one at the home position) the fill glyph.
pub open spec fn drum_row(spin_count: int) -> int {
    spin_count / 2 - 1
}

/// Glyph that a digit column prints at drum count `spin_count`.
pub open spec fn digit_glyph(spin_count: int) -> &'static str {
    let row = drum_row(spin_count);
    if row == 0 {
        "0"
    } else if row == 1 {
        "1"
    } else if row == 2 {
        "2"
    } else if row == 3 {
        "3"
    } else if row == 4 {
        "4"
    } else if row == 5 {
        "5"
    } else if row == 6 {
        "6"
    } else if row == 7 {
        "7"
    } else if row == 8 {
        "8"
    } else if row == 9 {
        "9"
    } else if row == 10 || row == 11 {
        "."
    } else {
        "-"
    }
}

/// Glyph that the operation column (cell 16) prints at drum count `spin_count`.
pub open spec fn operation_glyph(spin_count: int) -> &'static str {
    let row = drum_row(spin_count);
    if row == 0 {
        "\u{25C7}"
    } else if row == 1 {
        "+"
    } else if row == 2 {
        "-"
    } else if row == 3 {
        "\u{00D7}"
    } else if row == 4 {
        "\u{00F7}"
    } else if row == 5 {
        "M+"
    } else if row == 6 {
        "M-"
    } else if row == 7 {
        "^"
    } else if row == 8 {
        "="
    } else if row == 9 {
        "\u{221A}"
    } else if row == 10 {
        "%"
    } else if row == 11 {
        "C"
    } else {
        "R"
    }
}

/// Glyph that the annotation column (cell 17) prints at drum count `spin_count`.
pub open spec fn annotation_glyph(spin_count: int) -> &'static str {
    let row = drum_row(spin_count);
    if row == 0 {
        "#"
    } else if row == 1 {
        "*"
    } else if row == 2 {
        "\u{2160}"
    } else if row == 3 {
        "\u{2161}"
    } else if row == 4 {
        "\u{2162}"
    } else if row == 5 {
        "M+"
    } else if row == 6 {
        "M-"
    } else if row == 7 {
        "T"
    } else if row == 8 {
        "K"
    } else if row == 9 {
        "E"
    } else if row == 10 {
        "Ex"
    } else if row == 11 {
        "C"
    } else {
        "M"
    }
}

/// Whether bit `i` of `bits` is set.
pub open spec fn bit_set(bits: u32, i: u32) -> bool {
    (bits >> i) & 1 == 1
}

/// The digit cells among columns `0 .. n` that the hammers in `bits` strike:
/// column `c` is struck when bit `c + 3` is set.
pub open spec fn digit_cells(bits: u32, spin_count: int, n: int) -> Seq<(u32, &'static str)>
    decreases n,
{
    if n <= 0 {
        seq![]
    } else {
        let before = digit_cells(bits, spin_count, n - 1);
        if bit_set(bits, (n - 1 + 3) as u32) {
            before.push(((n - 1) as u32, digit_glyph(spin_count)))
        } else {
            before
        }
    }
}

/// Every cell that the hammers in `bits` strike, in order: the fifteen digit
/// columns (bits 3 to 17), then the operation column 16 (bit 0), then the
/// annotation column 17 (bit 1), each with its glyph at `spin_count`.
pub open spec fn struck_cells(bits: u32, spin_count: int) -> Seq<(u32, &'static str)> {
    let digits = digit_cells(bits, spin_count, 15);
    let with_operation = if bits & 1 == 1 {
        digits.push((16u32, operation_glyph(spin_count)))
    } else {
        digits
    };
    if (bits >> 1u32) & 1 == 1 {
        with_operation.push((17u32, annotation_glyph(spin_count)))
    } else {
        with_operation
    }
}

/// The glyph a digit column prints at drum count `spin_count`.
pub fn digit_glyph_at(spin_count: usize) -> (glyph: &'static str)
    ensures
        glyph == digit_glyph(spin_count as int),
{
    match spin_count / 2 {
        1 => "0",
        2 => "1",
        3 => "2",
        4 => "3",
        5 => "4",
        6 => "5",
        7 => "6",
        8 => "7",
        9 => "8",
        10 => "9",
        11 => ".",
        12 => ".",
        _ => "-",
    }
}

/// The glyph the operation column prints at drum count `spin_count`.
pub fn operation_glyph_at(spin_count: usize) -> (glyph: &'static str)
    ensures
        glyph == operation_glyph(spin_count as int),
{
    match spin_count / 2 {
        1 => "\u{25C7}",
        2 => "+",
        3 => "-",
        4 => "\u{00D7}",
        5 => "\u{00F7}",
        6 => "M+",
        7 => "M-",
        8 => "^",
        9 => "=",
        10 => "\u{221A}",
        11 => "%",
        12 => "C",
        _ => "R",
    }
}

/// The glyph the annotation column prints at drum count `spin_count`.
pub fn annotation_glyph_at(spin_count: usize) -> (glyph: &'static str)
    ensures
        glyph == annotation_glyph(spin_count as int),
{
    match spin_count / 2 {
        1 => "#",
        2 => "*",
        3 => "\u{2160}",
        4 => "\u{2161}",
        5 => "\u{2162}",
        6 => "M+",
        7 => "M-",
        8 => "T",
        9 => "K",
        10 => "E",
        11 => "Ex",
        12 => "C",
        _ => "M",
    }
}

/// The cells of a printer row that the hammers in `bits` strike at drum
/// count `spin_count`, each with the glyph it shows.
pub fn write_digits(bits: u32, spin_count: usize) -> (cells: Vec<(u32, &'static str)>)
    ensures
        cells@ == struck_cells(bits, spin_count as int),
{
    let mut cells: Vec<(u32, &'static str)> = Vec::new();
    let mut column: u32 = 0;
    while column < 15
        invariant
            column <= 15,
            cells@ == digit_cells(bits, spin_count as int, column as int),
        decreases 15 - column,
    {
        if (bits >> (column + 3)) & 1 == 1 {
            cells.push((column, digit_glyph_at(spin_count)));
        }
        column = column + 1;
    }
    if bits & 1 == 1 {
        cells.push((16, operation_glyph_at(spin_count)));
    }
    if (bits >> 1u32) & 1 == 1 {
        cells.push((17, annotation_glyph_at(spin_count)));
    }
    cells
}

/// The cells of the drum row at drum count `spin_count`: every column shows
/// the drum's glyph.
pub fn spin_printer(spin_count: usize) -> (cells: Vec<(u32, &'static str)>)
    ensures
        cells@ == struck_cells(DRUM_FACE, spin_count as int),
{
    write_digits(DRUM_FACE, spin_count)
}

/// The printer's hammer bits made of its two shift registers.
pub open spec fn hammer_bits(shift1: u16, shift2: u16) -> u32 {
    (shift1 as u32) | ((shift2 as u32) << 10u32)
}

/// The printer's hammer bits: the first printer shift register's ten bits,
/// then the second one's above them.
pub fn printer_shift_bits(shift1: u16, shift2: u16) -> (bits: u32)
    ensures
        bits == hammer_bits(shift1, shift2),
{
    let low: u32 = shift1 as u32;
    let high: u32 = shift2 as u32;
    low | (high << 10u32)
}

/// A line held high fires its edge detector once: the paper-advance signal
/// reads bit 3 of RAM 0's port and the hammer signal bit 1; each fires exactly
/// when its bit is set and was clear at the last reading, remembers the bit,
/// and leaves the rest of the printer alone; so reading the same port value
/// twice in a row never fires the second time.
pub proof fn lemma_signal_fires_once(s: PrinterView, ram0_data: u8)
    ensures
        ({
            let (s1, first) = advance_step(s, ram0_data);
            let (s2, second) = advance_step(s1, ram0_data);
            &&& first == (!s.advance_paper && ram0_data & 0b1000 != 0)
            &&& s1 == PrinterView { advance_paper: ram0_data & 0b1000 != 0, ..s }
            &&& !second
            &&& s2 == s1
        }),
        ({
            let (s1, first) = hammer_step(s, ram0_data);
            let (s2, second) = hammer_step(s1, ram0_data);
            &&& first == (!s.hammering && ram0_data & 0b10 != 0)
            &&& s1 == PrinterView { hammering: ram0_data & 0b10 != 0, ..s }
            &&& !second
            &&& s2 == s1
        }),
{
    let x = ram0_data;
    assert((x & 0b1000 == 0b1000) == (x & 0b1000 != 0)) by (bit_vector);
    assert((x & 0b10 == 0b10) == (x & 0b10 != 0)) by (bit_vector);
}

/// One processor cycle of the printer in full: the paper advances exactly on
/// a rising bit 3 of RAM 0's port, the hammers strike exactly on a rising
/// bit 1; they strike in black on a new line and otherwise in the colour the
/// line had; bit 0 turns the printer red for the rest of the line, and
/// without it the printer keeps the colour it struck in. So once red, a line
/// stays red until the paper advances.
pub proof fn lemma_red_holds_for_the_line(s: PrinterView, ram0_data: u8)
    ensures
        ({
            let (s1, cycle) = printer_cycle_step(s, ram0_data);
            &&& cycle.advance_paper == (!s.advance_paper && ram0_data & 0b1000 != 0)
            &&& cycle.hammer == (!s.hammering && ram0_data & 0b10 != 0)
            &&& cycle.red == (s.red_color && !cycle.advance_paper)
            &&& s1.red_color == (cycle.red || ram0_data & 0b1 != 0)
            &&& s1.advance_paper == (ram0_data & 0b1000 != 0)
            &&& s1.hammering == (ram0_data & 0b10 != 0)
            &&& s1.spin_count == s.spin_count
        }),
{
    let x = ram0_data;
    assert((x & 0b1000 == 0b1000) == (x & 0b1000 != 0)) by (bit_vector);
    assert((x & 0b10 == 0b10) == (x & 0b10 != 0)) by (bit_vector);
    assert((x & 0b1 == 0b1) == (x & 0b1 != 0)) by (bit_vector);
}

/// One sleep cycle of the drum in full: the count moves on by one and falls
/// from 26 back to 1; on odd counts the test line goes down and nothing is
/// drawn or written; on even counts the test line goes up, the drum row is
/// drawn at that count, and ROM 2's port is written back with its bits 1 to 3
/// kept and bit 0 set exactly at the home count 26.
pub proof fn lemma_sleep_cycle_in_full(s: PrinterView, rom_ports: u8)
    requires
        s.spin_count <= 26,
    ensures
        ({
            let (s1, cycle) = sleep_step(s, rom_ports);
            &&& s1.spin_count == (if s.spin_count == 26 { 1 } else { s.spin_count + 1 })
            &&& s1.red_color == s.red_color
            &&& s1.advance_paper == s.advance_paper
            &&& s1.hammering == s.hammering
            &&& cycle.test_flag == (s.spin_count % 2 == 0)
            &&& s.spin_count % 2 == 1 ==> cycle.drum is None && cycle.rom_ports is None
            &&& s.spin_count % 2 == 0 ==> {
                &&& cycle.drum == Some(s.spin_count)
                &&& cycle.rom_ports is Some
                &&& cycle.rom_ports->0 & 0b1110 == rom_ports & 0b1110
                &&& (cycle.rom_ports->0 & 0b1 != 0) == (s.spin_count == 26)
            }
        }),
{
    let r = rom_ports;
    assert((r | 0b1) & 0b1110 == r & 0b1110 && (r | 0b1) & 0b1 != 0) by (bit_vector);
    assert((r & 0b1110) & 0b1110 == r & 0b1110 && (r & 0b1110) & 0b1 == 0) by (bit_vector);
}

/// The digit columns print the drum's digits in order: at drum counts 2 to 21
/// the decimal digit `count / 2 - 1` (so the ten rows 0 to 9 carry "0" to
/// "9"), at counts 22 to 25 the decimal point, and at counts 0, 1 and 26 and
/// beyond the fill glyph "-".
pub proof fn lemma_digit_glyphs(c: int)
    ensures
        2 <= c <= 21 ==> digit_glyph(c)@ == seq![((c / 2 - 1) + 0x30) as char],
        22 <= c <= 25 ==> digit_glyph(c)@ == seq!['.'],
        (c < 2 || c > 25) ==> digit_glyph(c)@ == seq!['-'],
{
    reveal_strlit("0");
    reveal_strlit("1");
    reveal_strlit("2");
    reveal_strlit("3");
    reveal_strlit("4");
    reveal_strlit("5");
    reveal_strlit("6");
    reveal_strlit("7");
    reveal_strlit("8");
    reveal_strlit("9");
    reveal_strlit(".");
    reveal_strlit("-");
    assert('0' as int == 0x30);
}

/// The operation column (cell 16) prints, row by row from drum count 2, the
/// glyphs ◇ + - × ÷ M+ M- ^ = √ % C, and R at the rows without a glyph; each
/// row lasts two counts.
pub proof fn lemma_operation_glyphs(c: int)
    ensures
        operation_glyph(2 * (c / 2)) == operation_glyph(c),
        operation_glyph(2)@ == seq!['\u{25C7}'],
        operation_glyph(4)@ == seq!['+'],
        operation_glyph(6)@ == seq!['-'],
        operation_glyph(8)@ == seq!['\u{00D7}'],
        operation_glyph(10)@ == seq!['\u{00F7}'],
        operation_glyph(12)@ == seq!['M', '+'],
        operation_glyph(14)@ == seq!['M', '-'],
        operation_glyph(16)@ == seq!['^'],
        operation_glyph(18)@ == seq!['='],
        operation_glyph(20)@ == seq!['\u{221A}'],
        operation_glyph(22)@ == seq!['%'],
        operation_glyph(24)@ == seq!['C'],
        (c < 2 || c > 25) ==> operation_glyph(c)@ == seq!['R'],
{
    reveal_strlit("\u{25C7}");
    reveal_strlit("+");
    reveal_strlit("-");
    reveal_strlit("\u{00D7}");
    reveal_strlit("\u{00F7}");
    reveal_strlit("M+");
    reveal_strlit("M-");
    reveal_strlit("^");
    reveal_strlit("=");
    reveal_strlit("\u{221A}");
    reveal_strlit("%");
    reveal_strlit("C");
    reveal_strlit("R");
}

/// The annotation column (cell 17) prints, row by row from drum count 2, the
/// glyphs # * Ⅰ Ⅱ Ⅲ M+ M- T K E Ex C, and M at the rows without a glyph; each
/// row lasts two counts.
pub proof fn lemma_annotation_glyphs(c: int)
    ensures
        annotation_glyph(2 * (c / 2)) == annotation_glyph(c),
        annotation_glyph(2)@ == seq!['#'],
        annotation_glyph(4)@ == seq!['*'],
        annotation_glyph(6)@ == seq!['\u{2160}'],
        annotation_glyph(8)@ == seq!['\u{2161}'],
        annotation_glyph(10)@ == seq!['\u{2162}'],
        annotation_glyph(12)@ == seq!['M', '+'],
        annotation_glyph(14)@ == seq!['M', '-'],
        annotation_glyph(16)@ == seq!['T'],
        annotation_glyph(18)@ == seq!['K'],
        annotation_glyph(20)@ == seq!['E'],
        annotation_glyph(22)@ == seq!['E', 'x'],
        annotation_glyph(24)@ == seq!['C'],
        (c < 2 || c > 25) ==> annotation_glyph(c)@ == seq!['M'],
{
    reveal_strlit("#");
    reveal_strlit("*");
    reveal_strlit("\u{2160}");
    reveal_strlit("\u{2161}");
    reveal_strlit("\u{2162}");
    reveal_strlit("M+");
    reveal_strlit("M-");
    reveal_strlit("T");
    reveal_strlit("K");
    reveal_strlit("E");
    reveal_strlit("Ex");
    reveal_strlit("C");
    reveal_strlit("M");
}

/// The struck digit cells among columns `0 .. n` are exactly the columns
/// whose bit `column + 3` is set, each with the digit glyph, in increasing
/// column order.
proof fn lemma_digit_cells_members(bits: u32, spin_count: int, n: int)
    requires
        0 <= n <= 15,
    ensures
        forall|col: int|
            0 <= col < 15 ==> (#[trigger] digit_cells(bits, spin_count, n).contains(
                (col as u32, digit_glyph(spin_count)),
            ) <==> (col < n && bits & (1u32 << ((col + 3) as u32)) != 0)),
        forall|k: int|
            0 <= k < digit_cells(bits, spin_count, n).len() ==> {
                &&& (#[trigger] digit_cells(bits, spin_count, n)[k]).0 < n
                &&& digit_cells(bits, spin_count, n)[k].1 == digit_glyph(spin_count)
            },
        forall|j: int, k: int|
            0 <= j < k < digit_cells(bits, spin_count, n).len() ==> (#[trigger] digit_cells(
                bits,
                spin_count,
                n,
            )[j]).0 < (#[trigger] digit_cells(bits, spin_count, n)[k]).0,
    decreases n,
{
    if n > 0 {
        lemma_digit_cells_members(bits, spin_count, n - 1);
        let before = digit_cells(bits, spin_count, n - 1);
        let cells = digit_cells(bits, spin_count, n);
        let i: u32 = (n - 1 + 3) as u32;
        assert(((bits >> i) & 1 == 1) == (bits & (1u32 << i) != 0)) by (bit_vector)
            requires
                i < 32,
        ;
        assert forall|col: int| 0 <= col < 15 implies (#[trigger] cells.contains(
            (col as u32, digit_glyph(spin_count)),
        ) <==> (col < n && bits & (1u32 << ((col + 3) as u32)) != 0)) by {
            let cell = (col as u32, digit_glyph(spin_count));
            if bit_set(bits, i) {
                assert(cells == before.push(((n - 1) as u32, digit_glyph(spin_count))));
                if cells.contains(cell) {
                    let k = choose|k: int| 0 <= k < cells.len() && cells[k] == cell;
                    if k < before.len() {
                        assert(before[k] == cell);
                        assert(before.contains(cell));
                    }
                }
                if before.contains(cell) {
                    let k = choose|k: int| 0 <= k < before.len() && before[k] == cell;
                    assert(cells[k] == cell);
                }
                if col == n - 1 {
                    assert(cells[cells.len() - 1] == cell);
                }
            }
        }
    }
}

/// A printer row struck with hammer bits `bits` holds exactly: digit column
/// `c` (0 to 14) when bit `c + 3` is set, with the digit glyph; cell 16 when
/// bit 0 is set, with the operation glyph; cell 17 when bit 1 is set, with
/// the annotation glyph; and nothing else, each cell at most once.
pub proof fn lemma_struck_cells(bits: u32, spin_count: int)
    ensures
        forall|col: int|
            0 <= col < 15 ==> (#[trigger] struck_cells(bits, spin_count).contains(
                (col as u32, digit_glyph(spin_count)),
            ) <==> bits & (1u32 << ((col + 3) as u32)) != 0),
        struck_cells(bits, spin_count).contains((16u32, operation_glyph(spin_count))) <==> bits & 1
            != 0,
        struck_cells(bits, spin_count).contains((17u32, annotation_glyph(spin_count))) <==> bits & 2
            != 0,
        forall|k: int|
            0 <= k < struck_cells(bits, spin_count).len() ==> {
                let cell = #[trigger] struck_cells(bits, spin_count)[k];
                ||| cell.0 < 15 && cell.1 == digit_glyph(spin_count)
                ||| cell == (16u32, operation_glyph(spin_count))
                ||| cell == (17u32, annotation_glyph(spin_count))
            },
        forall|j: int, k: int|
            0 <= j < k < struck_cells(bits, spin_count).len() ==> (#[trigger] struck_cells(
                bits,
                spin_count,
            )[j]).0 < (#[trigger] struck_cells(bits, spin_count)[k]).0,
{
    lemma_digit_cells_members(bits, spin_count, 15);
    let digits = digit_cells(bits, spin_count, 15);
    let op = (16u32, operation_glyph(spin_count));
    let ann = (17u32, annotation_glyph(spin_count));
    let with_op = if bits & 1 == 1 { digits.push(op) } else { digits };
    let cells = struck_cells(bits, spin_count);
    assert((bits & 1 == 1) == (bits & 1 != 0)) by (bit_vector);
    assert(((bits >> 1u32) & 1 == 1) == (bits & 2 != 0)) by (bit_vector);
    assert(cells == (if (bits >> 1u32) & 1 == 1 { with_op.push(ann) } else { with_op }));
    assert(forall|k: int| 0 <= k < digits.len() ==> (#[trigger] digits[k]).0 < 15);
    assert(forall|k: int| 0 <= k < with_op.len() ==> (#[trigger] with_op[k]).0 < 17);
    assert(forall|k: int| 0 <= k < digits.len() ==> with_op[k] == #[trigger] digits[k]);
    assert(forall|k: int| 0 <= k < with_op.len() ==> cells[k] == #[trigger] with_op[k]);
    assert forall|col: int| 0 <= col < 15 implies (#[trigger] cells.contains(
        (col as u32, digit_glyph(spin_count)),
    ) <==> bits & (1u32 << ((col + 3) as u32)) != 0) by {
        let cell = (col as u32, digit_glyph(spin_count));
        assert(digits.contains(cell) <==> bits & (1u32 << ((col + 3) as u32)) != 0);
        if digits.contains(cell) {
            let k = choose|k: int| 0 <= k < digits.len() && digits[k] == cell;
            assert(cells[k] == cell);
        }
        if cells.contains(cell) {
            let k = choose|k: int| 0 <= k < cells.len() && cells[k] == cell;
            assert(k < digits.len());
            assert(digits[k] == cell);
        }
    }
    if bits & 1 == 1 {
        assert(with_op[with_op.len() - 1] == op);
        assert(cells[with_op.len() - 1] == op);
    } else if cells.contains(op) {
        let k = choose|k: int| 0 <= k < cells.len() && cells[k] == op;
        assert(k < digits.len());
    }
    if (bits >> 1u32) & 1 == 1 {
        assert(cells[cells.len() - 1] == ann);
    } else if cells.contains(ann) {
        let k = choose|k: int| 0 <= k < cells.len() && cells[k] == ann;
        assert(cells[k] == with_op[k]);
    }
}

/// From any count of a turning drum (1 to 26) the drum count after `n` sleep
/// cycles is the start moved on by `n` places, modulo a revolution.
pub proof fn lemma_drum_position(spin_count: int, n: nat)
    requires
        1 <= spin_count <= 26,
    ensures
        spin_after(spin_count, n) == (spin_count - 1 + n) % (26) + 1,
    decreases n,
{
    if n > 0 {
        lemma_drum_position(spin_count, (n - 1) as nat);
    }
}

/// The drum is periodic: from any count of a turning drum it is back at that
/// count after one revolution of 26 sleep cycles, and on the way it passes its
/// home position (count 26, where ROM 2's bit 0 is raised) exactly once.
pub proof fn lemma_drum_revolution(spin_count: int, k: nat)
    requires
        1 <= spin_count <= 26,
        k < 26,
    ensures
        spin_after(spin_count, 26) == spin_count,
        spin_after(spin_count, k) == 26 <==> k == 26 - spin_count,
{
    lemma_drum_position(spin_count, 26);
    lemma_drum_position(spin_count, k);
}

/// The printer starts its drum: from the resting count 0 the drum is turning
/// (count 1 to 26) after one sleep cycle and stays turning.
pub proof fn lemma_drum_keeps_turning(spin_count: int)
    requires
        0 <= spin_count <= 26,
    ensures
        1 <= next_spin(spin_count) <= 26,
{
}

/// Ten-bit shift registers do not overlap in the hammer bits: for register
/// values below 1024 the hammer bits are the first register plus 1024 times
/// the second, so the low ten bits are the first register's and the bits
/// above them the second one's.
pub proof fn lemma_shift_bits_split(shift1: u16, shift2: u16)
    requires
        shift1 < 1024,
        shift2 < 1024,
    ensures
        hammer_bits(shift1, shift2) == shift1 + 1024 * shift2,
        hammer_bits(shift1, shift2) % 1024 == shift1,
        hammer_bits(shift1, shift2) / 1024 == shift2,
{
    let a: u32 = shift1 as u32;
    let b: u32 = shift2 as u32;
    assert(a | (b << 10u32) == a + 1024 * b) by (bit_vector)
        requires
            a < 1024,
            b < 1024,
    ;
}

/// A spinning drum shows its glyph in every cell of the drum row: all
/// fifteen digit columns, the operation column and the annotation column.
pub proof fn lemma_drum_face_strikes_every_cell(spin_count: int)
    ensures
        forall|col: int|
            0 <= col < 15 ==> #[trigger] struck_cells(DRUM_FACE, spin_count).contains(
                (col as u32, digit_glyph(spin_count)),
            ),
        struck_cells(DRUM_FACE, spin_count).contains((16u32, operation_glyph(spin_count))),
        struck_cells(DRUM_FACE, spin_count).contains((17u32, annotation_glyph(spin_count))),
{
    lemma_struck_cells(DRUM_FACE, spin_count);
    let face = DRUM_FACE;
    assert(face == 0xFFFFF);
    assert forall|col: int| 0 <= col < 15 implies #[trigger] struck_cells(DRUM_FACE, spin_count).contains(
        (col as u32, digit_glyph(spin_count)),
    ) by {
        let i: u32 = (col + 3) as u32;
        assert(0xFFFFFu32 & (1u32 << i) != 0) by (bit_vector)
            requires
                3 <= i < 18,
        ;
    }
    assert(0xFFFFFu32 & 1 != 0 && 0xFFFFFu32 & 2 != 0) by (bit_vector);
}

impl Printer {
    #[verifier::type_invariant]
    spec fn wf(self) -> bool {
        self.spin_count <= DRUM_STEPS
    }

    /// A printer at rest: drum count 0, black ribbon, both lines low.
    pub fn new() -> (p: Self)
        ensures
            p@ == (PrinterView {
                spin_count: 0,
                red_color: false,
                advance_paper: false,
                hammering: false,
            }),
    {
        Printer { spin_count: 0, red_color: false, advance_paper: false, hammering: false }
    }

    /// Sleep cycles since the drum last passed its home position.
    pub fn spin_count(&self) -> (r: usize)
        ensures
            r == self@.spin_count,
            r <= DRUM_STEPS,
    {
        proof {
            use_type_invariant(self);
        }
        self.spin_count
    }

    /// Whether the line being printed is red.
    pub fn red_color(&self) -> (r: bool)
        ensures
            r == self@.red_color,
    {
        self.red_color
    }

    /// Reads the paper-advance line from RAM 0's port: true only when it has
    /// just gone high.
    pub fn new_advance_paper_signal(&mut self, ram0_data: u8) -> (advance: bool)
        ensures
            (final(self)@, advance) == advance_step(old(self)@, ram0_data),
    {
        proof {
            use_type_invariant(&*self);
        }
        let advance_paper = ram0_data & 0b1000 == 0b1000;
        if !self.advance_paper && advance_paper {
            // Only the switch from low to high is signalled.
            self.advance_paper = true;
            return true;
        }
        self.advance_paper = advance_paper;
        false
    }

    /// Reads the hammer line from RAM 0's port: true only when it has just
    /// gone high.
    pub fn new_hammer_signal(&mut self, ram0_data: u8) -> (hammer: bool)
        ensures
            (final(self)@, hammer) == hammer_step(old(self)@, ram0_data),
    {
        proof {
            use_type_invariant(&*self);
        }
        let hammering = ram0_data & 0b10 == 0b10;
        if !self.hammering && hammering {
            self.hammering = true;
            return true;
        }
        self.hammering = hammering;
        false
    }

    /// One processor cycle of the printer, given RAM 0's port.
    pub fn run_cycle(&mut self, ram0_data: u8) -> (cycle: PrinterCycle)
        ensures
            (final(self)@, cycle) == printer_cycle_step(old(self)@, ram0_data),
    {
        let advance = self.new_advance_paper_signal(ram0_data);
        proof {
            use_type_invariant(&*self);
        }
        if advance {
            // A new line starts in black.
            self.red_color = false;
        }
        let red = self.red_color;
        let hammer = self.new_hammer_signal(ram0_data);
        proof {
            use_type_invariant(&*self);
        }
        // The ribbon colour holds for the rest of the line once it is red.
        if ram0_data & 0b1 == 0b1 {
            self.red_color = true;
        }
        PrinterCycle { advance_paper: advance, hammer: hammer, red: red }
    }

    /// One sleep cycle of the drum, given ROM 2's port.
    pub fn run_sleep_cycle(&mut self, rom_ports: u8) -> (cycle: SleepCycle)
        ensures
            (final(self)@, cycle) == sleep_step(old(self)@, rom_ports),
    {
        proof {
            use_type_invariant(&*self);
        }
        let cycle = if self.spin_count % 2 == 1 {
            SleepCycle { test_flag: false, drum: None, rom_ports: None }
        } else {
            let drum = self.spin_count;
            let ports: u8 = if self.spin_count == DRUM_STEPS {
                // Every full revolution the home line goes up.
                self.spin_count = 0;
                rom_ports | 0b1
            } else {
                rom_ports & 0b1110
            };
            SleepCycle { test_flag: true, drum: Some(drum), rom_ports: Some(ports) }
        };
        self.spin_count = self.spin_count + 1;
        cycle
    }
}

} // verus!
