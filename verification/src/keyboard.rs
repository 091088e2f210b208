//! The calculator's keyboard: its key matrix, the timing of a key press, the
//! paper-advance key, the precision and rounding switches and the three
//! status lamps.
use vstd::prelude::*;
use vstd::arithmetic::power2::{lemma2_to64, pow2};
use vstd::string::StringSliceAdditionalSpecFns;

verus! {

/// Scan code of the paper-advance key: it is not part of the key matrix but
/// drives bit 3 of ROM 2's port directly.
pub const PAPER_ADVANCE_KEY: u8 = 1;

/// Bit of ROM 2's port that tells the processor that paper is advanced.
pub const PAPER_ADVANCE_BIT: u8 = 0b1000;

/// Sleep cycles a key stays pressed, and stays released after an ordinary key.
pub const KEY_HOLD_CYCLES: u8 = 1;

/// Sleep cycles the keyboard stays idle after the paper-advance key.
pub const PAPER_RELEASE_CYCLES: u8 = 7;

/// Digit precision selected when the calculator is switched on.
pub const INITIAL_DIGIT_PRECISION: u8 = 8;

/// Rounding switch value of "floating" mode.
pub const ROUNDING_FLOAT: u8 = 0;

/// Rounding switch value of "round" mode.
pub const ROUNDING_ROUND: u8 = 1;

/// Rounding switch value of "truncate" mode.
pub const ROUNDING_TRUNCATE: u8 = 8;

/// What the keyboard remembers between cycles.
pub struct Keyboard {
    current_scan_code: u8,
    timer: u8,
    digit_precision: u8,
    rounding: u8,
}

/// The abstract state of a [`Keyboard`].
pub struct KeyboardView {
    /// Scan code of the key held down, 0 when none is.
    pub scan_code: u8,
    /// Sleep cycles left before the keyboard acts again.
    pub timer: u8,
    /// Position of the digit-precision switch.
    pub digit_precision: u8,
    /// Position of the rounding switch.
    pub rounding: u8,
}

impl View for Keyboard {
    type V = KeyboardView;

    closed spec fn view(&self) -> KeyboardView {
        KeyboardView {
            scan_code: self.current_scan_code,
            timer: self.timer,
            digit_precision: self.digit_precision,
            rounding: self.rounding,
        }
    }
}

/// The row of the key matrix that the keyboard shift register selects: the
/// register drives a single line, bit `row` for rows 0 to 9; -1 when it drives
/// none or several.
pub open spec fn scan_row(shifter: u16) -> int {
    if shifter == 1 {
        0
    } else if shifter == 2 {
        1
    } else if shifter == 4 {
        2
    } else if shifter == 8 {
        3
    } else if shifter == 16 {
        4
    } else if shifter == 32 {
        5
    } else if shifter == 64 {
        6
    } else if shifter == 128 {
        7
    } else if shifter == 256 {
        8
    } else if shifter == 512 {
        9
    } else {
        -1
    }
}

/// `2^k` for the four lines of a ROM port.
pub open spec fn port_line(k: int) -> u8 {
    if k == 0 {
        1
    } else if k == 1 {
        2
    } else if k == 2 {
        4
    } else {
        8
    }
}

/// The value that the keyboard puts on ROM 1's port: rows 0 to 7 hold four
/// keys each, scan codes 129 + 4 * row to 132 + 4 * row driving lines 0 to 3;
/// row 8 reads the digit-precision switch, row 9 the rounding switch (their
/// low four bits); anything else reads 0.
pub open spec fn key_lines(shifter: u16, scan_code: u8, digit_precision: u8, rounding: u8) -> u8 {
    let row = scan_row(shifter);
    if 0 <= row < 8 && 129 + 4 * row <= scan_code < 133 + 4 * row {
        port_line(scan_code - 129 - 4 * row)
    } else if row == 8 {
        digit_precision & 0xF
    } else if row == 9 {
        rounding & 0xF
    } else {
        0
    }
}

/// One sleep cycle of the key-press state machine, given the key that the
/// page reports (asked only when the keyboard is idle) and ROM 2's port: the
/// new state and the value to write back to ROM 2's port.
pub open spec fn keypress_step(s: KeyboardView, keypress: Option<u8>, rom_ports: u8) -> (
    KeyboardView,
    u8,
) {
    if s.timer > 0 {
        (KeyboardView { timer: (s.timer - 1) as u8, ..s }, rom_ports)
    } else if s.scan_code == 0 {
        match keypress {
            None => (s, rom_ports),
            Some(code) => {
                if code == 0 {
                    (s, rom_ports)
                } else if code == PAPER_ADVANCE_KEY {
                    (
                        KeyboardView { scan_code: code, timer: KEY_HOLD_CYCLES, ..s },
                        rom_ports | PAPER_ADVANCE_BIT,
                    )
                } else {
                    (KeyboardView { scan_code: code, timer: KEY_HOLD_CYCLES, ..s }, rom_ports)
                }
            },
        }
    } else if s.scan_code == PAPER_ADVANCE_KEY {
        (KeyboardView { scan_code: 0, timer: PAPER_RELEASE_CYCLES, ..s }, rom_ports & 0b0111)
    } else {
        (KeyboardView { scan_code: 0, timer: KEY_HOLD_CYCLES, ..s }, rom_ports)
    }
}

/// The rounding mode after the switches are read: floating wins over round,
/// round over truncate; with none of them checked the mode stays.
pub open spec fn rounding_after(old_rounding: u8, float: bool, round: bool, truncate: bool) -> u8 {
    if float {
        ROUNDING_FLOAT
    } else if round {
        ROUNDING_ROUND
    } else if truncate {
        ROUNDING_TRUNCATE
    } else {
        old_rounding
    }
}

/// Whether `b` is the UTF-8 byte of an ASCII decimal digit.
pub open spec fn is_decimal_digit(b: u8) -> bool {
    0x30 <= b <= 0x39
}

/// The number that a string of decimal digits writes, most significant first.
pub open spec fn decimal_value(digits: Seq<u8>) -> int
    decreases digits.len(),
{
    if digits.len() == 0 {
        0
    } else {
        decimal_value(digits.drop_last()) * 10 + (digits.last() - 0x30)
    }
}

/// The digits of `bytes` once an optional leading `+` is taken off.
pub open spec fn unsigned_digits(bytes: Seq<u8>) -> Seq<u8> {
    if bytes.len() > 0 && bytes[0] == 0x2B {
        bytes.drop_first()
    } else {
        bytes
    }
}

/// A `u8` written in decimal: an optional `+`, then one or more decimal
/// digits whose value is at most 255; `None` for any other text.
pub open spec fn decimal_u8(bytes: Seq<u8>) -> Option<u8> {
    let digits = unsigned_digits(bytes);
    if digits.len() > 0 && (forall|i: int| 0 <= i < digits.len() ==> is_decimal_digit(#[trigger] digits[i]))
        && decimal_value(digits) <= 255 {
        Some(decimal_value(digits) as u8)
    } else {
        None
    }
}

/// A longer run of digits writes at least as large a number as its prefix.
proof fn lemma_decimal_value_prefix(digits: Seq<u8>, k: int)
    requires
        0 <= k <= digits.len(),
        forall|i: int| 0 <= i < digits.len() ==> is_decimal_digit(#[trigger] digits[i]),
    ensures
        decimal_value(digits.subrange(0, k)) <= decimal_value(digits),
        0 <= decimal_value(digits),
    decreases digits.len(),
{
    if digits.len() > 0 {
        let shorter = digits.drop_last();
        assert forall|i: int| 0 <= i < shorter.len() implies is_decimal_digit(#[trigger] shorter[i]) by {
            assert(shorter[i] == digits[i]);
        }
        if k < digits.len() {
            lemma_decimal_value_prefix(shorter, k);
            assert(shorter.subrange(0, k) =~= digits.subrange(0, k));
        } else {
            lemma_decimal_value_prefix(shorter, 0);
            assert(digits.subrange(0, k) =~= digits);
        }
    } else {
        assert(digits.subrange(0, k) =~= digits);
    }
}

/// Reads the digit-precision switch from the text of its input field, as
/// `u8`'s `FromStr` reads it: `None` where that parse fails.
pub fn parse_digit_precision(text: &str) -> (r: Option<u8>)
    ensures
        r == decimal_u8(text.spec_bytes()),
{
    let bytes = text.as_bytes();
    let n: usize = bytes.len();
    let mut start: usize = 0;
    if n > 0 && bytes[0] == 0x2B {
        start = 1;
    }
    let ghost digits = unsigned_digits(bytes@);
    assert(digits =~= bytes@.subrange(start as int, n as int));
    if start == n {
        return None;
    }
    let mut value: u16 = 0;
    let mut i: usize = start;
    while i < n
        invariant
            start <= i <= n,
            n == bytes@.len(),
            bytes@ == text.spec_bytes(),
            digits == unsigned_digits(bytes@),
            digits == bytes@.subrange(start as int, n as int),
            digits.len() > 0,
            value <= 255,
            value == decimal_value(digits.subrange(0, i - start)),
            forall|j: int| 0 <= j < i - start ==> is_decimal_digit(#[trigger] digits[j]),
        decreases n - i,
    {
        let b: u8 = bytes[i];
        if b < 0x30 || b > 0x39 {
            assert(digits[i - start] == b);
            assert(!is_decimal_digit(digits[i - start]));
            return None;
        }
        let ghost done = digits.subrange(0, i - start);
        let ghost more = digits.subrange(0, i + 1 - start);
        assert(more.drop_last() =~= done);
        assert(more.last() == b);
        value = value * 10 + (b - 0x30) as u16;
        assert(value == decimal_value(more));
        if value > 255 {
            proof {
                if forall|j: int| 0 <= j < digits.len() ==> is_decimal_digit(#[trigger] digits[j]) {
                    lemma_decimal_value_prefix(digits, i + 1 - start);
                }
            }
            return None;
        }
        i = i + 1;
    }
    assert(digits.subrange(0, i - start) =~= digits);
    Some(value as u8)
}

/// Lamp colours for the memory, overflow and negative lamps.
pub open spec fn lamp_colors(ram_ports: u8) -> (&'static str, &'static str, &'static str) {
    (
        if ram_ports & 0b1 == 0b1 { "lightblue" } else { "none" },
        if ram_ports & 0b10 == 0b10 { "#ffcccb" } else { "none" },
        if ram_ports & 0b100 == 0b100 { "lightgreen" } else { "none" },
    )
}

/// Lamp colours for the memory, overflow and negative lamps, read from bits
/// 0, 1 and 2 of RAM 1's port; "none" for a lamp that is off.
pub fn handle_leds(ram_ports: u8) -> (colors: (&'static str, &'static str, &'static str))
    ensures
        colors == lamp_colors(ram_ports),
        colors.0@ == (if ram_ports & 0b1 == 0b1 { "lightblue"@ } else { "none"@ }),
        colors.1@ == (if ram_ports & 0b10 == 0b10 { "#ffcccb"@ } else { "none"@ }),
        colors.2@ == (if ram_ports & 0b100 == 0b100 { "lightgreen"@ } else { "none"@ }),
{
    let memory = if ram_ports & 0b1 == 0b1 { "lightblue" } else { "none" };
    let overflow = if ram_ports & 0b10 == 0b10 { "#ffcccb" } else { "none" };
    let negative = if ram_ports & 0b100 == 0b100 { "lightgreen" } else { "none" };
    (memory, overflow, negative)
}

/// The style attribute that gives a lamp the colour `color`.
pub fn led_style(color: &str) -> (style: String)
    ensures
        style@ == "background-color: "@ + color@,
{
    let mut style = String::from_str("background-color: ");
    style.append(color);
    style
}

/// Each key of the matrix drives exactly one line of ROM 1's port, and only
/// while the shift register selects its own row (scan codes 129 to 160 sit
/// four to a row, from row 0); the switch rows and the idle register drive no
/// key at all.
pub proof fn lemma_matrix_key_drives_one_line(code: u8, shifter: u16, digit_precision: u8, rounding: u8)
    requires
        129 <= code <= 160,
        0 <= scan_row(shifter) < 8,
    ensures
        key_lines(shifter, code, digit_precision, rounding) != 0 <==> scan_row(shifter) == (code - 129) / 4,
        scan_row(shifter) == (code - 129) / 4 ==> key_lines(shifter, code, digit_precision, rounding)
            == port_line((code - 129) % 4),
{
}

/// The keyboard's answer in full, for every register value and every held
/// key: a matrix key (scan codes 129 to 160, four to a row) drives line
/// `2^((code - 129) % 4)` exactly while the register selects its row
/// `2^((code - 129) / 4)`; the register's bits 8 and 9 read the low four bits
/// of the precision and rounding switches whatever key is held; anything else
/// reads 0.
pub proof fn lemma_key_lines_in_full(shifter: u16, scan_code: u8, digit_precision: u8, rounding: u8)
    ensures
        key_lines(shifter, scan_code, digit_precision, rounding) as int == (if 129 <= scan_code
            <= 160 && shifter as int == pow2(((scan_code - 129) / 4) as nat) {
            pow2(((scan_code - 129) % 4) as nat) as int
        } else if shifter == 0b0100000000 {
            (digit_precision & 0xF) as int
        } else if shifter == 0b1000000000 {
            (rounding & 0xF) as int
        } else {
            0
        }),
{
    lemma2_to64();
}

/// The switch rows do not depend on the key held: with any scan code, the
/// precision row reads the precision switch and the rounding row the rounding
/// switch, both cut to four bits.
pub proof fn lemma_switch_rows_ignore_held_key(scan_code: u8, digit_precision: u8, rounding: u8)
    ensures
        key_lines(0b0100000000, scan_code, digit_precision, rounding) == digit_precision & 0xF,
        key_lines(0b1000000000, scan_code, digit_precision, rounding) == rounding & 0xF,
{
    lemma_key_lines_in_full(0b0100000000, scan_code, digit_precision, rounding);
    lemma_key_lines_in_full(0b1000000000, scan_code, digit_precision, rounding);
    lemma2_to64();
}

/// The rounding buttons: checked floating gives mode 0 whatever else is
/// checked; round without floating gives mode 1 whatever truncate says;
/// truncate alone gives mode 8; with none checked the mode is kept.
pub proof fn lemma_rounding_buttons(old_rounding: u8, round: bool, truncate: bool)
    ensures
        rounding_after(old_rounding, true, round, truncate) == 0,
        rounding_after(old_rounding, false, true, truncate) == 1,
        rounding_after(old_rounding, false, false, true) == 8,
        rounding_after(old_rounding, false, false, false) == old_rounding,
{
}

/// Decimal text of up to three digits, with or without a leading `+`, reads
/// as its value when that is at most 255 and is refused above; empty text and
/// a lone `+` are refused.
pub proof fn lemma_decimal_u8_examples(a: u8, b: u8, c: u8)
    requires
        a < 10,
        b < 10,
        c < 10,
    ensures
        decimal_u8(seq![(0x30 + a) as u8]) == Some(a),
        decimal_u8(seq![0x2Bu8, (0x30 + a) as u8]) == Some(a),
        decimal_u8(seq![(0x30 + a) as u8, (0x30 + b) as u8]) == Some((10 * a + b) as u8),
        decimal_u8(seq![(0x30 + a) as u8, (0x30 + b) as u8, (0x30 + c) as u8]) == (if 100 * a + 10
            * b + c <= 255 {
            Some((100 * a + 10 * b + c) as u8)
        } else {
            None
        }),
        decimal_u8(seq![0x2Bu8, (0x30 + a) as u8, (0x30 + b) as u8, (0x30 + c) as u8]) == (if 100
            * a + 10 * b + c <= 255 {
            Some((100 * a + 10 * b + c) as u8)
        } else {
            None
        }),
        decimal_u8(Seq::<u8>::empty()) == None::<u8>,
        decimal_u8(seq![0x2Bu8]) == None::<u8>,
{
    let d1 = seq![(0x30 + a) as u8];
    let d2 = seq![(0x30 + a) as u8, (0x30 + b) as u8];
    let d3 = seq![(0x30 + a) as u8, (0x30 + b) as u8, (0x30 + c) as u8];
    let p1 = seq![0x2Bu8, (0x30 + a) as u8];
    let p3 = seq![0x2Bu8, (0x30 + a) as u8, (0x30 + b) as u8, (0x30 + c) as u8];
    assert(d1.drop_last() =~= Seq::<u8>::empty());
    assert(d2.drop_last() =~= d1);
    assert(d3.drop_last() =~= d2);
    assert(unsigned_digits(p1) =~= d1);
    assert(unsigned_digits(p3) =~= d3);
    assert(unsigned_digits(d1) =~= d1);
    assert(unsigned_digits(d2) =~= d2);
    assert(unsigned_digits(d3) =~= d3);
    assert(unsigned_digits(seq![0x2Bu8]) =~= Seq::<u8>::empty());
    assert(decimal_value(d1) == a);
    assert(decimal_value(d2) == 10 * a + b);
    assert(decimal_value(d3) == 100 * a + 10 * b + c);
}

/// Any byte other than a decimal digit (besides a leading `+`) makes the text
/// unreadable.
pub proof fn lemma_decimal_u8_refuses_other_bytes(bytes: Seq<u8>, i: int)
    requires
        0 <= i < bytes.len(),
        i > 0 || bytes[0] != 0x2B,
        bytes[i] < 0x30 || bytes[i] > 0x39,
    ensures
        decimal_u8(bytes) == None::<u8>,
{
    let digits = unsigned_digits(bytes);
    if bytes[0] == 0x2B {
        assert(digits[i - 1] == bytes[i]);
    } else {
        assert(digits[i] == bytes[i]);
    }
}

/// A key pressed on an idle keyboard stays down for one sleep cycle and is
/// released at the next, whatever the page reports meanwhile, and the
/// switches stay as they were. The paper-advance key raises bit 3 of ROM 2's
/// port for exactly that time and gives the port's other bits back unchanged;
/// any other key leaves the port alone.
pub proof fn lemma_key_press_is_released(
    s: KeyboardView,
    code: u8,
    rom_ports: u8,
    later: Option<u8>,
    last: Option<u8>,
)
    requires
        s.timer == 0,
        s.scan_code == 0,
        code != 0,
    ensures
        ({
            let (held, ports_held) = keypress_step(s, Some(code), rom_ports);
            let (waited, ports_waited) = keypress_step(held, later, ports_held);
            let (released, ports_released) = keypress_step(waited, last, ports_waited);
            &&& held.scan_code == code
            &&& waited.scan_code == code
            &&& released.scan_code == 0
            &&& released.digit_precision == s.digit_precision
            &&& released.rounding == s.rounding
            &&& ports_waited == ports_held
            &&& code == 1 ==> {
                &&& ports_held & 0b1000 == 0b1000
                &&& ports_released & 0b1000 == 0
                &&& ports_released & 0b0111 == rom_ports & 0b0111
                &&& released.timer == 7
            }
            &&& code != 1 ==> {
                &&& ports_released == rom_ports
                &&& released.timer == 1
            }
        }),
{
    let r = rom_ports;
    assert((r | 0b1000) & 0b1000 == 0b1000) by (bit_vector);
    assert(((r | 0b1000) & 0b0111) & 0b1000 == 0) by (bit_vector);
    assert(((r | 0b1000) & 0b0111) & 0b0111 == r & 0b0111) by (bit_vector);
}

/// The key-press state machine in full. While a wait runs, a sleep cycle
/// only counts it down by one, ignores any report and leaves ROM 2's port. An
/// idle keyboard takes the reported key: no report or code 0 changes nothing;
/// the paper-advance key (code 1) is held for one cycle with bit 3 of the port
/// raised; any other key is held for one cycle with the port left. A held key
/// is released at the next cycle: the paper-advance key lowers bit 3 and the
/// keyboard then waits 7 cycles, any other key waits 1. The switches never
/// change.
pub proof fn lemma_keypress_in_full(s: KeyboardView, keypress: Option<u8>, rom_ports: u8)
    ensures
        ({
            let (t, ports) = keypress_step(s, keypress, rom_ports);
            &&& t.digit_precision == s.digit_precision
            &&& t.rounding == s.rounding
            &&& s.timer > 0 ==> t.timer == s.timer - 1 && t.scan_code == s.scan_code && ports
                == rom_ports
            &&& s.timer == 0 && s.scan_code == 0 && (keypress is None || keypress == Some(0u8))
                ==> t == s && ports == rom_ports
            &&& s.timer == 0 && s.scan_code == 0 && keypress == Some(1u8) ==> t.scan_code == 1
                && t.timer == 1 && ports == rom_ports | 0b1000
            &&& s.timer == 0 && s.scan_code == 0 && keypress is Some && keypress->0 > 1
                ==> t.scan_code == keypress->0 && t.timer == 1 && ports == rom_ports
            &&& s.timer == 0 && s.scan_code == 1 ==> t.scan_code == 0 && t.timer == 7 && ports
                == rom_ports & 0b0111
            &&& s.timer == 0 && s.scan_code > 1 ==> t.scan_code == 0 && t.timer == 1 && ports
                == rom_ports
        }),
{
}

/// The status lamps: the memory lamp is light blue while bit 0 of RAM 1's
/// port is set, the overflow lamp pink (#ffcccb) while bit 1 is, the negative
/// lamp light green while bit 2 is; a lamp whose bit is clear shows "none".
pub proof fn lemma_lamp_colors(ram_ports: u8)
    ensures
        lamp_colors(ram_ports).0 == (if ram_ports % 2 == 1 { "lightblue" } else { "none" }),
        lamp_colors(ram_ports).1 == (if (ram_ports / 2) % 2 == 1 { "#ffcccb" } else { "none" }),
        lamp_colors(ram_ports).2 == (if (ram_ports / 4) % 2 == 1 { "lightgreen" } else { "none" }),
{
    let x = ram_ports;
    assert((x & 0b1 == 0b1) == (x % 2 == 1)) by (bit_vector);
    assert((x & 0b10 == 0b10) == ((x / 2) % 2 == 1)) by (bit_vector);
    assert((x & 0b100 == 0b100) == ((x / 4) % 2 == 1)) by (bit_vector);
}

impl Keyboard {
    /// A keyboard with no key pressed, precision 8 and floating rounding.
    pub fn new() -> (k: Self)
        ensures
            k@ == (KeyboardView { scan_code: 0, timer: 0, digit_precision: 8, rounding: 0 }),
    {
        Keyboard {
            current_scan_code: 0,
            timer: 0,
            digit_precision: INITIAL_DIGIT_PRECISION,
            rounding: ROUNDING_FLOAT,
        }
    }

    /// The value the keyboard drives on ROM 1's port while the keyboard shift
    /// register holds `shifter`.
    pub fn run_cycle(&self, shifter: u16) -> (key_out: u8)
        ensures
            key_out == key_lines(shifter, self@.scan_code, self@.digit_precision, self@.rounding),
            key_out < 16,
    {
        let key_out: u8 = match (shifter, self.current_scan_code) {
            (0b0000000001, 129) => 0b0001,  // CM
            (0b0000000001, 130) => 0b0010,  // RM
            (0b0000000001, 131) => 0b0100,  // M-
            (0b0000000001, 132) => 0b1000,  // M+
            (0b0000000010, 133) => 0b0001,  // square root
            (0b0000000010, 134) => 0b0010,  // %
            (0b0000000010, 135) => 0b0100,  // M=-
            (0b0000000010, 136) => 0b1000,  // M=+
            (0b0000000100, 137) => 0b0001,  // diamond
            (0b0000000100, 138) => 0b0010,  // divide
            (0b0000000100, 139) => 0b0100,  // times
            (0b0000000100, 140) => 0b1000,  // equals
            (0b0000001000, 141) => 0b0001,  // minus
            (0b0000001000, 142) => 0b0010,  // plus
            (0b0000001000, 143) => 0b0100,  // second diamond
            (0b0000001000, 144) => 0b1000,  // 000
            (0b0000010000, 145) => 0b0001,  // 9
            (0b0000010000, 146) => 0b0010,  // 6
            (0b0000010000, 147) => 0b0100,  // 3
            (0b0000010000, 148) => 0b1000,  // decimal point
            (0b0000100000, 149) => 0b0001,  // 8
            (0b0000100000, 150) => 0b0010,  // 5
            (0b0000100000, 151) => 0b0100,  // 2
            (0b0000100000, 152) => 0b1000,  // 00
            (0b0001000000, 153) => 0b0001,  // 7
            (0b0001000000, 154) => 0b0010,  // 4
            (0b0001000000, 155) => 0b0100,  // 1
            (0b0001000000, 156) => 0b1000,  // 0
            (0b0010000000, 157) => 0b0001,  // sign
            (0b0010000000, 158) => 0b0010,  // exchange
            (0b0010000000, 159) => 0b0100,  // clear entry
            (0b0010000000, 160) => 0b1000,  // clear
            (0b0100000000, _) => self.digit_precision & 0xF,
            (0b1000000000, _) => self.rounding & 0xF,
            _ => 0,
        };
        proof {
            let dp = self.digit_precision;
            let r = self.rounding;
            assert(dp & 0xF < 16) by (bit_vector);
            assert(r & 0xF < 16) by (bit_vector);
        }
        key_out
    }

    /// Whether the keyboard takes a key press in this sleep cycle: it does
    /// only when no key is held and no wait is running.
    pub fn awaits_keypress(&self) -> (idle: bool)
        ensures
            idle == (self@.timer == 0 && self@.scan_code == 0),
    {
        self.timer == 0 && self.current_scan_code == 0
    }

    /// One sleep cycle of the key-press state machine: `keypress` is the key
    /// that the page reported, `rom_ports` ROM 2's port; returns the value to
    /// write back to ROM 2's port.
    pub fn handle_keypress(&mut self, keypress: Option<u8>, rom_ports: u8) -> (ports: u8)
        ensures
            (final(self)@, ports) == keypress_step(old(self)@, keypress, rom_ports),
    {
        if self.timer > 0 {
            self.timer = self.timer - 1;
            return rom_ports;
        }
        if self.current_scan_code == 0 {
            match keypress {
                None => rom_ports,
                Some(scan_code) => {
                    self.current_scan_code = scan_code;
                    if scan_code == 0 {
                        rom_ports
                    } else if scan_code == PAPER_ADVANCE_KEY {
                        self.timer = KEY_HOLD_CYCLES;
                        rom_ports | PAPER_ADVANCE_BIT
                    } else {
                        // The key itself is read by `run_cycle`, row by row.
                        self.timer = KEY_HOLD_CYCLES;
                        rom_ports
                    }
                },
            }
        } else {
            // Release the key held down.
            let ports: u8 = if self.current_scan_code == PAPER_ADVANCE_KEY {
                self.timer = PAPER_RELEASE_CYCLES;
                rom_ports & 0b0111
            } else {
                self.timer = KEY_HOLD_CYCLES;
                rom_ports
            };
            self.current_scan_code = 0;
            ports
        }
    }

    /// Takes the positions of the switches: the digit precision read from the
    /// page, and which of the floating, round and truncate buttons is checked.
    pub fn handle_switches(
        &mut self,
        digit_precision: u8,
        float_checked: bool,
        round_checked: bool,
        truncate_checked: bool,
    )
        ensures
            final(self)@ == (KeyboardView {
                digit_precision: digit_precision,
                rounding: rounding_after(
                    old(self)@.rounding,
                    float_checked,
                    round_checked,
                    truncate_checked,
                ),
                ..old(self)@
            }),
    {
        self.digit_precision = digit_precision;
        if float_checked {
            self.rounding = ROUNDING_FLOAT;
            return ;
        }
        if round_checked {
            self.rounding = ROUNDING_ROUND;
            return ;
        }
        if truncate_checked {
            self.rounding = ROUNDING_TRUNCATE;
            return ;
        }
    }

    /// Position of the digit-precision switch.
    pub fn digit_precision(&self) -> (r: u8)
        ensures
            r == self@.digit_precision,
    {
        self.digit_precision
    }

    /// Position of the rounding switch.
    pub fn rounding(&self) -> (r: u8)
        ensures
            r == self@.rounding,
    {
        self.rounding
    }

    /// Scan code of the key held down, 0 when none is.
    pub fn current_scan_code(&self) -> (r: u8)
        ensures
            r == self@.scan_code,
    {
        self.current_scan_code
    }

    /// Sleep cycles left before the keyboard acts again.
    pub fn timer(&self) -> (r: u8)
        ensures
            r == self@.timer,
    {
        self.timer
    }
}

} // verus!
