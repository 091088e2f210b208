//! The diagnostic side panel: it shows the RAM registers, the chip ports and
//! the shift registers, and redraws only the rows whose values changed since
//! they were last drawn.
use vstd::prelude::*;
use vstd::arithmetic::power2::pow2;
use vstd::bits::{lemma_u16_shr_is_div, lemma_u64_shr_is_div};

verus! {

/// RAM chips shown on the panel.
pub const RAM_CHIPS: usize = 2;

/// Registers shown per RAM chip.
pub const REGISTERS_PER_RAM: usize = 4;

/// ROM chips whose ports are shown.
pub const ROM_CHIPS: usize = 5;

/// Shift registers shown.
pub const SHIFTERS: usize = 3;

/// The values the panel last drew.
///
/// A register's 16 characters are kept as one `u64` (character `i` in bits
/// `4 i .. 4 i + 4`), its 4 status characters as one `u16`; registers are
/// numbered chip by chip, `4 * ram + register`.
pub struct SidePanel {
    character_data: [u64; 8],
    status_data: [u16; 8],
    rom_ports: [u8; 5],
    ram_ports: [u8; 2],
    shift_data: [u16; 3],
}

/// Table row of register `i` (numbered chip by chip) in the memory table:
/// each chip has a heading row and its registers' rows, 7 rows apart.
pub open spec fn register_row(i: int) -> u32 {
    ((i % 4) + 2 + (i / 4) * 7) as u32
}

/// The registers among the first `n` whose characters or status characters
/// differ between the old and the new values, in order, each with its row
/// and its new values.
pub open spec fn changed_registers(
    old_chars: Seq<u64>,
    old_statuses: Seq<u16>,
    chars: Seq<u64>,
    statuses: Seq<u16>,
    n: int,
) -> Seq<(u32, u64, u16)>
    decreases n,
{
    if n <= 0 {
        seq![]
    } else {
        let before = changed_registers(old_chars, old_statuses, chars, statuses, n - 1);
        let i = n - 1;
        if old_chars[i] != chars[i] || old_statuses[i] != statuses[i] {
            before.push((register_row(i), chars[i], statuses[i]))
        } else {
            before
        }
    }
}

/// The entries among the first `n` that differ between `old` and `new`, in
/// order, each with its row (`first_row + i` for entry `i`) and new value.
pub open spec fn changed_rows<T>(old: Seq<T>, new: Seq<T>, first_row: int, n: int) -> Seq<(u32, T)>
    decreases n,
{
    if n <= 0 {
        seq![]
    } else {
        let before = changed_rows(old, new, first_row, n - 1);
        let i = n - 1;
        if old[i] != new[i] {
            before.push(((first_row + i) as u32, new[i]))
        } else {
            before
        }
    }
}

/// The rows of the ports table to redraw: ROM ports in rows 1 to 5, then
/// RAM ports in rows 6 and 7.
pub open spec fn port_redraws(old_roms: Seq<u8>, old_rams: Seq<u8>, roms: Seq<u8>, rams: Seq<u8>) -> Seq<(u32, u8)> {
    changed_rows(old_roms, roms, 1, 5) + changed_rows(old_rams, rams, 6, 2)
}

/// The rows of the shift-register table to redraw: registers in rows 1 to 3.
pub open spec fn shift_redraws(old_shifts: Seq<u16>, shifts: Seq<u16>) -> Seq<(u32, u16)> {
    changed_rows(old_shifts, shifts, 1, 3)
}

/// Nibble `i` (0 the least significant) of a register's characters.
pub open spec fn character_nibble(chars: u64, i: u64) -> u8 {
    ((chars >> (4 * i)) & 0xF) as u8
}

/// Nibble `i` (0 the least significant) of a register's status characters.
pub open spec fn status_nibble(statuses: u16, i: u16) -> u8 {
    ((statuses >> (4 * i)) & 0xF) as u8
}

/// The upper-case hexadecimal digit of a nibble.
pub open spec fn hex_digit(n: u8) -> char {
    if n < 10 {
        (n + 0x30) as char
    } else {
        (n - 10 + 0x41) as char
    }
}

/// The cells of a register's row: cells 2 to 17 show its characters from the
/// most significant to the least, cells 19 to 22 its status characters in the
/// same order, each as an upper-case hexadecimal digit.
pub open spec fn register_cells(chars: u64, statuses: u16) -> Seq<(u32, char)> {
    Seq::new(16, |k: int| ((2 + k) as u32, hex_digit(character_nibble(chars, (15 - k) as u64))))
        + Seq::new(4, |k: int| ((19 + k) as u32, hex_digit(status_nibble(statuses, (3 - k) as u16))))
}

/// The port cells from cell `i + 1` on: a present cell shows the next bit
/// of the port not yet shown (starting at bit `shift`), a missing one shows
/// nothing and takes no bit.
pub open spec fn port_cells_from(ports: u8, present: Seq<bool>, i: int, shift: int) -> Seq<(u32, bool)>
    decreases 4 - i,
{
    if i >= 4 || i < 0 {
        seq![]
    } else if present[i] {
        seq![((i + 1) as u32, (ports >> (shift as u8)) & 1 == 1)] + port_cells_from(
            ports,
            present,
            i + 1,
            shift + 1,
        )
    } else {
        port_cells_from(ports, present, i + 1, shift)
    }
}

/// The cells of a shift register's row: cell `i + 1` is lit when bit `i` is
/// set, for its ten bits.
pub open spec fn shift_cells(bits: u16) -> Seq<(u32, bool)> {
    Seq::new(10, |i: int| ((i + 1) as u32, (bits >> (i as u16)) & 1 == 1))
}

/// The upper-case hexadecimal digit of a nibble.
pub fn hex_digit_of(n: u8) -> (c: char)
    requires
        n < 16,
    ensures
        c == hex_digit(n),
{
    match n {
        0 => '0',
        1 => '1',
        2 => '2',
        3 => '3',
        4 => '4',
        5 => '5',
        6 => '6',
        7 => '7',
        8 => '8',
        9 => '9',
        10 => 'A',
        11 => 'B',
        12 => 'C',
        13 => 'D',
        14 => 'E',
        _ => 'F',
    }
}

/// The cells to write in a register's row, each with its digit.
pub fn print_register(chars: u64, statuses: u16) -> (cells: Vec<(u32, char)>)
    ensures
        cells@ == register_cells(chars, statuses),
{
    let mut cells: Vec<(u32, char)> = Vec::new();
    let mut k: u64 = 0;
    while k < 16
        invariant
            k <= 16,
            cells@ == Seq::new(
                k as nat,
                |j: int| ((2 + j) as u32, hex_digit(character_nibble(chars, (15 - j) as u64))),
            ),
        decreases 16 - k,
    {
        let index: u64 = 15 - k;
        let nibble: u8 = ((chars >> (4 * index)) & 0xF) as u8;
        proof {
            let shifted = chars >> (4 * index);
            assert(shifted & 0xF < 16) by (bit_vector);
        }
        cells.push(((2 + k) as u32, hex_digit_of(nibble)));
        k = k + 1;
    }
    let ghost first = cells@;
    let mut k: u16 = 0;
    while k < 4
        invariant
            k <= 4,
            cells@ == first + Seq::new(
                k as nat,
                |j: int| ((19 + j) as u32, hex_digit(status_nibble(statuses, (3 - j) as u16))),
            ),
            first == Seq::new(
                16,
                |j: int| ((2 + j) as u32, hex_digit(character_nibble(chars, (15 - j) as u64))),
            ),
        decreases 4 - k,
    {
        let index: u16 = 3 - k;
        let nibble: u8 = ((statuses >> (4 * index)) & 0xF) as u8;
        proof {
            let shifted = statuses >> (4 * index);
            assert(shifted & 0xF < 16) by (bit_vector);
        }
        cells.push(((19 + k) as u32, hex_digit_of(nibble)));
        k = k + 1;
    }
    cells
}

/// The cells of a port's row given which of its cells 1 to 4 the page has:
/// each present cell, in order, shows whether the next bit of the port is
/// set, starting with bit 0.
pub fn print_line_ports(ports: u8, present: [bool; 4]) -> (cells: Vec<(u32, bool)>)
    ensures
        cells@ == port_cells_from(ports, present@, 0, 0),
{
    let mut cells: Vec<(u32, bool)> = Vec::new();
    let mut rest: u8 = ports;
    let mut shift: u8 = 0;
    let mut i: usize = 0;
    assert(ports >> 0u8 == ports) by (bit_vector);
    while i < 4
        invariant
            i <= 4,
            shift <= i,
            rest == ports >> shift,
            cells@ + port_cells_from(ports, present@, i as int, shift as int) == port_cells_from(
                ports,
                present@,
                0,
                0,
            ),
        decreases 4 - i,
    {
        if present[i] {
            cells.push(((i + 1) as u32, rest & 1 == 1));
            proof {
                let s = shift;
                assert((ports >> s) >> 1u8 == ports >> ((s + 1) as u8)) by (bit_vector)
                    requires
                        s < 4,
                ;
            }
            rest = rest >> 1u8;
            shift = shift + 1;
        }
        i = i + 1;
    }
    assert(port_cells_from(ports, present@, 4, shift as int) =~= seq![]);
    cells
}

/// The cells of a shift register's row.
pub fn print_line_shifts(bits: u16) -> (cells: Vec<(u32, bool)>)
    ensures
        cells@ == shift_cells(bits),
{
    let mut cells: Vec<(u32, bool)> = Vec::new();
    let mut index: u16 = 0;
    while index < 10
        invariant
            index <= 10,
            cells@ == Seq::new(index as nat, |i: int| ((i + 1) as u32, (bits >> (i as u16)) & 1 == 1)),
        decreases 10 - index,
    {
        cells.push(((index + 1) as u32, (bits >> index) & 1 == 1));
        index = index + 1;
    }
    cells
}

/// A panel redraws only what changed: a row is listed exactly when its value
/// differs from the one last drawn, and then with the new value.
pub proof fn lemma_changed_rows_are_the_changes<T>(old: Seq<T>, new: Seq<T>, first_row: int, n: int, i: int)
    requires
        0 <= i < n,
    ensures
        changed_rows(old, new, first_row, n).contains(((first_row + i) as u32, new[i])) <== old[i] != new[i],
        (forall|r: (u32, T)| #[trigger] changed_rows(old, new, first_row, n).contains(r) ==>
            exists|j: int| 0 <= j < n && old[j] != new[j] && r == ((first_row + j) as u32, new[j])),
    decreases n,
{
    let rows = changed_rows(old, new, first_row, n);
    let before = changed_rows(old, new, first_row, n - 1);
    if i < n - 1 {
        lemma_changed_rows_are_the_changes(old, new, first_row, n - 1, i);
    }
    if n - 1 > 0 {
        lemma_changed_rows_are_the_changes(old, new, first_row, n - 1, 0);
    }
    if old[n - 1] != new[n - 1] {
        assert(rows == before.push(((first_row + n - 1) as u32, new[n - 1])));
        assert(rows[rows.len() - 1] == ((first_row + n - 1) as u32, new[n - 1]));
        if old[i] != new[i] && i < n - 1 {
            let k = choose|k: int| 0 <= k < before.len() && before[k] == ((first_row + i) as u32, new[i]);
            assert(rows[k] == before[k]);
        }
        assert forall|r: (u32, T)| #[trigger] rows.contains(r) implies exists|j: int|
            0 <= j < n && old[j] != new[j] && r == ((first_row + j) as u32, new[j]) by {
            let k = choose|k: int| 0 <= k < rows.len() && rows[k] == r;
            if k < before.len() {
                assert(before[k] == r);
                assert(before.contains(r));
            }
        }
    } else {
        assert(rows == before);
    }
}

/// The memory table redraws exactly the registers that changed: register `i`
/// is listed, with its row and new values, whenever its characters or its
/// status characters differ from those last drawn (in either direction), and
/// every listed row is such a register.
pub proof fn lemma_changed_registers_are_the_changes(
    old_chars: Seq<u64>,
    old_statuses: Seq<u16>,
    chars: Seq<u64>,
    statuses: Seq<u16>,
    n: int,
)
    requires
        n >= 0,
    ensures
        forall|i: int|
            0 <= i < n && (old_chars[i] != chars[i] || old_statuses[i] != statuses[i])
                ==> #[trigger] changed_registers(old_chars, old_statuses, chars, statuses, n).contains(
                (register_row(i), chars[i], statuses[i]),
            ),
        forall|r: (u32, u64, u16)|
            #[trigger] changed_registers(old_chars, old_statuses, chars, statuses, n).contains(r)
                ==> exists|j: int|
                0 <= j < n && (old_chars[j] != chars[j] || old_statuses[j] != statuses[j]) && r == (
                    register_row(j),
                    chars[j],
                    statuses[j],
                ),
    decreases n,
{
    if n > 0 {
        lemma_changed_registers_are_the_changes(old_chars, old_statuses, chars, statuses, n - 1);
        let before = changed_registers(old_chars, old_statuses, chars, statuses, n - 1);
        let rows = changed_registers(old_chars, old_statuses, chars, statuses, n);
        let last = n - 1;
        if old_chars[last] != chars[last] || old_statuses[last] != statuses[last] {
            assert(rows == before.push((register_row(last), chars[last], statuses[last])));
            assert(rows[rows.len() - 1] == (register_row(last), chars[last], statuses[last]));
            assert forall|i: int|
                0 <= i < n && (old_chars[i] != chars[i] || old_statuses[i] != statuses[i]) implies #[trigger] rows.contains(
                (register_row(i), chars[i], statuses[i]),
            ) by {
                if i < last {
                    let r = (register_row(i), chars[i], statuses[i]);
                    assert(before.contains(r));
                    let k = choose|k: int| 0 <= k < before.len() && before[k] == r;
                    assert(rows[k] == r);
                }
            }
            assert forall|r: (u32, u64, u16)| #[trigger] rows.contains(r) implies exists|j: int|
                0 <= j < n && (old_chars[j] != chars[j] || old_statuses[j] != statuses[j]) && r == (
                    register_row(j),
                    chars[j],
                    statuses[j],
                ) by {
                let k = choose|k: int| 0 <= k < rows.len() && rows[k] == r;
                if k < before.len() {
                    assert(before[k] == r);
                    assert(before.contains(r));
                }
            }
        } else {
            assert(rows == before);
        }
    }
}

/// The memory table's rows: RAM 0's registers 0 to 3 sit in rows 2 to 5,
/// RAM 1's in rows 9 to 12.
pub proof fn lemma_register_rows(i: int)
    requires
        0 <= i < 8,
    ensures
        register_row(i) == (if i < 4 { i + 2 } else { i + 5 }),
{
}

/// The hexadecimal digits are "0" to "9" then "A" to "F".
pub proof fn lemma_hex_digits()
    ensures
        hex_digit(0) == '0',
        hex_digit(1) == '1',
        hex_digit(2) == '2',
        hex_digit(3) == '3',
        hex_digit(4) == '4',
        hex_digit(5) == '5',
        hex_digit(6) == '6',
        hex_digit(7) == '7',
        hex_digit(8) == '8',
        hex_digit(9) == '9',
        hex_digit(10) == 'A',
        hex_digit(11) == 'B',
        hex_digit(12) == 'C',
        hex_digit(13) == 'D',
        hex_digit(14) == 'E',
        hex_digit(15) == 'F',
{
}

/// A register's row shows its characters as base-16 digits, most significant
/// first: cell `2 + k` holds digit `15 - k` of the characters and cell
/// `19 + k` digit `3 - k` of the status characters, digit `d` of a number
/// being `number / 16^d mod 16`.
pub proof fn lemma_register_cells_are_base_16(chars: u64, statuses: u16)
    ensures
        register_cells(chars, statuses).len() == 20,
        forall|k: int|
            0 <= k < 16 ==> #[trigger] register_cells(chars, statuses)[k] == (
                (2 + k) as u32,
                hex_digit(((chars as nat / pow2((4 * (15 - k)) as nat)) % 16) as u8),
            ),
        forall|k: int|
            0 <= k < 4 ==> #[trigger] register_cells(chars, statuses)[16 + k] == (
                (19 + k) as u32,
                hex_digit(((statuses as nat / pow2((4 * (3 - k)) as nat)) % 16) as u8),
            ),
{
    let cells = register_cells(chars, statuses);
    assert forall|k: int| 0 <= k < 16 implies #[trigger] cells[k] == (
        (2 + k) as u32,
        hex_digit(((chars as nat / pow2((4 * (15 - k)) as nat)) % 16) as u8),
    ) by {
        let shift: u64 = (4 * (15 - k)) as u64;
        lemma_u64_shr_is_div(chars, shift);
        let shifted = chars >> shift;
        assert(shifted & 0xF == shifted % 16) by (bit_vector);
    }
    assert forall|k: int| 0 <= k < 4 implies #[trigger] cells[16 + k] == (
        (19 + k) as u32,
        hex_digit(((statuses as nat / pow2((4 * (3 - k)) as nat)) % 16) as u8),
    ) by {
        let shift: u16 = (4 * (3 - k)) as u16;
        lemma_u16_shr_is_div(statuses, shift);
        let shifted = statuses >> shift;
        assert(shifted & 0xF == shifted % 16) by (bit_vector);
    }
}

/// A shift register's row has ten lamps, lamp `i + 1` lit exactly when bit
/// `i` of the register is set, whatever its other bits are.
pub proof fn lemma_shift_lamps(bits: u16)
    ensures
        shift_cells(bits).len() == 10,
        forall|i: int|
            0 <= i < 10 ==> #[trigger] shift_cells(bits)[i] == (
                (i + 1) as u32,
                bits & (1u16 << (i as u16)) != 0,
            ),
{
    assert forall|i: int| 0 <= i < 10 implies #[trigger] shift_cells(bits)[i] == (
        (i + 1) as u32,
        bits & (1u16 << (i as u16)) != 0,
    ) by {
        let j: u16 = i as u16;
        assert(((bits >> j) & 1 == 1) == (bits & (1u16 << j) != 0)) by (bit_vector)
            requires
                j < 10,
        ;
    }
}

/// The port cells from cell `i + 1` on hold the present cells among them, in
/// order, the `j`-th showing bit `shift + j`.
proof fn lemma_port_cells_from(ports: u8, present: Seq<bool>, i: int, shift: int)
    requires
        0 <= i <= 4,
        present.len() == 4,
        0 <= shift <= i,
    ensures
        port_cells_from(ports, present, i, shift).len() <= 4 - i,
        forall|j: int|
            0 <= j < port_cells_from(ports, present, i, shift).len() ==> {
                let cell = #[trigger] port_cells_from(ports, present, i, shift)[j];
                &&& cell.1 == ((ports >> ((shift + j) as u8)) & 1 == 1)
                &&& i + 1 <= cell.0 <= 4
                &&& present[cell.0 - 1]
            },
        forall|j: int, k: int|
            0 <= j < k < port_cells_from(ports, present, i, shift).len() ==> (#[trigger] port_cells_from(
                ports,
                present,
                i,
                shift,
            )[j]).0 < (#[trigger] port_cells_from(ports, present, i, shift)[k]).0,
        forall|m: int|
            i <= m < 4 && #[trigger] present[m] ==> exists|j: int|
                0 <= j < port_cells_from(ports, present, i, shift).len() && port_cells_from(
                    ports,
                    present,
                    i,
                    shift,
                )[j].0 == m + 1,
    decreases 4 - i,
{
    if i < 4 {
        let cells = port_cells_from(ports, present, i, shift);
        if present[i] {
            lemma_port_cells_from(ports, present, i + 1, shift + 1);
            let rest = port_cells_from(ports, present, i + 1, shift + 1);
            let head = ((i + 1) as u32, (ports >> (shift as u8)) & 1 == 1);
            assert(cells == seq![head] + rest);
            assert forall|j: int| 0 <= j < cells.len() implies {
                let cell = #[trigger] cells[j];
                &&& cell.1 == ((ports >> ((shift + j) as u8)) & 1 == 1)
                &&& i + 1 <= cell.0 <= 4
                &&& present[cell.0 - 1]
            } by {
                if j > 0 {
                    assert(cells[j] == rest[j - 1]);
                }
            }
            assert forall|j: int, k: int| 0 <= j < k < cells.len() implies (#[trigger] cells[j]).0
                < (#[trigger] cells[k]).0 by {
                assert(cells[k] == rest[k - 1]);
                if j > 0 {
                    assert(cells[j] == rest[j - 1]);
                }
            }
            assert forall|m: int| i <= m < 4 && #[trigger] present[m] implies exists|j: int|
                0 <= j < cells.len() && cells[j].0 == m + 1 by {
                if m == i {
                    assert(cells[0].0 == m + 1);
                } else {
                    let j = choose|j: int| 0 <= j < rest.len() && rest[j].0 == m + 1;
                    assert(cells[j + 1] == rest[j]);
                }
            }
        } else {
            lemma_port_cells_from(ports, present, i + 1, shift);
        }
    }
}

/// A port row shows the port's bits in the cells the page has: the listed
/// cells are exactly the present ones among cells 1 to 4, in order, and the
/// `j`-th of them shows bit `j` of the port.
pub proof fn lemma_port_row(ports: u8, present: Seq<bool>)
    requires
        present.len() == 4,
    ensures
        forall|j: int|
            0 <= j < port_cells_from(ports, present, 0, 0).len() ==> {
                let cell = #[trigger] port_cells_from(ports, present, 0, 0)[j];
                &&& cell.1 == (ports & (1u8 << (j as u8)) != 0)
                &&& 1 <= cell.0 <= 4
                &&& present[cell.0 - 1]
            },
        forall|j: int, k: int|
            0 <= j < k < port_cells_from(ports, present, 0, 0).len() ==> (#[trigger] port_cells_from(
                ports,
                present,
                0,
                0,
            )[j]).0 < (#[trigger] port_cells_from(ports, present, 0, 0)[k]).0,
        forall|m: int|
            0 <= m < 4 && #[trigger] present[m] ==> exists|j: int|
                0 <= j < port_cells_from(ports, present, 0, 0).len() && port_cells_from(
                    ports,
                    present,
                    0,
                    0,
                )[j].0 == m + 1,
{
    lemma_port_cells_from(ports, present, 0, 0);
    let cells = port_cells_from(ports, present, 0, 0);
    assert forall|j: int| 0 <= j < cells.len() implies {
        let cell = #[trigger] cells[j];
        &&& cell.1 == (ports & (1u8 << (j as u8)) != 0)
        &&& 1 <= cell.0 <= 4
        &&& present[cell.0 - 1]
    } by {
        let b: u8 = j as u8;
        assert(((ports >> b) & 1 == 1) == (ports & (1u8 << b) != 0)) by (bit_vector)
            requires
                b < 4,
        ;
    }
}

/// The ports table redraws exactly the ports that changed: ROM `i` (0 to 4)
/// in row `i + 1` and RAM `i` (0 or 1) in row `i + 6`, each with its new value,
/// and nothing else.
pub proof fn lemma_port_redraws(old_roms: Seq<u8>, old_rams: Seq<u8>, roms: Seq<u8>, rams: Seq<u8>)
    ensures
        forall|i: int|
            0 <= i < 5 && old_roms[i] != roms[i] ==> #[trigger] port_redraws(
                old_roms,
                old_rams,
                roms,
                rams,
            ).contains(((i + 1) as u32, roms[i])),
        forall|i: int|
            0 <= i < 2 && old_rams[i] != rams[i] ==> #[trigger] port_redraws(
                old_roms,
                old_rams,
                roms,
                rams,
            ).contains(((i + 6) as u32, rams[i])),
        forall|r: (u32, u8)|
            #[trigger] port_redraws(old_roms, old_rams, roms, rams).contains(r) ==> (exists|i: int|
                0 <= i < 5 && old_roms[i] != roms[i] && r == ((i + 1) as u32, roms[i])) || (exists|
                i: int,
            |
                0 <= i < 2 && old_rams[i] != rams[i] && r == ((i + 6) as u32, rams[i])),
{
    let a = changed_rows(old_roms, roms, 1, 5);
    let b = changed_rows(old_rams, rams, 6, 2);
    let all = port_redraws(old_roms, old_rams, roms, rams);
    assert(all == a + b);
    lemma_changed_rows_are_the_changes(old_roms, roms, 1, 5, 0);
    lemma_changed_rows_are_the_changes(old_rams, rams, 6, 2, 0);
    assert forall|i: int| 0 <= i < 5 && old_roms[i] != roms[i] implies #[trigger] all.contains(
        ((i + 1) as u32, roms[i]),
    ) by {
        lemma_changed_rows_are_the_changes(old_roms, roms, 1, 5, i);
        let k = choose|k: int| 0 <= k < a.len() && a[k] == ((1 + i) as u32, roms[i]);
        assert(all[k] == a[k]);
    }
    assert forall|i: int| 0 <= i < 2 && old_rams[i] != rams[i] implies #[trigger] all.contains(
        ((i + 6) as u32, rams[i]),
    ) by {
        lemma_changed_rows_are_the_changes(old_rams, rams, 6, 2, i);
        let k = choose|k: int| 0 <= k < b.len() && b[k] == ((6 + i) as u32, rams[i]);
        assert(all[a.len() + k] == b[k]);
    }
    assert forall|r: (u32, u8)| #[trigger] all.contains(r) implies (exists|i: int|
        0 <= i < 5 && old_roms[i] != roms[i] && r == ((i + 1) as u32, roms[i])) || (exists|i: int|
        0 <= i < 2 && old_rams[i] != rams[i] && r == ((i + 6) as u32, rams[i])) by {
        let k = choose|k: int| 0 <= k < all.len() && all[k] == r;
        if k < a.len() {
            assert(a[k] == r);
            assert(a.contains(r));
            let j = choose|j: int| 0 <= j < 5 && old_roms[j] != roms[j] && r == ((1 + j) as u32, roms[j]);
            assert(r == ((j + 1) as u32, roms[j]));
        } else {
            assert(b[k - a.len()] == r);
            assert(b.contains(r));
            let j = choose|j: int| 0 <= j < 2 && old_rams[j] != rams[j] && r == ((6 + j) as u32, rams[j]);
            assert(r == ((j + 6) as u32, rams[j]));
        }
    }
}

/// The shift-register table redraws exactly the registers that changed:
/// register `i` (0 to 2) in row `i + 1` with its new value, and nothing else.
pub proof fn lemma_shift_redraws(old_shifts: Seq<u16>, shifts: Seq<u16>)
    ensures
        forall|i: int|
            0 <= i < 3 && old_shifts[i] != shifts[i] ==> #[trigger] shift_redraws(
                old_shifts,
                shifts,
            ).contains(((i + 1) as u32, shifts[i])),
        forall|r: (u32, u16)|
            #[trigger] shift_redraws(old_shifts, shifts).contains(r) ==> exists|i: int|
                0 <= i < 3 && old_shifts[i] != shifts[i] && r == ((i + 1) as u32, shifts[i]),
{
    lemma_changed_rows_are_the_changes(old_shifts, shifts, 1, 3, 0);
    assert forall|i: int| 0 <= i < 3 && old_shifts[i] != shifts[i] implies #[trigger] shift_redraws(
        old_shifts,
        shifts,
    ).contains(((i + 1) as u32, shifts[i])) by {
        lemma_changed_rows_are_the_changes(old_shifts, shifts, 1, 3, i);
        assert((1 + i) as u32 == (i + 1) as u32);
    }
    assert forall|r: (u32, u16)| #[trigger] shift_redraws(old_shifts, shifts).contains(r) implies exists|i: int|
        0 <= i < 3 && old_shifts[i] != shifts[i] && r == ((i + 1) as u32, shifts[i]) by {
        let j = choose|j: int| 0 <= j < 3 && old_shifts[j] != shifts[j] && r == ((1 + j) as u32, shifts[j]);
        assert(r == ((j + 1) as u32, shifts[j]));
    }
}

/// Drawing the same values twice redraws nothing the second time.
pub proof fn lemma_unchanged_rows_redraw_nothing<T>(values: Seq<T>, first_row: int, n: int)
    ensures
        changed_rows(values, values, first_row, n) == Seq::<(u32, T)>::empty(),
    decreases n,
{
    if n > 0 {
        lemma_unchanged_rows_redraw_nothing(values, first_row, n - 1);
    }
}

/// Reading the same registers twice redraws nothing the second time.
pub proof fn lemma_unchanged_registers_redraw_nothing(chars: Seq<u64>, statuses: Seq<u16>, n: int)
    ensures
        changed_registers(chars, statuses, chars, statuses, n) == Seq::<(u32, u64, u16)>::empty(),
    decreases n,
{
    if n > 0 {
        lemma_unchanged_registers_redraw_nothing(chars, statuses, n - 1);
    }
}

/// With all four cells of a port row present, cell `i + 1` shows bit `i` of
/// the port.
pub proof fn lemma_full_port_row(ports: u8)
    ensures
        port_cells_from(ports, seq![true, true, true, true], 0, 0) == seq![
            (1u32, ports & 1 == 1),
            (2u32, (ports >> 1u8) & 1 == 1),
            (3u32, (ports >> 2u8) & 1 == 1),
            (4u32, (ports >> 3u8) & 1 == 1),
        ],
{
    let present = seq![true, true, true, true];
    assert(ports >> 0u8 == ports) by (bit_vector);
    let c4 = port_cells_from(ports, present, 4, 4);
    let c3 = port_cells_from(ports, present, 3, 3);
    let c2 = port_cells_from(ports, present, 2, 2);
    let c1 = port_cells_from(ports, present, 1, 1);
    let c0 = port_cells_from(ports, present, 0, 0);
    assert(c4 =~= seq![]);
    assert(c3 =~= seq![(4u32, (ports >> 3u8) & 1 == 1)]);
    assert(c2 =~= seq![(3u32, (ports >> 2u8) & 1 == 1), (4u32, (ports >> 3u8) & 1 == 1)]);
    assert(c1 =~= seq![
        (2u32, (ports >> 1u8) & 1 == 1),
        (3u32, (ports >> 2u8) & 1 == 1),
        (4u32, (ports >> 3u8) & 1 == 1),
    ]);
    assert(c0 =~= seq![
        (1u32, ports & 1 == 1),
        (2u32, (ports >> 1u8) & 1 == 1),
        (3u32, (ports >> 2u8) & 1 == 1),
        (4u32, (ports >> 3u8) & 1 == 1),
    ]);
}

impl SidePanel {
    /// The characters last drawn for each register.
    pub closed spec fn characters(&self) -> Seq<u64> {
        self.character_data@
    }

    /// The status characters last drawn for each register.
    pub closed spec fn statuses(&self) -> Seq<u16> {
        self.status_data@
    }

    /// The ROM ports last drawn.
    pub closed spec fn rom_port_values(&self) -> Seq<u8> {
        self.rom_ports@
    }

    /// The RAM ports last drawn.
    pub closed spec fn ram_port_values(&self) -> Seq<u8> {
        self.ram_ports@
    }

    /// The shift registers last drawn.
    pub closed spec fn shift_values(&self) -> Seq<u16> {
        self.shift_data@
    }

    /// A panel that has drawn nothing yet: every value it remembers is 0.
    pub fn new() -> (panel: Self)
        ensures
            panel.characters() == Seq::new(8, |i: int| 0u64),
            panel.statuses() == Seq::new(8, |i: int| 0u16),
            panel.rom_port_values() == Seq::new(5, |i: int| 0u8),
            panel.ram_port_values() == Seq::new(2, |i: int| 0u8),
            panel.shift_values() == Seq::new(3, |i: int| 0u16),
    {
        let panel = SidePanel {
            character_data: [0u64, 0, 0, 0, 0, 0, 0, 0],
            status_data: [0u16, 0, 0, 0, 0, 0, 0, 0],
            rom_ports: [0u8, 0, 0, 0, 0],
            ram_ports: [0u8, 0],
            shift_data: [0u16, 0, 0],
        };
        assert(panel.character_data@ =~= Seq::new(8, |i: int| 0u64));
        assert(panel.status_data@ =~= Seq::new(8, |i: int| 0u16));
        assert(panel.rom_ports@ =~= Seq::new(5, |i: int| 0u8));
        assert(panel.ram_ports@ =~= Seq::new(2, |i: int| 0u8));
        assert(panel.shift_data@ =~= Seq::new(3, |i: int| 0u16));
        panel
    }
    /// Compares the registers read from the RAM chips (numbered chip by
    /// chip) with those last drawn, remembers the new ones, and returns the
    /// rows to redraw: each register that changed, with its row and values.
    pub fn print_memory(&mut self, chars: [u64; 8], statuses: [u16; 8]) -> (rows: Vec<(u32, u64, u16)>)
        ensures
            rows@ == changed_registers(
                old(self).characters(),
                old(self).statuses(),
                chars@,
                statuses@,
                8,
            ),
            final(self).characters() == chars@,
            final(self).statuses() == statuses@,
            final(self).rom_port_values() == old(self).rom_port_values(),
            final(self).ram_port_values() == old(self).ram_port_values(),
            final(self).shift_values() == old(self).shift_values(),
    {
        let ghost old_chars = self.character_data@;
        let ghost old_statuses = self.status_data@;
        let mut rows: Vec<(u32, u64, u16)> = Vec::new();
        let mut i: usize = 0;
        while i < 8
            invariant
                i <= 8,
                old_chars.len() == 8,
                old_statuses.len() == 8,
                self.character_data@.len() == 8,
                self.status_data@.len() == 8,
                self.character_data@ =~= chars@.subrange(0, i as int) + old_chars.subrange(i as int, 8),
                self.status_data@ =~= statuses@.subrange(0, i as int) + old_statuses.subrange(i as int, 8),
                rows@ == changed_registers(old_chars, old_statuses, chars@, statuses@, i as int),
                self.rom_ports@ == old(self).rom_ports@,
                self.ram_ports@ == old(self).ram_ports@,
                self.shift_data@ == old(self).shift_data@,
                old_chars == old(self).character_data@,
                old_statuses == old(self).status_data@,
            decreases 8 - i,
        {
            let ram: usize = i / 4;
            let register: usize = i % 4;
            let row: u32 = (register + 2 + ram * 7) as u32;
            if self.character_data[i] != chars[i] || self.status_data[i] != statuses[i] {
                self.character_data[i] = chars[i];
                self.status_data[i] = statuses[i];
                rows.push((row, chars[i], statuses[i]));
            }
            i = i + 1;
        }
        rows
    }

    /// Compares the ROM ports (rows 1 to 5) and RAM ports (rows 6 and 7) with
    /// those last drawn, remembers the new ones, and returns the rows to
    /// redraw with their new values.
    pub fn print_ports(&mut self, rom_ports: [u8; 5], ram_ports: [u8; 2]) -> (rows: Vec<(u32, u8)>)
        ensures
            rows@ == port_redraws(
                old(self).rom_port_values(),
                old(self).ram_port_values(),
                rom_ports@,
                ram_ports@,
            ),
            final(self).rom_port_values() == rom_ports@,
            final(self).ram_port_values() == ram_ports@,
            final(self).characters() == old(self).characters(),
            final(self).statuses() == old(self).statuses(),
            final(self).shift_values() == old(self).shift_values(),
    {
        let ghost old_roms = self.rom_ports@;
        let ghost old_rams = self.ram_ports@;
        let mut rows: Vec<(u32, u8)> = Vec::new();
        let mut index: usize = 0;
        while index < 5
            invariant
                index <= 5,
                old_roms.len() == 5,
                self.rom_ports@.len() == 5,
                self.rom_ports@ =~= rom_ports@.subrange(0, index as int) + old_roms.subrange(index as int, 5),
                rows@ == changed_rows(old_roms, rom_ports@, 1, index as int),
                self.ram_ports@ == old(self).ram_ports@,
                self.character_data@ == old(self).character_data@,
                self.status_data@ == old(self).status_data@,
                self.shift_data@ == old(self).shift_data@,
                old_roms == old(self).rom_ports@,
            decreases 5 - index,
        {
            if self.rom_ports[index] != rom_ports[index] {
                self.rom_ports[index] = rom_ports[index];
                rows.push(((index + 1) as u32, rom_ports[index]));
            }
            index = index + 1;
        }
        let ghost rom_rows = rows@;
        let mut index: usize = 0;
        while index < 2
            invariant
                index <= 2,
                old_rams.len() == 2,
                self.ram_ports@.len() == 2,
                self.ram_ports@ =~= ram_ports@.subrange(0, index as int) + old_rams.subrange(index as int, 2),
                rows@ == rom_rows + changed_rows(old_rams, ram_ports@, 6, index as int),
                self.rom_ports@ =~= rom_ports@,
                self.character_data@ == old(self).character_data@,
                self.status_data@ == old(self).status_data@,
                self.shift_data@ == old(self).shift_data@,
                old_rams == old(self).ram_ports@,
            decreases 2 - index,
        {
            if self.ram_ports[index] != ram_ports[index] {
                self.ram_ports[index] = ram_ports[index];
                rows.push(((index + 6) as u32, ram_ports[index]));
            }
            index = index + 1;
        }
        rows
    }

    /// Compares the shift registers (rows 1 to 3) with those last drawn,
    /// remembers the new ones, and returns the rows to redraw with their new
    /// values.
    pub fn print_shifts(&mut self, shifts: [u16; 3]) -> (rows: Vec<(u32, u16)>)
        ensures
            rows@ == shift_redraws(old(self).shift_values(), shifts@),
            final(self).shift_values() == shifts@,
            final(self).characters() == old(self).characters(),
            final(self).statuses() == old(self).statuses(),
            final(self).rom_port_values() == old(self).rom_port_values(),
            final(self).ram_port_values() == old(self).ram_port_values(),
    {
        let ghost old_shifts = self.shift_data@;
        let mut rows: Vec<(u32, u16)> = Vec::new();
        let mut index: usize = 0;
        while index < 3
            invariant
                index <= 3,
                old_shifts.len() == 3,
                self.shift_data@.len() == 3,
                self.shift_data@ =~= shifts@.subrange(0, index as int) + old_shifts.subrange(index as int, 3),
                rows@ == changed_rows(old_shifts, shifts@, 1, index as int),
                self.rom_ports@ == old(self).rom_ports@,
                self.ram_ports@ == old(self).ram_ports@,
                self.character_data@ == old(self).character_data@,
                self.status_data@ == old(self).status_data@,
                old_shifts == old(self).shift_data@,
            decreases 3 - index,
        {
            if self.shift_data[index] != shifts[index] {
                self.shift_data[index] = shifts[index];
                rows.push(((index + 1) as u32, shifts[index]));
            }
            index = index + 1;
        }
        rows
    }
}

} // verus!
