//! Hexadecimal dumps of byte strings, as ASCII text.
//!
//! A dump has one row for every 16 bytes, and one more for what is left,
//! which may be nothing. A row starts with the indentation, the offset of
//! its first byte in at least four hexadecimal digits and two colons; then
//! each byte follows as a space and two hexadecimal digits; a line feed ends
//! the row.

use vstd::prelude::*;

verus! {

/// The number of bytes in a full row.
pub const COLUMNS: usize = 16;

/// The ASCII character of the hexadecimal digit `d`, in lower case.
pub open spec fn hex_digit(d: nat) -> u8 {
    if d < 10 {
        (48 + d) as u8
    } else {
        (87 + d) as u8
    }
}

/// The two hexadecimal digits of a byte.
pub open spec fn hex_byte(b: u8) -> Seq<u8> {
    seq![hex_digit((b / 16) as nat), hex_digit((b % 16) as nat)]
}

/// The hexadecimal digits of `n`, with zeros in front up to `width` digits.
pub open spec fn hex_number(n: nat, width: nat) -> Seq<u8>
    decreases n, width,
{
    if n < 16 && width <= 1 {
        seq![hex_digit(n)]
    } else {
        hex_number(
            n / 16,
            if width > 0 {
                (width - 1) as nat
            } else {
                0
            },
        ) + seq![hex_digit(n % 16)]
    }
}

/// The bytes `from .. to` of `buf`, each as a space and two digits.
pub open spec fn hex_cells(buf: Seq<u8>, from: int, to: int) -> Seq<u8>
    decreases to - from,
{
    if to <= from {
        Seq::empty()
    } else {
        hex_cells(buf, from, to - 1) + seq![32u8] + hex_byte(buf[to - 1])
    }
}

/// The index behind the last byte of row `row` of a dump of `len` bytes.
pub open spec fn row_end(len: nat, row: nat) -> int {
    if (row + 1) * COLUMNS < len {
        (row + 1) * COLUMNS
    } else {
        len as int
    }
}

/// Row `row` of the dump of `buf`.
pub open spec fn hex_row(buf: Seq<u8>, indent: Seq<u8>, row: nat) -> Seq<u8> {
    indent + hex_number((row * COLUMNS) as nat, 4) + seq![58u8, 58u8] + hex_cells(
        buf,
        row * COLUMNS,
        row_end(buf.len(), row),
    ) + seq![10u8]
}

/// The first `rows` rows of the dump of `buf`.
pub open spec fn hex_rows(buf: Seq<u8>, indent: Seq<u8>, rows: nat) -> Seq<u8>
    decreases rows,
{
    if rows == 0 {
        Seq::empty()
    } else {
        hex_rows(buf, indent, (rows - 1) as nat) + hex_row(buf, indent, (rows - 1) as nat)
    }
}

/// The dump of `buf`, every row after the indentation `indent`.
pub open spec fn hex_dump(buf: Seq<u8>, indent: Seq<u8>) -> Seq<u8> {
    hex_rows(buf, indent, buf.len() / COLUMNS as nat + 1)
}

/// The ASCII character of the hexadecimal digit `d`.
fn digit(d: u8) -> (c: u8)
    requires
        d < 16,
    ensures
        c == hex_digit(d as nat),
{
    if d < 10 {
        48 + d
    } else {
        87 + d
    }
}

/// Appends the hexadecimal digits of `n`, at least `width` of them.
fn push_number(out: &mut Vec<u8>, n: usize, width: usize)
    ensures
        final(out)@ == old(out)@ + hex_number(n as nat, width as nat),
    decreases n, width,
{
    if n < 16 && width <= 1 {
        out.push(digit(n as u8));
    } else {
        push_number(
            out,
            n / 16,
            if width > 0 {
                width - 1
            } else {
                0
            },
        );
        out.push(digit((n % 16) as u8));
    }
}

/// Appends a copy of `bytes`.
fn push_all(out: &mut Vec<u8>, bytes: &[u8])
    ensures
        final(out)@ == old(out)@ + bytes@,
{
    let mut i: usize = 0;
    while i < bytes.len()
        invariant
            i <= bytes@.len(),
            out@ == old(out)@ + bytes@.subrange(0, i as int),
        decreases bytes@.len() - i,
    {
        out.push(bytes[i]);
        i += 1;
    }
}

/// Renders `buf` as a hexadecimal dump, every row after the indentation
/// `indent`. The result is ASCII text where `indent` is.
pub fn debug_hex(buf: &[u8], indent: &[u8]) -> (text: Vec<u8>)
    ensures
        text@ == hex_dump(buf@, indent@),
{
    let cols = COLUMNS;
    let len = buf.len();
    let rows = len / cols + 1;
    let mut s: Vec<u8> = Vec::new();
    let mut row: usize = 0;
    while row < rows
        invariant
            cols == COLUMNS,
            len == buf@.len(),
            rows == len / COLUMNS + 1,
            row <= rows,
            s@ == hex_rows(buf@, indent@, row as nat),
        decreases rows - row,
    {
        let start = row * cols;
        push_all(&mut s, indent);
        push_number(&mut s, start, 4);
        s.push(58);
        s.push(58);
        let end = if len - start > cols {
            start + cols
        } else {
            len
        };
        let ghost head = s@;
        let mut index = start;
        while index < end
            invariant
                start <= index <= end <= len,
                len == buf@.len(),
                s@ == head + hex_cells(buf@, start as int, index as int),
            decreases end - index,
        {
            let b = buf[index];
            s.push(32);
            s.push(digit(b / 16));
            s.push(digit(b % 16));
            index += 1;
        }
        s.push(10);
        row += 1;
    }
    s
}

} // verus!
