//! The hexadecimal dumps that the programs print of the files they write: eight bytes per
//! line, first as hexadecimal pairs, then, depending on the program, as characters and as
//! 16-bit little-endian samples.
use vstd::prelude::*;
use crate::le_bytes::{i16_value, u16_value, i16_from_le_bytes};
use crate::text::{hex_byte, push_hex_byte, decimal_digits, push_decimal, lemma_decimal_digits_len};

verus! {

/// The layouts of the dump lines, one per program.
#[derive(Debug, Clone, Copy, PartialEq, Eq, Structural)]
pub enum Layout {
    /// Hexadecimal pairs, blank where the data has ended, then a tab (fixed file).
    HexOnly,
    /// Hexadecimal pairs, then each printable byte followed by a dot (variable frequency).
    HexAndText,
    /// Hexadecimal pairs, then each shown byte as a Latin-1 character (mono 8-bit).
    HexAndLatin1,
    /// Hexadecimal pairs, ASCII characters and four 16-bit samples (choice of wave).
    HexTextAndSamples,
}

/// The kinds of cell in a line.
#[derive(Debug, Clone, Copy, PartialEq, Eq, Structural)]
pub enum Column {
    /// "{:02X} " of a byte, two blanks past the end.
    HexBlank,
    /// "{:02X} " of a byte, ".  " past the end.
    HexDot,
    /// A byte above 31 as a character followed by '.', otherwise " .".
    CharDot,
    /// A shown byte as a character followed by a blank, otherwise ".  ".
    Latin1,
    /// A printable ASCII byte followed by a blank, otherwise ". ".
    Ascii,
    /// A 16-bit little-endian sample, left-aligned in six places, then a blank; ".      "
    /// past the end.
    Sample,
}

/// Whether the mono 8-bit dump shows byte `b` as a character.
pub open spec fn shown_latin1(b: u8) -> bool {
    b > 31 && b != 127 && b != 129 && b != 141 && b != 143 && b != 144
}

/// Whether the dump of the choice of wave shows byte `b` as a character.
pub open spec fn shown_ascii(b: u8) -> bool {
    b > 31 && b != 127 && b < 127
}

/// `n` blanks.
pub open spec fn blanks(n: nat) -> Seq<char> {
    Seq::new(n, |i: int| ' ')
}

/// `s` followed by blanks up to `width` characters (what `{:<width}` writes).
pub open spec fn left_aligned(s: Seq<char>, width: nat) -> Seq<char> {
    if s.len() < width {
        s + blanks((width - s.len()) as nat)
    } else {
        s
    }
}

/// The decimal numeral of `v`, with a '-' in front when it is negative.
pub open spec fn signed_decimal(v: int) -> Seq<char> {
    if v < 0 {
        seq!['-'] + decimal_digits((-v) as nat)
    } else {
        decimal_digits(v as nat)
    }
}

/// The number of cells of a kind in one line.
pub open spec fn cell_count(kind: Column) -> nat {
    match kind {
        Column::Sample => 4,
        _ => 8,
    }
}

/// Cell `j` of kind `kind` in line `row`.
pub open spec fn cell(kind: Column, data: Seq<u8>, row: int, j: int) -> Seq<char> {
    let p = 8 * row + j;
    match kind {
        Column::HexBlank => if p < data.len() {
            hex_byte(data[p]) + seq![' ']
        } else {
            seq![' ', ' ']
        },
        Column::HexDot => if p < data.len() {
            hex_byte(data[p]) + seq![' ']
        } else {
            seq!['.', ' ', ' ']
        },
        Column::CharDot => if p < data.len() && data[p] > 31 {
            seq![data[p] as char, '.']
        } else {
            seq![' ', '.']
        },
        Column::Latin1 => if p < data.len() && shown_latin1(data[p]) {
            seq![data[p] as char, ' ']
        } else {
            seq!['.', ' ', ' ']
        },
        Column::Ascii => if p < data.len() && shown_ascii(data[p]) {
            seq![data[p] as char, ' ']
        } else {
            seq!['.', ' ']
        },
        Column::Sample => {
            let q = 8 * row + 2 * j;
            if q < data.len() {
                left_aligned(signed_decimal(i16_value(data.subrange(q, q + 2))), 6) + seq![' ']
            } else {
                seq!['.'] + blanks(6)
            }
        },
    }
}

/// The first `n` cells of kind `kind` in line `row`.
pub open spec fn cells(kind: Column, data: Seq<u8>, row: int, n: nat) -> Seq<char>
    decreases n,
{
    if n == 0 {
        Seq::empty()
    } else {
        cells(kind, data, row, (n - 1) as nat) + cell(kind, data, row, n - 1)
    }
}

/// All the cells of kind `kind` in line `row`.
pub open spec fn column(kind: Column, data: Seq<u8>, row: int) -> Seq<char> {
    cells(kind, data, row, cell_count(kind))
}

/// Line `row` of the dump, with its line feed.
pub open spec fn line(layout: Layout, data: Seq<u8>, row: int) -> Seq<char> {
    match layout {
        Layout::HexOnly => column(Column::HexBlank, data, row) + seq!['\t', '\n'],
        Layout::HexAndText => column(Column::HexBlank, data, row) + seq!['\t'] + column(
            Column::CharDot,
            data,
            row,
        ) + seq!['\n'],
        Layout::HexAndLatin1 => column(Column::HexDot, data, row) + seq!['\t'] + column(
            Column::Latin1,
            data,
            row,
        ) + seq!['\n'],
        Layout::HexTextAndSamples => column(Column::HexDot, data, row) + seq!['\t'] + column(
            Column::Ascii,
            data,
            row,
        ) + seq!['\t'] + column(Column::Sample, data, row) + seq!['\n'],
    }
}

/// The first `n` lines.
pub open spec fn lines(layout: Layout, data: Seq<u8>, n: nat) -> Seq<char>
    decreases n,
{
    if n == 0 {
        Seq::empty()
    } else {
        lines(layout, data, (n - 1) as nat) + line(layout, data, n - 1)
    }
}

/// Number of lines: one per eight bytes, and one more for what remains.
pub open spec fn line_count(len: nat) -> nat {
    if len % 8 != 0 {
        len / 8 + 1
    } else {
        len / 8
    }
}

/// The whole dump of `data`: its lines, then an empty line for the layouts that end so.
pub open spec fn dump_text(layout: Layout, data: Seq<u8>) -> Seq<char> {
    let body = lines(layout, data, line_count(data.len()));
    match layout {
        Layout::HexOnly | Layout::HexAndText => body + seq!['\n'],
        _ => body,
    }
}

/// What a layout asks of the data: room for the positions of the last line, and an even
/// length where the samples are read in pairs of bytes.
pub open spec fn dumpable(layout: Layout, data: Seq<u8>) -> bool {
    &&& data.len() + 8 <= usize::MAX
    &&& layout == Layout::HexTextAndSamples ==> data.len() % 2 == 0
}

/// One line per started group of eight bytes: the lines hold all the bytes, and the last line
/// holds at least one.
pub proof fn lemma_line_count(n: nat)
    ensures
        line_count(n) * 8 >= n,
        n > 0 ==> (line_count(n) - 1) * 8 < n,
        n == 0 ==> line_count(n) == 0,
{
}

proof fn lemma_cells_prefix(kind: Column, data: Seq<u8>, row: int, j: nat, n: nat)
    requires
        j <= n,
    ensures
        cells(kind, data, row, j).len() <= cells(kind, data, row, n).len(),
        cells(kind, data, row, n).subrange(0, cells(kind, data, row, j).len() as int) == cells(
            kind,
            data,
            row,
            j,
        ),
    decreases n,
{
    if j == n {
        assert(cells(kind, data, row, n).subrange(0, cells(kind, data, row, j).len() as int)
            =~= cells(kind, data, row, j));
    } else {
        lemma_cells_prefix(kind, data, row, j, (n - 1) as nat);
        let prev = cells(kind, data, row, (n - 1) as nat);
        assert(cells(kind, data, row, n).subrange(0, cells(kind, data, row, j).len() as int)
            =~= prev.subrange(0, cells(kind, data, row, j).len() as int));
    }
}

proof fn lemma_cell_in_cells(kind: Column, data: Seq<u8>, row: int, j: nat, n: nat)
    requires
        j < n,
    ensures
        cells(kind, data, row, j).len() + cell(kind, data, row, j as int).len() <= cells(
            kind,
            data,
            row,
            n,
        ).len(),
        cells(kind, data, row, n).subrange(
            cells(kind, data, row, j).len() as int,
            (cells(kind, data, row, j).len() + cell(kind, data, row, j as int).len()) as int,
        ) == cell(kind, data, row, j as int),
{
    lemma_cells_prefix(kind, data, row, j + 1, n);
    let whole = cells(kind, data, row, n);
    let before = cells(kind, data, row, j);
    let c = cell(kind, data, row, j as int);
    assert(cells(kind, data, row, j + 1) == before + c);
    assert(whole.subrange(before.len() as int, (before.len() + c.len()) as int) =~= (before + c).subrange(
        before.len() as int,
        (before.len() + c.len()) as int,
    ));
    assert((before + c).subrange(before.len() as int, (before.len() + c.len()) as int) =~= c);
}

proof fn lemma_hex_cells_len(kind: Column, data: Seq<u8>, row: int, j: nat)
    requires
        kind == Column::HexBlank || kind == Column::HexDot,
        0 <= row,
        8 * row + j <= data.len() || kind == Column::HexDot,
    ensures
        cells(kind, data, row, j).len() == 3 * j,
    decreases j,
{
    if j > 0 {
        lemma_hex_cells_len(kind, data, row, (j - 1) as nat);
    }
}

proof fn lemma_ascii_cells_len(data: Seq<u8>, row: int, j: nat)
    ensures
        cells(Column::Ascii, data, row, j).len() == 2 * j,
    decreases j,
{
    if j > 0 {
        lemma_ascii_cells_len(data, row, (j - 1) as nat);
    }
}

proof fn lemma_sample_cell_len(data: Seq<u8>, row: int, j: int)
    requires
        8 * row + 2 * j + 2 <= data.len() || 8 * row + 2 * j >= data.len(),
    ensures
        cell(Column::Sample, data, row, j).len() == 7,
{
    let q = 8 * row + 2 * j;
    if q < data.len() {
        let v = i16_value(data.subrange(q, q + 2));
        assert(0 <= u16_value(data.subrange(q, q + 2)) <= 65535);
        if v < 0 {
            lemma_decimal_digits_len((-v) as nat);
        } else {
            lemma_decimal_digits_len(v as nat);
        }
        assert(signed_decimal(v).len() <= 6);
        assert(left_aligned(signed_decimal(v), 6).len() == 6);
    }
}

proof fn lemma_sample_cells_len(data: Seq<u8>, row: int, j: nat)
    requires
        data.len() % 2 == 0,
        0 <= row,
    ensures
        cells(Column::Sample, data, row, j).len() == 7 * j,
    decreases j,
{
    if j > 0 {
        lemma_sample_cells_len(data, row, (j - 1) as nat);
        lemma_sample_cell_len(data, row, j - 1);
    }
}

proof fn lemma_lines_prefix(layout: Layout, data: Seq<u8>, r: nat, n: nat)
    requires
        r <= n,
    ensures
        lines(layout, data, r).len() <= lines(layout, data, n).len(),
        lines(layout, data, n).subrange(0, lines(layout, data, r).len() as int) == lines(
            layout,
            data,
            r,
        ),
    decreases n,
{
    if r == n {
        assert(lines(layout, data, n).subrange(0, lines(layout, data, r).len() as int) =~= lines(
            layout,
            data,
            r,
        ));
    } else {
        lemma_lines_prefix(layout, data, r, (n - 1) as nat);
        assert(lines(layout, data, n).subrange(0, lines(layout, data, r).len() as int)
            =~= lines(layout, data, (n - 1) as nat).subrange(
            0,
            lines(layout, data, r).len() as int,
        ));
    }
}

/// Line `r` stands in the dump right after the lines before it.
proof fn lemma_line_in_dump(layout: Layout, data: Seq<u8>, r: nat)
    requires
        r < line_count(data.len()),
    ensures
        ({
            let o = lines(layout, data, r).len();
            let l = line(layout, data, r as int);
            &&& o + l.len() <= dump_text(layout, data).len()
            &&& dump_text(layout, data).subrange(o as int, (o + l.len()) as int) == l
        }),
{
    let n = line_count(data.len());
    lemma_lines_prefix(layout, data, r + 1, n);
    let body = lines(layout, data, n);
    let before = lines(layout, data, r);
    let l = line(layout, data, r as int);
    assert(lines(layout, data, r + 1) == before + l);
    assert(body.subrange(before.len() as int, (before.len() + l.len()) as int) =~= (before + l).subrange(
        before.len() as int,
        (before.len() + l.len()) as int,
    ));
    assert((before + l).subrange(before.len() as int, (before.len() + l.len()) as int) =~= l);
    let t = dump_text(layout, data);
    assert(t.subrange(0, body.len() as int) =~= body);
    assert(t.subrange(before.len() as int, (before.len() + l.len()) as int) =~= body.subrange(
        before.len() as int,
        (before.len() + l.len()) as int,
    ));
}

/// The dump shows every byte of the data: byte `p` is written as two hexadecimal digits and a
/// blank, as the `p % 8`-th cell of line `p / 8`, which follows the lines before it.
#[verifier::spinoff_prover]
#[verifier::rlimit(40)]
pub proof fn lemma_dump_shows_every_byte(layout: Layout, data: Seq<u8>, p: int)
    requires
        0 <= p < data.len(),
    ensures
        p / 8 < line_count(data.len()),
        ({
            let o = lines(layout, data, (p / 8) as nat).len() + 3 * (p % 8);
            &&& o + 3 <= dump_text(layout, data).len()
            &&& dump_text(layout, data).subrange(o, o + 3) == hex_byte(data[p]) + seq![' ']
        }),
{
    let r = p / 8;
    let j = p % 8;
    lemma_line_count(data.len());
    lemma_line_in_dump(layout, data, r as nat);
    let kind = match layout {
        Layout::HexOnly | Layout::HexAndText => Column::HexBlank,
        _ => Column::HexDot,
    };
    let col = column(kind, data, r);
    let l = line(layout, data, r);
    lemma_cell_in_cells(kind, data, r, j as nat, 8);
    lemma_hex_cells_len(kind, data, r, j as nat);
    assert(cell(kind, data, r, j) == hex_byte(data[p]) + seq![' ']);
    assert(l.subrange(0, col.len() as int) =~= col);
    let base = lines(layout, data, r as nat).len();
    let t = dump_text(layout, data);
    assert(t.subrange(base + 3 * j, base + 3 * j + 3) =~= col.subrange(3 * j, 3 * j + 3));
}

/// In the dump of the choice of wave, the text column shows byte `p` as itself when it is
/// printable ASCII (32 to 126) and as a dot otherwise, after the hexadecimal column and a tab.
#[verifier::spinoff_prover]
#[verifier::rlimit(40)]
pub proof fn lemma_dump_shows_text(data: Seq<u8>, p: int)
    requires
        0 <= p < data.len(),
    ensures
        ({
            let layout = Layout::HexTextAndSamples;
            let o = lines(layout, data, (p / 8) as nat).len() + 25 + 2 * (p % 8);
            &&& o + 2 <= dump_text(layout, data).len()
            &&& dump_text(layout, data).subrange(o, o + 2) == if 32 <= data[p] <= 126 {
                seq![data[p] as char, ' ']
            } else {
                seq!['.', ' ']
            }
        }),
{
    let layout = Layout::HexTextAndSamples;
    let r = p / 8;
    let j = p % 8;
    lemma_line_count(data.len());
    lemma_line_in_dump(layout, data, r as nat);
    let hex = column(Column::HexDot, data, r);
    let text = column(Column::Ascii, data, r);
    let l = line(layout, data, r);
    lemma_hex_cells_len(Column::HexDot, data, r, 8);
    lemma_cell_in_cells(Column::Ascii, data, r, j as nat, 8);
    lemma_ascii_cells_len(data, r, j as nat);
    assert(l.subrange(25, (25 + text.len()) as int) =~= text);
    let base = lines(layout, data, r as nat).len();
    let t = dump_text(layout, data);
    assert(t.subrange(base + 25 + 2 * j, base + 25 + 2 * j + 2) =~= text.subrange(
        2 * j,
        2 * j + 2,
    ));
}

/// In the dump of the choice of wave, the `k`-th sample of a line is the signed 16-bit
/// number of the two bytes at `8 * row + 2 * k`, least significant first, left-aligned in six
/// places and followed by a blank, after the hexadecimal column, the text column and two tabs.
#[verifier::spinoff_prover]
#[verifier::rlimit(40)]
pub proof fn lemma_dump_shows_samples(data: Seq<u8>, q: int)
    requires
        0 <= q < data.len(),
        q % 2 == 0,
        data.len() % 2 == 0,
    ensures
        ({
            let layout = Layout::HexTextAndSamples;
            let o = lines(layout, data, (q / 8) as nat).len() + 42 + 7 * ((q % 8) / 2);
            &&& o + 7 <= dump_text(layout, data).len()
            &&& dump_text(layout, data).subrange(o, o + 7) == left_aligned(
                signed_decimal(i16_value(seq![data[q], data[q + 1]])),
                6,
            ) + seq![' ']
        }),
{
    let layout = Layout::HexTextAndSamples;
    let r = q / 8;
    let k = (q % 8) / 2;
    assert(8 * r + 2 * k == q);
    lemma_line_count(data.len());
    lemma_line_in_dump(layout, data, r as nat);
    let samples = column(Column::Sample, data, r);
    let l = line(layout, data, r);
    lemma_hex_cells_len(Column::HexDot, data, r, 8);
    lemma_ascii_cells_len(data, r, 8);
    lemma_cell_in_cells(Column::Sample, data, r, k as nat, 4);
    lemma_sample_cells_len(data, r, k as nat);
    lemma_sample_cell_len(data, r, k);
    assert(data.subrange(q, q + 2) =~= seq![data[q], data[q + 1]]);
    assert(l.subrange(42, (42 + samples.len()) as int) =~= samples);
    let base = lines(layout, data, r as nat).len();
    let t = dump_text(layout, data);
    assert(t.subrange(base + 42 + 7 * k, base + 42 + 7 * k + 7) =~= samples.subrange(
        7 * k,
        7 * k + 7,
    ));
}

proof fn lemma_hex_blank_cells_len(data: Seq<u8>, row: int, j: nat)
    requires
        0 <= row,
        8 * row < data.len(),
    ensures
        cells(Column::HexBlank, data, row, j).len() == if 8 * row + j <= data.len() {
            3 * j as int
        } else {
            3 * (data.len() - 8 * row) + 2 * (8 * row + j - data.len())
        },
    decreases j,
{
    if j > 0 {
        lemma_hex_blank_cells_len(data, row, (j - 1) as nat);
    }
}

proof fn lemma_char_dot_cells_len(data: Seq<u8>, row: int, j: nat)
    ensures
        cells(Column::CharDot, data, row, j).len() == 2 * j,
    decreases j,
{
    if j > 0 {
        lemma_char_dot_cells_len(data, row, (j - 1) as nat);
    }
}

/// In the dump of the variable-frequency program, the text column shows byte `p` as itself
/// followed by a dot when it is above 31, and as a blank and a dot otherwise; it follows the
/// hexadecimal column (three characters per byte, two blanks past the end) and a tab.
#[verifier::spinoff_prover]
#[verifier::rlimit(40)]
pub proof fn lemma_dump_shows_chars(data: Seq<u8>, p: int)
    requires
        0 <= p < data.len(),
    ensures
        ({
            let layout = Layout::HexAndText;
            let row = p / 8;
            let present = if data.len() - 8 * row < 8 {
                data.len() - 8 * row
            } else {
                8
            };
            let o = lines(layout, data, row as nat).len() + 3 * present + 2 * (8 - present) + 1
                + 2 * (p % 8);
            &&& o + 2 <= dump_text(layout, data).len()
            &&& dump_text(layout, data).subrange(o, o + 2) == if data[p] > 31 {
                seq![data[p] as char, '.']
            } else {
                seq![' ', '.']
            }
        }),
{
    let layout = Layout::HexAndText;
    let r = p / 8;
    let j = p % 8;
    lemma_line_count(data.len());
    lemma_line_in_dump(layout, data, r as nat);
    let hex = column(Column::HexBlank, data, r);
    let text = column(Column::CharDot, data, r);
    let l = line(layout, data, r);
    lemma_hex_blank_cells_len(data, r, 8);
    lemma_cell_in_cells(Column::CharDot, data, r, j as nat, 8);
    lemma_char_dot_cells_len(data, r, j as nat);
    let h = hex.len() as int;
    assert(l.subrange(h + 1, h + 1 + text.len()) =~= text);
    let base = lines(layout, data, r as nat).len();
    let t = dump_text(layout, data);
    assert(t.subrange(base + h + 1 + 2 * j, base + h + 1 + 2 * j + 2) =~= text.subrange(
        2 * j,
        2 * j + 2,
    ));
}

/// In the dump of the mono 8-bit program, the text column shows byte `p` as itself followed
/// by a blank when it is above 31 and none of 127, 129, 141, 143 and 144, and as a dot and two
/// blanks otherwise; it follows the hexadecimal column, a tab and the cells of the bytes
/// before it in its line.
#[verifier::spinoff_prover]
#[verifier::rlimit(40)]
pub proof fn lemma_dump_shows_latin1(data: Seq<u8>, p: int)
    requires
        0 <= p < data.len(),
    ensures
        ({
            let layout = Layout::HexAndLatin1;
            let row = p / 8;
            let o = (lines(layout, data, row as nat).len() + 25 + cells(
                Column::Latin1,
                data,
                row,
                (p % 8) as nat,
            ).len()) as int;
            let b = data[p];
            let shown = b > 31 && b != 127 && b != 129 && b != 141 && b != 143 && b != 144;
            &&& o + (if shown {
                2int
            } else {
                3int
            }) <= dump_text(layout, data).len()
            &&& shown ==> dump_text(layout, data).subrange(o, o + 2) == seq![b as char, ' ']
            &&& !shown ==> dump_text(layout, data).subrange(o, o + 3) == seq!['.', ' ', ' ']
        }),
{
    let layout = Layout::HexAndLatin1;
    let r = p / 8;
    let j = p % 8;
    lemma_line_count(data.len());
    lemma_line_in_dump(layout, data, r as nat);
    let text = column(Column::Latin1, data, r);
    let l = line(layout, data, r);
    lemma_hex_cells_len(Column::HexDot, data, r, 8);
    lemma_cell_in_cells(Column::Latin1, data, r, j as nat, 8);
    let before = cells(Column::Latin1, data, r, j as nat).len() as int;
    let c = cell(Column::Latin1, data, r, j);
    assert(l.subrange(25, (25 + text.len()) as int) =~= text);
    let base = lines(layout, data, r as nat).len();
    let t = dump_text(layout, data);
    assert(t.subrange(base + 25 + before, base + 25 + before + c.len()) =~= text.subrange(
        before,
        before + c.len(),
    ));
}

/// Every line of a dump ends with a line feed, and the dumps of the fixed-file and the
/// variable-frequency programs end with an empty line.
pub proof fn lemma_dump_line_ends(layout: Layout, data: Seq<u8>, r: int)
    requires
        0 <= r,
    ensures
        line(layout, data, r).len() > 0,
        line(layout, data, r).last() == '\n',
        (layout == Layout::HexOnly || layout == Layout::HexAndText) ==> {
            &&& dump_text(layout, data).len() > 0
            &&& dump_text(layout, data).last() == '\n'
            &&& data.len() > 0 ==> dump_text(layout, data)[dump_text(layout, data).len() - 2]
                == '\n'
        },
{
    let n = line_count(data.len());
    if data.len() > 0 {
        let last = line(layout, data, n - 1);
        assert(lines(layout, data, n) == lines(layout, data, (n - 1) as nat) + last);
        assert(last.last() == '\n');
    }
}

fn push_sample(out: &mut Vec<char>, v: i16)
    ensures
        final(out)@ == old(out)@ + left_aligned(signed_decimal(v as int), 6) + seq![' '],
{
    let start = out.len();
    if v < 0 {
        out.push('-');
        let magnitude: u32 = (-(v as i32)) as u32;
        push_decimal(out, magnitude);
    } else {
        push_decimal(out, v as u32);
    }
    let ghost s = signed_decimal(v as int);
    assert(out@ =~= old(out)@ + s);
    let mut width: usize = out.len() - start;
    while width < 6
        invariant
            out@.len() == old(out)@.len() + width,
            width >= s.len(),
            width <= 6 || width == s.len(),
            out@ =~= old(out)@ + s + blanks((width - s.len()) as nat),
        decreases 6 - width,
    {
        out.push(' ');
        width = width + 1;
        assert(out@ =~= old(out)@ + s + blanks((width - s.len()) as nat));
    }
    assert(old(out)@ + s + blanks((width - s.len()) as nat) =~= old(out)@ + left_aligned(s, 6));
    out.push(' ');
}

fn push_cell(out: &mut Vec<char>, kind: Column, data: &[u8], row: usize, j: usize)
    requires
        j < cell_count(kind),
        8 * row < data@.len() + 8,
        data@.len() + 8 <= usize::MAX,
        kind == Column::Sample ==> data@.len() % 2 == 0,
    ensures
        final(out)@ == old(out)@ + cell(kind, data@, row as int, j as int),
{
    let p = 8 * row + j;
    match kind {
        Column::HexBlank => {
            if p < data.len() {
                push_hex_byte(out, data[p]);
                out.push(' ');
            } else {
                out.push(' ');
                out.push(' ');
            }
        },
        Column::HexDot => {
            if p < data.len() {
                push_hex_byte(out, data[p]);
                out.push(' ');
            } else {
                out.push('.');
                out.push(' ');
                out.push(' ');
            }
        },
        Column::CharDot => {
            if p < data.len() && data[p] > 31 {
                out.push(data[p] as char);
                out.push('.');
            } else {
                out.push(' ');
                out.push('.');
            }
        },
        Column::Latin1 => {
            if p < data.len() && data[p] > 31 && data[p] != 127 && data[p] != 129 && data[p] != 141
                && data[p] != 143 && data[p] != 144 {
                out.push(data[p] as char);
                out.push(' ');
            } else {
                out.push('.');
                out.push(' ');
                out.push(' ');
            }
        },
        Column::Ascii => {
            if p < data.len() && data[p] > 31 && data[p] != 127 && data[p] < 127 {
                out.push(data[p] as char);
                out.push(' ');
            } else {
                out.push('.');
                out.push(' ');
            }
        },
        Column::Sample => {
            let q = 8 * row + 2 * j;
            if q < data.len() {
                let v = i16_from_le_bytes(data[q], data[q + 1]);
                assert(data@.subrange(q as int, q + 2) =~= seq![data@[q as int], data@[q + 1]]);
                push_sample(out, v);
            } else {
                out.push('.');
                let mut k: usize = 0;
                while k < 6
                    invariant
                        k <= 6,
                        out@ =~= old(out)@ + seq!['.'] + blanks(k as nat),
                    decreases 6 - k,
                {
                    out.push(' ');
                    k = k + 1;
                    assert(out@ =~= old(out)@ + seq!['.'] + blanks(k as nat));
                }
            }
        },
    }
    assert(out@ =~= old(out)@ + cell(kind, data@, row as int, j as int));
}

fn push_column(out: &mut Vec<char>, kind: Column, data: &[u8], row: usize)
    requires
        8 * row < data@.len() + 8,
        data@.len() + 8 <= usize::MAX,
        kind == Column::Sample ==> data@.len() % 2 == 0,
    ensures
        final(out)@ == old(out)@ + column(kind, data@, row as int),
{
    let n: usize = match kind {
        Column::Sample => 4,
        _ => 8,
    };
    for j in 0..n
        invariant
            n == cell_count(kind),
            8 * row < data@.len() + 8,
            data@.len() + 8 <= usize::MAX,
            kind == Column::Sample ==> data@.len() % 2 == 0,
            out@ == old(out)@ + cells(kind, data@, row as int, j as nat),
    {
        push_cell(out, kind, data, row, j);
        assert(out@ =~= old(out)@ + cells(kind, data@, row as int, (j + 1) as nat));
    }
}

fn push_line(out: &mut Vec<char>, layout: Layout, data: &[u8], row: usize)
    requires
        8 * row < data@.len() + 8,
        dumpable(layout, data@),
    ensures
        final(out)@ == old(out)@ + line(layout, data@, row as int),
{
    match layout {
        Layout::HexOnly => {
            push_column(out, Column::HexBlank, data, row);
            out.push('\t');
        },
        Layout::HexAndText => {
            push_column(out, Column::HexBlank, data, row);
            out.push('\t');
            push_column(out, Column::CharDot, data, row);
        },
        Layout::HexAndLatin1 => {
            push_column(out, Column::HexDot, data, row);
            out.push('\t');
            push_column(out, Column::Latin1, data, row);
        },
        Layout::HexTextAndSamples => {
            push_column(out, Column::HexDot, data, row);
            out.push('\t');
            push_column(out, Column::Ascii, data, row);
            out.push('\t');
            push_column(out, Column::Sample, data, row);
        },
    }
    out.push('\n');
    assert(out@ =~= old(out)@ + line(layout, data@, row as int));
}

/// The text that a program prints as the dump of `data`: eight bytes per line, in the
/// program's layout.
pub fn hex_dump(layout: Layout, data: &[u8]) -> (text: Vec<char>)
    requires
        dumpable(layout, data@),
    ensures
        text@ == dump_text(layout, data@),
{
    let len = data.len();
    let mut rows = len / 8;
    if len % 8 != 0 {
        rows = rows + 1;
    }
    let mut text: Vec<char> = Vec::new();
    for i in 0..rows
        invariant
            rows == line_count(len as nat),
            len == data@.len(),
            dumpable(layout, data@),
            text@ == lines(layout, data@, i as nat),
    {
        push_line(&mut text, layout, data, i);
        assert(text@ =~= lines(layout, data@, (i + 1) as nat));
    }
    match layout {
        Layout::HexOnly | Layout::HexAndText => {
            text.push('\n');
        },
        _ => {},
    }
    text
}

} // verus!
