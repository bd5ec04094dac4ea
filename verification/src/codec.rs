//! The project text format: a fixed-width, tab-delimited serialization
//! of the board that keeps colors and symbols, and the plain glyph-only
//! text export.
//!
//! A project file reads
//! `RGB` newline, `WWWWxHHHH` newline, then one leading tab and one
//! tab-terminated 21-character record per cell, row-major:
//! three zero-padded foreground channels, a pipe, three background
//! channels, a pipe, and the cell's symbol.

use vstd::prelude::*;

use crate::grid::{Board, Cell, Rgb};

verus! {

/// Why a project decode was rejected. Decoding never panics and never
/// partially loads: the first problem aborts the whole import.
#[derive(Clone, Copy, PartialEq, Eq, Structural, Debug)]
pub enum FormatError {
    /// The first line is not the literal header tag.
    BadHeader,
    /// The dimension line does not hold two positive zero-padded
    /// four-digit numbers.
    BadDimensions,
    /// The cell line holds fewer tab-delimited fields than cells.
    MissingFields,
    /// A cell record is shorter than its fixed width, holds a non-digit
    /// where a digit belongs, or a channel above 255.
    BadRecord,
}

/// The decimal digit character for `d` in 0 to 9.
pub open spec fn spec_digit(d: int) -> char {
    if d == 0 {
        '0'
    } else if d == 1 {
        '1'
    } else if d == 2 {
        '2'
    } else if d == 3 {
        '3'
    } else if d == 4 {
        '4'
    } else if d == 5 {
        '5'
    } else if d == 6 {
        '6'
    } else if d == 7 {
        '7'
    } else if d == 8 {
        '8'
    } else {
        '9'
    }
}

/// Whether `c` is a decimal digit character.
pub open spec fn is_digit(c: char) -> bool {
    48 <= c as u32 <= 57
}

/// The numeric value of a digit character.
pub open spec fn digit_val(c: char) -> int {
    c as u32 - 48
}

/// A number below 1000 as three zero-padded digit characters.
pub open spec fn pad3(n: int) -> Seq<char> {
    seq![spec_digit(n / 100), spec_digit((n / 10) % 10), spec_digit(n % 10)]
}

/// A number below 10000 as four zero-padded digit characters.
pub open spec fn pad4(n: int) -> Seq<char> {
    seq![
        spec_digit(n / 1000),
        spec_digit((n / 100) % 10),
        spec_digit((n / 10) % 10),
        spec_digit(n % 10),
    ]
}

/// The 21 fixed-width characters of one cell record, without its
/// terminating tab.
pub open spec fn record_body(cell: Cell) -> Seq<char> {
    pad3(cell.color.r as int) + pad3(cell.color.g as int) + pad3(cell.color.b as int) + seq!['|']
        + pad3(cell.backcolor.r as int) + pad3(cell.backcolor.g as int) + pad3(
        cell.backcolor.b as int,
    ) + seq!['|'] + seq![cell.symbol]
}

/// The first `n` cells encoded: each record body followed by a tab.
pub open spec fn records_upto(cells: Seq<Cell>, n: int) -> Seq<char>
    decreases n,
{
    if n <= 0 {
        Seq::empty()
    } else {
        records_upto(cells, n - 1) + record_body(cells[n - 1]) + seq!['\t']
    }
}

/// The header of a project text: the tag line, the dimension line, and
/// the tab that opens the cell line.
pub open spec fn header_of(width: int, height: int) -> Seq<char> {
    seq!['R', 'G', 'B', '\n'] + pad4(width) + seq!['x'] + pad4(height) + seq!['\n', '\t']
}

/// The whole project text of a board.
pub open spec fn project_text_of(width: int, height: int, cells: Seq<Cell>) -> Seq<char> {
    header_of(width, height) + records_upto(cells, cells.len() as int)
}

/// The glyph-only export of the first `n` cells: each cell's symbol,
/// with a newline after each row's last cell.
pub open spec fn text_upto(width: int, cells: Seq<Cell>, n: int) -> Seq<char>
    decreases n,
{
    if n <= 0 {
        Seq::empty()
    } else {
        let prev = text_upto(width, cells, n - 1) + seq![cells[n - 1].symbol];
        if (n - 1) % width == width - 1 {
            prev + seq!['\n']
        } else {
            prev
        }
    }
}

/// The whole glyph-only export of a board.
pub open spec fn text_of(width: int, cells: Seq<Cell>) -> Seq<char> {
    text_upto(width, cells, cells.len() as int)
}

/// The index of the first occurrence of `c` in `t` at or after `from`,
/// or the length of `t` when there is none.
pub open spec fn find_ch(t: Seq<char>, from: int, c: char) -> int
    decreases t.len() - from,
{
    if from >= t.len() {
        t.len() as int
    } else if t[from] == c {
        from
    } else {
        find_ch(t, from + 1, c)
    }
}

/// `find_ch` returns the position scanning finds: the first index at or
/// after `from` holding `c`, or the end of the scanned range.
pub proof fn lemma_find_ch_scan(t: Seq<char>, from: int, c: char, k: int)
    requires
        0 <= from <= k <= t.len(),
        forall|j: int| from <= j < k ==> t[j] != c,
        k < t.len() ==> t[k] == c,
    ensures
        find_ch(t, from, c) == if k < t.len() {
            k
        } else {
            t.len() as int
        },
    decreases k - from,
{
    if from < k {
        lemma_find_ch_scan(t, from + 1, c, k);
    }
}

/// The three-digit number at offset `off` of `s`.
pub open spec fn parse3(s: Seq<char>, off: int) -> int {
    100 * digit_val(s[off]) + 10 * digit_val(s[off + 1]) + digit_val(s[off + 2])
}

/// Offset `off` of `s` holds three digits forming a byte value.
pub open spec fn triple_ok(s: Seq<char>, off: int) -> bool {
    &&& is_digit(s[off])
    &&& is_digit(s[off + 1])
    &&& is_digit(s[off + 2])
    &&& parse3(s, off) <= 255
}

/// The four-digit number at offset `off` of `s`.
pub open spec fn parse4(s: Seq<char>, off: int) -> int {
    1000 * digit_val(s[off]) + 100 * digit_val(s[off + 1]) + 10 * digit_val(s[off + 2])
        + digit_val(s[off + 3])
}

/// Offset `off` of `s` holds four digits.
pub open spec fn quad_digits(s: Seq<char>, off: int) -> bool {
    &&& is_digit(s[off])
    &&& is_digit(s[off + 1])
    &&& is_digit(s[off + 2])
    &&& is_digit(s[off + 3])
}

/// A well-formed record field: long enough, six in-range channel
/// triples at the fixed offsets. The pipes and anything past the symbol
/// are not inspected, as the fixed-offset decoder never reads them.
pub open spec fn record_ok(field: Seq<char>) -> bool {
    &&& field.len() >= 21
    &&& triple_ok(field, 0)
    &&& triple_ok(field, 3)
    &&& triple_ok(field, 6)
    &&& triple_ok(field, 10)
    &&& triple_ok(field, 13)
    &&& triple_ok(field, 16)
}

/// The cell a well-formed record field denotes.
pub open spec fn cell_of_record(field: Seq<char>) -> Cell {
    Cell {
        color: Rgb {
            r: parse3(field, 0) as u8,
            g: parse3(field, 3) as u8,
            b: parse3(field, 6) as u8,
        },
        backcolor: Rgb {
            r: parse3(field, 10) as u8,
            g: parse3(field, 13) as u8,
            b: parse3(field, 16) as u8,
        },
        symbol: field[20],
    }
}

/// Parses `n` tab-delimited cell records of the cell line `l3` starting
/// at `pos`: the first malformed record aborts with `BadRecord`, a
/// missing field with `MissingFields`.
pub open spec fn parse_cells(l3: Seq<char>, pos: int, n: nat) -> Result<Seq<Cell>, FormatError>
    decreases n,
{
    if n == 0 {
        Ok(Seq::empty())
    } else {
        let e = find_ch(l3, pos, '\t');
        let field = l3.subrange(pos, e);
        if !record_ok(field) {
            Err(FormatError::BadRecord)
        } else if n > 1 && e >= l3.len() {
            Err(FormatError::MissingFields)
        } else if n > 1 {
            match parse_cells(l3, e + 1, (n - 1) as nat) {
                Ok(rest) => Ok(seq![cell_of_record(field)] + rest),
                Err(err) => Err(err),
            }
        } else {
            Ok(seq![cell_of_record(field)])
        }
    }
}

/// The dimension line is well-formed: at least nine characters, four
/// digits, a separator position, four digits, both numbers positive.
pub open spec fn dims_ok(l2: Seq<char>) -> bool {
    &&& l2.len() >= 9
    &&& quad_digits(l2, 0)
    &&& quad_digits(l2, 5)
    &&& parse4(l2, 0) > 0
    &&& parse4(l2, 5) > 0
}

/// What decoding a project text yields: the width, height and cells of
/// the encoded board, or the error that aborts the import.
pub open spec fn spec_decode(t: Seq<char>) -> Result<(int, int, Seq<Cell>), FormatError> {
    let n1 = find_ch(t, 0, '\n');
    if !(n1 == 3 && t[0] == 'R' && t[1] == 'G' && t[2] == 'B') {
        Err(FormatError::BadHeader)
    } else if n1 >= t.len() {
        Err(FormatError::BadDimensions)
    } else {
        let n2 = find_ch(t, n1 + 1, '\n');
        let l2 = t.subrange(n1 + 1, n2);
        if !dims_ok(l2) {
            Err(FormatError::BadDimensions)
        } else {
            let w = parse4(l2, 0);
            let h = parse4(l2, 5);
            if n2 >= t.len() {
                Err(FormatError::MissingFields)
            } else {
                let n3 = find_ch(t, n2 + 1, '\n');
                let l3 = t.subrange(n2 + 1, n3);
                let t1 = find_ch(l3, 0, '\t');
                if t1 >= l3.len() {
                    Err(FormatError::MissingFields)
                } else {
                    match parse_cells(l3, t1 + 1, (w * h) as nat) {
                        Ok(cells) => Ok((w, h, cells)),
                        Err(err) => Err(err),
                    }
                }
            }
        }
    }
}

/// The digit character for `d`.
fn digit_char(d: u8) -> (c: char)
    requires
        d < 10,
    ensures
        c == spec_digit(d as int),
{
    if d == 0 {
        '0'
    } else if d == 1 {
        '1'
    } else if d == 2 {
        '2'
    } else if d == 3 {
        '3'
    } else if d == 4 {
        '4'
    } else if d == 5 {
        '5'
    } else if d == 6 {
        '6'
    } else if d == 7 {
        '7'
    } else if d == 8 {
        '8'
    } else {
        '9'
    }
}

/// Appends a byte value as three zero-padded digits.
fn push_pad3(out: &mut Vec<char>, n: u8)
    ensures
        final(out)@ == old(out)@ + pad3(n as int),
{
    out.push(digit_char(n / 100));
    out.push(digit_char((n / 10) % 10));
    out.push(digit_char(n % 10));
    proof {
        assert(final(out)@ =~= old(out)@ + pad3(n as int));
    }
}

/// Appends a dimension as four zero-padded digits.
fn push_pad4(out: &mut Vec<char>, n: usize)
    requires
        n <= 9999,
    ensures
        final(out)@ == old(out)@ + pad4(n as int),
{
    out.push(digit_char((n / 1000) as u8));
    out.push(digit_char(((n / 100) % 10) as u8));
    out.push(digit_char(((n / 10) % 10) as u8));
    out.push(digit_char((n % 10) as u8));
    proof {
        assert(final(out)@ =~= old(out)@ + pad4(n as int));
    }
}

/// Encodes a board as project text characters.
#[verifier::rlimit(60)]
pub fn encode_project(board: &Board) -> (out: Vec<char>)
    requires
        board.wf(),
    ensures
        out@ == project_text_of(board.width as int, board.height as int, board.cells@),
{
    let mut out: Vec<char> = Vec::new();
    out.push('R');
    out.push('G');
    out.push('B');
    out.push('\n');
    push_pad4(&mut out, board.width);
    out.push('x');
    push_pad4(&mut out, board.height);
    out.push('\n');
    out.push('\t');
    proof {
        assert(out@ =~= header_of(board.width as int, board.height as int));
    }
    let n: usize = board.cells.len();
    let mut i: usize = 0;
    while i < n
        invariant
            i <= n,
            board.wf(),
            n == board.cells@.len(),
            out@ == header_of(board.width as int, board.height as int) + records_upto(
                board.cells@,
                i as int,
            ),
        decreases n - i,
    {
        let cell = board.cells[i];
        push_pad3(&mut out, cell.color.r);
        push_pad3(&mut out, cell.color.g);
        push_pad3(&mut out, cell.color.b);
        out.push('|');
        push_pad3(&mut out, cell.backcolor.r);
        push_pad3(&mut out, cell.backcolor.g);
        push_pad3(&mut out, cell.backcolor.b);
        out.push('|');
        out.push(cell.symbol);
        out.push('\t');
        proof {
            assert(out@ =~= header_of(board.width as int, board.height as int) + records_upto(
                board.cells@,
                i + 1,
            ));
        }
        i += 1;
    }
    proof {
        assert(out@ == project_text_of(board.width as int, board.height as int, board.cells@));
    }
    out
}

/// Encodes a board as its glyph-only text: symbols row-major, one
/// newline after each row's last cell.
pub fn encode_text(board: &Board) -> (out: Vec<char>)
    requires
        board.wf(),
    ensures
        out@ == text_of(board.width as int, board.cells@),
{
    let w: usize = board.width;
    let mut out: Vec<char> = Vec::new();
    let n: usize = board.cells.len();
    let mut i: usize = 0;
    while i < n
        invariant
            i <= n,
            board.wf(),
            w == board.width,
            n == board.cells@.len(),
            out@ == text_upto(w as int, board.cells@, i as int),
        decreases n - i,
    {
        let cell = board.cells[i];
        out.push(cell.symbol);
        if i % w == w - 1 {
            out.push('\n');
        }
        proof {
            assert(out@ =~= text_upto(w as int, board.cells@, i + 1));
        }
        i += 1;
    }
    out
}

/// Digit characters carry their value and are no control characters.
proof fn lemma_digit(d: int)
    requires
        0 <= d < 10,
    ensures
        is_digit(spec_digit(d)),
        digit_val(spec_digit(d)) == d,
        spec_digit(d) != '\n',
        spec_digit(d) != '\t',
{
}

/// Three zero-padded digits read back as the number they encode.
proof fn lemma_decimal3(v: int)
    requires
        0 <= v < 1000,
    ensures
        100 * (v / 100) + 10 * ((v / 10) % 10) + v % 10 == v,
{
    vstd::arithmetic::div_mod::lemma_fundamental_div_mod(v, 10);
    vstd::arithmetic::div_mod::lemma_fundamental_div_mod(v / 10, 10);
    vstd::arithmetic::div_mod::lemma_div_denominator(v, 10, 10);
}

/// Four zero-padded digits read back as the number they encode.
proof fn lemma_decimal4(v: int)
    requires
        0 <= v < 10000,
    ensures
        1000 * (v / 1000) + 100 * ((v / 100) % 10) + 10 * ((v / 10) % 10) + v % 10 == v,
{
    vstd::arithmetic::div_mod::lemma_fundamental_div_mod(v, 10);
    vstd::arithmetic::div_mod::lemma_fundamental_div_mod(v / 10, 10);
    vstd::arithmetic::div_mod::lemma_fundamental_div_mod(v / 100, 10);
    vstd::arithmetic::div_mod::lemma_div_denominator(v, 10, 10);
    vstd::arithmetic::div_mod::lemma_div_denominator(v, 100, 10);
}

/// A record body is 21 characters that decode back to their cell, and
/// none but the symbol position can hold a tab or newline.
proof fn lemma_record_body(cell: Cell)
    ensures
        record_body(cell).len() == 21,
        record_body(cell)[20] == cell.symbol,
        record_ok(record_body(cell)),
        cell_of_record(record_body(cell)) == cell,
        forall|k: int|
            0 <= k < 20 ==> #[trigger] record_body(cell)[k] != '\t' && record_body(cell)[k]
                != '\n',
{
    let b = record_body(cell);
    let fr = cell.color.r as int;
    let fg = cell.color.g as int;
    let fb = cell.color.b as int;
    let br = cell.backcolor.r as int;
    let bg = cell.backcolor.g as int;
    let bb = cell.backcolor.b as int;
    assert(b =~= seq![
        spec_digit(fr / 100),
        spec_digit((fr / 10) % 10),
        spec_digit(fr % 10),
        spec_digit(fg / 100),
        spec_digit((fg / 10) % 10),
        spec_digit(fg % 10),
        spec_digit(fb / 100),
        spec_digit((fb / 10) % 10),
        spec_digit(fb % 10),
        '|',
        spec_digit(br / 100),
        spec_digit((br / 10) % 10),
        spec_digit(br % 10),
        spec_digit(bg / 100),
        spec_digit((bg / 10) % 10),
        spec_digit(bg % 10),
        spec_digit(bb / 100),
        spec_digit((bb / 10) % 10),
        spec_digit(bb % 10),
        '|',
        cell.symbol,
    ]);
    let chans = seq![fr, fg, fb, br, bg, bb];
    assert forall|ci: int| 0 <= ci < 6 implies {
        let v = #[trigger] chans[ci];
        &&& is_digit(spec_digit(v / 100))
        &&& is_digit(spec_digit((v / 10) % 10))
        &&& is_digit(spec_digit(v % 10))
        &&& 100 * digit_val(spec_digit(v / 100)) + 10 * digit_val(spec_digit((v / 10) % 10))
            + digit_val(spec_digit(v % 10)) == v
    } by {
        let v = chans[ci];
        lemma_digit(v / 100);
        lemma_digit((v / 10) % 10);
        lemma_digit(v % 10);
        lemma_decimal3(v);
    }
    assert(chans[0] == fr && chans[1] == fg && chans[2] == fb && chans[3] == br && chans[4] == bg
        && chans[5] == bb);
    assert(parse3(b, 0) == fr);
    assert(parse3(b, 3) == fg);
    assert(parse3(b, 6) == fb);
    assert(parse3(b, 10) == br);
    assert(parse3(b, 13) == bg);
    assert(parse3(b, 16) == bb);
    assert forall|k: int| 0 <= k < 20 implies #[trigger] b[k] != '\t' && b[k] != '\n' by {
        if k != 9 && k != 19 {
            let v = if k < 3 {
                fr
            } else if k < 6 {
                fg
            } else if k < 9 {
                fb
            } else if k < 13 {
                br
            } else if k < 16 {
                bg
            } else {
                bb
            };
            assert(is_digit(b[k]));
        }
    }
}

/// The encoding of `n` cells is 22 characters per cell.
proof fn lemma_records_upto_len(cells: Seq<Cell>, n: int)
    requires
        0 <= n,
    ensures
        records_upto(cells, n).len() == 22 * n,
    decreases n,
{
    if n > 0 {
        lemma_records_upto_len(cells, n - 1);
        lemma_record_body(cells[n - 1]);
    }
}

/// Each cell's 22 characters sit at their own offset of the encoding.
proof fn lemma_records_upto_index(cells: Seq<Cell>, n: int, j: int)
    requires
        0 <= j < n <= cells.len(),
    ensures
        records_upto(cells, n).subrange(22 * j, 22 * j + 22) == record_body(cells[j])
            + seq!['\t'],
    decreases n,
{
    lemma_records_upto_len(cells, n);
    lemma_records_upto_len(cells, n - 1);
    lemma_record_body(cells[n - 1]);
    if j == n - 1 {
        assert(records_upto(cells, n).subrange(22 * j, 22 * j + 22) =~= record_body(cells[j])
            + seq!['\t']);
    } else {
        lemma_records_upto_index(cells, n - 1, j);
        lemma_record_body(cells[j]);
        assert(records_upto(cells, n).subrange(22 * j, 22 * j + 22) =~= records_upto(
            cells,
            n - 1,
        ).subrange(22 * j, 22 * j + 22));
    }
}

/// Scanning the cell line of an encoded board from record `i` on yields
/// exactly the remaining cells.
#[verifier::rlimit(60)]
proof fn lemma_parse_encoded(l3: Seq<char>, cells: Seq<Cell>, i: int)
    requires
        0 <= i <= cells.len(),
        l3.len() == 1 + 22 * cells.len(),
        forall|q: int|
            0 <= q < cells.len() ==> (#[trigger] cells[q]).symbol != '\t' && cells[q].symbol
                != '\n',
        forall|q: int|
            0 <= q < cells.len() ==> #[trigger] l3.subrange(1 + 22 * q, 1 + 22 * q + 22)
                == record_body(cells[q]) + seq!['\t'],
    ensures
        parse_cells(l3, 1 + 22 * i, (cells.len() - i) as nat) == Ok::<Seq<Cell>, FormatError>(
            cells.subrange(i, cells.len() as int),
        ),
    decreases cells.len() - i,
{
    let len = cells.len() as int;
    if i == len {
        assert(cells.subrange(i, len) =~= Seq::<Cell>::empty());
    } else {
        let pos = 1 + 22 * i;
        let seg = l3.subrange(pos, pos + 22);
        lemma_record_body(cells[i]);
        let body = record_body(cells[i]);
        assert(seg == body + seq!['\t']);
        assert forall|k: int| pos <= k < pos + 21 implies l3[k] != '\t' by {
            assert(l3[k] == seg[k - pos]);
            assert(seg[k - pos] == body[k - pos]);
            if k - pos == 20 {
                assert(body[20] == cells[i].symbol);
            }
        }
        assert(l3[pos + 21] == seg[21]);
        lemma_find_ch_scan(l3, pos, '\t', pos + 21);
        let field = l3.subrange(pos, pos + 21);
        assert(field =~= body);
        if i == len - 1 {
            assert(cells.subrange(i, len) =~= seq![cells[i]]);
        } else {
            lemma_parse_encoded(l3, cells, i + 1);
            assert(seq![cells[i]] + cells.subrange(i + 1, len) =~= cells.subrange(i, len));
        }
    }
}

/// Decoding an encoded board yields the board back, cell for cell, for
/// any board whose symbols are no tabs or newlines.
#[verifier::rlimit(100)]
pub proof fn lemma_project_round_trip(width: int, height: int, cells: Seq<Cell>)
    requires
        0 < width <= 9999,
        0 < height <= 9999,
        cells.len() == width * height,
        forall|q: int|
            0 <= q < cells.len() ==> (#[trigger] cells[q]).symbol != '\t' && cells[q].symbol
                != '\n',
    ensures
        spec_decode(project_text_of(width, height, cells)) == Ok::<
            (int, int, Seq<Cell>),
            FormatError,
        >((width, height, cells)),
{
    let t = project_text_of(width, height, cells);
    let hdr = header_of(width, height);
    let recs = records_upto(cells, cells.len() as int);
    let len = cells.len() as int;
    lemma_records_upto_len(cells, len);
    assert(1 <= len) by (nonlinear_arith)
        requires
            0 < width <= 9999,
            0 < height <= 9999,
            len == width * height,
    ;
    let dims = seq![width, height];
    assert forall|di: int| 0 <= di < 2 implies {
        let d = #[trigger] dims[di];
        &&& is_digit(spec_digit(d / 1000))
        &&& is_digit(spec_digit((d / 100) % 10))
        &&& is_digit(spec_digit((d / 10) % 10))
        &&& is_digit(spec_digit(d % 10))
        &&& 1000 * digit_val(spec_digit(d / 1000)) + 100 * digit_val(spec_digit((d / 100) % 10))
            + 10 * digit_val(spec_digit((d / 10) % 10)) + digit_val(spec_digit(d % 10)) == d
        &&& spec_digit(d / 1000) != '\n' && spec_digit((d / 100) % 10) != '\n' && spec_digit(
            (d / 10) % 10,
        ) != '\n' && spec_digit(d % 10) != '\n'
    } by {
        let d = dims[di];
        lemma_digit(d / 1000);
        lemma_digit((d / 100) % 10);
        lemma_digit((d / 10) % 10);
        lemma_digit(d % 10);
        lemma_decimal4(d);
    }
    assert(dims[0] == width && dims[1] == height);
    assert(hdr =~= seq![
        'R',
        'G',
        'B',
        '\n',
        spec_digit(width / 1000),
        spec_digit((width / 100) % 10),
        spec_digit((width / 10) % 10),
        spec_digit(width % 10),
        'x',
        spec_digit(height / 1000),
        spec_digit((height / 100) % 10),
        spec_digit((height / 10) % 10),
        spec_digit(height % 10),
        '\n',
        '\t',
    ]);
    assert(t.len() == 15 + 22 * len);
    lemma_find_ch_scan(t, 0, '\n', 3);
    lemma_find_ch_scan(t, 4, '\n', 13);
    let l2 = t.subrange(4, 13);
    assert(l2 =~= hdr.subrange(4, 13));
    assert(parse4(l2, 0) == width);
    assert(parse4(l2, 5) == height);
    assert(dims_ok(l2));
    let l3 = t.subrange(14, t.len() as int);
    assert forall|k: int| 15 <= k < t.len() implies t[k] != '\n' by {
        let off = k - 15;
        vstd::arithmetic::div_mod::lemma_fundamental_div_mod(off, 22);
        let q = off / 22;
        let o = off % 22;
        assert(0 <= q < len) by (nonlinear_arith)
            requires
                0 <= off < 22 * len,
                off == 22 * q + o,
                0 <= o < 22,
        ;
        lemma_records_upto_index(cells, len, q);
        lemma_record_body(cells[q]);
        let seg = recs.subrange(22 * q, 22 * q + 22);
        assert(t[k] == recs[off]);
        assert(recs[off] == seg[o]);
        assert(seg[o] == (record_body(cells[q]) + seq!['\t'])[o]);
    }
    lemma_find_ch_scan(t, 14, '\n', t.len() as int);
    assert(l3 =~= seq!['\t'] + recs);
    lemma_find_ch_scan(l3, 0, '\t', 0);
    assert forall|q: int| 0 <= q < len implies #[trigger] l3.subrange(
        1 + 22 * q,
        1 + 22 * q + 22,
    ) == record_body(cells[q]) + seq!['\t'] by {
        lemma_records_upto_index(cells, len, q);
        assert(l3.subrange(1 + 22 * q, 1 + 22 * q + 22) =~= recs.subrange(22 * q, 22 * q + 22));
    }
    lemma_parse_encoded(l3, cells, 0);
    assert(cells.subrange(0, len) =~= cells);
    assert((width * height) as nat == (len - 0) as nat);
}

/// The first index in `[from, limit)` holding `c`, or `limit`.
fn find_to(chars: &Vec<char>, from: usize, limit: usize, c: char) -> (r: usize)
    requires
        from <= limit <= chars@.len(),
    ensures
        from <= r <= limit,
        forall|j: int| from <= j < r ==> chars@[j] != c,
        r < limit ==> chars@[r as int] == c,
{
    let mut j: usize = from;
    while j < limit
        invariant
            from <= j <= limit <= chars@.len(),
            forall|k: int| from <= k < j ==> chars@[k] != c,
        decreases limit - j,
    {
        if chars[j] == c {
            return j;
        }
        j += 1;
    }
    j
}

/// The value of a digit character, or `None` for any other character.
fn digit_of(c: char) -> (r: Option<u8>)
    ensures
        r.is_some() <==> is_digit(c),
        r.is_some() ==> r.unwrap() == digit_val(c),
{
    let u = c as u32;
    if 48 <= u && u <= 57 {
        Some((u - 48) as u8)
    } else {
        None
    }
}

/// The byte value of the three digits at `off`, or `None` when a
/// character is no digit or the value exceeds a byte.
fn triple_at(chars: &Vec<char>, off: usize) -> (r: Option<u8>)
    requires
        off + 3 <= chars@.len(),
    ensures
        r.is_some() <==> triple_ok(chars@, off as int),
        r.is_some() ==> r.unwrap() == parse3(chars@, off as int),
{
    let n = chars.len();
    proof {
        assert(off + 2 < n);
    }
    let d0 = digit_of(chars[off]);
    let d1 = digit_of(chars[off + 1]);
    let d2 = digit_of(chars[off + 2]);
    match (d0, d1, d2) {
        (Some(a), Some(b), Some(c)) => {
            let v: u32 = 100 * (a as u32) + 10 * (b as u32) + (c as u32);
            if v <= 255 {
                Some(v as u8)
            } else {
                None
            }
        },
        _ => None,
    }
}

/// The value of the four digits at `off`, or `None` when a character is
/// no digit.
fn quad_at(chars: &Vec<char>, off: usize) -> (r: Option<u16>)
    requires
        off + 4 <= chars@.len(),
    ensures
        r.is_some() <==> quad_digits(chars@, off as int),
        r.is_some() ==> r.unwrap() == parse4(chars@, off as int) && r.unwrap() <= 9999,
{
    let n = chars.len();
    proof {
        assert(off + 3 < n);
    }
    let d0 = digit_of(chars[off]);
    let d1 = digit_of(chars[off + 1]);
    let d2 = digit_of(chars[off + 2]);
    let d3 = digit_of(chars[off + 3]);
    match (d0, d1, d2, d3) {
        (Some(a), Some(b), Some(c), Some(d)) => {
            let v: u32 = 1000 * (a as u32) + 100 * (b as u32) + 10 * (c as u32) + (d as u32);
            Some(v as u16)
        },
        _ => None,
    }
}

/// Decodes project text characters into a board, or reports the first
/// problem. Nothing is decoded partially, and no input panics.
/// Parses the fixed-width record in `[pos, end)`: `None` when it is
/// malformed.
fn parse_record(chars: &Vec<char>, pos: usize, end: usize) -> (r: Option<Cell>)
    requires
        pos <= end <= chars@.len(),
    ensures
        ({
            let field = chars@.subrange(pos as int, end as int);
            match r {
                Some(cell) => record_ok(field) && cell == cell_of_record(field),
                None => !record_ok(field),
            }
        }),
{
    let ghost field = chars@.subrange(pos as int, end as int);
    proof {
        assert forall|k: int| 0 <= k < field.len() implies field[k] == chars@[pos + k] by {}
    }
    if end - pos < 21 {
        return None;
    }
    let c0 = triple_at(chars, pos);
    let c3 = triple_at(chars, pos + 3);
    let c6 = triple_at(chars, pos + 6);
    let c10 = triple_at(chars, pos + 10);
    let c13 = triple_at(chars, pos + 13);
    let c16 = triple_at(chars, pos + 16);
    proof {
        assert(triple_ok(field, 0) == triple_ok(chars@, pos as int) && (triple_ok(field, 0)
            ==> parse3(field, 0) == parse3(chars@, pos as int)));
        assert(triple_ok(field, 3) == triple_ok(chars@, pos + 3 as int) && (triple_ok(field, 3)
            ==> parse3(field, 3) == parse3(chars@, pos + 3 as int)));
        assert(triple_ok(field, 6) == triple_ok(chars@, pos + 6 as int) && (triple_ok(field, 6)
            ==> parse3(field, 6) == parse3(chars@, pos + 6 as int)));
        assert(triple_ok(field, 10) == triple_ok(chars@, pos + 10 as int) && (triple_ok(field, 10)
            ==> parse3(field, 10) == parse3(chars@, pos + 10 as int)));
        assert(triple_ok(field, 13) == triple_ok(chars@, pos + 13 as int) && (triple_ok(field, 13)
            ==> parse3(field, 13) == parse3(chars@, pos + 13 as int)));
        assert(triple_ok(field, 16) == triple_ok(chars@, pos + 16 as int) && (triple_ok(field, 16)
            ==> parse3(field, 16) == parse3(chars@, pos + 16 as int)));
    }
    if c0.is_none() || c3.is_none() || c6.is_none() || c10.is_none() || c13.is_none()
        || c16.is_none() {
        proof {
            assert(!record_ok(field));
        }
        return None;
    }
    let cell: Cell = Cell {
        color: Rgb { r: c0.unwrap(), g: c3.unwrap(), b: c6.unwrap() },
        backcolor: Rgb { r: c10.unwrap(), g: c13.unwrap(), b: c16.unwrap() },
        symbol: chars[pos + 20],
    };
    proof {
        assert(record_ok(field));
        assert(cell == cell_of_record(field));
    }
    Some(cell)
}

#[verifier::rlimit(100)]
#[verifier::loop_isolation(false)]
pub fn decode_project(chars: &Vec<char>) -> (r: Result<Board, FormatError>)
    ensures
        match r {
            Ok(board) => board.wf() && spec_decode(chars@) == Ok::<
                (int, int, Seq<Cell>),
                FormatError,
            >((board.width as int, board.height as int, board.cells@)),
            Err(e) => spec_decode(chars@) == Err::<(int, int, Seq<Cell>), FormatError>(e),
        },
{
    let ghost t = chars@;
    let len: usize = chars.len();
    let n1 = find_to(chars, 0, len, '\n');
    proof {
        lemma_find_ch_scan(t, 0, '\n', n1 as int);
    }
    if !(n1 == 3 && chars[0] == 'R' && chars[1] == 'G' && chars[2] == 'B') {
        return Err(FormatError::BadHeader);
    }
    if n1 >= len {
        return Err(FormatError::BadDimensions);
    }
    let n2 = find_to(chars, n1 + 1, len, '\n');
    proof {
        lemma_find_ch_scan(t, n1 + 1, '\n', n2 as int);
    }
    let ghost l2 = t.subrange(n1 + 1, n2 as int);
    if n2 - (n1 + 1) < 9 {
        return Err(FormatError::BadDimensions);
    }
    let wq = quad_at(chars, n1 + 1);
    let hq = quad_at(chars, n1 + 1 + 5);
    proof {
        assert(l2.len() >= 9);
        assert forall|k: int| 0 <= k < 9 implies l2[k] == t[n1 + 1 + k] by {}
        assert(quad_digits(l2, 0) == quad_digits(t, n1 + 1 as int));
        assert(quad_digits(l2, 5) == quad_digits(t, n1 + 1 + 5 as int));
        if quad_digits(l2, 0) {
            assert(parse4(l2, 0) == parse4(t, n1 + 1 as int));
        }
        if quad_digits(l2, 5) {
            assert(parse4(l2, 5) == parse4(t, n1 + 1 + 5 as int));
        }
    }
    let (w, h): (u16, u16) = match (wq, hq) {
        (Some(a), Some(b)) => {
            if a == 0 || b == 0 {
                return Err(FormatError::BadDimensions);
            }
            (a, b)
        },
        _ => {
            return Err(FormatError::BadDimensions);
        },
    };
    if n2 >= len {
        return Err(FormatError::MissingFields);
    }
    let n3 = find_to(chars, n2 + 1, len, '\n');
    proof {
        lemma_find_ch_scan(t, n2 + 1, '\n', n3 as int);
    }
    let ghost base = n2 + 1 as int;
    let ghost l3 = t.subrange(base, n3 as int);
    let t1 = find_to(chars, n2 + 1, n3, '\t');
    proof {
        assert forall|j: int| 0 <= j < t1 - base implies l3[j] != '\t' by {
            assert(l3[j] == t[base + j]);
        }
        lemma_find_ch_scan(l3, 0, '\t', t1 - base);
    }
    if t1 >= n3 {
        return Err(FormatError::MissingFields);
    }
    proof {
        assert((w as int) * (h as int) <= 9999 * 9999) by (nonlinear_arith)
            requires
                0 < w <= 9999,
                0 < h <= 9999,
        ;
    }
    let count: usize = (w as usize) * (h as usize);
    let ghost p0 = (t1 + 1) - base;
    let mut cellsv: Vec<Cell> = Vec::new();
    let mut pos: usize = t1 + 1;
    let mut i: usize = 0;
    while i < count
        invariant
            i <= count,
            count == (w as int) * (h as int),
            0 < w <= 9999,
            0 < h <= 9999,
            t == chars@,
            base == n2 + 1,
            n2 + 1 <= n3 <= len,
            len == t.len(),
            l3 == t.subrange(base, n3 as int),
            base <= pos,
            pos - base <= l3.len(),
            cellsv@.len() == i,
            parse_cells(l3, p0, count as nat) == (match parse_cells(
                l3,
                pos - base,
                (count - i) as nat,
            ) {
                Ok(rest) => Ok::<Seq<Cell>, FormatError>(cellsv@ + rest),
                Err(e) => Err(e),
            }),
        decreases count - i,
    {
        let e_t = find_to(chars, pos, n3, '\t');
        let ghost p = pos - base;
        let ghost e_l = e_t - base;
        proof {
            assert forall|j: int| p <= j < e_l implies l3[j] != '\t' by {
                assert(l3[j] == t[base + j]);
            }
            lemma_find_ch_scan(l3, p, '\t', e_l);
        }
        let ghost field = l3.subrange(p, e_l);
        proof {
            assert forall|k: int| 0 <= k < field.len() implies field[k] == t[pos + k] by {
                assert(field[k] == l3[p + k]);
                assert(l3[p + k] == t[base + p + k]);
            }
            assert(chars@.subrange(pos as int, e_t as int) =~= field);
        }
        let rec = parse_record(chars, pos, e_t);
        if rec.is_none() {
            return Err(FormatError::BadRecord);
        }
        let cell: Cell = rec.unwrap();
        proof {
            assert(record_ok(field));
            assert(cell == cell_of_record(field));
        }
        if i < count - 1 {
            if e_t >= n3 {
                return Err(FormatError::MissingFields);
            }
            let ghost built0 = cellsv@;
            cellsv.push(cell);
            pos = e_t + 1;
            proof {
                let m = (count - i) as nat;
                let rest_r = parse_cells(l3, e_l + 1, (m - 1) as nat);
                assert(parse_cells(l3, p, m) == (match rest_r {
                    Ok(rest) => Ok::<Seq<Cell>, FormatError>(seq![cell] + rest),
                    Err(e) => Err(e),
                }));
                assert(pos - base == e_l + 1);
                assert((count - (i + 1)) as nat == (m - 1) as nat);
                match rest_r {
                    Ok(rest) => {
                        assert(parse_cells(l3, p0, count as nat) == Ok::<Seq<Cell>, FormatError>(
                            built0 + (seq![cell] + rest),
                        ));
                        assert(built0 + (seq![cell] + rest) =~= cellsv@ + rest);
                    },
                    Err(e) => {
                        assert(parse_cells(l3, p0, count as nat) == Err::<Seq<Cell>, FormatError>(
                            e,
                        ));
                    },
                }
            }
        } else {
            let ghost built0 = cellsv@;
            cellsv.push(cell);
            proof {
                let m = (count - i) as nat;
                assert(m == 1);
                assert(parse_cells(l3, p, m) == Ok::<Seq<Cell>, FormatError>(seq![cell]));
                assert(parse_cells(l3, p0, count as nat) == Ok::<Seq<Cell>, FormatError>(
                    built0 + seq![cell],
                ));
                assert(built0 + seq![cell] =~= cellsv@);
                assert(parse_cells(l3, pos - base, 0) == Ok::<Seq<Cell>, FormatError>(
                    Seq::empty(),
                ));
                assert(cellsv@ + Seq::<Cell>::empty() =~= cellsv@);
            }
        }
        i += 1;
    }
    proof {
        assert(parse_cells(l3, pos - base, 0) == Ok::<Seq<Cell>, FormatError>(Seq::empty()));
        assert(cellsv@ + Seq::<Cell>::empty() =~= cellsv@);
        assert(parse_cells(l3, p0, count as nat) == Ok::<Seq<Cell>, FormatError>(cellsv@));
    }
    let board = Board { width: w as usize, height: h as usize, cells: cellsv };
    Ok(board)
}

/// Relies on str::chars: the characters of the string, in order.
#[verifier::external_body]
pub(crate) fn chars_of(text: &str) -> (r: Vec<char>)
    ensures
        r@ == text@,
{
    text.chars().collect()
}

/// Relies on String's FromIterator over characters: the characters
/// joined back into a string.
#[verifier::external_body]
pub(crate) fn string_from_chars(chars: &Vec<char>) -> (r: String)
    ensures
        r@ == chars@,
{
    chars.iter().collect()
}

} // verus!
