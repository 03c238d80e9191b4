//! A hexadecimal dump of machine code, sixteen bytes to the line.

use crate::text::{decimal_text, hex_padded, push_digits, push_text};
use vstd::prelude::*;

verus! {

/// `count` spaces.
pub open spec fn spaces(count: int) -> Seq<char> {
    Seq::new(
        if count > 0 {
            count as nat
        } else {
            0
        },
        |i: int| ' ',
    )
}

/// The cell of the byte `b` at column `column`: two hexadecimal digits and a space, and
/// one more space after the eighth byte.
pub open spec fn cell(b: u8, column: int) -> Seq<char> {
    hex_padded(b as nat, 2) + if column == 7 {
        seq![' ', ' ']
    } else {
        seq![' ']
    }
}

/// The cells of the first `count` bytes of `code` from `start` on.
pub open spec fn cells(code: Seq<u8>, start: int, count: int) -> Seq<char>
    decreases count,
{
    if count <= 0 {
        Seq::empty()
    } else {
        cells(code, start, count - 1) + cell(code[start + count - 1], count - 1)
    }
}

/// How many bytes the line `line` of a dump of `len` bytes holds.
pub open spec fn line_size(len: int, line: int) -> int {
    if 16 * line + 16 <= len {
        16
    } else {
        len - 16 * line
    }
}

/// What fills a line of `size` bytes up: three spaces for each missing byte, and one
/// more for a line of eight bytes or fewer.
pub open spec fn filler(size: int) -> Seq<char> {
    spaces(3 * (16 - size)) + if size <= 8 {
        seq![' ']
    } else {
        Seq::empty()
    }
}

/// The line `line` of the dump of `code`: the offset of its first byte in eight
/// hexadecimal digits, a colon and a space, the cells of its bytes, the filler, a line
/// feed.
pub open spec fn dump_line(code: Seq<u8>, line: int) -> Seq<char> {
    hex_padded((16 * line) as nat, 8) + seq![':', ' '] + cells(
        code,
        16 * line,
        line_size(code.len() as int, line),
    ) + filler(line_size(code.len() as int, line)) + seq!['\n']
}

/// The first `count` lines of the dump of `code`.
pub open spec fn dump_lines(code: Seq<u8>, count: int) -> Seq<char>
    decreases count,
{
    if count <= 0 {
        Seq::empty()
    } else {
        dump_lines(code, count - 1) + dump_line(code, count - 1)
    }
}

/// The number of lines of a dump of `len` bytes.
pub open spec fn line_count(len: int) -> int {
    (len + 15) / 16
}

/// The dump of `code`: a heading that tells the number of bytes, then the lines.
pub open spec fn dump_text(code: Seq<u8>) -> Seq<char> {
    "マシンコード ("@ + decimal_text(code.len()) + "バイト):\n"@ + dump_lines(
        code,
        line_count(code.len() as int),
    )
}

/// Appends the line `line` of the dump of `code`.
fn push_dump_line(dump: &mut String, code: &Vec<u8>, line: usize)
    requires
        16 * line < code@.len(),
    ensures
        final(dump)@ == old(dump)@ + dump_line(code@, line as int),
{
    let len = code.len();
    let start: usize = 16 * line;
    let size: usize = if len - start >= 16 {
        16
    } else {
        len - start
    };
    push_digits(dump, start as u64, 16, 8);
    dump.push(':');
    dump.push(' ');
    let ghost head = dump@;
    assert(head =~= old(dump)@ + hex_padded((16 * line) as nat, 8) + seq![':', ' ']);
    let mut j: usize = 0;
    while j < size
        invariant
            j <= size <= 16,
            start + size <= len,
            len == code@.len(),
            dump@ == head + cells(code@, start as int, j as int),
        decreases size - j,
    {
        let ghost before = dump@;
        push_digits(dump, code[start + j] as u64, 16, 2);
        dump.push(' ');
        if j == 7 {
            dump.push(' ');
        }
        assert(dump@ =~= before + cell(code@[start + j], j as int));
        j = j + 1;
    }
    let ghost filled = dump@;
    let mut k: usize = size;
    assert(dump@ =~= filled + spaces(3 * (k - size)));
    while k < 16
        invariant
            size <= k <= 16,
            dump@ == filled + spaces(3 * (k - size)),
        decreases 16 - k,
    {
        dump.push(' ');
        dump.push(' ');
        dump.push(' ');
        k = k + 1;
        assert(dump@ =~= filled + spaces(3 * (k - size)));
    }
    if size <= 8 {
        dump.push(' ');
    }
    dump.push('\n');
    assert(dump@ =~= filled + filler(size as int) + seq!['\n']);
}

/// Dumps `code`.
pub fn dump_code(code: &Vec<u8>) -> (dump: String)
    ensures
        dump@ == dump_text(code@),
{
    let mut dump = String::new();
    push_text(&mut dump, "マシンコード (");
    push_digits(&mut dump, code.len() as u64, 10, 0);
    push_text(&mut dump, "バイト):\n");
    let ghost heading = "マシンコード ("@ + decimal_text(code@.len()) + "バイト):\n"@;
    proof {
        assert(crate::text::zeros(0 - decimal_text(code@.len()).len()) =~= Seq::<char>::empty());
        assert(dump@ =~= heading + dump_lines(code@, 0));
    }
    let len = code.len();
    let lines: usize = if len % 16 == 0 {
        len / 16
    } else {
        len / 16 + 1
    };
    assert(lines == line_count(len as int));
    let mut line: usize = 0;
    while line < lines
        invariant
            len == code@.len(),
            lines == line_count(len as int),
            line <= lines,
            dump@ == heading + dump_lines(code@, line as int),
        decreases lines - line,
    {
        let ghost before = dump@;
        push_dump_line(&mut dump, code, line);
        line = line + 1;
        assert(dump@ =~= heading + dump_lines(code@, line as int));
    }
    dump
}

} // verus!
