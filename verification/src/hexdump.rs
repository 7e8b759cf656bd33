//! A hexadecimal dump formatter.
//!
//! [`HexReader`] renders byte chunks as classic hexdump lines: an offset
//! column, the bytes in hexadecimal with a gap after the eighth, padding
//! out to a fixed column, and a printable-character gutter.  The exact
//! line text is given by [`hr_line`]; the formatter appends one such
//! line per call and counts the lines for the offset column.

use vstd::prelude::*;

use crate::render::{push_char, push_str};
use vstd::string::StrSliceExecFns;

verus! {

/// How many bytes one dump line shows.
pub const HR_BYTES_PER_LINE: usize = 16;

/// The hexadecimal digit character for a value below sixteen.
pub open spec fn hex_digit(d: nat) -> char {
    if d == 0 {
        '0'
    } else if d == 1 {
        '1'
    } else if d == 2 {
        '2'
    } else if d == 3 {
        '3'
    } else if d == 4 {
        '4'
    } else if d == 5 {
        '5'
    } else if d == 6 {
        '6'
    } else if d == 7 {
        '7'
    } else if d == 8 {
        '8'
    } else if d == 9 {
        '9'
    } else if d == 10 {
        'a'
    } else if d == 11 {
        'b'
    } else if d == 12 {
        'c'
    } else if d == 13 {
        'd'
    } else if d == 14 {
        'e'
    } else {
        'f'
    }
}

/// A byte as two hexadecimal digits.
pub open spec fn hex2(b: u8) -> Seq<char> {
    seq![hex_digit(b as nat / 16), hex_digit(b as nat % 16)]
}

/// The hexadecimal digits of a number, most significant first.
pub open spec fn hex_digits(n: nat) -> Seq<char>
    decreases n,
{
    if n < 16 {
        seq![hex_digit(n)]
    } else {
        hex_digits(n / 16).push(hex_digit(n % 16))
    }
}

/// The same character `k` times.
pub open spec fn char_repeat(c: char, k: nat) -> Seq<char>
    decreases k,
{
    if k == 0 {
        Seq::empty()
    } else {
        char_repeat(c, (k - 1) as nat).push(c)
    }
}

/// A number in hexadecimal, zero-padded to at least eight digits.
pub open spec fn hex_pad8(n: nat) -> Seq<char> {
    if hex_digits(n).len() >= 8 {
        hex_digits(n)
    } else {
        char_repeat('0', (8 - hex_digits(n).len()) as nat) + hex_digits(n)
    }
}

/// The hexadecimal cells of a line: a space before each byte and one
/// extra space after the eighth column.
pub open spec fn hex_cells(s: Seq<u8>) -> Seq<char>
    decreases s,
{
    if s.len() == 0 {
        Seq::empty()
    } else {
        hex_cells(s.drop_last()) + (if s.len() - 1 == 8 {
            seq![' ', ' ']
        } else {
            seq![' ']
        }) + hex2(s.last())
    }
}

/// The printable-character gutter: bytes from space through delete show
/// themselves, everything else a dot.
pub open spec fn ascii_cells(s: Seq<u8>) -> Seq<char>
    decreases s,
{
    if s.len() == 0 {
        Seq::empty()
    } else {
        ascii_cells(s.drop_last()).push(
            if 32 <= s.last() && s.last() <= 127 {
                s.last() as char
            } else {
                '.'
            },
        )
    }
}

/// One dump line appended to the text so far: the offset of the line's
/// first byte, the hexadecimal cells, spaces out to the gutter column,
/// and the printable gutter.
pub open spec fn hr_line(prev: Seq<char>, line_count: nat, bytes: Seq<u8>) -> Seq<char> {
    let with_hex = prev + seq!['$'] + hex_pad8(16 * line_count) + seq![' '] + hex_cells(bytes);
    let padded = with_hex + char_repeat(
        ' ',
        if with_hex.len() > 60 {
            0nat
        } else {
            (61 - with_hex.len()) as nat
        },
    );
    padded + seq!['|'] + ascii_cells(bytes) + seq!['|', '\n']
}

fn hex_digit_exec(d: u8) -> (c: char)
    requires
        d < 16,
    ensures
        c == hex_digit(d as nat),
{
    if d == 0 {
        '0'
    } else if d == 1 {
        '1'
    } else if d == 2 {
        '2'
    } else if d == 3 {
        '3'
    } else if d == 4 {
        '4'
    } else if d == 5 {
        '5'
    } else if d == 6 {
        '6'
    } else if d == 7 {
        '7'
    } else if d == 8 {
        '8'
    } else if d == 9 {
        '9'
    } else if d == 10 {
        'a'
    } else if d == 11 {
        'b'
    } else if d == 12 {
        'c'
    } else if d == 13 {
        'd'
    } else if d == 14 {
        'e'
    } else {
        'f'
    }
}

/// A number in hexadecimal.
fn hex_to_string(v: u64) -> (r: String)
    ensures
        r@ == hex_digits(v as nat),
    decreases v,
{
    if v < 16 {
        let mut s = String::new();
        push_char(&mut s, hex_digit_exec(v as u8));
        proof {
            assert(Seq::<char>::empty().push(hex_digit(v as nat)) =~= seq![hex_digit(v as nat)]);
        }
        s
    } else {
        let mut s = hex_to_string(v / 16);
        push_char(&mut s, hex_digit_exec((v % 16) as u8));
        s
    }
}

/// A formatter that renders byte chunks as hexdump lines into an owned
/// text buffer, counting lines for the offset column.  The wrapped
/// value is the byte source a streaming front end reads from; the
/// formatting itself never touches it.
pub struct HexReader<T> {
    pub inner: T,
    pub buf: String,
    pub buf_pos: usize,
    pub line_count: usize,
}

impl<T> HexReader<T> {
    pub fn new(inner: T) -> (r: HexReader<T>)
        ensures
            r.buf@ == Seq::<char>::empty(),
            r.buf_pos == 0,
            r.line_count == 0,
            r.inner == inner,
    {
        HexReader { inner, buf: String::new(), buf_pos: 0, line_count: 0 }
    }

    /// Append one dump line for the given bytes and count it.
    pub fn render_bytes(&mut self, bytes: &[u8])
        requires
            old(self).line_count < usize::MAX / 16,
        ensures
            final(self).buf@ == hr_line(
                old(self).buf@,
                old(self).line_count as nat,
                bytes@,
            ),
            final(self).line_count == old(self).line_count + 1,
            final(self).buf_pos == old(self).buf_pos,
            final(self).inner == old(self).inner,
    {
        let offset: u64 = 16 * (self.line_count as u64);
        push_char(&mut self.buf, '$');
        let digits = hex_to_string(offset);
        let mut padded = String::new();
        let dl = digits.as_str().unicode_len();
        let need: usize = if dl < 8 {
            8 - dl
        } else {
            0
        };
        let mut z: usize = 0;
        while z < need
            invariant
                z <= need,
                padded@ == char_repeat('0', z as nat),
            decreases need - z,
        {
            push_char(&mut padded, '0');
            z = z + 1;
        }
        push_str(&mut padded, digits.as_str());
        proof {
            assert(padded@ == hex_pad8(offset as nat));
        }
        push_str(&mut self.buf, padded.as_str());
        push_char(&mut self.buf, ' ');
        let ghost with_offset = self.buf@;
        let n = bytes.len();
        let mut i: usize = 0;
        while i < n
            invariant
                i <= n,
                n == bytes@.len(),
                self.buf@ == with_offset + hex_cells(bytes@.take(i as int)),
                self.line_count == old(self).line_count,
                self.buf_pos == old(self).buf_pos,
                self.inner == old(self).inner,
            decreases n - i,
        {
            proof {
                assert(bytes@.take(i as int + 1).drop_last() =~= bytes@.take(i as int));
                assert(bytes@.take(i as int + 1).last() == bytes@[i as int]);
            }
            if i == 8 {
                push_char(&mut self.buf, ' ');
            }
            push_char(&mut self.buf, ' ');
            let b = *vstd::slice::slice_index_get(bytes, i);
            push_char(&mut self.buf, hex_digit_exec(b / 16));
            push_char(&mut self.buf, hex_digit_exec(b % 16));
            proof {
                assert(self.buf@ =~= with_offset + hex_cells(bytes@.take(i as int + 1)));
            }
            i = i + 1;
        }
        proof {
            assert(bytes@.take(n as int) =~= bytes@);
        }
        let ghost with_hex = self.buf@;
        proof {
            assert(with_hex + char_repeat(' ', 0nat) =~= with_hex);
        }
        while self.buf.as_str().unicode_len() <= 60
            invariant
                self.buf@ == with_hex + char_repeat(' ', (self.buf@.len() - with_hex.len()) as nat),
                self.buf@.len() >= with_hex.len(),
                with_hex.len() > 60 ==> self.buf@.len() == with_hex.len(),
                with_hex.len() <= 60 ==> self.buf@.len() <= 61,
                self.line_count == old(self).line_count,
                self.buf_pos == old(self).buf_pos,
                self.inner == old(self).inner,
            decreases 61 - self.buf@.len(),
        {
            push_char(&mut self.buf, ' ');
        }
        proof {
            assert(self.buf@ == with_hex + char_repeat(
                ' ',
                if with_hex.len() > 60 {
                    0nat
                } else {
                    (61 - with_hex.len()) as nat
                },
            ));
        }
        push_char(&mut self.buf, '|');
        let ghost with_pad = self.buf@;
        let mut j: usize = 0;
        while j < n
            invariant
                j <= n,
                n == bytes@.len(),
                self.buf@ == with_pad + ascii_cells(bytes@.take(j as int)),
                self.line_count == old(self).line_count,
                self.buf_pos == old(self).buf_pos,
                self.inner == old(self).inner,
            decreases n - j,
        {
            proof {
                assert(bytes@.take(j as int + 1).drop_last() =~= bytes@.take(j as int));
                assert(bytes@.take(j as int + 1).last() == bytes@[j as int]);
            }
            let b = *vstd::slice::slice_index_get(bytes, j);
            if 32 <= b && b <= 127 {
                push_char(&mut self.buf, b as char);
            } else {
                push_char(&mut self.buf, '.');
            }
            j = j + 1;
        }
        proof {
            assert(bytes@.take(n as int) =~= bytes@);
        }
        push_char(&mut self.buf, '|');
        push_char(&mut self.buf, '\n');
        self.line_count = self.line_count + 1;
        proof {
            assert(self.buf@ =~= hr_line(old(self).buf@, old(self).line_count as nat, bytes@));
        }
    }
}

} // verus!
