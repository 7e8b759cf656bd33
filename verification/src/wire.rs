//! The wire format, as mathematics.
//!
//! Every multi-byte integer on the wire is little-endian; there is no
//! padding and no alignment.  A string is a variable-width length header
//! followed by its UTF-8 bytes; the low two bits of the first header byte
//! select the header width.  An enum variant is announced by a tag whose
//! width follows from the variant count.  These spec functions are the
//! single authority the encoder and the decoder are proved against.

use vstd::prelude::*;

verus! {

/// The `n` little-endian base-256 digits of `x`.
pub open spec fn le_bytes(x: nat, n: nat) -> Seq<u8>
    decreases n,
{
    if n == 0 {
        Seq::empty()
    } else {
        seq![(x % 256) as u8] + le_bytes(x / 256, (n - 1) as nat)
    }
}

/// 256 to the power `n`: the number of values `n` bytes can carry.
pub open spec fn pow256(n: nat) -> nat
    decreases n,
{
    if n == 0 {
        1
    } else {
        256 * pow256((n - 1) as nat)
    }
}

pub broadcast proof fn lemma_le_bytes_len(x: nat, n: nat)
    ensures
        (#[trigger] le_bytes(x, n)).len() == n,
    decreases n,
{
    if n > 0 {
        lemma_le_bytes_len(x / 256, (n - 1) as nat);
    }
}

/// Little-endian digits determine their value: equal digit strings of
/// equal width come from equal values, as long as both values fit.
pub proof fn lemma_le_bytes_injective(x: nat, y: nat, n: nat)
    requires
        x < pow256(n),
        y < pow256(n),
        le_bytes(x, n) == le_bytes(y, n),
    ensures
        x == y,
    decreases n,
{
    if n > 0 {
        assert(le_bytes(x, n)[0] == (x % 256) as u8);
        assert(le_bytes(y, n)[0] == (y % 256) as u8);
        assert(le_bytes(x, n).subrange(1, n as int) =~= le_bytes(x / 256, (n - 1) as nat)) by {
            lemma_le_bytes_len(x / 256, (n - 1) as nat);
        }
        assert(le_bytes(y, n).subrange(1, n as int) =~= le_bytes(y / 256, (n - 1) as nat)) by {
            lemma_le_bytes_len(y / 256, (n - 1) as nat);
        }
        assert(x / 256 < pow256((n - 1) as nat) && y / 256 < pow256((n - 1) as nat)) by (
        nonlinear_arith)
            requires
                x < 256 * pow256((n - 1) as nat),
                y < 256 * pow256((n - 1) as nat),
        ;
        lemma_le_bytes_injective(x / 256, y / 256, (n - 1) as nat);
        assert(x == 256 * (x / 256) + x % 256) by (nonlinear_arith);
        assert(y == 256 * (y / 256) + y % 256) by (nonlinear_arith);
    }
}

/// The value little-endian digits denote.
pub open spec fn le_val(s: Seq<u8>) -> nat
    decreases s,
{
    if s.len() == 0 {
        0
    } else {
        (s[0] + 256 * le_val(s.subrange(1, s.len() as int))) as nat
    }
}

/// Reading back the digits of a value gives the value.
pub proof fn lemma_le_val_le_bytes(x: nat, n: nat)
    requires
        x < pow256(n),
    ensures
        le_val(le_bytes(x, n)) == x,
    decreases n,
{
    if n > 0 {
        lemma_le_bytes_len(x, n);
        lemma_le_bytes_len(x / 256, (n - 1) as nat);
        assert(le_bytes(x, n).subrange(1, n as int) =~= le_bytes(x / 256, (n - 1) as nat));
        assert(x / 256 < pow256((n - 1) as nat)) by (nonlinear_arith)
            requires
                x < 256 * pow256((n - 1) as nat),
        ;
        lemma_le_val_le_bytes(x / 256, (n - 1) as nat);
        assert(x == x % 256 + 256 * (x / 256)) by (nonlinear_arith);
    }
}

/// The width tag a string length header carries in its low two bits.
pub open spec fn str_header_tag(len: nat) -> nat {
    if len < 0x40 {
        0
    } else if len < 0x4000 {
        1
    } else if len < 0x4000_0000 {
        2
    } else {
        3
    }
}

/// Total byte count of the string length header for a given length.
pub open spec fn str_header_width(len: nat) -> nat {
    if len < 0x40 {
        1
    } else if len < 0x4000 {
        2
    } else if len < 0x4000_0000 {
        4
    } else {
        8
    }
}

/// The largest length a header of the given tag can carry, plus one.
pub open spec fn str_header_cap(tag: nat) -> nat {
    if tag == 0 {
        0x40
    } else if tag == 1 {
        0x4000
    } else if tag == 2 {
        0x4000_0000
    } else {
        0x4000_0000_0000_0000
    }
}

/// Whether a string of this many UTF-8 bytes can go on the wire at all.
pub open spec fn str_len_ok(len: nat) -> bool {
    len < 0x4000_0000_0000_0000
}

/// The length header: the chosen width tag in the low two bits of the
/// first byte, the length itself in the remaining bits, little-endian.
pub open spec fn str_header(len: nat) -> Seq<u8> {
    le_bytes(str_header_tag(len) + 4 * len, str_header_width(len))
}

/// The full wire form of a string with the given UTF-8 bytes.
pub open spec fn str_wire(bytes: Seq<u8>) -> Seq<u8> {
    str_header(bytes.len()) + bytes
}

/// Encoders pick the smallest legal header: every smaller tag caps out
/// below the length it would have to carry.
pub proof fn lemma_str_header_minimal(len: nat)
    requires
        str_len_ok(len),
    ensures
        str_header(len).len() == str_header_width(len),
        len < str_header_cap(str_header_tag(len)),
        forall|t: nat| t < str_header_tag(len) ==> len >= str_header_cap(t),
{
    lemma_le_bytes_len(str_header_tag(len) + 4 * len, str_header_width(len));
}

/// Byte width of the tag announcing a variant of a sum with `n` variants.
pub open spec fn enum_tag_width(n: nat) -> nat {
    if n < 0x100 {
        1
    } else if n < 0x1_0000 {
        2
    } else {
        4
    }
}

/// The tag width rule picks the smallest of the legal widths 1, 2 and 4
/// that leaves every count below the width's carrying capacity.
pub proof fn lemma_enum_tag_width_minimal(n: nat)
    ensures
        n < pow256(enum_tag_width(n)) || enum_tag_width(n) == 4,
        forall|w: nat| (w == 1 || w == 2) && w < enum_tag_width(n) ==> n >= pow256(w),
{
    reveal_with_fuel(pow256, 5);
    assert(pow256(1) == 256);
    assert(pow256(2) == 0x1_0000);
    assert(pow256(4) == 0x1_0000_0000);
}

} // verus!
