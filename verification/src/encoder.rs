//! The generic encode contract and its instances.
//!
//! Every encodable type states, as a spec function, the exact byte
//! sequence it has on the wire.  `logpack_encode` is then proved to write
//! exactly those bytes, and `logpack_sizer` to predict exactly their
//! count — so a caller can pre-allocate from the sizer and the write
//! cannot come up short.

use vstd::prelude::*;

use crate::buffers::BufEncoder;
use crate::wire::{le_bytes, str_header, str_header_tag, str_header_width, str_len_ok, str_wire};
use crate::wire::lemma_le_bytes_len;
use crate::wire_signed::{u8_of_i8, u16_of_i16, u32_of_i32, u64_of_i64};
use crate::wire_signed::{wire_u8_of_i8, wire_u16_of_i16, wire_u32_of_i32, wire_u64_of_i64};
use vstd::string::StringSliceAdditionalSpecFns;

verus! {

/// Per-type encoding: `wire` is the authoritative byte image of a value,
/// `logpack_encode` writes it, `logpack_sizer` predicts its length.
pub trait Encoder {
    /// The exact bytes this value occupies on the wire.
    spec fn wire(&self) -> Seq<u8>;

    /// Whether this value can go on the wire at all.  False only for
    /// values the format cannot carry, such as strings of 2^62 bytes
    /// or more.
    spec fn wire_ok(&self) -> bool;

    /// Write the value.  On success the buffer content grows by exactly
    /// `self.wire()`; the write succeeds precisely when the free space
    /// suffices, and the buffer never loses or changes earlier bytes.
    fn logpack_encode(&self, buf: &mut BufEncoder) -> (r: Result<(), (usize, usize)>)
        requires
            self.wire_ok(),
            old(buf).wf(),
        ensures
            final(buf).wf(),
            final(buf).spec_len() == old(buf).spec_len(),
            final(buf).spec_pos() >= old(buf).spec_pos(),
            r is Ok <==> old(buf).spec_remaining() >= self.wire().len(),
            r is Ok ==> BufEncoder::wrote(*old(buf), *final(buf), self.wire()),
        ;

    /// Predict the exact number of bytes `logpack_encode` would write.
    fn logpack_sizer(&self) -> (n: usize)
        requires
            self.wire_ok(),
            self.wire().len() <= usize::MAX,
        ensures
            n == self.wire().len(),
        ;
}

impl Encoder for u8 {
    open spec fn wire(&self) -> Seq<u8> {
        seq![*self]
    }

    open spec fn wire_ok(&self) -> bool {
        true
    }

    fn logpack_encode(&self, buf: &mut BufEncoder) -> (r: Result<(), (usize, usize)>) {
        buf.put_u8(*self)
    }

    fn logpack_sizer(&self) -> (n: usize) {
        1
    }
}

impl Encoder for u16 {
    open spec fn wire(&self) -> Seq<u8> {
        le_bytes(*self as nat, 2)
    }

    open spec fn wire_ok(&self) -> bool {
        true
    }

    fn logpack_encode(&self, buf: &mut BufEncoder) -> (r: Result<(), (usize, usize)>) {
        proof {
            lemma_le_bytes_len(*self as nat, 2);
        }
        buf.put_u16(*self)
    }

    fn logpack_sizer(&self) -> (n: usize) {
        proof {
            lemma_le_bytes_len(*self as nat, 2);
        }
        2
    }
}

impl Encoder for u32 {
    open spec fn wire(&self) -> Seq<u8> {
        le_bytes(*self as nat, 4)
    }

    open spec fn wire_ok(&self) -> bool {
        true
    }

    fn logpack_encode(&self, buf: &mut BufEncoder) -> (r: Result<(), (usize, usize)>) {
        proof {
            lemma_le_bytes_len(*self as nat, 4);
        }
        buf.put_u32(*self)
    }

    fn logpack_sizer(&self) -> (n: usize) {
        proof {
            lemma_le_bytes_len(*self as nat, 4);
        }
        4
    }
}

impl Encoder for u64 {
    open spec fn wire(&self) -> Seq<u8> {
        le_bytes(*self as nat, 8)
    }

    open spec fn wire_ok(&self) -> bool {
        true
    }

    fn logpack_encode(&self, buf: &mut BufEncoder) -> (r: Result<(), (usize, usize)>) {
        proof {
            lemma_le_bytes_len(*self as nat, 8);
        }
        buf.put_u64(*self)
    }

    fn logpack_sizer(&self) -> (n: usize) {
        proof {
            lemma_le_bytes_len(*self as nat, 8);
        }
        8
    }
}

/// `usize` travels as a 64-bit value whatever the native pointer width.
impl Encoder for usize {
    open spec fn wire(&self) -> Seq<u8> {
        le_bytes(*self as nat, 8)
    }

    open spec fn wire_ok(&self) -> bool {
        true
    }

    fn logpack_encode(&self, buf: &mut BufEncoder) -> (r: Result<(), (usize, usize)>) {
        proof {
            lemma_le_bytes_len(*self as nat, 8);
        }
        buf.put_u64(*self as u64)
    }

    fn logpack_sizer(&self) -> (n: usize) {
        proof {
            lemma_le_bytes_len(*self as nat, 8);
        }
        8
    }
}

impl Encoder for i8 {
    open spec fn wire(&self) -> Seq<u8> {
        seq![u8_of_i8(*self)]
    }

    open spec fn wire_ok(&self) -> bool {
        true
    }

    fn logpack_encode(&self, buf: &mut BufEncoder) -> (r: Result<(), (usize, usize)>) {
        buf.put_u8(wire_u8_of_i8(*self))
    }

    fn logpack_sizer(&self) -> (n: usize) {
        1
    }
}

impl Encoder for i16 {
    open spec fn wire(&self) -> Seq<u8> {
        le_bytes(u16_of_i16(*self) as nat, 2)
    }

    open spec fn wire_ok(&self) -> bool {
        true
    }

    fn logpack_encode(&self, buf: &mut BufEncoder) -> (r: Result<(), (usize, usize)>) {
        proof {
            lemma_le_bytes_len(u16_of_i16(*self) as nat, 2);
        }
        buf.put_u16(wire_u16_of_i16(*self))
    }

    fn logpack_sizer(&self) -> (n: usize) {
        proof {
            lemma_le_bytes_len(u16_of_i16(*self) as nat, 2);
        }
        2
    }
}

impl Encoder for i32 {
    open spec fn wire(&self) -> Seq<u8> {
        le_bytes(u32_of_i32(*self) as nat, 4)
    }

    open spec fn wire_ok(&self) -> bool {
        true
    }

    fn logpack_encode(&self, buf: &mut BufEncoder) -> (r: Result<(), (usize, usize)>) {
        proof {
            lemma_le_bytes_len(u32_of_i32(*self) as nat, 4);
        }
        buf.put_u32(wire_u32_of_i32(*self))
    }

    fn logpack_sizer(&self) -> (n: usize) {
        proof {
            lemma_le_bytes_len(u32_of_i32(*self) as nat, 4);
        }
        4
    }
}

impl Encoder for i64 {
    open spec fn wire(&self) -> Seq<u8> {
        le_bytes(u64_of_i64(*self) as nat, 8)
    }

    open spec fn wire_ok(&self) -> bool {
        true
    }

    fn logpack_encode(&self, buf: &mut BufEncoder) -> (r: Result<(), (usize, usize)>) {
        proof {
            lemma_le_bytes_len(u64_of_i64(*self) as nat, 8);
        }
        buf.put_u64(wire_u64_of_i64(*self))
    }

    fn logpack_sizer(&self) -> (n: usize) {
        proof {
            lemma_le_bytes_len(u64_of_i64(*self) as nat, 8);
        }
        8
    }
}

/// `isize` travels as a 64-bit value whatever the native pointer width.
impl Encoder for isize {
    open spec fn wire(&self) -> Seq<u8> {
        le_bytes(u64_of_i64(*self as i64) as nat, 8)
    }

    open spec fn wire_ok(&self) -> bool {
        true
    }

    fn logpack_encode(&self, buf: &mut BufEncoder) -> (r: Result<(), (usize, usize)>) {
        proof {
            lemma_le_bytes_len(u64_of_i64(*self as i64) as nat, 8);
        }
        buf.put_u64(wire_u64_of_i64(*self as i64))
    }

    fn logpack_sizer(&self) -> (n: usize) {
        proof {
            lemma_le_bytes_len(u64_of_i64(*self as i64) as nat, 8);
        }
        8
    }
}

/// `true` is the byte 1, `false` the byte 0.
impl Encoder for bool {
    open spec fn wire(&self) -> Seq<u8> {
        seq![if *self { 1u8 } else { 0u8 }]
    }

    open spec fn wire_ok(&self) -> bool {
        true
    }

    fn logpack_encode(&self, buf: &mut BufEncoder) -> (r: Result<(), (usize, usize)>) {
        buf.put_u8(if *self { 1 } else { 0 })
    }

    fn logpack_sizer(&self) -> (n: usize) {
        1
    }
}

/// The unit value occupies no wire bytes.
impl Encoder for () {
    open spec fn wire(&self) -> Seq<u8> {
        Seq::empty()
    }

    open spec fn wire_ok(&self) -> bool {
        true
    }

    fn logpack_encode(&self, buf: &mut BufEncoder) -> (r: Result<(), (usize, usize)>) {
        proof {
            assert(buf.spec_content() =~= buf.spec_content() + Seq::<u8>::empty());
        }
        Ok(())
    }

    fn logpack_sizer(&self) -> (n: usize) {
        0
    }
}

/// Number of bytes `encode_stored_string` writes for this string: the
/// smallest legal length header plus the UTF-8 bytes themselves.
pub fn encoded_string_len(value: &str) -> (r: usize)
    requires
        str_len_ok(value.spec_bytes().len()),
        str_wire(value.spec_bytes()).len() <= usize::MAX,
    ensures
        r == str_wire(value.spec_bytes()).len(),
{
    proof {
        lemma_le_bytes_len(
            str_header_tag(value.spec_bytes().len()) + 4 * value.spec_bytes().len(),
            str_header_width(value.spec_bytes().len()),
        );
    }
    let size = value.as_bytes().len();
    if size < 0x40 {
        1 + size
    } else if size < 0x4000 {
        2 + size
    } else if size < 0x4000_0000 {
        4 + size
    } else {
        8 + size
    }
}

/// Write a string: the smallest legal length header, little-endian, then
/// the UTF-8 bytes.
pub fn encode_stored_string(value: &str, buf: &mut BufEncoder) -> (r: Result<(), (usize, usize)>)
    requires
        old(buf).wf(),
        str_len_ok(value.spec_bytes().len()),
    ensures
        final(buf).wf(),
        final(buf).spec_len() == old(buf).spec_len(),
        final(buf).spec_pos() >= old(buf).spec_pos(),
        r is Ok <==> old(buf).spec_remaining() >= str_wire(value.spec_bytes()).len(),
        r is Ok ==> BufEncoder::wrote(*old(buf), *final(buf), str_wire(value.spec_bytes())),
{
    let bytes = value.as_bytes();
    let size = bytes.len();
    let ghost blen = value.spec_bytes().len();
    proof {
        lemma_le_bytes_len(str_header_tag(blen) + 4 * blen, str_header_width(blen));
    }
    if size < 0x40 {
        let hv: u8 = (size as u8) * 4;
        if let Err(e) = buf.put_u8(hv) {
            return Err(e);
        }
        proof {
            reveal_with_fuel(le_bytes, 2);
            assert(str_header(blen) =~= seq![hv]);
        }
    } else if size < 0x4000 {
        let hv: u16 = 1 + (size as u16) * 4;
        if let Err(e) = buf.put_u16(hv) {
            return Err(e);
        }
    } else if size < 0x4000_0000 {
        let hv: u32 = 2 + (size as u32) * 4;
        if let Err(e) = buf.put_u32(hv) {
            return Err(e);
        }
    } else {
        let hv: u64 = 3 + (size as u64) * 4;
        if let Err(e) = buf.put_u64(hv) {
            return Err(e);
        }
    }
    let ghost mid = *buf;
    match buf.append_bytes(bytes) {
        Ok(()) => {
            proof {
                assert(buf.spec_content() =~= old(buf).spec_content() + str_wire(
                    value.spec_bytes(),
                ));
            }
            Ok(())
        },
        Err(e) => Err(e),
    }
}

/// The concatenated wire images of a sequence of values, in order.
pub open spec fn wire_seq<T: Encoder>(s: Seq<T>) -> Seq<u8>
    decreases s.len(),
{
    if s.len() == 0 {
        Seq::empty()
    } else {
        s[0].wire() + wire_seq(s.subrange(1, s.len() as int))
    }
}

/// Whether every value of the sequence can go on the wire.
pub open spec fn wire_seq_ok<T: Encoder>(s: Seq<T>) -> bool
    decreases s.len(),
{
    if s.len() == 0 {
        true
    } else {
        s[0].wire_ok() && wire_seq_ok(s.subrange(1, s.len() as int))
    }
}

/// Appending one value appends its wire image.
pub proof fn lemma_wire_seq_push<T: Encoder>(t: Seq<T>, x: T)
    ensures
        wire_seq(t.push(x)) == wire_seq(t) + x.wire(),
    decreases t.len(),
{
    if t.len() == 0 {
        assert(t.push(x)[0] == x);
        assert(t.push(x).subrange(1, 1) =~= t);
        assert(wire_seq(t.push(x)) =~= wire_seq(t) + x.wire());
    } else {
        let t2 = t.subrange(1, t.len() as int);
        assert(t.push(x).subrange(1, t.len() as int + 1) =~= t2.push(x));
        lemma_wire_seq_push(t2, x);
        assert(t.push(x)[0] == t[0]);
        assert(wire_seq(t.push(x)) =~= wire_seq(t) + x.wire());
    }
}

/// One element more of the prefix adds exactly that element's image.
pub proof fn lemma_wire_seq_take_succ<T: Encoder>(s: Seq<T>, i: int)
    requires
        0 <= i < s.len(),
    ensures
        wire_seq(s.take(i + 1)) == wire_seq(s.take(i)) + s[i].wire(),
{
    assert(s.take(i + 1) =~= s.take(i).push(s[i]));
    lemma_wire_seq_push(s.take(i), s[i]);
}

/// The whole image splits at any index into the prefix image and the
/// suffix image.
pub proof fn lemma_wire_seq_split<T: Encoder>(s: Seq<T>, i: int)
    requires
        0 <= i <= s.len(),
    ensures
        wire_seq(s) == wire_seq(s.take(i)) + wire_seq(s.skip(i)),
    decreases i,
{
    if i == 0 {
        assert(s.take(0) =~= Seq::<T>::empty());
        assert(s.skip(0) =~= s);
        assert(wire_seq(s) =~= wire_seq(s.take(0)) + wire_seq(s.skip(0)));
    } else {
        let tail = s.subrange(1, s.len() as int);
        lemma_wire_seq_split(tail, i - 1);
        assert(tail.take(i - 1) =~= s.take(i).subrange(1, i));
        assert(tail.skip(i - 1) =~= s.skip(i));
        assert(s.take(i)[0] == s[0]);
        assert(s.take(i).len() == i);
        assert(wire_seq(s) =~= wire_seq(s.take(i)) + wire_seq(s.skip(i)));
    }
}

/// Every element of a wire-ready sequence is itself wire-ready.
pub proof fn lemma_wire_seq_ok_index<T: Encoder>(s: Seq<T>, i: int)
    requires
        wire_seq_ok(s),
        0 <= i < s.len(),
    ensures
        s[i].wire_ok(),
    decreases i,
{
    if i > 0 {
        lemma_wire_seq_ok_index(s.subrange(1, s.len() as int), i - 1);
    }
}

/// Write the elements of a slice back to back, with no framing.
pub fn encode_elems<T: Encoder>(elems: &[T], buf: &mut BufEncoder) -> (r: Result<
    (),
    (usize, usize),
>)
    requires
        wire_seq_ok(elems@),
        old(buf).wf(),
    ensures
        final(buf).wf(),
        final(buf).spec_len() == old(buf).spec_len(),
        final(buf).spec_pos() >= old(buf).spec_pos(),
        r is Ok <==> old(buf).spec_remaining() >= wire_seq(elems@).len(),
        r is Ok ==> BufEncoder::wrote(*old(buf), *final(buf), wire_seq(elems@)),
{
    let ghost pre = *old(buf);
    let n = elems.len();
    let mut i: usize = 0;
    while i < n
        invariant
            pre == *old(buf),
            n == elems@.len(),
            i <= n,
            wire_seq_ok(elems@),
            buf.wf(),
            buf.spec_len() == pre.spec_len(),
            buf.spec_content() == pre.spec_content() + wire_seq(elems@.take(i as int)),
            buf.spec_pos() == pre.spec_pos() + wire_seq(elems@.take(i as int)).len(),
        decreases n - i,
    {
        let e = vstd::slice::slice_index_get(elems, i);
        proof {
            lemma_wire_seq_ok_index(elems@, i as int);
        }
        match e.logpack_encode(buf) {
            Ok(()) => {
                proof {
                    lemma_wire_seq_take_succ(elems@, i as int);
                    assert(buf.spec_content() =~= pre.spec_content() + wire_seq(
                        elems@.take(i as int + 1),
                    ));
                }
            },
            Err(err) => {
                proof {
                    lemma_wire_seq_split(elems@, i as int);
                    assert(elems@.skip(i as int)[0] == elems@[i as int]);
                    assert(wire_seq(elems@.skip(i as int)).len() >= elems@[i as int].wire().len());
                }
                return Err(err);
            },
        }
        i = i + 1;
    }
    proof {
        assert(elems@.take(n as int) =~= elems@);
    }
    Ok(())
}

/// Sum the element sizes of a slice.
pub fn size_elems<T: Encoder>(elems: &[T]) -> (n: usize)
    requires
        wire_seq_ok(elems@),
        wire_seq(elems@).len() <= usize::MAX,
    ensures
        n == wire_seq(elems@).len(),
{
    let count = elems.len();
    let mut sum: usize = 0;
    let mut i: usize = 0;
    while i < count
        invariant
            count == elems@.len(),
            i <= count,
            wire_seq_ok(elems@),
            wire_seq(elems@).len() <= usize::MAX,
            sum == wire_seq(elems@.take(i as int)).len(),
        decreases count - i,
    {
        let e = vstd::slice::slice_index_get(elems, i);
        proof {
            lemma_wire_seq_ok_index(elems@, i as int);
            lemma_wire_seq_split(elems@, i as int);
            assert(elems@.skip(i as int)[0] == elems@[i as int]);
            assert(wire_seq(elems@.skip(i as int)).len() >= elems@[i as int].wire().len());
            lemma_wire_seq_take_succ(elems@, i as int);
        }
        let m = e.logpack_sizer();
        sum = sum + m;
        i = i + 1;
    }
    proof {
        assert(elems@.take(count as int) =~= elems@);
    }
    sum
}

/// An option: one marker byte, 0 for `None`, 1 for `Some` followed by
/// the payload.
impl<T: Encoder> Encoder for Option<T> {
    open spec fn wire(&self) -> Seq<u8> {
        match self {
            None => seq![0u8],
            Some(v) => seq![1u8] + v.wire(),
        }
    }

    open spec fn wire_ok(&self) -> bool {
        match self {
            None => true,
            Some(v) => v.wire_ok(),
        }
    }

    fn logpack_encode(&self, buf: &mut BufEncoder) -> (r: Result<(), (usize, usize)>) {
        match self {
            None => buf.put_u8(0),
            Some(v) => {
                if let Err(e) = buf.put_u8(1) {
                    return Err(e);
                }
                match v.logpack_encode(buf) {
                    Ok(()) => {
                        proof {
                            assert(buf.spec_content() =~= old(buf).spec_content() + self.wire());
                        }
                        Ok(())
                    },
                    Err(e) => Err(e),
                }
            },
        }
    }

    fn logpack_sizer(&self) -> (n: usize) {
        match self {
            None => 1,
            Some(v) => 1 + v.logpack_sizer(),
        }
    }
}

/// A result: one marker byte, 0 for `Ok`, 1 for `Err`, then the payload
/// of the chosen side.
impl<T: Encoder, E: Encoder> Encoder for Result<T, E> {
    open spec fn wire(&self) -> Seq<u8> {
        match self {
            Ok(v) => seq![0u8] + v.wire(),
            Err(v) => seq![1u8] + v.wire(),
        }
    }

    open spec fn wire_ok(&self) -> bool {
        match self {
            Ok(v) => v.wire_ok(),
            Err(v) => v.wire_ok(),
        }
    }

    fn logpack_encode(&self, buf: &mut BufEncoder) -> (r: Result<(), (usize, usize)>) {
        match self {
            Ok(v) => {
                if let Err(e) = buf.put_u8(0) {
                    return Err(e);
                }
                match v.logpack_encode(buf) {
                    Ok(()) => {
                        proof {
                            assert(buf.spec_content() =~= old(buf).spec_content() + self.wire());
                        }
                        Ok(())
                    },
                    Err(e) => Err(e),
                }
            },
            Err(v) => {
                if let Err(e) = buf.put_u8(1) {
                    return Err(e);
                }
                match v.logpack_encode(buf) {
                    Ok(()) => {
                        proof {
                            assert(buf.spec_content() =~= old(buf).spec_content() + self.wire());
                        }
                        Ok(())
                    },
                    Err(e) => Err(e),
                }
            },
        }
    }

    fn logpack_sizer(&self) -> (n: usize) {
        match self {
            Ok(v) => 1 + v.logpack_sizer(),
            Err(v) => 1 + v.logpack_sizer(),
        }
    }
}

/// Boxing is transparent on the wire.
impl<T: Encoder> Encoder for Box<T> {
    open spec fn wire(&self) -> Seq<u8> {
        (**self).wire()
    }

    open spec fn wire_ok(&self) -> bool {
        (**self).wire_ok()
    }

    fn logpack_encode(&self, buf: &mut BufEncoder) -> (r: Result<(), (usize, usize)>) {
        (**self).logpack_encode(buf)
    }

    fn logpack_sizer(&self) -> (n: usize) {
        (**self).logpack_sizer()
    }
}

/// A pair: the two payloads back to back.
impl<A: Encoder, B: Encoder> Encoder for (A, B) {
    open spec fn wire(&self) -> Seq<u8> {
        self.0.wire() + self.1.wire()
    }

    open spec fn wire_ok(&self) -> bool {
        self.0.wire_ok() && self.1.wire_ok()
    }

    fn logpack_encode(&self, buf: &mut BufEncoder) -> (r: Result<(), (usize, usize)>) {
        if let Err(e) = self.0.logpack_encode(buf) {
            return Err(e);
        }
        match self.1.logpack_encode(buf) {
            Ok(()) => {
                proof {
                    assert(buf.spec_content() =~= old(buf).spec_content() + self.wire());
                }
                Ok(())
            },
            Err(e) => Err(e),
        }
    }

    fn logpack_sizer(&self) -> (n: usize) {
        self.0.logpack_sizer() + self.1.logpack_sizer()
    }
}

/// A triple: the three payloads back to back.
impl<A: Encoder, B: Encoder, C: Encoder> Encoder for (A, B, C) {
    open spec fn wire(&self) -> Seq<u8> {
        self.0.wire() + self.1.wire() + self.2.wire()
    }

    open spec fn wire_ok(&self) -> bool {
        self.0.wire_ok() && self.1.wire_ok() && self.2.wire_ok()
    }

    fn logpack_encode(&self, buf: &mut BufEncoder) -> (r: Result<(), (usize, usize)>) {
        if let Err(e) = self.0.logpack_encode(buf) {
            return Err(e);
        }
        if let Err(e) = self.1.logpack_encode(buf) {
            proof {
                assert(old(buf).spec_remaining() < self.wire().len());
            }
            return Err(e);
        }
        match self.2.logpack_encode(buf) {
            Ok(()) => {
                proof {
                    assert(buf.spec_content() =~= old(buf).spec_content() + self.wire());
                }
                Ok(())
            },
            Err(e) => Err(e),
        }
    }

    fn logpack_sizer(&self) -> (n: usize) {
        self.0.logpack_sizer() + self.1.logpack_sizer() + self.2.logpack_sizer()
    }
}

/// A quadruple: the four payloads back to back.
impl<A: Encoder, B: Encoder, C: Encoder, D: Encoder> Encoder for (A, B, C, D) {
    open spec fn wire(&self) -> Seq<u8> {
        self.0.wire() + self.1.wire() + self.2.wire() + self.3.wire()
    }

    open spec fn wire_ok(&self) -> bool {
        self.0.wire_ok() && self.1.wire_ok() && self.2.wire_ok() && self.3.wire_ok()
    }

    fn logpack_encode(&self, buf: &mut BufEncoder) -> (r: Result<(), (usize, usize)>) {
        if let Err(e) = self.0.logpack_encode(buf) {
            return Err(e);
        }
        if let Err(e) = self.1.logpack_encode(buf) {
            proof {
                assert(old(buf).spec_remaining() < self.wire().len());
            }
            return Err(e);
        }
        if let Err(e) = self.2.logpack_encode(buf) {
            proof {
                assert(old(buf).spec_remaining() < self.wire().len());
            }
            return Err(e);
        }
        match self.3.logpack_encode(buf) {
            Ok(()) => {
                proof {
                    assert(buf.spec_content() =~= old(buf).spec_content() + self.wire());
                }
                Ok(())
            },
            Err(e) => Err(e),
        }
    }

    fn logpack_sizer(&self) -> (n: usize) {
        self.0.logpack_sizer() + self.1.logpack_sizer() + self.2.logpack_sizer()
            + self.3.logpack_sizer()
    }
}

/// A tuple of 5 values: the payloads back to back.
impl<A: Encoder, B: Encoder, C: Encoder, D: Encoder, E: Encoder> Encoder for (A, B, C, D, E) {
    open spec fn wire(&self) -> Seq<u8> {
        self.0.wire() + self.1.wire() + self.2.wire() + self.3.wire() + self.4.wire()
    }

    open spec fn wire_ok(&self) -> bool {
        self.0.wire_ok() && self.1.wire_ok() && self.2.wire_ok() && self.3.wire_ok() && self.4.wire_ok()
    }

    #[verifier::rlimit(100)]
    #[verifier::spinoff_prover]
    fn logpack_encode(&self, buf: &mut BufEncoder) -> (r: Result<(), (usize, usize)>) {
        if let Err(e) = self.0.logpack_encode(buf) {
            return Err(e);
        }
        if let Err(e) = self.1.logpack_encode(buf) {
            proof {
                assert(old(buf).spec_remaining() < self.wire().len());
            }
            return Err(e);
        }
        if let Err(e) = self.2.logpack_encode(buf) {
            proof {
                assert(old(buf).spec_remaining() < self.wire().len());
            }
            return Err(e);
        }
        if let Err(e) = self.3.logpack_encode(buf) {
            proof {
                assert(old(buf).spec_remaining() < self.wire().len());
            }
            return Err(e);
        }
        match self.4.logpack_encode(buf) {
            Ok(()) => {
                proof {
                    assert(buf.spec_content() =~= old(buf).spec_content() + self.wire());
                }
                Ok(())
            },
            Err(e) => {
                proof {
                    assert(old(buf).spec_remaining() < self.wire().len());
                }
                Err(e)
            },
        }
    }

    #[verifier::rlimit(100)]
    #[verifier::spinoff_prover]
    fn logpack_sizer(&self) -> (n: usize) {
        self.0.logpack_sizer() + self.1.logpack_sizer() + self.2.logpack_sizer() + self.3.logpack_sizer() + self.4.logpack_sizer()
    }
}

/// A tuple of 6 values: the payloads back to back.
impl<A: Encoder, B: Encoder, C: Encoder, D: Encoder, E: Encoder, F: Encoder> Encoder for (A, B, C, D, E, F) {
    open spec fn wire(&self) -> Seq<u8> {
        self.0.wire() + self.1.wire() + self.2.wire() + self.3.wire() + self.4.wire() + self.5.wire()
    }

    open spec fn wire_ok(&self) -> bool {
        self.0.wire_ok() && self.1.wire_ok() && self.2.wire_ok() && self.3.wire_ok() && self.4.wire_ok() && self.5.wire_ok()
    }

    #[verifier::rlimit(100)]
    #[verifier::spinoff_prover]
    fn logpack_encode(&self, buf: &mut BufEncoder) -> (r: Result<(), (usize, usize)>) {
        if let Err(e) = self.0.logpack_encode(buf) {
            return Err(e);
        }
        if let Err(e) = self.1.logpack_encode(buf) {
            proof {
                assert(old(buf).spec_remaining() < self.wire().len());
            }
            return Err(e);
        }
        if let Err(e) = self.2.logpack_encode(buf) {
            proof {
                assert(old(buf).spec_remaining() < self.wire().len());
            }
            return Err(e);
        }
        if let Err(e) = self.3.logpack_encode(buf) {
            proof {
                assert(old(buf).spec_remaining() < self.wire().len());
            }
            return Err(e);
        }
        if let Err(e) = self.4.logpack_encode(buf) {
            proof {
                assert(old(buf).spec_remaining() < self.wire().len());
            }
            return Err(e);
        }
        match self.5.logpack_encode(buf) {
            Ok(()) => {
                proof {
                    assert(buf.spec_content() =~= old(buf).spec_content() + self.wire());
                }
                Ok(())
            },
            Err(e) => {
                proof {
                    assert(old(buf).spec_remaining() < self.wire().len());
                }
                Err(e)
            },
        }
    }

    #[verifier::rlimit(100)]
    #[verifier::spinoff_prover]
    fn logpack_sizer(&self) -> (n: usize) {
        self.0.logpack_sizer() + self.1.logpack_sizer() + self.2.logpack_sizer() + self.3.logpack_sizer() + self.4.logpack_sizer() + self.5.logpack_sizer()
    }
}

/// A tuple of 7 values: the payloads back to back.
impl<A: Encoder, B: Encoder, C: Encoder, D: Encoder, E: Encoder, F: Encoder, G: Encoder> Encoder for (A, B, C, D, E, F, G) {
    open spec fn wire(&self) -> Seq<u8> {
        self.0.wire() + self.1.wire() + self.2.wire() + self.3.wire() + self.4.wire() + self.5.wire() + self.6.wire()
    }

    open spec fn wire_ok(&self) -> bool {
        self.0.wire_ok() && self.1.wire_ok() && self.2.wire_ok() && self.3.wire_ok() && self.4.wire_ok() && self.5.wire_ok() && self.6.wire_ok()
    }

    #[verifier::rlimit(100)]
    #[verifier::spinoff_prover]
    fn logpack_encode(&self, buf: &mut BufEncoder) -> (r: Result<(), (usize, usize)>) {
        if let Err(e) = self.0.logpack_encode(buf) {
            return Err(e);
        }
        if let Err(e) = self.1.logpack_encode(buf) {
            proof {
                assert(old(buf).spec_remaining() < self.wire().len());
            }
            return Err(e);
        }
        if let Err(e) = self.2.logpack_encode(buf) {
            proof {
                assert(old(buf).spec_remaining() < self.wire().len());
            }
            return Err(e);
        }
        if let Err(e) = self.3.logpack_encode(buf) {
            proof {
                assert(old(buf).spec_remaining() < self.wire().len());
            }
            return Err(e);
        }
        if let Err(e) = self.4.logpack_encode(buf) {
            proof {
                assert(old(buf).spec_remaining() < self.wire().len());
            }
            return Err(e);
        }
        if let Err(e) = self.5.logpack_encode(buf) {
            proof {
                assert(old(buf).spec_remaining() < self.wire().len());
            }
            return Err(e);
        }
        match self.6.logpack_encode(buf) {
            Ok(()) => {
                proof {
                    assert(buf.spec_content() =~= old(buf).spec_content() + self.wire());
                }
                Ok(())
            },
            Err(e) => {
                proof {
                    assert(old(buf).spec_remaining() < self.wire().len());
                }
                Err(e)
            },
        }
    }

    #[verifier::rlimit(100)]
    #[verifier::spinoff_prover]
    fn logpack_sizer(&self) -> (n: usize) {
        self.0.logpack_sizer() + self.1.logpack_sizer() + self.2.logpack_sizer() + self.3.logpack_sizer() + self.4.logpack_sizer() + self.5.logpack_sizer() + self.6.logpack_sizer()
    }
}

/// A tuple of 8 values: the payloads back to back.
impl<A: Encoder, B: Encoder, C: Encoder, D: Encoder, E: Encoder, F: Encoder, G: Encoder, H: Encoder> Encoder for (A, B, C, D, E, F, G, H) {
    open spec fn wire(&self) -> Seq<u8> {
        self.0.wire() + self.1.wire() + self.2.wire() + self.3.wire() + self.4.wire() + self.5.wire() + self.6.wire() + self.7.wire()
    }

    open spec fn wire_ok(&self) -> bool {
        self.0.wire_ok() && self.1.wire_ok() && self.2.wire_ok() && self.3.wire_ok() && self.4.wire_ok() && self.5.wire_ok() && self.6.wire_ok() && self.7.wire_ok()
    }

    #[verifier::rlimit(100)]
    #[verifier::spinoff_prover]
    fn logpack_encode(&self, buf: &mut BufEncoder) -> (r: Result<(), (usize, usize)>) {
        if let Err(e) = self.0.logpack_encode(buf) {
            return Err(e);
        }
        if let Err(e) = self.1.logpack_encode(buf) {
            proof {
                assert(old(buf).spec_remaining() < self.wire().len());
            }
            return Err(e);
        }
        if let Err(e) = self.2.logpack_encode(buf) {
            proof {
                assert(old(buf).spec_remaining() < self.wire().len());
            }
            return Err(e);
        }
        if let Err(e) = self.3.logpack_encode(buf) {
            proof {
                assert(old(buf).spec_remaining() < self.wire().len());
            }
            return Err(e);
        }
        if let Err(e) = self.4.logpack_encode(buf) {
            proof {
                assert(old(buf).spec_remaining() < self.wire().len());
            }
            return Err(e);
        }
        if let Err(e) = self.5.logpack_encode(buf) {
            proof {
                assert(old(buf).spec_remaining() < self.wire().len());
            }
            return Err(e);
        }
        if let Err(e) = self.6.logpack_encode(buf) {
            proof {
                assert(old(buf).spec_remaining() < self.wire().len());
            }
            return Err(e);
        }
        match self.7.logpack_encode(buf) {
            Ok(()) => {
                proof {
                    assert(buf.spec_content() =~= old(buf).spec_content() + self.wire());
                }
                Ok(())
            },
            Err(e) => {
                proof {
                    assert(old(buf).spec_remaining() < self.wire().len());
                }
                Err(e)
            },
        }
    }

    #[verifier::rlimit(100)]
    #[verifier::spinoff_prover]
    fn logpack_sizer(&self) -> (n: usize) {
        self.0.logpack_sizer() + self.1.logpack_sizer() + self.2.logpack_sizer() + self.3.logpack_sizer() + self.4.logpack_sizer() + self.5.logpack_sizer() + self.6.logpack_sizer() + self.7.logpack_sizer()
    }
}

/// A tuple of 9 values: the payloads back to back.
impl<A: Encoder, B: Encoder, C: Encoder, D: Encoder, E: Encoder, F: Encoder, G: Encoder, H: Encoder, I: Encoder> Encoder for (A, B, C, D, E, F, G, H, I) {
    open spec fn wire(&self) -> Seq<u8> {
        self.0.wire() + self.1.wire() + self.2.wire() + self.3.wire() + self.4.wire() + self.5.wire() + self.6.wire() + self.7.wire() + self.8.wire()
    }

    open spec fn wire_ok(&self) -> bool {
        self.0.wire_ok() && self.1.wire_ok() && self.2.wire_ok() && self.3.wire_ok() && self.4.wire_ok() && self.5.wire_ok() && self.6.wire_ok() && self.7.wire_ok() && self.8.wire_ok()
    }

    #[verifier::rlimit(100)]
    #[verifier::spinoff_prover]
    fn logpack_encode(&self, buf: &mut BufEncoder) -> (r: Result<(), (usize, usize)>) {
        if let Err(e) = self.0.logpack_encode(buf) {
            return Err(e);
        }
        if let Err(e) = self.1.logpack_encode(buf) {
            proof {
                assert(old(buf).spec_remaining() < self.wire().len());
            }
            return Err(e);
        }
        if let Err(e) = self.2.logpack_encode(buf) {
            proof {
                assert(old(buf).spec_remaining() < self.wire().len());
            }
            return Err(e);
        }
        if let Err(e) = self.3.logpack_encode(buf) {
            proof {
                assert(old(buf).spec_remaining() < self.wire().len());
            }
            return Err(e);
        }
        if let Err(e) = self.4.logpack_encode(buf) {
            proof {
                assert(old(buf).spec_remaining() < self.wire().len());
            }
            return Err(e);
        }
        if let Err(e) = self.5.logpack_encode(buf) {
            proof {
                assert(old(buf).spec_remaining() < self.wire().len());
            }
            return Err(e);
        }
        if let Err(e) = self.6.logpack_encode(buf) {
            proof {
                assert(old(buf).spec_remaining() < self.wire().len());
            }
            return Err(e);
        }
        if let Err(e) = self.7.logpack_encode(buf) {
            proof {
                assert(old(buf).spec_remaining() < self.wire().len());
            }
            return Err(e);
        }
        match self.8.logpack_encode(buf) {
            Ok(()) => {
                proof {
                    assert(buf.spec_content() =~= old(buf).spec_content() + self.wire());
                }
                Ok(())
            },
            Err(e) => {
                proof {
                    assert(old(buf).spec_remaining() < self.wire().len());
                }
                Err(e)
            },
        }
    }

    #[verifier::rlimit(100)]
    #[verifier::spinoff_prover]
    fn logpack_sizer(&self) -> (n: usize) {
        self.0.logpack_sizer() + self.1.logpack_sizer() + self.2.logpack_sizer() + self.3.logpack_sizer() + self.4.logpack_sizer() + self.5.logpack_sizer() + self.6.logpack_sizer() + self.7.logpack_sizer() + self.8.logpack_sizer()
    }
}

/// A tuple of 10 values: the payloads back to back.
impl<A: Encoder, B: Encoder, C: Encoder, D: Encoder, E: Encoder, F: Encoder, G: Encoder, H: Encoder, I: Encoder, J: Encoder> Encoder for (A, B, C, D, E, F, G, H, I, J) {
    open spec fn wire(&self) -> Seq<u8> {
        self.0.wire() + self.1.wire() + self.2.wire() + self.3.wire() + self.4.wire() + self.5.wire() + self.6.wire() + self.7.wire() + self.8.wire() + self.9.wire()
    }

    open spec fn wire_ok(&self) -> bool {
        self.0.wire_ok() && self.1.wire_ok() && self.2.wire_ok() && self.3.wire_ok() && self.4.wire_ok() && self.5.wire_ok() && self.6.wire_ok() && self.7.wire_ok() && self.8.wire_ok() && self.9.wire_ok()
    }

    #[verifier::rlimit(100)]
    #[verifier::spinoff_prover]
    fn logpack_encode(&self, buf: &mut BufEncoder) -> (r: Result<(), (usize, usize)>) {
        if let Err(e) = self.0.logpack_encode(buf) {
            return Err(e);
        }
        if let Err(e) = self.1.logpack_encode(buf) {
            proof {
                assert(old(buf).spec_remaining() < self.wire().len());
            }
            return Err(e);
        }
        if let Err(e) = self.2.logpack_encode(buf) {
            proof {
                assert(old(buf).spec_remaining() < self.wire().len());
            }
            return Err(e);
        }
        if let Err(e) = self.3.logpack_encode(buf) {
            proof {
                assert(old(buf).spec_remaining() < self.wire().len());
            }
            return Err(e);
        }
        if let Err(e) = self.4.logpack_encode(buf) {
            proof {
                assert(old(buf).spec_remaining() < self.wire().len());
            }
            return Err(e);
        }
        if let Err(e) = self.5.logpack_encode(buf) {
            proof {
                assert(old(buf).spec_remaining() < self.wire().len());
            }
            return Err(e);
        }
        if let Err(e) = self.6.logpack_encode(buf) {
            proof {
                assert(old(buf).spec_remaining() < self.wire().len());
            }
            return Err(e);
        }
        if let Err(e) = self.7.logpack_encode(buf) {
            proof {
                assert(old(buf).spec_remaining() < self.wire().len());
            }
            return Err(e);
        }
        if let Err(e) = self.8.logpack_encode(buf) {
            proof {
                assert(old(buf).spec_remaining() < self.wire().len());
            }
            return Err(e);
        }
        match self.9.logpack_encode(buf) {
            Ok(()) => {
                proof {
                    assert(buf.spec_content() =~= old(buf).spec_content() + self.wire());
                }
                Ok(())
            },
            Err(e) => {
                proof {
                    assert(old(buf).spec_remaining() < self.wire().len());
                }
                Err(e)
            },
        }
    }

    #[verifier::rlimit(100)]
    #[verifier::spinoff_prover]
    fn logpack_sizer(&self) -> (n: usize) {
        self.0.logpack_sizer() + self.1.logpack_sizer() + self.2.logpack_sizer() + self.3.logpack_sizer() + self.4.logpack_sizer() + self.5.logpack_sizer() + self.6.logpack_sizer() + self.7.logpack_sizer() + self.8.logpack_sizer() + self.9.logpack_sizer()
    }
}

/// A tuple of 11 values: the payloads back to back.
impl<A: Encoder, B: Encoder, C: Encoder, D: Encoder, E: Encoder, F: Encoder, G: Encoder, H: Encoder, I: Encoder, J: Encoder, K: Encoder> Encoder for (A, B, C, D, E, F, G, H, I, J, K) {
    open spec fn wire(&self) -> Seq<u8> {
        self.0.wire() + self.1.wire() + self.2.wire() + self.3.wire() + self.4.wire() + self.5.wire() + self.6.wire() + self.7.wire() + self.8.wire() + self.9.wire() + self.10.wire()
    }

    open spec fn wire_ok(&self) -> bool {
        self.0.wire_ok() && self.1.wire_ok() && self.2.wire_ok() && self.3.wire_ok() && self.4.wire_ok() && self.5.wire_ok() && self.6.wire_ok() && self.7.wire_ok() && self.8.wire_ok() && self.9.wire_ok() && self.10.wire_ok()
    }

    #[verifier::rlimit(100)]
    #[verifier::spinoff_prover]
    fn logpack_encode(&self, buf: &mut BufEncoder) -> (r: Result<(), (usize, usize)>) {
        if let Err(e) = self.0.logpack_encode(buf) {
            return Err(e);
        }
        if let Err(e) = self.1.logpack_encode(buf) {
            proof {
                assert(old(buf).spec_remaining() < self.wire().len());
            }
            return Err(e);
        }
        if let Err(e) = self.2.logpack_encode(buf) {
            proof {
                assert(old(buf).spec_remaining() < self.wire().len());
            }
            return Err(e);
        }
        if let Err(e) = self.3.logpack_encode(buf) {
            proof {
                assert(old(buf).spec_remaining() < self.wire().len());
            }
            return Err(e);
        }
        if let Err(e) = self.4.logpack_encode(buf) {
            proof {
                assert(old(buf).spec_remaining() < self.wire().len());
            }
            return Err(e);
        }
        if let Err(e) = self.5.logpack_encode(buf) {
            proof {
                assert(old(buf).spec_remaining() < self.wire().len());
            }
            return Err(e);
        }
        if let Err(e) = self.6.logpack_encode(buf) {
            proof {
                assert(old(buf).spec_remaining() < self.wire().len());
            }
            return Err(e);
        }
        if let Err(e) = self.7.logpack_encode(buf) {
            proof {
                assert(old(buf).spec_remaining() < self.wire().len());
            }
            return Err(e);
        }
        if let Err(e) = self.8.logpack_encode(buf) {
            proof {
                assert(old(buf).spec_remaining() < self.wire().len());
            }
            return Err(e);
        }
        if let Err(e) = self.9.logpack_encode(buf) {
            proof {
                assert(old(buf).spec_remaining() < self.wire().len());
            }
            return Err(e);
        }
        match self.10.logpack_encode(buf) {
            Ok(()) => {
                proof {
                    assert(buf.spec_content() =~= old(buf).spec_content() + self.wire());
                }
                Ok(())
            },
            Err(e) => {
                proof {
                    assert(old(buf).spec_remaining() < self.wire().len());
                }
                Err(e)
            },
        }
    }

    #[verifier::rlimit(100)]
    #[verifier::spinoff_prover]
    fn logpack_sizer(&self) -> (n: usize) {
        self.0.logpack_sizer() + self.1.logpack_sizer() + self.2.logpack_sizer() + self.3.logpack_sizer() + self.4.logpack_sizer() + self.5.logpack_sizer() + self.6.logpack_sizer() + self.7.logpack_sizer() + self.8.logpack_sizer() + self.9.logpack_sizer() + self.10.logpack_sizer()
    }
}

/// A tuple of 12 values: the payloads back to back.
impl<A: Encoder, B: Encoder, C: Encoder, D: Encoder, E: Encoder, F: Encoder, G: Encoder, H: Encoder, I: Encoder, J: Encoder, K: Encoder, L: Encoder> Encoder for (A, B, C, D, E, F, G, H, I, J, K, L) {
    open spec fn wire(&self) -> Seq<u8> {
        self.0.wire() + self.1.wire() + self.2.wire() + self.3.wire() + self.4.wire() + self.5.wire() + self.6.wire() + self.7.wire() + self.8.wire() + self.9.wire() + self.10.wire() + self.11.wire()
    }

    open spec fn wire_ok(&self) -> bool {
        self.0.wire_ok() && self.1.wire_ok() && self.2.wire_ok() && self.3.wire_ok() && self.4.wire_ok() && self.5.wire_ok() && self.6.wire_ok() && self.7.wire_ok() && self.8.wire_ok() && self.9.wire_ok() && self.10.wire_ok() && self.11.wire_ok()
    }

    #[verifier::rlimit(100)]
    #[verifier::spinoff_prover]
    fn logpack_encode(&self, buf: &mut BufEncoder) -> (r: Result<(), (usize, usize)>) {
        if let Err(e) = self.0.logpack_encode(buf) {
            return Err(e);
        }
        if let Err(e) = self.1.logpack_encode(buf) {
            proof {
                assert(old(buf).spec_remaining() < self.wire().len());
            }
            return Err(e);
        }
        if let Err(e) = self.2.logpack_encode(buf) {
            proof {
                assert(old(buf).spec_remaining() < self.wire().len());
            }
            return Err(e);
        }
        if let Err(e) = self.3.logpack_encode(buf) {
            proof {
                assert(old(buf).spec_remaining() < self.wire().len());
            }
            return Err(e);
        }
        if let Err(e) = self.4.logpack_encode(buf) {
            proof {
                assert(old(buf).spec_remaining() < self.wire().len());
            }
            return Err(e);
        }
        if let Err(e) = self.5.logpack_encode(buf) {
            proof {
                assert(old(buf).spec_remaining() < self.wire().len());
            }
            return Err(e);
        }
        if let Err(e) = self.6.logpack_encode(buf) {
            proof {
                assert(old(buf).spec_remaining() < self.wire().len());
            }
            return Err(e);
        }
        if let Err(e) = self.7.logpack_encode(buf) {
            proof {
                assert(old(buf).spec_remaining() < self.wire().len());
            }
            return Err(e);
        }
        if let Err(e) = self.8.logpack_encode(buf) {
            proof {
                assert(old(buf).spec_remaining() < self.wire().len());
            }
            return Err(e);
        }
        if let Err(e) = self.9.logpack_encode(buf) {
            proof {
                assert(old(buf).spec_remaining() < self.wire().len());
            }
            return Err(e);
        }
        if let Err(e) = self.10.logpack_encode(buf) {
            proof {
                assert(old(buf).spec_remaining() < self.wire().len());
            }
            return Err(e);
        }
        match self.11.logpack_encode(buf) {
            Ok(()) => {
                proof {
                    assert(buf.spec_content() =~= old(buf).spec_content() + self.wire());
                }
                Ok(())
            },
            Err(e) => {
                proof {
                    assert(old(buf).spec_remaining() < self.wire().len());
                }
                Err(e)
            },
        }
    }

    #[verifier::rlimit(100)]
    #[verifier::spinoff_prover]
    fn logpack_sizer(&self) -> (n: usize) {
        self.0.logpack_sizer() + self.1.logpack_sizer() + self.2.logpack_sizer() + self.3.logpack_sizer() + self.4.logpack_sizer() + self.5.logpack_sizer() + self.6.logpack_sizer() + self.7.logpack_sizer() + self.8.logpack_sizer() + self.9.logpack_sizer() + self.10.logpack_sizer() + self.11.logpack_sizer()
    }
}

/// A tuple of 13 values: the payloads back to back.
impl<A: Encoder, B: Encoder, C: Encoder, D: Encoder, E: Encoder, F: Encoder, G: Encoder, H: Encoder, I: Encoder, J: Encoder, K: Encoder, L: Encoder, M: Encoder> Encoder for (A, B, C, D, E, F, G, H, I, J, K, L, M) {
    open spec fn wire(&self) -> Seq<u8> {
        self.0.wire() + self.1.wire() + self.2.wire() + self.3.wire() + self.4.wire() + self.5.wire() + self.6.wire() + self.7.wire() + self.8.wire() + self.9.wire() + self.10.wire() + self.11.wire() + self.12.wire()
    }

    open spec fn wire_ok(&self) -> bool {
        self.0.wire_ok() && self.1.wire_ok() && self.2.wire_ok() && self.3.wire_ok() && self.4.wire_ok() && self.5.wire_ok() && self.6.wire_ok() && self.7.wire_ok() && self.8.wire_ok() && self.9.wire_ok() && self.10.wire_ok() && self.11.wire_ok() && self.12.wire_ok()
    }

    #[verifier::rlimit(100)]
    #[verifier::spinoff_prover]
    fn logpack_encode(&self, buf: &mut BufEncoder) -> (r: Result<(), (usize, usize)>) {
        if let Err(e) = self.0.logpack_encode(buf) {
            return Err(e);
        }
        if let Err(e) = self.1.logpack_encode(buf) {
            proof {
                assert(old(buf).spec_remaining() < self.wire().len());
            }
            return Err(e);
        }
        if let Err(e) = self.2.logpack_encode(buf) {
            proof {
                assert(old(buf).spec_remaining() < self.wire().len());
            }
            return Err(e);
        }
        if let Err(e) = self.3.logpack_encode(buf) {
            proof {
                assert(old(buf).spec_remaining() < self.wire().len());
            }
            return Err(e);
        }
        if let Err(e) = self.4.logpack_encode(buf) {
            proof {
                assert(old(buf).spec_remaining() < self.wire().len());
            }
            return Err(e);
        }
        if let Err(e) = self.5.logpack_encode(buf) {
            proof {
                assert(old(buf).spec_remaining() < self.wire().len());
            }
            return Err(e);
        }
        if let Err(e) = self.6.logpack_encode(buf) {
            proof {
                assert(old(buf).spec_remaining() < self.wire().len());
            }
            return Err(e);
        }
        if let Err(e) = self.7.logpack_encode(buf) {
            proof {
                assert(old(buf).spec_remaining() < self.wire().len());
            }
            return Err(e);
        }
        if let Err(e) = self.8.logpack_encode(buf) {
            proof {
                assert(old(buf).spec_remaining() < self.wire().len());
            }
            return Err(e);
        }
        if let Err(e) = self.9.logpack_encode(buf) {
            proof {
                assert(old(buf).spec_remaining() < self.wire().len());
            }
            return Err(e);
        }
        if let Err(e) = self.10.logpack_encode(buf) {
            proof {
                assert(old(buf).spec_remaining() < self.wire().len());
            }
            return Err(e);
        }
        if let Err(e) = self.11.logpack_encode(buf) {
            proof {
                assert(old(buf).spec_remaining() < self.wire().len());
            }
            return Err(e);
        }
        match self.12.logpack_encode(buf) {
            Ok(()) => {
                proof {
                    assert(buf.spec_content() =~= old(buf).spec_content() + self.wire());
                }
                Ok(())
            },
            Err(e) => {
                proof {
                    assert(old(buf).spec_remaining() < self.wire().len());
                }
                Err(e)
            },
        }
    }

    #[verifier::rlimit(100)]
    #[verifier::spinoff_prover]
    fn logpack_sizer(&self) -> (n: usize) {
        self.0.logpack_sizer() + self.1.logpack_sizer() + self.2.logpack_sizer() + self.3.logpack_sizer() + self.4.logpack_sizer() + self.5.logpack_sizer() + self.6.logpack_sizer() + self.7.logpack_sizer() + self.8.logpack_sizer() + self.9.logpack_sizer() + self.10.logpack_sizer() + self.11.logpack_sizer() + self.12.logpack_sizer()
    }
}

/// A tuple of 14 values: the payloads back to back.
impl<A: Encoder, B: Encoder, C: Encoder, D: Encoder, E: Encoder, F: Encoder, G: Encoder, H: Encoder, I: Encoder, J: Encoder, K: Encoder, L: Encoder, M: Encoder, N: Encoder> Encoder for (A, B, C, D, E, F, G, H, I, J, K, L, M, N) {
    open spec fn wire(&self) -> Seq<u8> {
        self.0.wire() + self.1.wire() + self.2.wire() + self.3.wire() + self.4.wire() + self.5.wire() + self.6.wire() + self.7.wire() + self.8.wire() + self.9.wire() + self.10.wire() + self.11.wire() + self.12.wire() + self.13.wire()
    }

    open spec fn wire_ok(&self) -> bool {
        self.0.wire_ok() && self.1.wire_ok() && self.2.wire_ok() && self.3.wire_ok() && self.4.wire_ok() && self.5.wire_ok() && self.6.wire_ok() && self.7.wire_ok() && self.8.wire_ok() && self.9.wire_ok() && self.10.wire_ok() && self.11.wire_ok() && self.12.wire_ok() && self.13.wire_ok()
    }

    #[verifier::rlimit(100)]
    #[verifier::spinoff_prover]
    fn logpack_encode(&self, buf: &mut BufEncoder) -> (r: Result<(), (usize, usize)>) {
        if let Err(e) = self.0.logpack_encode(buf) {
            return Err(e);
        }
        if let Err(e) = self.1.logpack_encode(buf) {
            proof {
                assert(old(buf).spec_remaining() < self.wire().len());
            }
            return Err(e);
        }
        if let Err(e) = self.2.logpack_encode(buf) {
            proof {
                assert(old(buf).spec_remaining() < self.wire().len());
            }
            return Err(e);
        }
        if let Err(e) = self.3.logpack_encode(buf) {
            proof {
                assert(old(buf).spec_remaining() < self.wire().len());
            }
            return Err(e);
        }
        if let Err(e) = self.4.logpack_encode(buf) {
            proof {
                assert(old(buf).spec_remaining() < self.wire().len());
            }
            return Err(e);
        }
        if let Err(e) = self.5.logpack_encode(buf) {
            proof {
                assert(old(buf).spec_remaining() < self.wire().len());
            }
            return Err(e);
        }
        if let Err(e) = self.6.logpack_encode(buf) {
            proof {
                assert(old(buf).spec_remaining() < self.wire().len());
            }
            return Err(e);
        }
        if let Err(e) = self.7.logpack_encode(buf) {
            proof {
                assert(old(buf).spec_remaining() < self.wire().len());
            }
            return Err(e);
        }
        if let Err(e) = self.8.logpack_encode(buf) {
            proof {
                assert(old(buf).spec_remaining() < self.wire().len());
            }
            return Err(e);
        }
        if let Err(e) = self.9.logpack_encode(buf) {
            proof {
                assert(old(buf).spec_remaining() < self.wire().len());
            }
            return Err(e);
        }
        if let Err(e) = self.10.logpack_encode(buf) {
            proof {
                assert(old(buf).spec_remaining() < self.wire().len());
            }
            return Err(e);
        }
        if let Err(e) = self.11.logpack_encode(buf) {
            proof {
                assert(old(buf).spec_remaining() < self.wire().len());
            }
            return Err(e);
        }
        if let Err(e) = self.12.logpack_encode(buf) {
            proof {
                assert(old(buf).spec_remaining() < self.wire().len());
            }
            return Err(e);
        }
        match self.13.logpack_encode(buf) {
            Ok(()) => {
                proof {
                    assert(buf.spec_content() =~= old(buf).spec_content() + self.wire());
                }
                Ok(())
            },
            Err(e) => {
                proof {
                    assert(old(buf).spec_remaining() < self.wire().len());
                }
                Err(e)
            },
        }
    }

    #[verifier::rlimit(100)]
    #[verifier::spinoff_prover]
    fn logpack_sizer(&self) -> (n: usize) {
        self.0.logpack_sizer() + self.1.logpack_sizer() + self.2.logpack_sizer() + self.3.logpack_sizer() + self.4.logpack_sizer() + self.5.logpack_sizer() + self.6.logpack_sizer() + self.7.logpack_sizer() + self.8.logpack_sizer() + self.9.logpack_sizer() + self.10.logpack_sizer() + self.11.logpack_sizer() + self.12.logpack_sizer() + self.13.logpack_sizer()
    }
}

/// A tuple of 15 values: the payloads back to back.
impl<A: Encoder, B: Encoder, C: Encoder, D: Encoder, E: Encoder, F: Encoder, G: Encoder, H: Encoder, I: Encoder, J: Encoder, K: Encoder, L: Encoder, M: Encoder, N: Encoder, O: Encoder> Encoder for (A, B, C, D, E, F, G, H, I, J, K, L, M, N, O) {
    open spec fn wire(&self) -> Seq<u8> {
        self.0.wire() + self.1.wire() + self.2.wire() + self.3.wire() + self.4.wire() + self.5.wire() + self.6.wire() + self.7.wire() + self.8.wire() + self.9.wire() + self.10.wire() + self.11.wire() + self.12.wire() + self.13.wire() + self.14.wire()
    }

    open spec fn wire_ok(&self) -> bool {
        self.0.wire_ok() && self.1.wire_ok() && self.2.wire_ok() && self.3.wire_ok() && self.4.wire_ok() && self.5.wire_ok() && self.6.wire_ok() && self.7.wire_ok() && self.8.wire_ok() && self.9.wire_ok() && self.10.wire_ok() && self.11.wire_ok() && self.12.wire_ok() && self.13.wire_ok() && self.14.wire_ok()
    }

    #[verifier::rlimit(100)]
    #[verifier::spinoff_prover]
    fn logpack_encode(&self, buf: &mut BufEncoder) -> (r: Result<(), (usize, usize)>) {
        if let Err(e) = self.0.logpack_encode(buf) {
            return Err(e);
        }
        if let Err(e) = self.1.logpack_encode(buf) {
            proof {
                assert(old(buf).spec_remaining() < self.wire().len());
            }
            return Err(e);
        }
        if let Err(e) = self.2.logpack_encode(buf) {
            proof {
                assert(old(buf).spec_remaining() < self.wire().len());
            }
            return Err(e);
        }
        if let Err(e) = self.3.logpack_encode(buf) {
            proof {
                assert(old(buf).spec_remaining() < self.wire().len());
            }
            return Err(e);
        }
        if let Err(e) = self.4.logpack_encode(buf) {
            proof {
                assert(old(buf).spec_remaining() < self.wire().len());
            }
            return Err(e);
        }
        if let Err(e) = self.5.logpack_encode(buf) {
            proof {
                assert(old(buf).spec_remaining() < self.wire().len());
            }
            return Err(e);
        }
        if let Err(e) = self.6.logpack_encode(buf) {
            proof {
                assert(old(buf).spec_remaining() < self.wire().len());
            }
            return Err(e);
        }
        if let Err(e) = self.7.logpack_encode(buf) {
            proof {
                assert(old(buf).spec_remaining() < self.wire().len());
            }
            return Err(e);
        }
        if let Err(e) = self.8.logpack_encode(buf) {
            proof {
                assert(old(buf).spec_remaining() < self.wire().len());
            }
            return Err(e);
        }
        if let Err(e) = self.9.logpack_encode(buf) {
            proof {
                assert(old(buf).spec_remaining() < self.wire().len());
            }
            return Err(e);
        }
        if let Err(e) = self.10.logpack_encode(buf) {
            proof {
                assert(old(buf).spec_remaining() < self.wire().len());
            }
            return Err(e);
        }
        if let Err(e) = self.11.logpack_encode(buf) {
            proof {
                assert(old(buf).spec_remaining() < self.wire().len());
            }
            return Err(e);
        }
        if let Err(e) = self.12.logpack_encode(buf) {
            proof {
                assert(old(buf).spec_remaining() < self.wire().len());
            }
            return Err(e);
        }
        if let Err(e) = self.13.logpack_encode(buf) {
            proof {
                assert(old(buf).spec_remaining() < self.wire().len());
            }
            return Err(e);
        }
        match self.14.logpack_encode(buf) {
            Ok(()) => {
                proof {
                    assert(buf.spec_content() =~= old(buf).spec_content() + self.wire());
                }
                Ok(())
            },
            Err(e) => {
                proof {
                    assert(old(buf).spec_remaining() < self.wire().len());
                }
                Err(e)
            },
        }
    }

    #[verifier::rlimit(100)]
    #[verifier::spinoff_prover]
    fn logpack_sizer(&self) -> (n: usize) {
        self.0.logpack_sizer() + self.1.logpack_sizer() + self.2.logpack_sizer() + self.3.logpack_sizer() + self.4.logpack_sizer() + self.5.logpack_sizer() + self.6.logpack_sizer() + self.7.logpack_sizer() + self.8.logpack_sizer() + self.9.logpack_sizer() + self.10.logpack_sizer() + self.11.logpack_sizer() + self.12.logpack_sizer() + self.13.logpack_sizer() + self.14.logpack_sizer()
    }
}

/// A tuple of 16 values: the payloads back to back.
impl<A: Encoder, B: Encoder, C: Encoder, D: Encoder, E: Encoder, F: Encoder, G: Encoder, H: Encoder, I: Encoder, J: Encoder, K: Encoder, L: Encoder, M: Encoder, N: Encoder, O: Encoder, P: Encoder> Encoder for (A, B, C, D, E, F, G, H, I, J, K, L, M, N, O, P) {
    open spec fn wire(&self) -> Seq<u8> {
        self.0.wire() + self.1.wire() + self.2.wire() + self.3.wire() + self.4.wire() + self.5.wire() + self.6.wire() + self.7.wire() + self.8.wire() + self.9.wire() + self.10.wire() + self.11.wire() + self.12.wire() + self.13.wire() + self.14.wire() + self.15.wire()
    }

    open spec fn wire_ok(&self) -> bool {
        self.0.wire_ok() && self.1.wire_ok() && self.2.wire_ok() && self.3.wire_ok() && self.4.wire_ok() && self.5.wire_ok() && self.6.wire_ok() && self.7.wire_ok() && self.8.wire_ok() && self.9.wire_ok() && self.10.wire_ok() && self.11.wire_ok() && self.12.wire_ok() && self.13.wire_ok() && self.14.wire_ok() && self.15.wire_ok()
    }

    #[verifier::rlimit(100)]
    #[verifier::spinoff_prover]
    fn logpack_encode(&self, buf: &mut BufEncoder) -> (r: Result<(), (usize, usize)>) {
        if let Err(e) = self.0.logpack_encode(buf) {
            return Err(e);
        }
        if let Err(e) = self.1.logpack_encode(buf) {
            proof {
                assert(old(buf).spec_remaining() < self.wire().len());
            }
            return Err(e);
        }
        if let Err(e) = self.2.logpack_encode(buf) {
            proof {
                assert(old(buf).spec_remaining() < self.wire().len());
            }
            return Err(e);
        }
        if let Err(e) = self.3.logpack_encode(buf) {
            proof {
                assert(old(buf).spec_remaining() < self.wire().len());
            }
            return Err(e);
        }
        if let Err(e) = self.4.logpack_encode(buf) {
            proof {
                assert(old(buf).spec_remaining() < self.wire().len());
            }
            return Err(e);
        }
        if let Err(e) = self.5.logpack_encode(buf) {
            proof {
                assert(old(buf).spec_remaining() < self.wire().len());
            }
            return Err(e);
        }
        if let Err(e) = self.6.logpack_encode(buf) {
            proof {
                assert(old(buf).spec_remaining() < self.wire().len());
            }
            return Err(e);
        }
        if let Err(e) = self.7.logpack_encode(buf) {
            proof {
                assert(old(buf).spec_remaining() < self.wire().len());
            }
            return Err(e);
        }
        if let Err(e) = self.8.logpack_encode(buf) {
            proof {
                assert(old(buf).spec_remaining() < self.wire().len());
            }
            return Err(e);
        }
        if let Err(e) = self.9.logpack_encode(buf) {
            proof {
                assert(old(buf).spec_remaining() < self.wire().len());
            }
            return Err(e);
        }
        if let Err(e) = self.10.logpack_encode(buf) {
            proof {
                assert(old(buf).spec_remaining() < self.wire().len());
            }
            return Err(e);
        }
        if let Err(e) = self.11.logpack_encode(buf) {
            proof {
                assert(old(buf).spec_remaining() < self.wire().len());
            }
            return Err(e);
        }
        if let Err(e) = self.12.logpack_encode(buf) {
            proof {
                assert(old(buf).spec_remaining() < self.wire().len());
            }
            return Err(e);
        }
        if let Err(e) = self.13.logpack_encode(buf) {
            proof {
                assert(old(buf).spec_remaining() < self.wire().len());
            }
            return Err(e);
        }
        if let Err(e) = self.14.logpack_encode(buf) {
            proof {
                assert(old(buf).spec_remaining() < self.wire().len());
            }
            return Err(e);
        }
        match self.15.logpack_encode(buf) {
            Ok(()) => {
                proof {
                    assert(buf.spec_content() =~= old(buf).spec_content() + self.wire());
                }
                Ok(())
            },
            Err(e) => {
                proof {
                    assert(old(buf).spec_remaining() < self.wire().len());
                }
                Err(e)
            },
        }
    }

    #[verifier::rlimit(100)]
    #[verifier::spinoff_prover]
    fn logpack_sizer(&self) -> (n: usize) {
        self.0.logpack_sizer() + self.1.logpack_sizer() + self.2.logpack_sizer() + self.3.logpack_sizer() + self.4.logpack_sizer() + self.5.logpack_sizer() + self.6.logpack_sizer() + self.7.logpack_sizer() + self.8.logpack_sizer() + self.9.logpack_sizer() + self.10.logpack_sizer() + self.11.logpack_sizer() + self.12.logpack_sizer() + self.13.logpack_sizer() + self.14.logpack_sizer() + self.15.logpack_sizer()
    }
}

/// A fixed-size array: element payloads back to back; the length is part
/// of the type, so it never reaches the wire.
impl<T: Encoder, const N: usize> Encoder for [T; N] {
    open spec fn wire(&self) -> Seq<u8> {
        wire_seq(self@)
    }

    open spec fn wire_ok(&self) -> bool {
        wire_seq_ok(self@)
    }

    fn logpack_encode(&self, buf: &mut BufEncoder) -> (r: Result<(), (usize, usize)>) {
        let s = vstd::array::array_as_slice(self);
        encode_elems(s, buf)
    }

    fn logpack_sizer(&self) -> (n: usize) {
        let s = vstd::array::array_as_slice(self);
        size_elems(s)
    }
}

/// A dynamic slice: a 64-bit element count, then the element payloads.
impl<T: Encoder> Encoder for [T] {
    open spec fn wire(&self) -> Seq<u8> {
        le_bytes(self@.len(), 8) + wire_seq(self@)
    }

    open spec fn wire_ok(&self) -> bool {
        wire_seq_ok(self@)
    }

    fn logpack_encode(&self, buf: &mut BufEncoder) -> (r: Result<(), (usize, usize)>) {
        proof {
            lemma_le_bytes_len(self@.len(), 8);
        }
        let size: u64 = self.len() as u64;
        if let Err(e) = buf.put_u64(size) {
            return Err(e);
        }
        match encode_elems(self, buf) {
            Ok(()) => {
                proof {
                    assert(buf.spec_content() =~= old(buf).spec_content() + self.wire());
                }
                Ok(())
            },
            Err(e) => Err(e),
        }
    }

    fn logpack_sizer(&self) -> (n: usize) {
        proof {
            lemma_le_bytes_len(self@.len(), 8);
        }
        let elems = size_elems(self);
        8 + elems
    }
}

/// A string: length header plus UTF-8 bytes.
impl Encoder for String {
    open spec fn wire(&self) -> Seq<u8> {
        str_wire(vstd::utf8::encode_utf8(self@))
    }

    open spec fn wire_ok(&self) -> bool {
        str_len_ok(vstd::utf8::encode_utf8(self@).len())
    }

    fn logpack_encode(&self, buf: &mut BufEncoder) -> (r: Result<(), (usize, usize)>) {
        encode_stored_string(self.as_str(), buf)
    }

    fn logpack_sizer(&self) -> (n: usize) {
        encoded_string_len(self.as_str())
    }
}

/// A string slice: length header plus UTF-8 bytes.
impl Encoder for str {
    open spec fn wire(&self) -> Seq<u8> {
        str_wire(self.spec_bytes())
    }

    open spec fn wire_ok(&self) -> bool {
        str_len_ok(self.spec_bytes().len())
    }

    fn logpack_encode(&self, buf: &mut BufEncoder) -> (r: Result<(), (usize, usize)>) {
        encode_stored_string(self, buf)
    }

    fn logpack_sizer(&self) -> (n: usize) {
        encoded_string_len(self)
    }
}

/// Seconds then nanoseconds, as the wire carries a span of time.
impl Encoder for crate::Duration {
    open spec fn wire(&self) -> Seq<u8> {
        le_bytes(self.secs as nat, 8) + le_bytes(self.nanos as nat, 4)
    }

    open spec fn wire_ok(&self) -> bool {
        true
    }

    fn logpack_encode(&self, buf: &mut BufEncoder) -> (r: Result<(), (usize, usize)>) {
        proof {
            lemma_le_bytes_len(self.secs as nat, 8);
            lemma_le_bytes_len(self.nanos as nat, 4);
        }
        if let Err(e) = buf.put_u64(self.secs) {
            return Err(e);
        }
        match buf.put_u32(self.nanos) {
            Ok(()) => {
                proof {
                    assert(buf.spec_content() =~= old(buf).spec_content() + self.wire());
                }
                Ok(())
            },
            Err(e) => Err(e),
        }
    }

    fn logpack_sizer(&self) -> (n: usize) {
        proof {
            lemma_le_bytes_len(self.secs as nat, 8);
            lemma_le_bytes_len(self.nanos as nat, 4);
        }
        12
    }
}

/// Seconds then nanoseconds, as the wire carries a point in time.
impl Encoder for crate::Instant {
    open spec fn wire(&self) -> Seq<u8> {
        le_bytes(self.secs as nat, 8) + le_bytes(self.nanos as nat, 4)
    }

    open spec fn wire_ok(&self) -> bool {
        true
    }

    fn logpack_encode(&self, buf: &mut BufEncoder) -> (r: Result<(), (usize, usize)>) {
        proof {
            lemma_le_bytes_len(self.secs as nat, 8);
            lemma_le_bytes_len(self.nanos as nat, 4);
        }
        if let Err(e) = buf.put_u64(self.secs) {
            return Err(e);
        }
        match buf.put_u32(self.nanos) {
            Ok(()) => {
                proof {
                    assert(buf.spec_content() =~= old(buf).spec_content() + self.wire());
                }
                Ok(())
            },
            Err(e) => Err(e),
        }
    }

    fn logpack_sizer(&self) -> (n: usize) {
        proof {
            lemma_le_bytes_len(self.secs as nat, 8);
            lemma_le_bytes_len(self.nanos as nat, 4);
        }
        12
    }
}

} // verus!

