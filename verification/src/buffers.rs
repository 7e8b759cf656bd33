//! Bounded byte cursors.
//!
//! A [`BufEncoder`] wraps a caller-owned mutable byte region with a write
//! cursor; a [`BufDecoder`] wraps an immutable region with a read cursor.
//! Every operation either advances its cursor by exactly the requested
//! size or fails with `(remaining, required)` and leaves the cursor where
//! it was.  Multi-byte values cross the boundary in little-endian order.

use vstd::prelude::*;

use crate::wire::le_bytes;

verus! {

/// A write cursor over a fixed mutable byte region.
pub struct BufEncoder<'a> {
    pub slice: &'a mut [u8],
    pub position: usize,
}

impl<'a> BufEncoder<'a> {
    /// Total size of the backing region; it never changes.
    pub open spec fn spec_len(&self) -> nat {
        self.slice@.len()
    }

    /// How many bytes have been written so far.
    pub open spec fn spec_pos(&self) -> nat {
        self.position as nat
    }

    /// How many bytes are still free.
    pub open spec fn spec_remaining(&self) -> nat {
        (self.slice@.len() - self.position) as nat
    }

    /// The cursor never passes the end of the region.
    pub open spec fn wf(&self) -> bool {
        self.position <= self.slice@.len()
    }

    /// The written prefix of the region.
    pub open spec fn spec_content(&self) -> Seq<u8> {
        self.slice@.subrange(0, self.position as int)
    }

    /// What every successful write leaves behind: the same region size
    /// and the old content extended by exactly the new bytes.
    pub open spec fn wrote(pre: Self, post: Self, bytes: Seq<u8>) -> bool {
        &&& post.wf()
        &&& post.spec_len() == pre.spec_len()
        &&& post.spec_pos() == pre.spec_pos() + bytes.len()
        &&& post.spec_content() == pre.spec_content() + bytes
    }

    pub fn new(slice: &'a mut [u8]) -> (r: Self)
        ensures
            r.wf(),
            r.spec_pos() == 0,
            r.spec_len() == old(slice)@.len(),
            r.slice@ == old(slice)@,
    {
        Self { slice, position: 0 }
    }

    /// Total size of the backing region.
    pub fn len(&self) -> (r: usize)
        ensures
            r == self.spec_len(),
    {
        self.slice.len()
    }

    /// Free space after the cursor.
    pub fn remaining(&self) -> (r: usize)
        requires
            self.wf(),
        ensures
            r == self.spec_remaining(),
    {
        self.slice.len() - self.position
    }

    /// The written prefix.
    pub fn get_content<'s>(&'s self) -> (r: &'s [u8])
        requires
            self.wf(),
        ensures
            r@ == self.spec_content(),
    {
        vstd::slice::slice_subrange(&*self.slice, 0, self.position)
    }

    /// Append one byte.
    pub fn put_u8(&mut self, v: u8) -> (r: Result<(), (usize, usize)>)
        requires
            old(self).wf(),
        ensures
            r is Ok <==> old(self).spec_remaining() >= 1,
            match r {
                Ok(()) => Self::wrote(*old(self), *final(self), seq![v]),
                Err((rem, req)) => {
                    &&& *final(self) == *old(self)
                    &&& rem == old(self).spec_remaining()
                    &&& req == 1
                },
            },
    {
        let remaining = self.slice.len() - self.position;
        if remaining < 1 {
            return Err((remaining, 1));
        }
        self.slice[self.position] = v;
        self.position = self.position + 1;
        assert(self.spec_content() =~= old(self).spec_content() + seq![v]);
        Ok(())
    }

    /// Append a 16-bit value, little-endian.
    pub fn put_u16(&mut self, v: u16) -> (r: Result<(), (usize, usize)>)
        requires
            old(self).wf(),
        ensures
            r is Ok <==> old(self).spec_remaining() >= 2,
            match r {
                Ok(()) => Self::wrote(*old(self), *final(self), le_bytes(v as nat, 2)),
                Err((rem, req)) => {
                    &&& *final(self) == *old(self)
                    &&& rem == old(self).spec_remaining()
                    &&& req == 2
                },
            },
    {
        let remaining = self.slice.len() - self.position;
        if remaining < 2 {
            return Err((remaining, 2));
        }
        let b0: u8 = (v % 256) as u8;
        let b1: u8 = (v / 256) as u8;
        let _ = self.put_u8(b0);
        let _ = self.put_u8(b1);
        proof {
            reveal_with_fuel(le_bytes, 3);
            assert(self.spec_content() =~= old(self).spec_content() + le_bytes(v as nat, 2));
        }
        Ok(())
    }

    /// Append a 32-bit value, little-endian.
    pub fn put_u32(&mut self, v: u32) -> (r: Result<(), (usize, usize)>)
        requires
            old(self).wf(),
        ensures
            r is Ok <==> old(self).spec_remaining() >= 4,
            match r {
                Ok(()) => Self::wrote(*old(self), *final(self), le_bytes(v as nat, 4)),
                Err((rem, req)) => {
                    &&& *final(self) == *old(self)
                    &&& rem == old(self).spec_remaining()
                    &&& req == 4
                },
            },
    {
        let remaining = self.slice.len() - self.position;
        if remaining < 4 {
            return Err((remaining, 4));
        }
        let b0: u8 = (v % 256) as u8;
        let x1: u32 = v / 256;
        let b1: u8 = (x1 % 256) as u8;
        let x2: u32 = x1 / 256;
        let b2: u8 = (x2 % 256) as u8;
        let b3: u8 = (x2 / 256) as u8;
        let _ = self.put_u8(b0);
        let _ = self.put_u8(b1);
        let _ = self.put_u8(b2);
        let _ = self.put_u8(b3);
        proof {
            reveal_with_fuel(le_bytes, 5);
            assert(self.spec_content() =~= old(self).spec_content() + le_bytes(v as nat, 4));
        }
        Ok(())
    }

    /// Append a 64-bit value, little-endian.
    pub fn put_u64(&mut self, v: u64) -> (r: Result<(), (usize, usize)>)
        requires
            old(self).wf(),
        ensures
            r is Ok <==> old(self).spec_remaining() >= 8,
            match r {
                Ok(()) => Self::wrote(*old(self), *final(self), le_bytes(v as nat, 8)),
                Err((rem, req)) => {
                    &&& *final(self) == *old(self)
                    &&& rem == old(self).spec_remaining()
                    &&& req == 8
                },
            },
    {
        let remaining = self.slice.len() - self.position;
        if remaining < 8 {
            return Err((remaining, 8));
        }
        let b0: u8 = (v % 256) as u8;
        let x1: u64 = v / 256;
        let b1: u8 = (x1 % 256) as u8;
        let x2: u64 = x1 / 256;
        let b2: u8 = (x2 % 256) as u8;
        let x3: u64 = x2 / 256;
        let b3: u8 = (x3 % 256) as u8;
        let x4: u64 = x3 / 256;
        let b4: u8 = (x4 % 256) as u8;
        let x5: u64 = x4 / 256;
        let b5: u8 = (x5 % 256) as u8;
        let x6: u64 = x5 / 256;
        let b6: u8 = (x6 % 256) as u8;
        let b7: u8 = (x6 / 256) as u8;
        let _ = self.put_u8(b0);
        let _ = self.put_u8(b1);
        let _ = self.put_u8(b2);
        let _ = self.put_u8(b3);
        let _ = self.put_u8(b4);
        let _ = self.put_u8(b5);
        let _ = self.put_u8(b6);
        let _ = self.put_u8(b7);
        proof {
            reveal_with_fuel(le_bytes, 9);
            assert(self.spec_content() =~= old(self).spec_content() + le_bytes(v as nat, 8));
        }
        Ok(())
    }

    /// Append a byte slice verbatim.
    pub fn append_bytes(&mut self, other: &[u8]) -> (r: Result<(), (usize, usize)>)
        requires
            old(self).wf(),
        ensures
            r is Ok <==> old(self).spec_remaining() >= other@.len(),
            match r {
                Ok(()) => Self::wrote(*old(self), *final(self), other@),
                Err((rem, req)) => {
                    &&& *final(self) == *old(self)
                    &&& rem == old(self).spec_remaining()
                    &&& req == other@.len()
                },
            },
    {
        let size = other.len();
        let remaining = self.slice.len() - self.position;
        if remaining < size {
            return Err((remaining, size));
        }
        let mut i: usize = 0;
        while i < size
            invariant
                i <= size,
                size == other@.len(),
                self.wf(),
                self.spec_len() == old(self).spec_len(),
                self.spec_remaining() == old(self).spec_remaining() - i,
                old(self).spec_remaining() >= size,
                self.spec_content() == old(self).spec_content() + other@.subrange(0, i as int),
            decreases size - i,
        {
            let b = *vstd::slice::slice_index_get(other, i);
            let _ = self.put_u8(b);
            proof {
                assert(self.spec_content() =~= old(self).spec_content() + other@.subrange(
                    0,
                    i + 1,
                ));
            }
            i = i + 1;
        }
        proof {
            assert(other@.subrange(0, size as int) =~= other@);
        }
        Ok(())
    }
}

/// A read cursor over an immutable byte region.
pub struct BufDecoder<'a> {
    pub slice: &'a [u8],
    pub position: usize,
}

impl<'a> BufDecoder<'a> {
    /// The whole backing region.
    pub open spec fn spec_data(&self) -> Seq<u8> {
        self.slice@
    }

    /// How many bytes have been consumed so far.
    pub open spec fn spec_pos(&self) -> nat {
        self.position as nat
    }

    /// How many bytes are still unread.
    pub open spec fn spec_remaining(&self) -> nat {
        (self.slice@.len() - self.position) as nat
    }

    /// The cursor never passes the end of the region.
    pub open spec fn wf(&self) -> bool {
        self.position <= self.slice@.len()
    }

    /// What every successful read leaves behind: same region, cursor
    /// advanced over exactly the consumed bytes.
    pub open spec fn read(pre: Self, post: Self, bytes: Seq<u8>) -> bool {
        &&& post.wf()
        &&& post.spec_data() == pre.spec_data()
        &&& post.spec_pos() == pre.spec_pos() + bytes.len()
        &&& bytes == pre.spec_data().subrange(
            pre.spec_pos() as int,
            pre.spec_pos() as int + bytes.len(),
        )
    }

    pub fn new(slice: &'a [u8]) -> (r: Self)
        ensures
            r.wf(),
            r.spec_pos() == 0,
            r.spec_data() == slice@,
    {
        Self { slice, position: 0 }
    }

    /// Total size of the backing region.
    pub fn len(&self) -> (r: usize)
        ensures
            r == self.spec_data().len(),
    {
        self.slice.len()
    }

    /// Unread bytes after the cursor.
    pub fn remaining(&self) -> (r: usize)
        requires
            self.wf(),
        ensures
            r == self.spec_remaining(),
    {
        self.slice.len() - self.position
    }

    /// Consume `size` bytes and hand them back as a slice.
    pub fn get_slice<'s>(&'s mut self, size: usize) -> (r: Result<&'s [u8], (usize, usize)>)
        requires
            old(self).wf(),
        ensures
            r is Ok <==> old(self).spec_remaining() >= size,
            match r {
                Ok(out) => {
                    &&& Self::read(*old(self), *final(self), out@)
                    &&& out@.len() == size
                },
                Err((rem, req)) => {
                    &&& *final(self) == *old(self)
                    &&& rem == old(self).spec_remaining()
                    &&& req == size
                },
            },
    {
        let remaining = self.slice.len() - self.position;
        if remaining < size {
            return Err((remaining, size));
        }
        let value = vstd::slice::slice_subrange(self.slice, self.position, self.position + size);
        self.position = self.position + size;
        Ok(value)
    }

    /// Consume everything after the cursor.
    pub fn get_remaining_slice<'s>(&'s mut self) -> (r: Result<&'s [u8], (usize, usize)>)
        requires
            old(self).wf(),
        ensures
            r is Ok,
            match r {
                Ok(out) => {
                    &&& Self::read(*old(self), *final(self), out@)
                    &&& out@.len() == old(self).spec_remaining()
                },
                Err(_) => false,
            },
    {
        let remaining = self.slice.len() - self.position;
        self.get_slice(remaining)
    }

    /// Consume one byte.
    pub fn get_u8(&mut self) -> (r: Result<u8, (usize, usize)>)
        requires
            old(self).wf(),
        ensures
            r is Ok <==> old(self).spec_remaining() >= 1,
            match r {
                Ok(v) => Self::read(*old(self), *final(self), seq![v]),
                Err((rem, req)) => {
                    &&& *final(self) == *old(self)
                    &&& rem == old(self).spec_remaining()
                    &&& req == 1
                },
            },
    {
        let remaining = self.slice.len() - self.position;
        if remaining < 1 {
            return Err((remaining, 1));
        }
        let v = *vstd::slice::slice_index_get(self.slice, self.position);
        self.position = self.position + 1;
        proof {
            assert(seq![v] =~= old(self).spec_data().subrange(
                old(self).spec_pos() as int,
                old(self).spec_pos() as int + 1,
            ));
        }
        Ok(v)
    }

    /// Consume a little-endian 16-bit value.
    pub fn get_u16(&mut self) -> (r: Result<u16, (usize, usize)>)
        requires
            old(self).wf(),
        ensures
            r is Ok <==> old(self).spec_remaining() >= 2,
            match r {
                Ok(v) => Self::read(*old(self), *final(self), le_bytes(v as nat, 2)),
                Err((rem, req)) => {
                    &&& *final(self) == *old(self)
                    &&& rem == old(self).spec_remaining()
                    &&& req == 2
                },
            },
    {
        let remaining = self.slice.len() - self.position;
        if remaining < 2 {
            return Err((remaining, 2));
        }
        let b0 = *vstd::slice::slice_index_get(self.slice, self.position);
        let b1 = *vstd::slice::slice_index_get(self.slice, self.position + 1);
        self.position = self.position + 2;
        let v: u16 = b0 as u16 + 256 * (b1 as u16);
        proof {
            reveal_with_fuel(le_bytes, 3);
            assert(v % 256 == b0 && v / 256 == b1) by (nonlinear_arith)
                requires
                    v == b0 + 256 * (b1 as u16),
                    b0 < 256,
                    b1 < 256,
            ;
            assert(le_bytes(v as nat, 2) =~= old(self).spec_data().subrange(
                old(self).spec_pos() as int,
                old(self).spec_pos() as int + 2,
            ));
        }
        Ok(v)
    }

    /// Consume a little-endian 32-bit value.
    pub fn get_u32(&mut self) -> (r: Result<u32, (usize, usize)>)
        requires
            old(self).wf(),
        ensures
            r is Ok <==> old(self).spec_remaining() >= 4,
            match r {
                Ok(v) => Self::read(*old(self), *final(self), le_bytes(v as nat, 4)),
                Err((rem, req)) => {
                    &&& *final(self) == *old(self)
                    &&& rem == old(self).spec_remaining()
                    &&& req == 4
                },
            },
    {
        let remaining = self.slice.len() - self.position;
        if remaining < 4 {
            return Err((remaining, 4));
        }
        let b0 = *vstd::slice::slice_index_get(self.slice, self.position);
        let b1 = *vstd::slice::slice_index_get(self.slice, self.position + 1);
        let b2 = *vstd::slice::slice_index_get(self.slice, self.position + 2);
        let b3 = *vstd::slice::slice_index_get(self.slice, self.position + 3);
        self.position = self.position + 4;
        let x2: u32 = b2 as u32 + 256 * (b3 as u32);
        let x1: u32 = b1 as u32 + 256 * x2;
        let v: u32 = b0 as u32 + 256 * x1;
        proof {
            reveal_with_fuel(le_bytes, 5);
            assert(v % 256 == b0 && v / 256 == x1) by (nonlinear_arith)
                requires
                    v == b0 + 256 * x1,
                    b0 < 256,
                    x1 < 0x1000000,
            ;
            assert(x1 % 256 == b1 && x1 / 256 == x2) by (nonlinear_arith)
                requires
                    x1 == b1 + 256 * x2,
                    b1 < 256,
                    x2 < 0x10000,
            ;
            assert(x2 % 256 == b2 && x2 / 256 == b3) by (nonlinear_arith)
                requires
                    x2 == b2 + 256 * (b3 as u32),
                    b2 < 256,
                    b3 < 256,
            ;
            assert(le_bytes(v as nat, 4) =~= old(self).spec_data().subrange(
                old(self).spec_pos() as int,
                old(self).spec_pos() as int + 4,
            ));
        }
        Ok(v)
    }

    /// Consume a little-endian 64-bit value.
    pub fn get_u64(&mut self) -> (r: Result<u64, (usize, usize)>)
        requires
            old(self).wf(),
        ensures
            r is Ok <==> old(self).spec_remaining() >= 8,
            match r {
                Ok(v) => Self::read(*old(self), *final(self), le_bytes(v as nat, 8)),
                Err((rem, req)) => {
                    &&& *final(self) == *old(self)
                    &&& rem == old(self).spec_remaining()
                    &&& req == 8
                },
            },
    {
        let remaining = self.slice.len() - self.position;
        if remaining < 8 {
            return Err((remaining, 8));
        }
        let b0 = *vstd::slice::slice_index_get(self.slice, self.position);
        let b1 = *vstd::slice::slice_index_get(self.slice, self.position + 1);
        let b2 = *vstd::slice::slice_index_get(self.slice, self.position + 2);
        let b3 = *vstd::slice::slice_index_get(self.slice, self.position + 3);
        let b4 = *vstd::slice::slice_index_get(self.slice, self.position + 4);
        let b5 = *vstd::slice::slice_index_get(self.slice, self.position + 5);
        let b6 = *vstd::slice::slice_index_get(self.slice, self.position + 6);
        let b7 = *vstd::slice::slice_index_get(self.slice, self.position + 7);
        self.position = self.position + 8;
        let x6: u64 = b6 as u64 + 256 * (b7 as u64);
        let x5: u64 = b5 as u64 + 256 * x6;
        let x4: u64 = b4 as u64 + 256 * x5;
        let x3: u64 = b3 as u64 + 256 * x4;
        let x2: u64 = b2 as u64 + 256 * x3;
        let x1: u64 = b1 as u64 + 256 * x2;
        let v: u64 = b0 as u64 + 256 * x1;
        proof {
            reveal_with_fuel(le_bytes, 9);
            assert(v % 256 == b0 && v / 256 == x1) by (nonlinear_arith)
                requires
                    v == b0 + 256 * x1,
                    b0 < 256,
                    x1 < 0x100000000000000,
            ;
            assert(x1 % 256 == b1 && x1 / 256 == x2) by (nonlinear_arith)
                requires
                    x1 == b1 + 256 * x2,
                    b1 < 256,
                    x2 < 0x1000000000000,
            ;
            assert(x2 % 256 == b2 && x2 / 256 == x3) by (nonlinear_arith)
                requires
                    x2 == b2 + 256 * x3,
                    b2 < 256,
                    x3 < 0x10000000000,
            ;
            assert(x3 % 256 == b3 && x3 / 256 == x4) by (nonlinear_arith)
                requires
                    x3 == b3 + 256 * x4,
                    b3 < 256,
                    x4 < 0x100000000,
            ;
            assert(x4 % 256 == b4 && x4 / 256 == x5) by (nonlinear_arith)
                requires
                    x4 == b4 + 256 * x5,
                    b4 < 256,
                    x5 < 0x1000000,
            ;
            assert(x5 % 256 == b5 && x5 / 256 == x6) by (nonlinear_arith)
                requires
                    x5 == b5 + 256 * x6,
                    b5 < 256,
                    x6 < 0x10000,
            ;
            assert(x6 % 256 == b6 && x6 / 256 == b7) by (nonlinear_arith)
                requires
                    x6 == b6 + 256 * (b7 as u64),
                    b6 < 256,
                    b7 < 256,
            ;
            assert(le_bytes(v as nat, 8) =~= old(self).spec_data().subrange(
                old(self).spec_pos() as int,
                old(self).spec_pos() as int + 8,
            ));
        }
        Ok(v)
    }
}

} // verus!
