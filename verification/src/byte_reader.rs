//! A bounded cursor over a byte slice, together with the spec-level
//! description of the framed-block layout: every encoded value is stored as a
//! 4-byte big-endian length followed by exactly that many payload bytes.

use vstd::prelude::*;

verus! {

/// The 4-byte big-endian image of a `u32`.
pub open spec fn u32_be(n: u32) -> Seq<u8> {
    seq![
        (n >> 24) as u8,
        (n >> 16) as u8,
        (n >> 8) as u8,
        n as u8,
    ]
}

/// The `u32` read back from 4 big-endian bytes.
pub open spec fn be_to_u32(b: Seq<u8>) -> u32
    recommends
        b.len() == 4,
{
    (((b[0] as u32) << 24) | ((b[1] as u32) << 16) | ((b[2] as u32) << 8) | (b[3] as u32)) as u32
}

/// A framed block: length prefix, then the payload. The length prefix is the
/// payload length reduced to 32 bits, so a frame is only faithful when the
/// payload is at most `u32::MAX` bytes long.
pub open spec fn frame(b: Seq<u8>) -> Seq<u8> {
    u32_be(b.len() as u32) + b
}

/// Carve the first framed block out of `b`: the payload named by the length
/// prefix, and whatever follows it. `None` when `b` is too short.
pub open spec fn take_block(b: Seq<u8>) -> Option<(Seq<u8>, Seq<u8>)> {
    if b.len() < 4 {
        None
    } else {
        let n = be_to_u32(b.subrange(0, 4)) as int;
        if 4 + n <= b.len() {
            Some((b.subrange(4, 4 + n), b.subrange(4 + n, b.len() as int)))
        } else {
            None
        }
    }
}

pub proof fn lemma_u32_be_round(n: u32)
    ensures
        be_to_u32(u32_be(n)) == n,
{
    assert((((((n >> 24) as u8) as u32) << 24) | ((((n >> 16) as u8) as u32) << 16) | ((((n
        >> 8) as u8) as u32) << 8) | ((n as u8) as u32)) as u32 == n) by (bit_vector);
}

/// Carving a frame off the front of a byte string gives back exactly the
/// framed payload and the rest, whenever the payload fit its length prefix.
pub proof fn lemma_take_block_frame(x: Seq<u8>, rest: Seq<u8>)
    requires
        x.len() <= u32::MAX,
    ensures
        take_block(frame(x) + rest) == Some((x, rest)),
{
    let b = frame(x) + rest;
    lemma_u32_be_round(x.len() as u32);
    assert(b.subrange(0, 4) =~= u32_be(x.len() as u32));
    assert(be_to_u32(b.subrange(0, 4)) == x.len() as u32);
    assert(b.subrange(4, 4 + x.len() as int) =~= x);
    assert(b.subrange(4 + x.len() as int, b.len() as int) =~= rest);
}

/// A cursor over one block of a byte slice: the bytes between `start` and
/// `end` are the not-yet-consumed remainder of the block.
pub struct ByteReader<'a> {
    src: &'a [u8],
    start: usize,
    end: usize,
}

impl<'a> ByteReader<'a> {
    /// The cursor's bounds lie inside its slice.
    pub closed spec fn wf(&self) -> bool {
        self.start <= self.end <= self.src@.len()
    }

    /// The bytes not yet consumed.
    pub closed spec fn bytes(&self) -> Seq<u8> {
        self.src@.subrange(self.start as int, self.end as int)
    }

    /// A cursor over all of `src`.
    pub fn new(src: &'a [u8]) -> (r: ByteReader<'a>)
        ensures
            r.wf(),
            r.bytes() == src@,
    {
        let r = Self { src, start: 0, end: src.len() };
        proof {
            assert(r.bytes() =~= src@);
        }
        r
    }

    /// Read the 4-byte length prefix of the next block and return a cursor
    /// bounded to exactly that block, advancing this cursor past it. `None`
    /// when the remaining bytes are no well-formed frame.
    pub fn reader_for_block(&mut self) -> (r: Option<ByteReader<'a>>)
        requires
            old(self).wf(),
        ensures
            final(self).wf(),
            match r {
                Some(block) => {
                    &&& take_block(old(self).bytes()) matches Some(p)
                    &&& block.wf()
                    &&& block.bytes() == p.0
                    &&& final(self).bytes() == p.1
                },
                None => {
                    &&& take_block(old(self).bytes()) is None
                    &&& *final(self) == *old(self)
                },
            },
    {
        if self.end - self.start < 4 {
            return None;
        }
        let b0 = self.src[self.start];
        let b1 = self.src[self.start + 1];
        let b2 = self.src[self.start + 2];
        let b3 = self.src[self.start + 3];
        let len = ((b0 as u32) << 24) | ((b1 as u32) << 16) | ((b2 as u32) << 8) | (b3 as u32);
        proof {
            assert(old(self).bytes().subrange(0, 4) =~= seq![b0, b1, b2, b3]);
        }
        if ((self.end - self.start - 4) as u64) < (len as u64) {
            proof {
                assert(take_block(old(self).bytes()) is None);
            }
            return None;
        }
        let block_start = self.start + 4;
        let block_end = block_start + (len as usize);
        let block = ByteReader { src: self.src, start: block_start, end: block_end };
        self.start = block_end;
        proof {
            let ob = old(self).bytes();
            let n = be_to_u32(ob.subrange(0, 4)) as int;
            assert(n == len);
            assert(block.bytes() =~= ob.subrange(4, 4 + n));
            assert(final(self).bytes() =~= ob.subrange(4 + n, ob.len() as int));
        }
        Some(block)
    }

    /// The whole remainder of this cursor's block, as a slice.
    pub fn read_byte_slice(&self) -> (r: &'a [u8])
        requires
            self.wf(),
        ensures
            r@ == self.bytes(),
    {
        vstd::slice::slice_subrange(self.src, self.start, self.end)
    }

    /// Whether the cursor has consumed its whole block.
    pub fn is_at_end(&self) -> (r: bool)
        requires
            self.wf(),
        ensures
            r == (self.bytes().len() == 0),
    {
        self.start == self.end
    }
}

} // verus!
