//! A SHA-1 digest, used only to fingerprint type shapes: it maps a byte
//! stream to 20 digest bytes, deterministically. The specification below
//! defines the whole computation — padding, message schedule, compression —
//! and `finalize` is proved to return exactly that function of the absorbed
//! bytes.

use vstd::prelude::*;

use crate::byte_reader::{be_to_u32, u32_be};

verus! {

/// A value reduced to 32 bits.
pub open spec fn w32(x: int) -> u32 {
    (x % 0x1_0000_0000) as u32
}

/// Left rotation of a 32-bit word.
pub open spec fn rotl(x: u32, n: u32) -> u32
    recommends
        0 < n < 32,
{
    (x << n) | (x >> ((32 - n) as u32))
}

/// The five chaining words of the digest state.
pub type ShaState = (u32, u32, u32, u32, u32);

pub open spec fn initial_state() -> ShaState {
    (0x67452301u32, 0xEFCDAB89u32, 0x98BADCFEu32, 0x10325476u32, 0xC3D2E1F0u32)
}

/// The round-dependent mixing function.
pub open spec fn mix(t: int, b: u32, c: u32, d: u32) -> u32 {
    if t < 20 {
        (b & c) | ((!b) & d)
    } else if t < 40 {
        b ^ c ^ d
    } else if t < 60 {
        (b & c) ^ (b & d) ^ (c & d)
    } else {
        b ^ c ^ d
    }
}

/// The round-dependent additive constant.
pub open spec fn round_const(t: int) -> u32 {
    if t < 20 {
        0x5A827999u32
    } else if t < 40 {
        0x6ED9EBA1u32
    } else if t < 60 {
        0x8F1BBCDCu32
    } else {
        0xCA62C1D6u32
    }
}

/// The 80-word message schedule of one 64-byte block.
pub open spec fn sched(blk: Seq<u8>, t: int) -> u32
    recommends
        blk.len() == 64,
        0 <= t < 80,
    decreases t,
{
    if t < 16 {
        be_to_u32(blk.subrange(4 * t, 4 * t + 4))
    } else {
        rotl(sched(blk, t - 3) ^ sched(blk, t - 8) ^ sched(blk, t - 14) ^ sched(blk, t - 16), 1)
    }
}

/// One round of the compression function.
pub open spec fn round(blk: Seq<u8>, t: int, st: ShaState) -> ShaState {
    let (a, b, c, d, e) = st;
    let temp = w32(
        rotl(a, 5) as int + mix(t, b, c, d) as int + e as int + round_const(t) as int + sched(
            blk,
            t,
        ) as int,
    );
    (temp, a, rotl(b, 30), c, d)
}

/// The first `t` rounds applied to `st`.
pub open spec fn rounds(blk: Seq<u8>, t: int, st: ShaState) -> ShaState
    decreases t,
{
    if t <= 0 {
        st
    } else {
        round(blk, t - 1, rounds(blk, t - 1, st))
    }
}

/// One 64-byte block folded into the chaining state.
pub open spec fn compress(st: ShaState, blk: Seq<u8>) -> ShaState {
    let r = rounds(blk, 80, st);
    (
        w32(st.0 as int + r.0 as int),
        w32(st.1 as int + r.1 as int),
        w32(st.2 as int + r.2 as int),
        w32(st.3 as int + r.3 as int),
        w32(st.4 as int + r.4 as int),
    )
}

/// A whole padded message, a multiple of 64 bytes long, folded block by
/// block into the chaining state.
pub open spec fn process(st: ShaState, msg: Seq<u8>) -> ShaState
    decreases msg.len(),
{
    if msg.len() < 64 {
        st
    } else {
        process(compress(st, msg.take(64)), msg.skip(64))
    }
}

/// The 8-byte big-endian image of a `u64`.
pub open spec fn u64_be(n: u64) -> Seq<u8> {
    seq![
        (n >> 56) as u8,
        (n >> 48) as u8,
        (n >> 40) as u8,
        (n >> 32) as u8,
        (n >> 24) as u8,
        (n >> 16) as u8,
        (n >> 8) as u8,
        n as u8,
    ]
}

/// How many zero bytes the padding inserts after the 0x80 marker so that the
/// padded message length is a multiple of 64.
pub open spec fn pad_zeros(len: nat) -> nat {
    if len % 64 <= 55 {
        (55 - len % 64) as nat
    } else {
        (119 - len % 64) as nat
    }
}

/// The padding appended to a message of `len` bytes: a 0x80 marker, zeros,
/// and the bit length reduced to 64 bits, big-endian.
pub open spec fn padding(len: nat) -> Seq<u8> {
    seq![0x80u8] + Seq::new(pad_zeros(len), |i: int| 0u8) + u64_be(((len * 8) % 0x1_0000_0000_0000_0000) as u64)
}

/// The digest of a byte stream: the padded message folded into the initial
/// state, written out word by word, big-endian. Opaque: callers treat the
/// digest as a deterministic function of the byte stream, which is all the
/// fingerprinting scheme relies on.
#[verifier::opaque]
pub open spec fn sha1(msg: Seq<u8>) -> Seq<u8> {
    let st = process(initial_state(), msg + padding(msg.len()));
    u32_be(st.0) + u32_be(st.1) + u32_be(st.2) + u32_be(st.3) + u32_be(st.4)
}

/// An incremental SHA-1 computation. Its view is the sequence of bytes
/// absorbed so far.
pub struct Sha1 {
    data: Vec<u8>,
}

impl View for Sha1 {
    type V = Seq<u8>;

    closed spec fn view(&self) -> Seq<u8> {
        self.data@
    }
}

impl Sha1 {
    /// A digest over the empty stream so far.
    pub fn new() -> (r: Sha1)
        ensures
            r@ == Seq::<u8>::empty(),
    {
        let r = Sha1 { data: Vec::new() };
        proof {
            assert(r@ =~= Seq::<u8>::empty());
        }
        r
    }

    /// Absorb more bytes.
    pub fn update(self, data: &[u8]) -> (r: Sha1)
        ensures
            r@ == self@ + data@,
    {
        let mut v = self.data;
        v.extend_from_slice(data);
        Sha1 { data: v }
    }

    /// The 20 digest bytes of everything absorbed.
    pub fn finalize(self) -> (r: Vec<u8>)
        ensures
            r@ == sha1(self@),
            r@.len() == 20,
    {
        let ghost orig: Seq<u8> = self@;
        let mut msg = self.data;
        let len = msg.len();

        // Append the padding: marker, zeros, 64-bit message bit length.
        msg.push(0x80);
        let m = len % 64;
        let zeros: usize = if m <= 55 {
            55 - m
        } else {
            119 - m
        };
        let mut z: usize = 0;
        while z < zeros
            invariant
                z <= zeros,
                msg@ =~= orig + seq![0x80u8] + Seq::new(z as nat, |i: int| 0u8),
            decreases zeros - z,
        {
            msg.push(0);
            z += 1;
            proof {
                assert(msg@ =~= orig + seq![0x80u8] + Seq::new(z as nat, |i: int| 0u8));
            }
        }
        let bits = (len as u64).wrapping_mul(8);
        msg.push((bits >> 56) as u8);
        msg.push((bits >> 48) as u8);
        msg.push((bits >> 40) as u8);
        msg.push((bits >> 32) as u8);
        msg.push((bits >> 24) as u8);
        msg.push((bits >> 16) as u8);
        msg.push((bits >> 8) as u8);
        msg.push(bits as u8);
        proof {
            assert(zeros as nat == pad_zeros(orig.len()));
            assert(msg@ =~= orig + padding(orig.len()));
            broadcast use vstd::arithmetic::div_mod::lemma_fundamental_div_mod;
            broadcast use vstd::arithmetic::div_mod::lemma_mod_multiples_basic;

            let total = len + 1 + zeros + 8;
            assert(msg@.len() == total);
            let q = len as int / 64;
            assert(len as int == 64 * q + m);
            if m <= 55 {
                assert(total as int == 64 * (q + 1)) by {
                    assert(total as int == 64 * q + m + 64 - m);
                };
                assert((64 * (q + 1)) % 64 == 0);
            } else {
                assert(total as int == 64 * (q + 2)) by {
                    assert(total as int == 64 * q + m + 128 - m);
                };
                assert((64 * (q + 2)) % 64 == 0);
            }
            assert(msg@.len() % 64 == 0);
        }

        // Fold the padded message into the chaining state, block by block.
        let mut h0: u32 = 0x67452301;
        let mut h1: u32 = 0xEFCDAB89;
        let mut h2: u32 = 0x98BADCFE;
        let mut h3: u32 = 0x10325476;
        let mut h4: u32 = 0xC3D2E1F0;
        let total = msg.len();
        let mut i: usize = 0;
        while i < total
            invariant
                total == msg@.len(),
                msg@.len() % 64 == 0,
                i % 64 == 0,
                i <= total,
                (h0, h1, h2, h3, h4) == process(initial_state(), msg@.take(i as int)),
            decreases total - i,
        {
            proof {
                lemma_block_available(msg@.len() as int, i as int);
            }
            let ghost blk: Seq<u8> = msg@.subrange(i as int, i as int + 64);
            let ghost st0: ShaState = (h0, h1, h2, h3, h4);

            // The 80-word message schedule of this block.
            let mut w: Vec<u32> = Vec::with_capacity(80);
            let mut t: usize = 0;
            while t < 16
                invariant
                    total == msg@.len(),
                    i + 64 <= total,
                    blk == msg@.subrange(i as int, i as int + 64),
                    t <= 16,
                    w@.len() == t,
                    forall|j: int| 0 <= j < t ==> w@[j] == sched(blk, j),
                decreases 16 - t,
            {
                let off = i + 4 * t;
                let word = ((msg[off] as u32) << 24u32) | ((msg[off + 1] as u32) << 16u32) | ((msg[off
                    + 2] as u32) << 8u32) | (msg[off + 3] as u32);
                proof {
                    assert(blk.subrange(4 * t as int, 4 * t as int + 4) =~= seq![
                        msg@[off as int],
                        msg@[off as int + 1],
                        msg@[off as int + 2],
                        msg@[off as int + 3],
                    ]);
                    assert(word == sched(blk, t as int));
                }
                w.push(word);
                proof {
                    assert forall|j: int| 0 <= j <= t implies w@[j] == sched(blk, j) by {
                        if j == t {
                            assert(w@[j] == word);
                        }
                    }
                }
                t += 1;
            }
            while t < 80
                invariant
                    blk == msg@.subrange(i as int, i as int + 64),
                    16 <= t <= 80,
                    w@.len() == t,
                    forall|j: int| 0 <= j < t ==> w@[j] == sched(blk, j),
                decreases 80 - t,
            {
                let x = w[t - 3] ^ w[t - 8] ^ w[t - 14] ^ w[t - 16];
                let word = rotl_exec(x, 1);
                proof {
                    assert(w@[t - 3] == sched(blk, t - 3));
                    assert(w@[t - 8] == sched(blk, t - 8));
                    assert(w@[t - 14] == sched(blk, t - 14));
                    assert(w@[t - 16] == sched(blk, t - 16));
                    assert(word == sched(blk, t as int));
                }
                w.push(word);
                proof {
                    assert forall|j: int| 0 <= j <= t implies w@[j] == sched(blk, j) by {
                        if j == t {
                            assert(w@[j] == word);
                        }
                    }
                }
                t += 1;
            }

            // The 80 rounds.
            let mut a = h0;
            let mut b = h1;
            let mut c = h2;
            let mut d = h3;
            let mut e = h4;
            let mut t: usize = 0;
            while t < 80
                invariant
                    blk == msg@.subrange(i as int, i as int + 64),
                    t <= 80,
                    w@.len() == 80,
                    forall|j: int| 0 <= j < 80 ==> w@[j] == sched(blk, j),
                    (a, b, c, d, e) == rounds(blk, t as int, st0),
                decreases 80 - t,
            {
                let f: u32;
                let k: u32;
                if t < 20 {
                    f = (b & c) | ((!b) & d);
                    k = 0x5A827999;
                } else if t < 40 {
                    f = b ^ c ^ d;
                    k = 0x6ED9EBA1;
                } else if t < 60 {
                    f = (b & c) ^ (b & d) ^ (c & d);
                    k = 0x8F1BBCDC;
                } else {
                    f = b ^ c ^ d;
                    k = 0xCA62C1D6;
                }
                let temp = wadd(wadd(wadd(wadd(rotl_exec(a, 5), f), e), k), w[t]);
                proof {
                    assert(f == mix(t as int, b, c, d));
                    assert(k == round_const(t as int));
                    lemma_w32_chain(
                        rotl(a, 5) as int,
                        f as int,
                        e as int,
                        k as int,
                        sched(blk, t as int) as int,
                    );
                }
                e = d;
                d = c;
                c = rotl_exec(b, 30);
                b = a;
                a = temp;
                t += 1;
            }
            h0 = wadd(h0, a);
            h1 = wadd(h1, b);
            h2 = wadd(h2, c);
            h3 = wadd(h3, d);
            h4 = wadd(h4, e);
            i += 64;
            proof {
                assert(msg@.take(i as int) =~= msg@.take(i as int - 64) + blk);
                lemma_process_snoc(initial_state(), msg@.take(i as int - 64), blk);
                assert((h0, h1, h2, h3, h4) == compress(st0, blk));
                broadcast use vstd::arithmetic::div_mod::lemma_mod_adds;

                assert(i % 64 == 0) by {
                    assert((i - 64) % 64int + 64int % 64int == 0);
                };
            }
        }
        proof {
            assert(msg@.take(total as int) =~= msg@);
            reveal(sha1);
        }

        // Write the state out, word by word, big-endian.
        let mut r: Vec<u8> = Vec::with_capacity(20);
        push_word(&mut r, h0);
        push_word(&mut r, h1);
        push_word(&mut r, h2);
        push_word(&mut r, h3);
        push_word(&mut r, h4);
        proof {
            assert(r@ =~= u32_be(h0) + u32_be(h1) + u32_be(h2) + u32_be(h3) + u32_be(h4));
        }
        r
    }
}

/// A strictly positive distance between two multiples of 64 is at least 64.
proof fn lemma_block_available(total: int, i: int)
    requires
        0 <= i < total,
        total % 64 == 0,
        i % 64 == 0,
    ensures
        i + 64 <= total,
{
    broadcast use vstd::arithmetic::div_mod::lemma_sub_mod_noop;

    assert((total - i) % 64 == 0) by {
        assert((total % 64 - i % 64) % 64 == (total - i) % 64);
    };
    if total - i < 64 {
        vstd::arithmetic::div_mod::lemma_small_mod((total - i) as nat, 64);
    }
}

/// Reducing the left summand to 32 bits first does not change a reduced sum.
proof fn lemma_w32_add_left(x: int, y: int)
    ensures
        w32(w32(x) as int + y) == w32(x + y),
{
    let m = 0x1_0000_0000;
    broadcast use vstd::arithmetic::div_mod::lemma_add_mod_noop;
    broadcast use vstd::arithmetic::div_mod::lemma_mod_twice;
    broadcast use vstd::arithmetic::div_mod::lemma_mod_bound;

    assert(w32(x) as int == x % m);
    assert((x % m + y) % m == (x % m % m + y % m) % m);
    assert((x + y) % m == (x % m + y % m) % m);
}

/// A chain of pairwise 32-bit sums equals the 32-bit reduction of the whole
/// sum.
proof fn lemma_w32_chain(v: int, x: int, y: int, z: int, u: int)
    ensures
        w32(w32(w32(w32(v + x) as int + y) as int + z) as int + u) == w32(v + x + y + z + u),
{
    lemma_w32_add_left(v + x, y);
    lemma_w32_add_left(v + x + y, z);
    lemma_w32_add_left(v + x + y + z, u);
}

/// Processing `m + blk` is processing `m`, then folding in `blk`.
proof fn lemma_process_snoc(st: ShaState, m: Seq<u8>, blk: Seq<u8>)
    requires
        m.len() % 64 == 0,
        blk.len() == 64,
    ensures
        process(st, m + blk) == compress(process(st, m), blk),
    decreases m.len(),
{
    if m.len() == 0 {
        assert((m + blk).len() == 64);
        assert(process(st, m + blk) == process(
            compress(st, (m + blk).take(64)),
            (m + blk).skip(64),
        ));
        assert((m + blk).take(64) =~= blk);
        assert((m + blk).skip(64) =~= Seq::<u8>::empty());
        assert(process(compress(st, blk), Seq::<u8>::empty()) == compress(st, blk));
        assert(process(st, m) == st);
    } else {
        lemma_block_available(m.len() as int, 0);
        assert(process(st, m + blk) == process(
            compress(st, (m + blk).take(64)),
            (m + blk).skip(64),
        ));
        assert((m + blk).take(64) =~= m.take(64));
        assert((m + blk).skip(64) =~= m.skip(64) + blk);
        assert(m.skip(64).len() % 64 == 0) by {
            broadcast use vstd::arithmetic::div_mod::lemma_sub_mod_noop;

            assert((m.len() % 64 - 64int % 64int) % 64 == (m.len() - 64) % 64);
        };
        lemma_process_snoc(compress(st, m.take(64)), m.skip(64), blk);
        assert(process(st, m) == process(compress(st, m.take(64)), m.skip(64)));
    }
}

/// 32-bit addition, reduced.
fn wadd(x: u32, y: u32) -> (r: u32)
    ensures
        r == w32(x as int + y as int),
{
    let s = (x as u64) + (y as u64);
    (s % 0x1_0000_0000u64) as u32
}

/// Left rotation of a 32-bit word.
fn rotl_exec(x: u32, n: u32) -> (r: u32)
    requires
        0 < n < 32,
    ensures
        r == rotl(x, n),
{
    (x << n) | (x >> (32 - n))
}

/// Append the 4 big-endian bytes of a word.
fn push_word(r: &mut Vec<u8>, x: u32)
    ensures
        final(r)@ == old(r)@ + u32_be(x),
{
    r.push((x >> 24u32) as u8);
    r.push((x >> 16u32) as u8);
    r.push((x >> 8u32) as u8);
    r.push(x as u8);
    proof {
        assert(final(r)@ =~= old(r)@ + u32_be(x));
    }
}

} // verus!
