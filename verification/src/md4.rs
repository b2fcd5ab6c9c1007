//! The MD4 message digest (RFC 1320), computed in streaming fashion over a
//! 64-byte fixed block buffer.
//!
//! The specification side defines the digest of a byte sequence as a pure
//! function: the padded message is split into 64-byte blocks, each block is
//! folded into the four-word state by the three-round compression, and the
//! final state is serialized little-endian. The executable `Md4` maintains
//! exactly that state incrementally, so the digest it produces depends only
//! on the concatenation of all bytes fed to it, never on how the input was
//! split across `input` calls.

use vstd::prelude::*;

use crate::cutil::{
    FixedBuffer, FixedBuffer64, StandardPadding, le_word, read_u32v_le, u32_le, write_u32_le,
    zero_bytes,
};

verus! {

/// Round 1 boolean function: a bitwise if-then-else.
pub open spec fn md4_f(x: u32, y: u32, z: u32) -> u32 {
    (x & y) | (!x & z)
}

/// Round 2 boolean function: the bitwise majority.
pub open spec fn md4_g(x: u32, y: u32, z: u32) -> u32 {
    (x & y) | (x & z) | (y & z)
}

/// Round 3 boolean function: the bitwise parity.
pub open spec fn md4_h(x: u32, y: u32, z: u32) -> u32 {
    x ^ y ^ z
}

/// 32-bit addition modulo `2^32`.
pub open spec fn wadd(a: u32, b: u32) -> u32 {
    vstd::wrapping::u32_specs::wrapping_add(a, b)
}

/// Rotate a 32-bit word left by `s` bits.
pub open spec fn spec_rotl(x: u32, s: u32) -> u32
    recommends
        0 < s < 32,
{
    (x << s) | (x >> ((32 - s) as u32))
}

/// One round-1 step.
pub open spec fn op1(a: u32, b: u32, c: u32, d: u32, x: u32, s: u32) -> u32 {
    spec_rotl(wadd(wadd(a, md4_f(b, c, d)), x), s)
}

/// One round-2 step, with the round-2 additive constant.
pub open spec fn op2(a: u32, b: u32, c: u32, d: u32, x: u32, s: u32) -> u32 {
    spec_rotl(wadd(wadd(wadd(a, md4_g(b, c, d)), x), 0x5A827999u32), s)
}

/// One round-3 step, with the round-3 additive constant.
pub open spec fn op3(a: u32, b: u32, c: u32, d: u32, x: u32, s: u32) -> u32 {
    spec_rotl(wadd(wadd(wadd(a, md4_h(b, c, d)), x), 0x6ED9EBA1u32), s)
}

/// The fixed MD4 initialization state.
pub open spec fn md4_init() -> (u32, u32, u32, u32) {
    (0x67452301u32, 0xefcdab89u32, 0x98badcfeu32, 0x10325476u32)
}

/// Fold one 64-byte block into the state: three rounds of sixteen steps
/// over the block's little-endian words, then a wrapping add of the old
/// state, exactly as RFC 1320 lays it out.
#[verifier::opaque]
pub open spec fn md4_block(st: (u32, u32, u32, u32), block: Seq<u8>) -> (u32, u32, u32, u32)
    recommends
        block.len() == 64,
{
    let w0 = le_word(block, 0);
    let w1 = le_word(block, 1);
    let w2 = le_word(block, 2);
    let w3 = le_word(block, 3);
    let w4 = le_word(block, 4);
    let w5 = le_word(block, 5);
    let w6 = le_word(block, 6);
    let w7 = le_word(block, 7);
    let w8 = le_word(block, 8);
    let w9 = le_word(block, 9);
    let w10 = le_word(block, 10);
    let w11 = le_word(block, 11);
    let w12 = le_word(block, 12);
    let w13 = le_word(block, 13);
    let w14 = le_word(block, 14);
    let w15 = le_word(block, 15);
    let (a0, b0, c0, d0) = st;
    // Round 1.
    let a = op1(a0, b0, c0, d0, w0, 3);
    let d = op1(d0, a, b0, c0, w1, 7);
    let c = op1(c0, d, a, b0, w2, 11);
    let b = op1(b0, c, d, a, w3, 19);
    let a = op1(a, b, c, d, w4, 3);
    let d = op1(d, a, b, c, w5, 7);
    let c = op1(c, d, a, b, w6, 11);
    let b = op1(b, c, d, a, w7, 19);
    let a = op1(a, b, c, d, w8, 3);
    let d = op1(d, a, b, c, w9, 7);
    let c = op1(c, d, a, b, w10, 11);
    let b = op1(b, c, d, a, w11, 19);
    let a = op1(a, b, c, d, w12, 3);
    let d = op1(d, a, b, c, w13, 7);
    let c = op1(c, d, a, b, w14, 11);
    let b = op1(b, c, d, a, w15, 19);
    // Round 2.
    let a = op2(a, b, c, d, w0, 3);
    let d = op2(d, a, b, c, w4, 5);
    let c = op2(c, d, a, b, w8, 9);
    let b = op2(b, c, d, a, w12, 13);
    let a = op2(a, b, c, d, w1, 3);
    let d = op2(d, a, b, c, w5, 5);
    let c = op2(c, d, a, b, w9, 9);
    let b = op2(b, c, d, a, w13, 13);
    let a = op2(a, b, c, d, w2, 3);
    let d = op2(d, a, b, c, w6, 5);
    let c = op2(c, d, a, b, w10, 9);
    let b = op2(b, c, d, a, w14, 13);
    let a = op2(a, b, c, d, w3, 3);
    let d = op2(d, a, b, c, w7, 5);
    let c = op2(c, d, a, b, w11, 9);
    let b = op2(b, c, d, a, w15, 13);
    // Round 3.
    let a = op3(a, b, c, d, w0, 3);
    let d = op3(d, a, b, c, w8, 9);
    let c = op3(c, d, a, b, w4, 11);
    let b = op3(b, c, d, a, w12, 15);
    let a = op3(a, b, c, d, w2, 3);
    let d = op3(d, a, b, c, w10, 9);
    let c = op3(c, d, a, b, w6, 11);
    let b = op3(b, c, d, a, w14, 15);
    let a = op3(a, b, c, d, w1, 3);
    let d = op3(d, a, b, c, w9, 9);
    let c = op3(c, d, a, b, w5, 11);
    let b = op3(b, c, d, a, w13, 15);
    let a = op3(a, b, c, d, w3, 3);
    let d = op3(d, a, b, c, w11, 9);
    let c = op3(c, d, a, b, w7, 11);
    let b = op3(b, c, d, a, w15, 15);
    (wadd(a0, a), wadd(b0, b), wadd(c0, c), wadd(d0, d))
}

/// The state after folding every complete 64-byte block of `data` into the
/// initial state, in order.
pub open spec fn blocks_state(data: Seq<u8>) -> (u32, u32, u32, u32)
    recommends
        data.len() % 64 == 0,
    decreases data.len(),
{
    if data.len() < 64 {
        md4_init()
    } else {
        md4_block(blocks_state(data.take(data.len() - 64)), data.skip(data.len() - 64))
    }
}

/// Standard MD4 padding: a `0x80` marker, zeros up to 56 bytes modulo 64
/// (a whole extra block when the marker does not leave room for the length
/// field), then the bit length of the message as a 64-bit little-endian
/// integer, written as two 32-bit little-endian words, low word first.
pub open spec fn md4_pad(msg: Seq<u8>) -> Seq<u8> {
    let t = msg.len() % 64;
    let bits = (msg.len() * 8) % 0x10000000000000000;
    let length_field = u32_le((bits % 0x100000000) as u32) + u32_le(
        ((bits / 0x100000000) % 0x100000000) as u32,
    );
    if t < 56 {
        msg + seq![0x80u8] + zero_bytes((55 - t) as nat) + length_field
    } else {
        msg + seq![0x80u8] + zero_bytes((119 - t) as nat) + length_field
    }
}

/// The MD4 digest of an arbitrary byte sequence: the state after all padded
/// blocks, serialized as four little-endian 32-bit words.
#[verifier::opaque]
pub open spec fn md4_digest(msg: Seq<u8>) -> Seq<u8> {
    let (a, b, c, d) = blocks_state(md4_pad(msg));
    u32_le(a) + u32_le(b) + u32_le(c) + u32_le(d)
}

/// An MD4 digest is always sixteen bytes.
pub proof fn lemma_md4_digest_len(msg: Seq<u8>)
    ensures
        md4_digest(msg).len() == 16,
{
    reveal(md4_digest);
}

/// Appending one whole block to a block sequence folds it on the right.
pub proof fn lemma_blocks_state_append(prefix: Seq<u8>, block: Seq<u8>)
    requires
        block.len() == 64,
    ensures
        blocks_state(prefix + block) == md4_block(blocks_state(prefix), block),
{
    let joined = prefix + block;
    assert(joined.len() == prefix.len() + 64);
    assert(joined.take(joined.len() - 64) =~= prefix);
    assert(joined.skip(joined.len() - 64) =~= block);
}

/// Streaming equivalence: the digest an `Md4` will produce is determined
/// by the byte sequence it has absorbed and by nothing else. `input`
/// guarantees that this sequence is the concatenation of all fed slices,
/// however the input was split across calls, and `result` guarantees the
/// digest is `md4_digest` of it; so two states that absorbed the same
/// bytes — through any write boundaries — produce the same digest.
pub proof fn lemma_streaming_equivalence(h1: &Md4, h2: &Md4)
    requires
        h1@ == h2@,
    ensures
        md4_digest(h1@) == md4_digest(h2@),
{
}

/// Rotate a 32-bit word left by `s` bits.
fn rotl(x: u32, s: u32) -> (r: u32)
    requires
        0 < s < 32,
    ensures
        r == spec_rotl(x, s),
{
    (x << s) | (x >> (32 - s))
}

/// One round-1 step.
fn step1(a: u32, b: u32, c: u32, d: u32, x: u32, s: u32) -> (r: u32)
    requires
        0 < s < 32,
    ensures
        r == op1(a, b, c, d, x, s),
{
    rotl(a.wrapping_add((b & c) | (!b & d)).wrapping_add(x), s)
}

/// One round-2 step.
fn step2(a: u32, b: u32, c: u32, d: u32, x: u32, s: u32) -> (r: u32)
    requires
        0 < s < 32,
    ensures
        r == op2(a, b, c, d, x, s),
{
    rotl(a.wrapping_add((b & c) | (b & d) | (c & d)).wrapping_add(x).wrapping_add(0x5A827999), s)
}

/// One round-3 step.
fn step3(a: u32, b: u32, c: u32, d: u32, x: u32, s: u32) -> (r: u32)
    requires
        0 < s < 32,
    ensures
        r == op3(a, b, c, d, x, s),
{
    rotl(a.wrapping_add(b ^ c ^ d).wrapping_add(x).wrapping_add(0x6ED9EBA1), s)
}

/// Fold the 64-byte block at `offset` in `data` into the state.
fn compress(st: (u32, u32, u32, u32), data: &[u8], offset: usize) -> (r: (u32, u32, u32, u32))
    requires
        offset + 64 <= data@.len(),
    ensures
        r == md4_block(st, data@.subrange(offset as int, offset + 64)),
{
    proof {
        reveal(md4_block);
    }
    let dlen = data.len();
    proof {
        assert(offset + 64 <= dlen);
    }
    let w = read_u32v_le(&data[offset..offset + 64]);
    let mut a = st.0;
    let mut b = st.1;
    let mut c = st.2;
    let mut d = st.3;
    // Round 1.
    a = step1(a, b, c, d, w[0], 3);
    d = step1(d, a, b, c, w[1], 7);
    c = step1(c, d, a, b, w[2], 11);
    b = step1(b, c, d, a, w[3], 19);
    a = step1(a, b, c, d, w[4], 3);
    d = step1(d, a, b, c, w[5], 7);
    c = step1(c, d, a, b, w[6], 11);
    b = step1(b, c, d, a, w[7], 19);
    a = step1(a, b, c, d, w[8], 3);
    d = step1(d, a, b, c, w[9], 7);
    c = step1(c, d, a, b, w[10], 11);
    b = step1(b, c, d, a, w[11], 19);
    a = step1(a, b, c, d, w[12], 3);
    d = step1(d, a, b, c, w[13], 7);
    c = step1(c, d, a, b, w[14], 11);
    b = step1(b, c, d, a, w[15], 19);
    // Round 2.
    a = step2(a, b, c, d, w[0], 3);
    d = step2(d, a, b, c, w[4], 5);
    c = step2(c, d, a, b, w[8], 9);
    b = step2(b, c, d, a, w[12], 13);
    a = step2(a, b, c, d, w[1], 3);
    d = step2(d, a, b, c, w[5], 5);
    c = step2(c, d, a, b, w[9], 9);
    b = step2(b, c, d, a, w[13], 13);
    a = step2(a, b, c, d, w[2], 3);
    d = step2(d, a, b, c, w[6], 5);
    c = step2(c, d, a, b, w[10], 9);
    b = step2(b, c, d, a, w[14], 13);
    a = step2(a, b, c, d, w[3], 3);
    d = step2(d, a, b, c, w[7], 5);
    c = step2(c, d, a, b, w[11], 9);
    b = step2(b, c, d, a, w[15], 13);
    // Round 3.
    a = step3(a, b, c, d, w[0], 3);
    d = step3(d, a, b, c, w[8], 9);
    c = step3(c, d, a, b, w[4], 11);
    b = step3(b, c, d, a, w[12], 15);
    a = step3(a, b, c, d, w[2], 3);
    d = step3(d, a, b, c, w[10], 9);
    c = step3(c, d, a, b, w[6], 11);
    b = step3(b, c, d, a, w[14], 15);
    a = step3(a, b, c, d, w[1], 3);
    d = step3(d, a, b, c, w[9], 9);
    c = step3(c, d, a, b, w[5], 11);
    b = step3(b, c, d, a, w[13], 15);
    a = step3(a, b, c, d, w[3], 3);
    d = step3(d, a, b, c, w[11], 9);
    c = step3(c, d, a, b, w[7], 11);
    b = step3(b, c, d, a, w[15], 15);
    (st.0.wrapping_add(a), st.1.wrapping_add(b), st.2.wrapping_add(c), st.3.wrapping_add(d))
}

/// A streaming MD4 digest computation.
///
/// The view of an `Md4` is the sequence of bytes fed to it so far; its
/// contracts tie the produced digest to that sequence alone.
pub struct Md4 {
    sa: u32,
    sb: u32,
    sc: u32,
    sd: u32,
    length_bytes: u64,
    buffer: FixedBuffer64,
    msg: Ghost<Seq<u8>>,
}

impl View for Md4 {
    type V = Seq<u8>;

    closed spec fn view(&self) -> Seq<u8> {
        self.msg@
    }
}

impl Md4 {
    /// Internal invariant: the buffer holds exactly the unprocessed tail of
    /// the message, the state words are the fold of all complete blocks,
    /// and the byte counter is the message length.
    pub closed spec fn wf(&self) -> bool {
        let l = self.msg@.len() as int;
        &&& self.buffer.inv()
        &&& self.buffer.cap() == 64
        &&& 8 * self.msg@.len() <= u64::MAX
        &&& self.length_bytes == self.msg@.len()
        &&& self.buffer.buf() == self.msg@.skip(l - (l % 64))
        &&& (self.sa, self.sb, self.sc, self.sd) == blocks_state(self.msg@.take(l - (l % 64)))
    }

    /// Create a digest computation with the fixed initial state and no
    /// input consumed.
    pub fn new() -> (r: Md4)
        ensures
            r.wf(),
            r@ == Seq::<u8>::empty(),
    {
        let r = Md4 {
            sa: 0x67452301,
            sb: 0xefcdab89,
            sc: 0x98badcfe,
            sd: 0x10325476,
            length_bytes: 0,
            buffer: FixedBuffer64::new(),
            msg: Ghost(Seq::empty()),
        };
        proof {
            assert(r.msg@.skip(0) =~= Seq::<u8>::empty());
            assert(r.msg@.take(0) =~= Seq::<u8>::empty());
        }
        r
    }

    /// Forget all input and return to the initial state.
    pub fn reset(&mut self)
        ensures
            final(self).wf(),
            final(self)@ == Seq::<u8>::empty(),
    {
        self.sa = 0x67452301;
        self.sb = 0xefcdab89;
        self.sc = 0x98badcfe;
        self.sd = 0x10325476;
        self.length_bytes = 0;
        self.buffer = FixedBuffer64::new();
        self.msg = Ghost(Seq::empty());
        proof {
            assert(self.msg@.skip(0) =~= Seq::<u8>::empty());
            assert(self.msg@.take(0) =~= Seq::<u8>::empty());
        }
    }

    /// Feed bytes into the digest. Only the concatenation of all fed bytes
    /// matters; the split into calls is irrelevant to the final digest.
    #[verifier::rlimit(60)]
    pub fn input(&mut self, data: &[u8])
        requires
            old(self).wf(),
            8 * (old(self)@.len() + data@.len()) <= u64::MAX,
        ensures
            final(self).wf(),
            final(self)@ == old(self)@ + data@,
    {
        let ghost oldmsg: Seq<u8> = self.msg@;
        let ghost l0: int = oldmsg.len() as int;
        let ghost oldtail: Seq<u8> = self.buffer.buf();
        let ghost total: Seq<u8> = oldtail + data@;
        let ghost complete0: Seq<u8> = oldmsg.take(l0 - (l0 % 64));

        let blocks = self.buffer.input(data);
        self.length_bytes = self.length_bytes + data.len() as u64;
        self.msg = Ghost(oldmsg + data@);

        proof {
            assert(complete0 + oldtail =~= oldmsg);
            assert(complete0.len() % 64 == 0) by {
                vstd::arithmetic::div_mod::lemma_fundamental_div_mod(l0, 64);
                vstd::arithmetic::div_mod::lemma_mod_multiples_basic(l0 / 64, 64);
            }
            assert(complete0 + total.take(0) =~= complete0);
        }

        let ghost buf1 = self.buffer;
        let n = blocks.len();
        let mut k: usize = 0;
        while k < n
            invariant
                k <= n,
                n == blocks@.len(),
                n == total.len() as int / 64,
                64 * n <= total.len(),
                forall|i: int|
                    0 <= i < n ==> (#[trigger] blocks@[i])@ == total.subrange(64 * i, 64 * i + 64),
                self.buffer == buf1,
                self.length_bytes == old(self).length_bytes + data@.len(),
                self.msg@ == oldmsg + data@,
                (self.sa, self.sb, self.sc, self.sd) == blocks_state(
                    complete0 + total.take(64 * k),
                ),
            decreases n - k,
        {
            let blk: &Vec<u8> = &blocks[k];
            proof {
                assert(blk@ == total.subrange(64 * (k as int), 64 * (k as int) + 64));
                assert(blk@.len() == 64);
            }
            let st = compress((self.sa, self.sb, self.sc, self.sd), blk.as_slice(), 0);
            proof {
                assert(blk@.subrange(0, 64) =~= blk@);
                lemma_blocks_state_append(complete0 + total.take(64 * (k as int)), blk@);
                assert((complete0 + total.take(64 * (k as int))) + blk@ =~= complete0 + total.take(
                    64 * (k as int) + 64,
                ));
            }
            self.sa = st.0;
            self.sb = st.1;
            self.sc = st.2;
            self.sd = st.3;
            k = k + 1;
        }
        proof {
            let newmsg = oldmsg + data@;
            let l2 = newmsg.len() as int;
            let r = total.len() as int % 64;
            vstd::arithmetic::div_mod::lemma_fundamental_div_mod(total.len() as int, 64);
            assert(total.len() == 64 * (n as int) + r);
            vstd::arithmetic::div_mod::lemma_fundamental_div_mod(l0, 64);
            assert(l2 == 64 * (l0 / 64 + n as int) + r);
            assert(l2 % 64 == r) by {
                vstd::arithmetic::div_mod::lemma_mod_multiples_vanish(l0 / 64 + n as int, r, 64);
                vstd::arithmetic::div_mod::lemma_small_mod(r as nat, 64);
            }
            assert(newmsg.take(l2 - r) =~= complete0 + total.take(64 * (n as int)));
            assert(newmsg.skip(l2 - r) =~= total.subrange(64 * (n as int), total.len() as int));
        }
    }

    /// Pad the message and produce its 16-byte MD4 digest. The digest is a
    /// function of the bytes fed so far; the state must be `reset` before
    /// it is used for another message.
    #[verifier::rlimit(60)]
    pub fn result(&mut self) -> (digest: Vec<u8>)
        requires
            old(self).wf(),
        ensures
            digest@ == md4_digest(old(self)@),
            final(self)@ == old(self)@,
    {
        let ghost msg: Seq<u8> = self.msg@;
        let ghost l: int = msg.len() as int;
        let ghost t: int = l % 64;
        let ghost complete: Seq<u8> = msg.take(l - t);
        let ghost tail: Seq<u8> = msg.skip(l - t);
        let ghost padded: Seq<u8> = md4_pad(msg);

        proof {
            assert(complete.len() % 64 == 0) by {
                vstd::arithmetic::div_mod::lemma_fundamental_div_mod(l, 64);
                vstd::arithmetic::div_mod::lemma_mod_multiples_basic(l / 64, 64);
            }
        }

        let bits: u64 = self.length_bytes * 8;
        let low: u32 = (bits % 0x100000000) as u32;
        let high: u32 = (bits / 0x100000000) as u32;
        proof {
            assert((l * 8) % 0x10000000000000000 == l * 8) by {
                vstd::arithmetic::div_mod::lemma_small_mod((l * 8) as nat, 0x10000000000000000);
            }
            assert((high as int) % 0x100000000 == high as int) by {
                vstd::arithmetic::div_mod::lemma_small_mod(high as nat, 0x100000000);
            }
        }

        let carry = self.buffer.standard_padding(8);
        let mut st = (self.sa, self.sb, self.sc, self.sd);
        let ghost mut fed: Seq<u8> = complete;
        match carry {
            Some(block) => {
                proof {
                    assert(block@.len() == 64);
                }
                st = compress(st, block.as_slice(), 0);
                proof {
                    assert(block@.subrange(0, 64) =~= block@);
                    lemma_blocks_state_append(fed, block@);
                    fed = fed + block@;
                }
            },
            None => {},
        }
        let low_bytes = write_u32_le(low);
        let high_bytes = write_u32_le(high);
        let blocks_low = self.buffer.input(low_bytes.as_slice());
        proof {
            assert(blocks_low@.len() == 0) by {
                vstd::arithmetic::div_mod::lemma_basic_div_specific_divisor(64);
            }
        }
        let blocks_high = self.buffer.input(high_bytes.as_slice());
        proof {
            assert(blocks_high@.len() == 1) by {
                vstd::arithmetic::div_mod::lemma_fundamental_div_mod_converse(64, 64, 1, 0);
            }
            assert(blocks_high@[0]@.len() == 64);
        }
        let last: &Vec<u8> = &blocks_high[0];
        st = compress(st, last.as_slice(), 0);
        proof {
            assert(last@.subrange(0, 64) =~= last@);
            lemma_blocks_state_append(fed, last@);
            fed = fed + last@;
            assert(fed =~= padded);
            assert(st == blocks_state(padded));
        }

        let mut digest = write_u32_le(st.0);
        let mut part = write_u32_le(st.1);
        digest.append(&mut part);
        let mut part = write_u32_le(st.2);
        digest.append(&mut part);
        let mut part = write_u32_le(st.3);
        digest.append(&mut part);
        proof {
            reveal(md4_digest);
            assert(digest@ =~= md4_digest(msg));
        }
        digest
    }
}

} // verus!
