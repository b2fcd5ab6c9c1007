//! The ed2k content hash: a chunked "hash of hashes" built on MD4.
//!
//! A byte source is read in chunks of `BLOCKSIZE` bytes (the final chunk may
//! be shorter). Each chunk gets an independent MD4 digest. A source of at
//! most one chunk is identified by that chunk's digest unmodified; a longer
//! source is identified by the MD4 digest of the concatenation of the chunk
//! digests, in chunk order. An empty source counts as one empty chunk, so
//! its ed2k hash is the MD4 digest of the empty message.
//!
//! `Ed2kHash` computes this incrementally with bounded memory: it holds one
//! MD4 state for the chunk in progress, one for the combination step, and
//! the 16-byte digest of the first chunk, never a whole chunk of input.

use vstd::prelude::*;

use crate::md4::{Md4, md4_digest};

verus! {

/// The ed2k chunk size: 9500 KiB.
pub const BLOCKSIZE: usize = 9500 * 1024;

/// The concatenation, in chunk order, of the MD4 digests of each chunk of
/// `msg`. A source of at most one chunk yields exactly one digest.
pub open spec fn chunk_digests(msg: Seq<u8>) -> Seq<u8>
    decreases msg.len(),
{
    if msg.len() <= BLOCKSIZE {
        md4_digest(msg)
    } else {
        let l = msg.len() as int;
        let b = BLOCKSIZE as int;
        let last = if l % b == 0 {
            b
        } else {
            l % b
        };
        chunk_digests(msg.take(l - last)) + md4_digest(msg.skip(l - last))
    }
}

/// The ed2k hash of a byte sequence. The chunk-count rule is strict: a
/// source of at most `BLOCKSIZE` bytes (one chunk) is identified by its
/// plain MD4 digest; one byte more brings the two-level rule into force.
pub open spec fn ed2k_digest(msg: Seq<u8>) -> Seq<u8> {
    if msg.len() <= BLOCKSIZE {
        md4_digest(msg)
    } else {
        md4_digest(chunk_digests(msg))
    }
}

/// A source of exactly one full chunk is identified by the plain MD4
/// digest of the whole source: the combination step does not apply.
pub proof fn lemma_single_chunk(msg: Seq<u8>)
    requires
        msg.len() == BLOCKSIZE,
    ensures
        ed2k_digest(msg) == md4_digest(msg),
{
}

/// A source one byte longer than a chunk is identified by the MD4 digest
/// of the two chunk digests concatenated in chunk order.
pub proof fn lemma_two_chunks(msg: Seq<u8>)
    requires
        msg.len() == BLOCKSIZE + 1,
    ensures
        ed2k_digest(msg) == md4_digest(
            md4_digest(msg.take(BLOCKSIZE as int)) + md4_digest(msg.skip(BLOCKSIZE as int)),
        ),
{
    let b = BLOCKSIZE as int;
    assert(msg.len() as int % b == 1) by {
        vstd::arithmetic::div_mod::lemma_mod_multiples_vanish(1, 1, b);
        vstd::arithmetic::div_mod::lemma_small_mod(1, b as nat);
    }
    assert(chunk_digests(msg) == chunk_digests(msg.take(b)) + md4_digest(msg.skip(b)));
    assert(msg.take(b).len() == BLOCKSIZE);
}

/// Determinism: the hash an `Ed2kHash` will produce is determined by the
/// source bytes it has absorbed and by nothing else. `update` guarantees
/// that this sequence is the concatenation of all fed reads, whatever the
/// read-buffer size, and `finish` guarantees the hash is `ed2k_digest` of
/// it; so re-reading an identical source through different buffer sizes
/// yields the same hash.
pub proof fn lemma_deterministic(h1: &Ed2kHash, h2: &Ed2kHash)
    requires
        h1@ == h2@,
    ensures
        ed2k_digest(h1@) == ed2k_digest(h2@),
{
}

/// The combination step is order-sensitive: swapping the digests of two
/// distinct chunks changes the byte sequence handed to the combination
/// digest.
pub proof fn lemma_chunk_order_sensitive(d1: Seq<u8>, d2: Seq<u8>)
    requires
        d1.len() == 16,
        d2.len() == 16,
        d1 != d2,
    ensures
        d1 + d2 != d2 + d1,
{
    if d1 + d2 == d2 + d1 {
        assert forall|i: int| 0 <= i < 16 implies d1[i] == d2[i] by {
            assert((d1 + d2)[i] == (d2 + d1)[i]);
        }
        assert(d1 =~= d2);
    }
}

/// The character for a hexadecimal digit value.
pub open spec fn hex_digit(n: u8) -> char
    recommends
        n < 16,
{
    if n == 0 {
        '0'
    } else if n == 1 {
        '1'
    } else if n == 2 {
        '2'
    } else if n == 3 {
        '3'
    } else if n == 4 {
        '4'
    } else if n == 5 {
        '5'
    } else if n == 6 {
        '6'
    } else if n == 7 {
        '7'
    } else if n == 8 {
        '8'
    } else if n == 9 {
        '9'
    } else if n == 10 {
        'a'
    } else if n == 11 {
        'b'
    } else if n == 12 {
        'c'
    } else if n == 13 {
        'd'
    } else if n == 14 {
        'e'
    } else {
        'f'
    }
}

/// The lowercase hexadecimal rendering of a byte sequence, two characters
/// per byte, high nibble first.
pub open spec fn hex_of(bytes: Seq<u8>) -> Seq<char> {
    Seq::new(
        2 * bytes.len(),
        |i: int|
            if i % 2 == 0 {
                hex_digit(bytes[i / 2] / 16)
            } else {
                hex_digit(bytes[i / 2] % 16)
            },
    )
}

/// Append the character for one hexadecimal digit value.
fn push_hex_digit(s: &mut String, n: u8)
    requires
        n < 16,
    ensures
        final(s)@ == old(s)@.push(hex_digit(n)),
{
    proof {
        reveal_strlit("0");
        reveal_strlit("1");
        reveal_strlit("2");
        reveal_strlit("3");
        reveal_strlit("4");
        reveal_strlit("5");
        reveal_strlit("6");
        reveal_strlit("7");
        reveal_strlit("8");
        reveal_strlit("9");
        reveal_strlit("a");
        reveal_strlit("b");
        reveal_strlit("c");
        reveal_strlit("d");
        reveal_strlit("e");
        reveal_strlit("f");
    }
    if n == 0 {
        s.append("0");
    } else if n == 1 {
        s.append("1");
    } else if n == 2 {
        s.append("2");
    } else if n == 3 {
        s.append("3");
    } else if n == 4 {
        s.append("4");
    } else if n == 5 {
        s.append("5");
    } else if n == 6 {
        s.append("6");
    } else if n == 7 {
        s.append("7");
    } else if n == 8 {
        s.append("8");
    } else if n == 9 {
        s.append("9");
    } else if n == 10 {
        s.append("a");
    } else if n == 11 {
        s.append("b");
    } else if n == 12 {
        s.append("c");
    } else if n == 13 {
        s.append("d");
    } else if n == 14 {
        s.append("e");
    } else {
        s.append("f");
    }
    proof {
        assert(s@ =~= old(s)@.push(hex_digit(n)));
    }
}

/// Render a digest as lowercase hexadecimal, most-significant nibble of
/// each byte first.
pub fn hex_string(bytes: &[u8]) -> (r: String)
    ensures
        r@ == hex_of(bytes@),
{
    let mut s = String::new();
    let mut k: usize = 0;
    while k < bytes.len()
        invariant
            k <= bytes@.len(),
            s@ == hex_of(bytes@.take(k as int)),
        decreases bytes@.len() - k,
    {
        let byte = bytes[k];
        push_hex_digit(&mut s, byte / 16);
        push_hex_digit(&mut s, byte % 16);
        k = k + 1;
        proof {
            assert(s@ =~= hex_of(bytes@.take(k as int)));
        }
    }
    proof {
        assert(bytes@.take(bytes@.len() as int) =~= bytes@);
    }
    s
}

/// A streaming ed2k hash computation. The view is the sequence of source
/// bytes fed so far; `finish` ties the produced hash to that sequence.
pub struct Ed2kHash {
    cur: Md4,
    combiner: Md4,
    cur_len: usize,
    chunks: u64,
    first: Vec<u8>,
    msg: Ghost<Seq<u8>>,
}

impl View for Ed2kHash {
    type V = Seq<u8>;

    closed spec fn view(&self) -> Seq<u8> {
        self.msg@
    }
}

impl Ed2kHash {
    /// Internal invariant: `chunks` complete chunks have been folded into
    /// the combination digest (and the first one remembered), and the
    /// chunk in progress holds the remaining tail of the source.
    pub closed spec fn wf(&self) -> bool {
        let l = self.msg@.len() as int;
        let b = BLOCKSIZE as int;
        &&& self.cur.wf()
        &&& self.combiner.wf()
        &&& 8 * l <= u64::MAX
        &&& self.chunks as int == l / b
        &&& self.cur_len as int == l % b
        &&& self.cur@ == self.msg@.skip(l - (l % b))
        &&& self.combiner@ == if self.chunks == 0 {
            Seq::<u8>::empty()
        } else {
            chunk_digests(self.msg@.take(l - (l % b)))
        }
        &&& self.combiner@.len() == 16 * self.chunks
        &&& self.chunks >= 1 ==> self.first@ == md4_digest(self.msg@.take(b))
    }

    /// Start hashing a fresh source.
    pub fn new() -> (r: Ed2kHash)
        ensures
            r.wf(),
            r@ == Seq::<u8>::empty(),
    {
        let r = Ed2kHash {
            cur: Md4::new(),
            combiner: Md4::new(),
            cur_len: 0,
            chunks: 0,
            first: Vec::new(),
            msg: Ghost(Seq::empty()),
        };
        proof {
            vstd::arithmetic::div_mod::lemma_basic_div_specific_divisor(BLOCKSIZE as int);
            vstd::arithmetic::div_mod::lemma_small_mod(0, BLOCKSIZE as nat);
            assert(r.msg@.skip(0) =~= Seq::<u8>::empty());
        }
        r
    }

    /// Feed the next run of source bytes. Only the concatenation of all
    /// fed bytes matters, not the sizes of the individual reads.
    #[verifier::rlimit(100)]
    pub fn update(&mut self, data: &[u8])
        requires
            old(self).wf(),
            8 * (old(self)@.len() + data@.len()) <= u64::MAX,
        ensures
            final(self).wf(),
            final(self)@ == old(self)@ + data@,
    {
        let ghost msg0: Seq<u8> = self.msg@;
        let ghost b: int = BLOCKSIZE as int;
        let mut i: usize = 0;
        while i < data.len()
            invariant
                b == BLOCKSIZE as int,
                i <= data@.len(),
                self.wf(),
                self@ == msg0 + data@.take(i as int),
                8 * (msg0.len() + data@.len()) <= u64::MAX,
            decreases data@.len() - i,
        {
            let ghost before: Seq<u8> = self.msg@;
            let ghost l: int = before.len() as int;
            let ghost c: int = self.chunks as int;
            proof {
                vstd::arithmetic::div_mod::lemma_fundamental_div_mod(l, b);
                vstd::arithmetic::mul::lemma_mul_nonnegative(c, b);
                assert(l - (l % b) == c * b);
                assert(0 <= l - (l % b) <= l);
            }
            let room = BLOCKSIZE - self.cur_len;
            let rest = data.len() - i;
            let take = if rest < room {
                rest
            } else {
                room
            };
            proof {
                assert(take > 0);
            }
            self.cur.input(&data[i..i + take]);
            self.cur_len = self.cur_len + take;
            i = i + take;
            self.msg = Ghost(msg0 + data@.take(i as int));
            proof {
                assert(self.msg@ =~= before + data@.subrange(i - take, i as int));
                assert(self.cur@ == self.msg@.skip(l - (l % b))) by {
                    assert(before.skip(l - (l % b)) + data@.subrange(i - take, i as int)
                        =~= self.msg@.skip(l - (l % b)));
                }
            }
            if self.cur_len == BLOCKSIZE {
                let ghost l2: int = self.msg@.len() as int;
                let ghost chunk: Seq<u8> = self.msg@.skip(l - (l % b));
                proof {
                    vstd::arithmetic::div_mod::lemma_fundamental_div_mod(l, b);
                    assert(l2 == (c + 1) * b) by {
                        assert(l == c * b + (l % b));
                    }
                    vstd::arithmetic::div_mod::lemma_mod_multiples_basic(c + 1, b);
                    vstd::arithmetic::div_mod::lemma_fundamental_div_mod_converse(l2, b, c + 1, 0);
                    assert(8 * (16 * c + 16) <= u64::MAX) by (nonlinear_arith)
                        requires
                            0 <= c,
                            c * b + b == l2,
                            8 * l2 <= u64::MAX,
                            b == 9728000,
                    ;
                }
                let dg = self.cur.result();
                self.cur.reset();
                proof {
                    assert(dg@ == md4_digest(chunk));
                    crate::md4::lemma_md4_digest_len(chunk);
                }
                self.combiner.input(dg.as_slice());
                proof {
                    if c == 0 {
                        // The first chunk: the source so far is exactly one chunk.
                        assert(chunk =~= self.msg@);
                        assert(self.msg@.take(l2) =~= self.msg@);
                        assert(chunk_digests(self.msg@) == md4_digest(self.msg@));
                        assert(Seq::<u8>::empty() + dg@ =~= dg@);
                    } else {
                        assert(l2 > b) by (nonlinear_arith)
                            requires
                                1 <= c,
                                l2 == (c + 1) * b,
                                b == 9728000,
                        ;
                        assert(self.msg@.take(l2) =~= self.msg@);
                        assert(self.msg@.take(l2 - b) =~= before.take(l - (l % b)));
                        assert(chunk_digests(self.msg@) == chunk_digests(self.msg@.take(l2 - b))
                            + md4_digest(self.msg@.skip(l2 - b)));
                        assert(self.msg@.skip(l2 - b) =~= chunk);
                    }
                }
                if self.chunks == 0 {
                    self.first = dg;
                }
                self.chunks = self.chunks + 1;
                self.cur_len = 0;
                proof {
                    assert(self.cur@ == Seq::<u8>::empty());
                    assert(self.msg@.skip(l2) =~= Seq::<u8>::empty());
                    if c == 0 {
                        assert(self.msg@.take(b) =~= self.msg@);
                    } else {
                        assert(self.msg@.take(b) =~= before.take(b));
                    }
                }
            } else {
                proof {
                    let l2 = self.msg@.len() as int;
                    vstd::arithmetic::div_mod::lemma_fundamental_div_mod(l, b);
                    vstd::arithmetic::div_mod::lemma_fundamental_div_mod_converse(
                        l2,
                        b,
                        c,
                        self.cur_len as int,
                    );
                    assert(self.msg@.take(l2 - (l2 % b)) =~= before.take(l - (l % b)));
                    if c >= 1 {
                        assert(self.msg@.take(b) =~= before.take(b));
                    }
                }
            }
        }
        proof {
            assert(msg0 + data@.take(data@.len() as int) =~= msg0 + data@);
        }
    }

    /// Close the final chunk and produce the 16-byte ed2k hash of the
    /// whole source fed so far.
    pub fn finish(&mut self) -> (r: Vec<u8>)
        requires
            old(self).wf(),
        ensures
            r@ == ed2k_digest(old(self)@),
            final(self)@ == old(self)@,
    {
        let ghost msg: Seq<u8> = self.msg@;
        let ghost l: int = msg.len() as int;
        let ghost b: int = BLOCKSIZE as int;
        let ghost c: int = self.chunks as int;
        proof {
            vstd::arithmetic::div_mod::lemma_fundamental_div_mod(l, b);
        }
        let dg = self.cur.result();
        if self.chunks == 0 {
            proof {
                assert(l < b);
                assert(msg.skip(0) =~= msg);
            }
            dg
        } else if self.cur_len == 0 {
            if self.chunks == 1 {
                proof {
                    assert(l == b);
                    assert(msg.take(b) =~= msg);
                }
                let mut out: Vec<u8> = Vec::new();
                out.append(&mut self.first);
                out
            } else {
                proof {
                    assert(l == c * b);
                    assert(l > b) by (nonlinear_arith)
                        requires
                            2 <= c,
                            l == c * b,
                            b == 9728000,
                    ;
                    assert(msg.take(l) =~= msg);
                }
                self.combiner.result()
            }
        } else {
            proof {
                assert(l > b) by (nonlinear_arith)
                    requires
                        1 <= c,
                        0 < l % b,
                        l == c * b + (l % b),
                        b == 9728000,
                ;
                assert(8 * (16 * c + 16) <= u64::MAX) by (nonlinear_arith)
                    requires
                        0 <= c,
                        c * b <= l,
                        0 <= l % b,
                        l == c * b + (l % b),
                        8 * l <= u64::MAX,
                        b == 9728000,
                ;
                crate::md4::lemma_md4_digest_len(msg.skip(l - (l % b)));
            }
            self.combiner.input(dg.as_slice());
            proof {
                assert(chunk_digests(msg) == chunk_digests(msg.take(l - (l % b))) + md4_digest(
                    msg.skip(l - (l % b)),
                ));
                assert(self.combiner@ == chunk_digests(msg));
            }
            self.combiner.result()
        }
    }
}

} // verus!
