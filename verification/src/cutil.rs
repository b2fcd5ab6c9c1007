//! Byte-level utilities shared by block-oriented digest algorithms: a
//! fixed-capacity buffer that turns arbitrary-sized writes into full
//! fixed-size blocks, the standard padding scheme built on it, a simple
//! stepped counter, and little-endian encode/decode helpers.

use vstd::prelude::*;

verus! {

/// A sequence of `n` zero bytes.
pub open spec fn zero_bytes(n: nat) -> Seq<u8> {
    Seq::new(n, |i: int| 0u8)
}

/// The four bytes of a 32-bit word in little-endian order.
pub open spec fn u32_le(x: u32) -> Seq<u8> {
    seq![
        (x % 256) as u8,
        ((x / 256) % 256) as u8,
        ((x / 65536) % 256) as u8,
        ((x / 16777216) % 256) as u8,
    ]
}

/// The eight bytes of a 64-bit word in little-endian order.
pub open spec fn u64_le(x: u64) -> Seq<u8> {
    seq![
        (x % 256) as u8,
        ((x / 256) % 256) as u8,
        ((x / 65536) % 256) as u8,
        ((x / 16777216) % 256) as u8,
        ((x / 4294967296) % 256) as u8,
        ((x / 1099511627776) % 256) as u8,
        ((x / 281474976710656) % 256) as u8,
        ((x / 72057594037927936) % 256) as u8,
    ]
}

/// The little-endian 32-bit word found at word index `i` of `bytes`.
pub open spec fn le_word(bytes: Seq<u8>, i: int) -> u32
    recommends
        0 <= i,
        4 * i + 4 <= bytes.len(),
{
    (bytes[4 * i] + bytes[4 * i + 1] * 256 + bytes[4 * i + 2] * 65536 + bytes[4 * i + 3]
        * 16777216) as u32
}

/// Append `src[start..end]` to `dst`.
pub(crate) fn push_range(dst: &mut Vec<u8>, src: &[u8], start: usize, end: usize)
    requires
        start <= end <= src@.len(),
        old(dst)@.len() + (end - start) <= usize::MAX,
    ensures
        final(dst)@ == old(dst)@ + src@.subrange(start as int, end as int),
{
    let mut j: usize = start;
    while j < end
        invariant
            start <= j <= end <= src@.len(),
            dst@ == old(dst)@ + src@.subrange(start as int, j as int),
            dst@.len() == old(dst)@.len() + (j - start),
        decreases end - j,
    {
        dst.push(src[j]);
        j = j + 1;
        proof {
            assert(dst@ == old(dst)@ + src@.subrange(start as int, j as int)) by {
                assert(src@.subrange(start as int, j as int) == src@.subrange(
                    start as int,
                    j - 1,
                ).push(src@[j - 1]));
            }
        }
    }
    proof {
        assert(dst@ == old(dst)@ + src@.subrange(start as int, end as int));
    }
}

/// A fixed-size buffer. Input bytes accumulate until a full block of
/// `cap()` bytes is available; full blocks are handed back to the caller
/// for processing and the buffer is cleared, so the fill level never
/// exceeds the capacity.
pub trait FixedBuffer: Sized {
    /// The bytes currently held, oldest first.
    spec fn buf(&self) -> Seq<u8>;

    /// The fixed capacity: the length of one full block.
    spec fn cap(&self) -> nat;

    /// Structural invariant.
    spec fn inv(&self) -> bool;

    /// The invariant bounds the fill level by the capacity.
    proof fn inv_facts(&self)
        requires
            self.inv(),
        ensures
            self.buf().len() <= self.cap(),
            0 < self.cap() <= usize::MAX,
    ;

    /// Feed bytes in. Every full block that becomes available is returned,
    /// in input order; the leftover tail stays in the buffer.
    fn input(&mut self, data: &[u8]) -> (blocks: Vec<Vec<u8>>)
        requires
            old(self).inv(),
        ensures
            final(self).inv(),
            final(self).cap() == old(self).cap(),
            ({
                let total = old(self).buf() + data@;
                let c = old(self).cap() as int;
                let n = total.len() as int / c;
                &&& blocks@.len() == n
                &&& forall|i: int|
                    0 <= i < n ==> (#[trigger] blocks@[i])@ == total.subrange(i * c, i * c + c)
                &&& final(self).buf() == total.subrange(n * c, total.len() as int)
            }),
    ;

    /// Forget the buffered bytes.
    fn reset(&mut self)
        requires
            old(self).inv(),
        ensures
            final(self).inv(),
            final(self).cap() == old(self).cap(),
            final(self).buf() == Seq::<u8>::empty(),
    ;

    /// Append one byte; there must be room for it.
    fn push(&mut self, byte: u8)
        requires
            old(self).inv(),
            old(self).buf().len() < old(self).cap(),
        ensures
            final(self).inv(),
            final(self).cap() == old(self).cap(),
            final(self).buf() == old(self).buf().push(byte),
    ;

    /// Zero-fill from the current position up to index `idx`.
    fn zero_until(&mut self, idx: usize)
        requires
            old(self).inv(),
            old(self).buf().len() <= idx <= old(self).cap(),
        ensures
            final(self).inv(),
            final(self).cap() == old(self).cap(),
            final(self).buf() == old(self).buf() + zero_bytes((idx - old(self).buf().len()) as nat),
    ;

    /// Take the contents of an exactly full buffer, clearing it.
    fn full_buffer(&mut self) -> (block: Vec<u8>)
        requires
            old(self).inv(),
            old(self).buf().len() == old(self).cap(),
        ensures
            final(self).inv(),
            final(self).cap() == old(self).cap(),
            block@ == old(self).buf(),
            final(self).buf() == Seq::<u8>::empty(),
    ;

    /// Take whatever the buffer currently holds, clearing it.
    fn current_buffer(&mut self) -> (bytes: Vec<u8>)
        requires
            old(self).inv(),
        ensures
            final(self).inv(),
            final(self).cap() == old(self).cap(),
            bytes@ == old(self).buf(),
            final(self).buf() == Seq::<u8>::empty(),
    ;

    /// The current fill level.
    fn position(&self) -> (n: usize)
        requires
            self.inv(),
        ensures
            n == self.buf().len(),
    ;

    /// How many bytes fit before the buffer is full.
    fn remaining(&self) -> (n: usize)
        requires
            self.inv(),
        ensures
            n == self.cap() - self.buf().len(),
    ;

    /// The capacity.
    fn size(&self) -> (n: usize)
        requires
            self.inv(),
        ensures
            n == self.cap(),
    ;
}

/// A fixed-size buffer of 64 bytes, the block size of MD4 and its relatives.
pub struct FixedBuffer64 {
    data: Vec<u8>,
}

impl FixedBuffer64 {
    /// Create a new, empty buffer.
    pub fn new() -> (r: FixedBuffer64)
        ensures
            r.inv(),
            r.cap() == 64,
            r.buf() == Seq::<u8>::empty(),
    {
        FixedBuffer64 { data: Vec::new() }
    }
}

impl FixedBuffer for FixedBuffer64 {
    closed spec fn buf(&self) -> Seq<u8> {
        self.data@
    }

    closed spec fn cap(&self) -> nat {
        64
    }

    closed spec fn inv(&self) -> bool {
        self.data@.len() <= 64
    }

    proof fn inv_facts(&self) {
    }

    fn input(&mut self, data: &[u8]) -> (blocks: Vec<Vec<u8>>) {
        let ghost total: Seq<u8> = old(self).data@ + data@;
        let mut blocks: Vec<Vec<u8>> = Vec::new();
        let mut i: usize = 0;
        let ghost mut consumed: int = 0;

        // Fill a partially filled buffer to capacity first, releasing the
        // completed block if the input suffices.
        if self.data.len() != 0 {
            let room = 64 - self.data.len();
            if data.len() >= room {
                push_range(&mut self.data, data, 0, room);
                let mut block: Vec<u8> = Vec::new();
                block.append(&mut self.data);
                proof {
                    assert(block@ == total.subrange(0, 64));
                }
                blocks.push(block);
                i = room;
                proof {
                    consumed = 64;
                }
            } else {
                push_range(&mut self.data, data, 0, data.len());
                proof {
                    let c = old(self).cap() as int;
                    let n = total.len() as int / c;
                    assert(self.data@ == total);
                    assert(total.len() < 64);
                    assert(n == 0) by {
                        vstd::arithmetic::div_mod::lemma_basic_div_specific_divisor(64);
                    }
                    assert(self.data@ =~= total.subrange(n * c, total.len() as int));
                    assert(self.data@ == total.subrange(n * c, total.len() as int));
                    assert(blocks@.len() == n);
                }
                return blocks;
            }
        }
        // Release whole blocks directly out of the input.
        while data.len() - i >= 64
            invariant
                self.data@.len() == 0,
                i <= data@.len(),
                total == old(self).data@ + data@,
                consumed == old(self).data@.len() + i,
                consumed % 64 == 0,
                blocks@.len() * 64 == consumed,
                forall|k: int|
                    0 <= k < blocks@.len() ==> (#[trigger] blocks@[k])@ == total.subrange(
                        k * 64,
                        k * 64 + 64,
                    ),
            decreases data@.len() - i,
        {
            let block = vstd::slice::slice_to_vec(&data[i..i + 64]);
            proof {
                assert(block@ == total.subrange(consumed, consumed + 64)) by {
                    assert(data@.subrange(i as int, i + 64) =~= total.subrange(
                        consumed,
                        consumed + 64,
                    ));
                }
                assert((blocks@.len() + 1) * 64 == consumed + 64) by (nonlinear_arith)
                    requires
                        blocks@.len() * 64 == consumed,
                ;
            }
            blocks.push(block);
            i = i + 64;
            proof {
                consumed = consumed + 64;
            }
        }
        // Keep the leftover tail.
        push_range(&mut self.data, data, i, data.len());
        proof {
            let c = 64int;
            let n = total.len() as int / c;
            assert(total.len() == consumed + (data@.len() - i));
            assert(n == blocks@.len() && consumed == n * c) by {
                vstd::arithmetic::div_mod::lemma_fundamental_div_mod_converse(
                    total.len() as int,
                    c,
                    blocks@.len() as int,
                    total.len() as int - consumed,
                );
            }
            assert(self.data@ =~= total.subrange(n * c, total.len() as int)) by {
                assert(data@.subrange(i as int, data@.len() as int) =~= total.subrange(
                    consumed,
                    total.len() as int,
                ));
            }
        }
        blocks
    }

    fn reset(&mut self) {
        self.data.clear();
    }

    fn push(&mut self, byte: u8) {
        self.data.push(byte);
    }

    fn zero_until(&mut self, idx: usize) {
        while self.data.len() < idx
            invariant
                idx <= 64,
                self.data@.len() <= idx,
                old(self).data@.len() <= self.data@.len(),
                self.data@ == old(self).data@ + zero_bytes(
                    (self.data@.len() - old(self).data@.len()) as nat,
                ),
            decreases idx - self.data@.len(),
        {
            self.data.push(0u8);
            proof {
                let k = (self.data@.len() - old(self).data@.len()) as nat;
                assert(self.data@ == old(self).data@ + zero_bytes(k)) by {
                    assert(old(self).data@ + zero_bytes(k) =~= (old(self).data@ + zero_bytes(
                        (k - 1) as nat,
                    )).push(0u8));
                }
            }
        }
        proof {
            assert(self.data@ == old(self).data@ + zero_bytes(
                (idx - old(self).data@.len()) as nat,
            ));
        }
    }

    fn full_buffer(&mut self) -> (block: Vec<u8>) {
        let mut block: Vec<u8> = Vec::new();
        block.append(&mut self.data);
        block
    }

    fn current_buffer(&mut self) -> (bytes: Vec<u8>) {
        let mut bytes: Vec<u8> = Vec::new();
        bytes.append(&mut self.data);
        bytes
    }

    fn position(&self) -> (n: usize) {
        self.data.len()
    }

    fn remaining(&self) -> (n: usize) {
        64 - self.data.len()
    }

    fn size(&self) -> (n: usize) {
        64
    }
}

/// The standard padding scheme shared by MD4-style digest algorithms: a
/// `0x80` marker byte followed by zeros, leaving exactly `rem` bytes of
/// room in the final block for a length field.
pub trait StandardPadding: FixedBuffer {
    /// Pad so that exactly `rem` bytes remain in the buffer. If there is
    /// not enough room in the current block, it is zero-filled and returned
    /// for processing, and padding continues in a fresh block.
    fn standard_padding(&mut self, rem: usize) -> (carry: Option<Vec<u8>>)
        requires
            old(self).inv(),
            old(self).buf().len() < old(self).cap(),
            0 < rem <= old(self).cap(),
        ensures
            final(self).inv(),
            final(self).cap() == old(self).cap(),
            final(self).buf().len() == old(self).cap() - rem,
            ({
                let cap = old(self).cap() as int;
                let marked = old(self).buf().push(0x80u8);
                if marked.len() + rem <= cap {
                    &&& carry is None
                    &&& final(self).buf() == marked + zero_bytes(
                        (cap - rem - marked.len()) as nat,
                    )
                } else {
                    &&& carry matches Some(b) && b@ == marked + zero_bytes(
                        (cap - marked.len()) as nat,
                    )
                    &&& final(self).buf() == zero_bytes((cap - rem) as nat)
                }
            }),
    ;
}

impl<T: FixedBuffer> StandardPadding for T {
    fn standard_padding(&mut self, rem: usize) -> (carry: Option<Vec<u8>>) {
        proof {
            old(self).inv_facts();
        }
        let size = self.size();
        self.push(128);

        let mut carry: Option<Vec<u8>> = None;
        if self.remaining() < rem {
            self.zero_until(size);
            carry = Some(self.full_buffer());
        }
        self.zero_until(size - rem);
        proof {
            let cap = old(self).cap() as int;
            let marked = old(self).buf().push(0x80u8);
            if marked.len() + rem <= cap {
                assert(final(self).buf() == marked + zero_bytes((cap - rem - marked.len()) as nat));
            } else {
                assert(final(self).buf() == Seq::<u8>::empty() + zero_bytes((cap - rem) as nat));
                assert(Seq::<u8>::empty() + zero_bytes((cap - rem) as nat) =~= zero_bytes(
                    (cap - rem) as nat,
                ));
            }
        }
        carry
    }
}

/// A counter that steps from `next` up to (excluding) `end` by `ammount`,
/// standing in for the unstable `step_by` of the standard library.
#[derive(Clone, Copy)]
pub struct StepUp {
    /// The value the next call will yield.
    pub next: usize,
    /// The exclusive upper bound.
    pub end: usize,
    /// The step size.
    pub ammount: usize,
}

impl StepUp {
    /// Yield the current value and advance, or report exhaustion.
    pub fn next(&mut self) -> (r: Option<usize>)
        requires
            old(self).next < old(self).end ==> old(self).next + old(self).ammount <= usize::MAX,
        ensures
            old(self).next < old(self).end ==> r == Some(old(self).next) && final(self).next
                == old(self).next + old(self).ammount,
            !(old(self).next < old(self).end) ==> r is None && final(self).next == old(self).next,
            final(self).end == old(self).end,
            final(self).ammount == old(self).ammount,
    {
        if self.next < self.end {
            let n = self.next;
            self.next = self.next + self.ammount;
            Some(n)
        } else {
            None
        }
    }
}

/// Extends ranges with stepped iteration.
pub trait RangeExt {
    /// Turn a range into a stepped counter.
    fn step_up(self, ammount: usize) -> StepUp;
}

impl RangeExt for core::ops::Range<usize> {
    fn step_up(self, ammount: usize) -> (r: StepUp)
        ensures
            r.next == self.start,
            r.end == self.end,
            r.ammount == ammount,
    {
        StepUp { next: self.start, end: self.end, ammount }
    }
}

/// Encode a 32-bit value as four bytes in little-endian order.
pub fn write_u32_le(input: u32) -> (r: Vec<u8>)
    ensures
        r@ == u32_le(input),
{
    let mut r: Vec<u8> = Vec::new();
    r.push((input % 256) as u8);
    r.push(((input / 256) % 256) as u8);
    r.push(((input / 65536) % 256) as u8);
    r.push(((input / 16777216) % 256) as u8);
    proof {
        assert(r@ =~= u32_le(input));
    }
    r
}

/// Decode a byte slice into 32-bit values, little-endian.
pub fn read_u32v_le(input: &[u8]) -> (r: Vec<u32>)
    requires
        input@.len() % 4 == 0,
    ensures
        4 * r@.len() == input@.len(),
        forall|i: int| 0 <= i < r@.len() ==> r@[i] == le_word(input@, i),
{
    let n = input.len() / 4;
    let mut r: Vec<u32> = Vec::new();
    let mut k: usize = 0;
    while k < n
        invariant
            4 * n == input@.len(),
            input@.len() <= usize::MAX,
            k <= n,
            r@.len() == k,
            forall|i: int| 0 <= i < k ==> r@[i] == le_word(input@, i),
        decreases n - k,
    {
        let w = input[4 * k] as u32 + (input[4 * k + 1] as u32) * 256 + (input[4 * k + 2] as u32)
            * 65536 + (input[4 * k + 3] as u32) * 16777216;
        proof {
            assert(w == le_word(input@, k as int));
        }
        r.push(w);
        k = k + 1;
    }
    r
}

} // verus!
