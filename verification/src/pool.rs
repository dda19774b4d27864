//! The fixed-capacity mixing pool.
//!
//! Conditioned bits are packed into bytes and folded into a ring of bytes by
//! exclusive-or; extraction digests the whole buffer together with the
//! extraction counter and the write cursor and truncates the digest.
//! Extraction is a pure function of the current pool state: the counter is
//! not advanced by extraction itself, so repeated extractions against an
//! unchanged pool return the same bytes.  Callers that need distinct outputs
//! must mix in further entropy or salt the derivation layer.

use vstd::prelude::*;

use crate::hashing::sha3_512;
use crate::hashing::sha3_512_of;
use crate::utils::bits_to_bytes;
use crate::utils::spec_bits_to_bytes;
use crate::CryptoError;
use vstd::bytes::spec_u64_to_le_bytes;
use vstd::bytes::u64_to_le_bytes;

verus! {

/// Per-call ceiling on extracted bytes.
pub const MAX_EXTRACT_BYTES: usize = 64;

/// Minimum number of absorbed bits before extraction is allowed.
pub const MIN_BITS_BEFORE_EXTRACT: u64 = 8192;

/// Minimum pool capacity in bytes.
pub const MIN_POOL_CAPACITY: usize = 1024;

/// One byte folded into the buffer at `pos` by exclusive-or, the cursor
/// advancing modulo the buffer length, byte after byte.
pub open spec fn spec_absorb(buf: Seq<u8>, pos: int, bytes: Seq<u8>) -> Seq<u8>
    decreases bytes.len(),
{
    if bytes.len() == 0 || buf.len() == 0 {
        buf
    } else {
        spec_absorb(
            buf.update(pos, buf[pos] ^ bytes[0]),
            (pos + 1) % (buf.len() as int),
            bytes.skip(1),
        )
    }
}

/// Forward distance from `pos` to `i` on a ring of length `cap`.
pub open spec fn ring_dist(i: int, pos: int, cap: int) -> int {
    if i >= pos {
        i - pos
    } else {
        i - pos + cap
    }
}

/// Pointwise description of one absorb pass that writes at most one byte to
/// each cell: a cell within reach of the pass holds its old value combined
/// with the byte written there, every other cell is unchanged.
pub proof fn lemma_absorb_pointwise(buf: Seq<u8>, pos: int, bytes: Seq<u8>, i: int)
    requires
        0 <= pos < buf.len(),
        bytes.len() <= buf.len(),
        0 <= i < buf.len(),
    ensures
        spec_absorb(buf, pos, bytes).len() == buf.len(),
        spec_absorb(buf, pos, bytes)[i] == if ring_dist(i, pos, buf.len() as int) < bytes.len() {
            buf[i] ^ bytes[ring_dist(i, pos, buf.len() as int)]
        } else {
            buf[i]
        },
    decreases bytes.len(),
{
    let cap = buf.len() as int;
    if bytes.len() == 0 {
    } else {
        let buf1 = buf.update(pos, buf[pos] ^ bytes[0]);
        let pos1 = (pos + 1) % cap;
        assert(pos1 == if pos + 1 < cap {
            pos + 1
        } else {
            0
        }) by {
            if pos + 1 < cap {
                vstd::arithmetic::div_mod::lemma_small_mod((pos + 1) as nat, cap as nat);
            } else {
                vstd::arithmetic::div_mod::lemma_mod_self_0(cap);
            }
        };
        lemma_absorb_pointwise(buf1, pos1, bytes.skip(1), i);
        let d = ring_dist(i, pos, cap);
        let d1 = ring_dist(i, pos1, cap);
        if d == 0 {
            assert(i == pos);
            assert(d1 == cap - 1);
            assert(spec_absorb(buf, pos, bytes)[i] == buf1[i]);
            assert(buf1[i] == buf[i] ^ bytes[0]);
        } else {
            assert(d1 == d - 1);
            assert(buf1[i] == buf[i]);
            if d < bytes.len() {
                assert(bytes.skip(1)[d - 1] == bytes[d]);
            }
        }
    }
}

/// Absorbing the very same bytes twice from the same cursor, when they cover
/// the ring exactly once, restores the buffer: each cell is combined twice
/// with the same byte and exclusive-or cancels.
pub proof fn lemma_absorb_twice_cancels(buf: Seq<u8>, pos: int, bytes: Seq<u8>)
    requires
        0 <= pos < buf.len(),
        bytes.len() == buf.len(),
    ensures
        spec_absorb(spec_absorb(buf, pos, bytes), pos, bytes) == buf,
{
    let cap = buf.len() as int;
    let once = spec_absorb(buf, pos, bytes);
    let twice = spec_absorb(once, pos, bytes);
    assert forall|i: int| 0 <= i < cap implies twice[i] == buf[i] by {
        lemma_absorb_pointwise(buf, pos, bytes, i);
        lemma_absorb_pointwise(once, pos, bytes, i);
        let d = ring_dist(i, pos, cap);
        assert(d < bytes.len());
        let b = bytes[d];
        let x = buf[i];
        assert((x ^ b) ^ b == x) by (bit_vector);
    };
    lemma_absorb_pointwise(buf, pos, bytes, pos);
    lemma_absorb_pointwise(once, pos, bytes, pos);
    assert(twice =~= buf);
}

/// Number of non-zero bytes in a sequence.
pub open spec fn count_nonzero(s: Seq<u8>) -> int
    decreases s.len(),
{
    if s.len() == 0 {
        0
    } else {
        count_nonzero(s.drop_last()) + if s.last() != 0 {
            1int
        } else {
            0int
        }
    }
}

/// The byte sequence that extraction digests: the whole buffer, then the
/// extraction counter, then the write cursor, both in little-endian form.
pub open spec fn spec_digest_input(buf: Seq<u8>, counter: u64, pos: u64) -> Seq<u8> {
    buf + spec_u64_to_le_bytes(counter) + spec_u64_to_le_bytes(pos)
}

/// A fixed-capacity byte pool that absorbs conditioned bits by exclusive-or
/// mixing and serves bounded extraction requests from a wide digest of its
/// whole state.
pub struct EntropyPool {
    pool: Vec<u8>,
    capacity: usize,
    write_pos: usize,
    extract_counter: u64,
    total_bits_added: u64,
}

impl EntropyPool {
    /// The buffer contents.
    pub closed spec fn buf(&self) -> Seq<u8> {
        self.pool@
    }

    /// The configured capacity in bytes.
    pub closed spec fn cap(&self) -> nat {
        self.capacity as nat
    }

    /// The write cursor.
    pub closed spec fn cursor(&self) -> nat {
        self.write_pos as nat
    }

    /// The extraction counter used for domain separation.
    pub closed spec fn counter(&self) -> u64 {
        self.extract_counter
    }

    /// The running count of absorbed bits.
    pub closed spec fn bits_absorbed(&self) -> u64 {
        self.total_bits_added
    }

    /// The buffer always has exactly the configured capacity, the cursor
    /// stays inside it, and the capacity meets the configured minimum.
    pub open spec fn wf(&self) -> bool {
        &&& self.buf().len() == self.cap()
        &&& self.cursor() < self.cap()
        &&& self.cap() >= MIN_POOL_CAPACITY
    }

    /// The digest that extraction truncates, as a function of pool state.
    pub open spec fn spec_digest(&self) -> Seq<u8> {
        sha3_512_of(spec_digest_input(self.buf(), self.counter(), self.cursor() as u64))
    }

    /// What `extract` returns for a request of `n` bytes.
    pub open spec fn spec_extract(&self, n: nat) -> Result<Seq<u8>, CryptoError> {
        if n > MAX_EXTRACT_BYTES {
            Err(CryptoError::RequestTooLarge)
        } else if self.bits_absorbed() < MIN_BITS_BEFORE_EXTRACT {
            Err(CryptoError::InsufficientEntropy)
        } else {
            Ok(self.spec_digest().take(n as int))
        }
    }

    /// A fresh pool of `capacity_bytes` zero bytes with the cursor and both
    /// counters at zero.
    pub fn new(capacity_bytes: usize) -> (r: Self)
        requires
            capacity_bytes >= MIN_POOL_CAPACITY,
        ensures
            r.wf(),
            r.cap() == capacity_bytes,
            r.buf() =~= Seq::new(capacity_bytes as nat, |i: int| 0u8),
            r.cursor() == 0,
            r.counter() == 0,
            r.bits_absorbed() == 0,
    {
        let pool = vec![0u8; capacity_bytes];
        EntropyPool { pool, capacity: capacity_bytes, write_pos: 0, extract_counter: 0, total_bits_added: 0 }
    }

    /// Pack the bit sequence into bytes and fold each byte into the buffer
    /// at the write cursor, advancing the cursor modulo the capacity; the
    /// bit counter grows by the original bit count, not the padded count.
    /// This always succeeds and is the sole mutation path of the buffer.
    pub fn add_entropy(&mut self, bits: &[u8])
        requires
            old(self).wf(),
            old(self).bits_absorbed() + bits@.len() <= u64::MAX,
        ensures
            final(self).wf(),
            final(self).cap() == old(self).cap(),
            final(self).counter() == old(self).counter(),
            final(self).buf() == spec_absorb(
                old(self).buf(),
                old(self).cursor() as int,
                spec_bits_to_bytes(bits@),
            ),
            final(self).cursor() == (old(self).cursor() + spec_bits_to_bytes(bits@).len()) % old(
                self,
            ).cap(),
            final(self).bits_absorbed() == old(self).bits_absorbed() + bits@.len(),
    {
        let bytes = bits_to_bytes(bits);
        let ghost target = spec_absorb(
            self.pool@,
            self.write_pos as int,
            spec_bits_to_bytes(bits@),
        );
        let ghost cap0: int = self.cap() as int;
        let ghost pos0: int = self.cursor() as int;
        let mut i: usize = 0;
        proof {
            assert(bytes@.skip(0) =~= bytes@);
            vstd::arithmetic::div_mod::lemma_small_mod(pos0 as nat, cap0 as nat);
        }
        while i < bytes.len()
            invariant
                self.wf(),
                self.cap() == cap0,
                i <= bytes@.len(),
                spec_absorb(self.pool@, self.write_pos as int, bytes@.skip(i as int)) == target,
                self.cursor() as int == (pos0 + i) % cap0,
                self.extract_counter == old(self).extract_counter,
                self.total_bits_added == old(self).total_bits_added,
            decreases bytes.len() - i,
        {
            let ghost pre = self.pool@;
            let ghost prepos = self.write_pos as int;
            let b = self.pool[self.write_pos] ^ bytes[i];
            self.pool[self.write_pos] = b;
            self.write_pos = (self.write_pos + 1) % self.capacity;
            proof {
                assert(bytes@.skip(i as int)[0] == bytes@[i as int]);
                assert(bytes@.skip(i as int).skip(1) =~= bytes@.skip(i + 1));
                assert(self.pool@ == pre.update(prepos, pre[prepos] ^ bytes@[i as int]));
                assert(spec_absorb(pre, prepos, bytes@.skip(i as int)) == spec_absorb(
                    self.pool@,
                    self.write_pos as int,
                    bytes@.skip(i + 1),
                ));
                assert((pos0 + i + 1) % cap0 == ((pos0 + i) % cap0 + 1) % cap0) by {
                    vstd::arithmetic::div_mod::lemma_add_mod_noop(pos0 + i, 1, cap0);
                    vstd::arithmetic::div_mod::lemma_mod_twice(pos0 + i, cap0);
                    vstd::arithmetic::div_mod::lemma_small_mod(1nat, cap0 as nat);
                };
            }
            i += 1;
        }
        proof {
            assert(bytes@.skip(bytes@.len() as int) =~= Seq::<u8>::empty());
        }
        self.total_bits_added = self.total_bits_added + bits.len() as u64;
    }

    /// Serve an extraction request of `num_bytes` bytes, or refuse it: a
    /// request over the per-call ceiling fails with `RequestTooLarge`, and
    /// before the minimum bit threshold has been absorbed every admissible
    /// request fails with `InsufficientEntropy`.  A served request returns
    /// the first `num_bytes` bytes of the state digest and mutates nothing.
    pub fn extract(&self, num_bytes: usize) -> (r: Result<Vec<u8>, CryptoError>)
        requires
            self.wf(),
        ensures
            match r {
                Ok(b) => self.spec_extract(num_bytes as nat) == Ok::<Seq<u8>, CryptoError>(b@)
                    && b@.len() == num_bytes,
                Err(e) => self.spec_extract(num_bytes as nat) == Err::<Seq<u8>, CryptoError>(e),
            },
    {
        if num_bytes > MAX_EXTRACT_BYTES {
            return Err(CryptoError::RequestTooLarge);
        }
        if self.total_bits_added < MIN_BITS_BEFORE_EXTRACT {
            return Err(CryptoError::InsufficientEntropy);
        }
        let mut input: Vec<u8> = Vec::new();
        input.extend_from_slice(self.pool.as_slice());
        let mut counter_bytes = u64_to_le_bytes(self.extract_counter);
        input.append(&mut counter_bytes);
        let mut pos_bytes = u64_to_le_bytes(self.write_pos as u64);
        input.append(&mut pos_bytes);
        assert(input@ =~= spec_digest_input(
            self.buf(),
            self.counter(),
            self.cursor() as u64,
        ));
        let digest = sha3_512(input.as_slice());
        let mut out: Vec<u8> = Vec::new();
        let mut i: usize = 0;
        while i < num_bytes
            invariant
                i <= num_bytes,
                num_bytes <= digest@.len(),
                digest@ == self.spec_digest(),
                out@ == self.spec_digest().take(i as int),
            decreases num_bytes - i,
        {
            out.push(digest[i]);
            assert(out@ =~= self.spec_digest().take(i + 1));
            i += 1;
        }
        Ok(out)
    }

    /// The count of non-zero bytes in the buffer: a coarse utilization
    /// metric, not a quality measure.
    pub fn available_entropy(&self) -> (r: usize)
        ensures
            r == count_nonzero(self.buf()),
    {
        let mut count: usize = 0;
        let mut i: usize = 0;
        while i < self.pool.len()
            invariant
                i <= self.pool@.len(),
                count == count_nonzero(self.pool@.take(i as int)),
                count <= i,
            decreases self.pool@.len() - i,
        {
            proof {
                assert(self.pool@.take(i + 1).drop_last() =~= self.pool@.take(i as int));
                assert(self.pool@.take(i + 1).last() == self.pool@[i as int]);
            }
            if self.pool[i] != 0 {
                count += 1;
            }
            i += 1;
        }
        assert(self.pool@.take(self.pool@.len() as int) =~= self.pool@);
        count
    }

    /// The configured capacity in bytes.
    pub fn capacity(&self) -> (r: usize)
        ensures
            r == self.cap(),
    {
        self.capacity
    }

    /// The total number of bits absorbed so far.
    pub fn total_bits_collected(&self) -> (r: u64)
        ensures
            r == self.bits_absorbed(),
    {
        self.total_bits_added
    }

    /// Overwrite the whole buffer with zero bytes, so that absorbed material
    /// does not linger in memory once the pool is retired.
    pub fn wipe(&mut self)
        requires
            old(self).wf(),
        ensures
            final(self).wf(),
            final(self).cap() == old(self).cap(),
            forall|i: int| 0 <= i < final(self).buf().len() ==> final(self).buf()[i] == 0u8,
    {
        let mut i: usize = 0;
        while i < self.pool.len()
            invariant
                i <= self.pool@.len(),
                self.pool@.len() == old(self).buf().len(),
                self.capacity == old(self).capacity,
                self.write_pos == old(self).write_pos,
                forall|j: int| 0 <= j < i ==> self.pool@[j] == 0u8,
            decreases self.pool@.len() - i,
        {
            self.pool[i] = 0u8;
            i += 1;
        }
    }
}

} // verus!
