//! Bit-level conditioning utilities: Von Neumann debiasing and the
//! conversions between bit sequences and packed bytes.
//!
//! A "bit sequence" is a slice of bytes in which the value `1` stands for a
//! one bit and every other value counts as a zero bit.  Bits are packed into
//! bytes least-significant-bit first: bit `k` of a chunk of eight lands at
//! value `2^k` of the byte, and an incomplete trailing chunk is padded with
//! zero bits.

use vstd::prelude::*;

use crate::hashing::sha3_256;
use crate::hashing::sha3_256_of;
use vstd::arithmetic::power2::pow2;

verus! {

/// The pair-wise core of Von Neumann extraction: for each consecutive pair
/// `(a, b)` with `a != b` the first element is kept, equal pairs are dropped,
/// and a trailing unpaired element is ignored.
pub open spec fn vn_core(bits: Seq<u8>) -> Seq<u8>
    decreases bits.len(),
{
    if bits.len() < 2 {
        Seq::empty()
    } else {
        (if bits[0] != bits[1] {
            seq![bits[0]]
        } else {
            Seq::<u8>::empty()
        }) + vn_core(bits.skip(2))
    }
}

/// The full debiaser: inputs shorter than one pair pass through unchanged,
/// and when every pair was discarded the first input bit is emitted so that
/// a non-empty input never produces an empty output.
pub open spec fn spec_debias(bits: Seq<u8>) -> Seq<u8> {
    if bits.len() < 2 {
        bits
    } else if vn_core(bits).len() == 0 {
        seq![bits[0]]
    } else {
        vn_core(bits)
    }
}

/// Splitting off an even-length prefix splits the pair-wise core.
proof fn lemma_vn_core_concat(s1: Seq<u8>, s2: Seq<u8>)
    requires
        s1.len() % 2 == 0,
    ensures
        vn_core(s1 + s2) == vn_core(s1) + vn_core(s2),
    decreases s1.len(),
{
    if s1.len() == 0 {
        assert(s1 + s2 =~= s2);
        assert(vn_core(s1) + vn_core(s2) =~= vn_core(s2));
    } else {
        assert((s1 + s2).skip(2) =~= s1.skip(2) + s2);
        lemma_vn_core_concat(s1.skip(2), s2);
        assert(vn_core(s1 + s2) =~= vn_core(s1) + vn_core(s2));
    }
}

/// The core keeps at most one bit out of every pair.
proof fn lemma_vn_core_len(s: Seq<u8>)
    ensures
        vn_core(s).len() <= s.len() / 2,
    decreases s.len(),
{
    if s.len() >= 2 {
        lemma_vn_core_len(s.skip(2));
    }
}

/// Every bit the core emits occurs in the input.
proof fn lemma_vn_core_contains(s: Seq<u8>, i: int)
    requires
        0 <= i < vn_core(s).len(),
    ensures
        s.contains(vn_core(s)[i]),
    decreases s.len(),
{
    if s.len() >= 2 {
        if s[0] != s[1] && i == 0 {
            assert(s[0] == vn_core(s)[0]);
        } else {
            let j = if s[0] != s[1] {
                i - 1
            } else {
                i
            };
            lemma_vn_core_contains(s.skip(2), j);
            let k = choose|k: int| 0 <= k < s.skip(2).len() && s.skip(2)[k] == vn_core(s.skip(2))[j];
            assert(s[k + 2] == vn_core(s)[i]);
        }
    }
}

/// For every input of at least one pair, the debiased output is at most half
/// as long as the input and holds only values that occur in the input.
pub proof fn lemma_debias_bounds(bits: Seq<u8>)
    requires
        bits.len() >= 2,
    ensures
        spec_debias(bits).len() <= bits.len() / 2,
        forall|i: int| 0 <= i < spec_debias(bits).len() ==> bits.contains(#[trigger] spec_debias(bits)[i]),
{
    lemma_vn_core_len(bits);
    if vn_core(bits).len() == 0 {
        assert(bits.contains(bits[0]));
    } else {
        assert forall|i: int| 0 <= i < spec_debias(bits).len() implies bits.contains(
            #[trigger] spec_debias(bits)[i],
        ) by {
            lemma_vn_core_contains(bits, i);
        }
    }
}

/// Von Neumann extraction over a raw bit sequence: consecutive pairs with
/// unequal bits emit their first bit; if that leaves nothing and the input
/// was non-empty, the first input bit is emitted instead.
pub fn von_neumann_debias(bits: &[u8]) -> (r: Vec<u8>)
    ensures
        r@ == spec_debias(bits@),
{
    if bits.len() < 2 {
        let mut r: Vec<u8> = Vec::new();
        let mut i: usize = 0;
        while i < bits.len()
            invariant
                i <= bits.len(),
                r@ == bits@.take(i as int),
            decreases bits.len() - i,
        {
            r.push(bits[i]);
            i += 1;
        }
        assert(bits@.take(bits@.len() as int) =~= bits@);
        return r;
    }
    let mut result: Vec<u8> = Vec::new();
    let mut i: usize = 0;
    while i + 1 < bits.len()
        invariant
            bits@.len() >= 2,
            i % 2 == 0,
            i <= bits.len(),
            result@ == vn_core(bits@.take(i as int)),
        decreases bits.len() - i,
    {
        let a = bits[i];
        let b = bits[i + 1];
        proof {
            assert(bits@.take(i as int) + bits@.subrange(i as int, i + 2) =~= bits@.take(i + 2));
            lemma_vn_core_concat(bits@.take(i as int), bits@.subrange(i as int, i + 2));
            let pair = bits@.subrange(i as int, i + 2);
            assert(pair.len() == 2);
            assert(pair[0] == a);
            assert(pair[1] == b);
            assert(pair.skip(2) =~= Seq::<u8>::empty());
            assert(vn_core(pair.skip(2)) == Seq::<u8>::empty());
            if a != b {
                assert(vn_core(pair) =~= seq![a]);
            } else {
                assert(vn_core(pair) =~= Seq::<u8>::empty());
            }
        }
        if a != b {
            result.push(a);
        }
        proof {
            if a != b {
                assert(result@ =~= vn_core(bits@.take(i + 2)));
            } else {
                assert(result@ =~= vn_core(bits@.take(i + 2)));
            }
        }
        i += 2;
    }
    proof {
        if i < bits.len() {
            // one unpaired trailing bit: the core ignores it
            assert(bits@.take(i as int) + bits@.subrange(i as int, bits@.len() as int) =~= bits@);
            lemma_vn_core_concat(bits@.take(i as int), bits@.subrange(i as int, bits@.len() as int));
            assert(vn_core(bits@.subrange(i as int, bits@.len() as int)) =~= Seq::<u8>::empty());
            assert(result@ =~= vn_core(bits@));
        } else {
            assert(bits@.take(i as int) =~= bits@);
        }
    }
    if result.len() == 0 {
        result.push(bits[0]);
        assert(result@ =~= seq![bits@[0]]);
    }
    result
}

/// Numeric value of one bit: `1` counts as one, anything else as zero.
pub open spec fn bit_val(b: u8) -> nat {
    if b == 1 {
        1
    } else {
        0
    }
}

/// Value of a chunk of bits packed least-significant-bit first.
pub open spec fn byte_of_bits(chunk: Seq<u8>) -> nat
    decreases chunk.len(),
{
    if chunk.len() == 0 {
        0
    } else {
        bit_val(chunk[0]) + 2 * byte_of_bits(chunk.skip(1))
    }
}

proof fn lemma_byte_of_bits_bound(chunk: Seq<u8>)
    ensures
        byte_of_bits(chunk) < pow2(chunk.len()),
    decreases chunk.len(),
{
    if chunk.len() == 0 {
        assert(pow2(0) == 1) by {
            vstd::arithmetic::power2::lemma2_to64();
        }
    } else {
        vstd::arithmetic::power2::lemma_pow2_unfold(chunk.len());
        lemma_byte_of_bits_bound(chunk.skip(1));
    }
}

proof fn lemma_byte_of_bits_push(chunk: Seq<u8>, x: u8)
    ensures
        byte_of_bits(chunk.push(x)) == byte_of_bits(chunk) + bit_val(x) * pow2(chunk.len()),
    decreases chunk.len(),
{
    if chunk.len() == 0 {
        assert(chunk.push(x)[0] == x);
        assert(chunk.push(x).skip(1) =~= Seq::<u8>::empty());
        assert(pow2(0) == 1) by {
            vstd::arithmetic::power2::lemma2_to64();
        }
        assert(byte_of_bits(chunk.push(x).skip(1)) == 0);
        assert(byte_of_bits(chunk.push(x)) == bit_val(x));
        assert(byte_of_bits(chunk) == 0);
        assert(bit_val(x) * pow2(0) == bit_val(x));
    } else {
        assert(chunk.push(x)[0] == chunk[0]);
        assert(chunk.push(x).len() == chunk.len() + 1);
        assert(chunk.push(x).skip(1) =~= chunk.skip(1).push(x));
        lemma_byte_of_bits_push(chunk.skip(1), x);
        vstd::arithmetic::power2::lemma_pow2_unfold(chunk.len());
        assert(byte_of_bits(chunk.push(x)) == bit_val(chunk[0]) + 2 * byte_of_bits(
            chunk.push(x).skip(1),
        ));
        assert(byte_of_bits(chunk.push(x).skip(1)) == byte_of_bits(chunk.skip(1)) + bit_val(x)
            * pow2((chunk.len() - 1) as nat));
        assert(2 * (bit_val(x) * pow2((chunk.len() - 1) as nat)) == bit_val(x) * pow2(chunk.len()))
            by (nonlinear_arith)
            requires
                pow2(chunk.len()) == 2 * pow2((chunk.len() - 1) as nat),
        ;
        assert(byte_of_bits(chunk) == bit_val(chunk[0]) + 2 * byte_of_bits(chunk.skip(1)));
        assert(byte_of_bits(chunk.push(x)) == bit_val(chunk[0]) + 2 * byte_of_bits(chunk.skip(1))
            + 2 * (bit_val(x) * pow2((chunk.len() - 1) as nat)));
    }
}

/// Number of whole bytes needed to hold `n_bits` bits.
pub open spec fn byte_count(n_bits: nat) -> nat {
    (n_bits + 7) / 8
}

/// The `j`-th chunk of up to eight bits of a bit sequence.
pub open spec fn bit_chunk(bits: Seq<u8>, j: int) -> Seq<u8> {
    bits.subrange(8 * j, if 8 * j + 8 <= bits.len() {
        8 * j + 8
    } else {
        bits.len() as int
    })
}

/// Bits packed into bytes, least-significant-bit first, the trailing
/// incomplete chunk padded with zero bits.
pub open spec fn spec_bits_to_bytes(bits: Seq<u8>) -> Seq<u8> {
    Seq::new(byte_count(bits.len()), |j: int| byte_of_bits(bit_chunk(bits, j)) as u8)
}

/// Pack a bit sequence into bytes, least-significant-bit first within each
/// byte; an incomplete trailing byte is padded with zero bits.
pub fn bits_to_bytes(bits: &[u8]) -> (r: Vec<u8>)
    ensures
        r@ == spec_bits_to_bytes(bits@),
{
    let len = bits.len();
    let n_bytes = len / 8 + if len % 8 == 0 {
        0
    } else {
        1
    };
    assert(n_bytes == byte_count(bits@.len()));
    let mut r: Vec<u8> = Vec::new();
    let mut j: usize = 0;
    while j < n_bytes
        invariant
            j <= n_bytes,
            len == bits@.len(),
            n_bytes == byte_count(bits@.len()),
            r@ == spec_bits_to_bytes(bits@).take(j as int),
        decreases n_bytes - j,
    {
        let ghost chunk = bit_chunk(bits@, j as int);
        let mut byte: u8 = 0;
        let mut pow: u8 = 1;
        let mut k: usize = 0;
        proof {
            vstd::arithmetic::power2::lemma2_to64();
            assert(chunk.take(0) =~= Seq::<u8>::empty());
        }
        while k < 8
            invariant
                k <= 8,
                j < n_bytes,
                len == bits@.len(),
                n_bytes == byte_count(bits@.len()),
                chunk == bit_chunk(bits@, j as int),
                chunk.len() <= 8,
                k < 8 ==> pow == pow2(k as nat),
                byte == byte_of_bits(chunk.take(if k <= chunk.len() {
                    k as int
                } else {
                    chunk.len() as int
                })),
            decreases 8 - k,
        {
            let idx = 8 * j + k;
            proof {
                vstd::arithmetic::power2::lemma2_to64();
            }
            if idx < len {
                assert(k < chunk.len());
                assert(chunk.take(k + 1) =~= chunk.take(k as int).push(chunk[k as int]));
                proof {
                    lemma_byte_of_bits_push(chunk.take(k as int), chunk[k as int]);
                    lemma_byte_of_bits_bound(chunk.take(k as int));
                    vstd::arithmetic::power2::lemma_pow2_adds(k as nat, (8 - k) as nat);
                }
                assert(byte + pow2(k as nat) < pow2(8));
                if bits[idx] == 1 {
                    assert(bits@[idx as int] == chunk[k as int]);
                    byte = byte + pow;
                }
            } else {
                assert(k >= chunk.len());
            }
            if k < 7 {
                proof {
                    vstd::arithmetic::power2::lemma_pow2_unfold((k + 1) as nat);
                    vstd::arithmetic::power2::lemma_pow2_strictly_increases((k + 1) as nat, 8);
                }
                pow = pow * 2;
            }
            k += 1;
        }
        assert(chunk.take(if 8 <= chunk.len() {
            8
        } else {
            chunk.len() as int
        }) =~= chunk);
        r.push(byte);
        assert(r@ =~= spec_bits_to_bytes(bits@).take(j + 1));
        j += 1;
    }
    assert(r@ =~= spec_bits_to_bytes(bits@));
    r
}

/// The bit at position `k` (from the least significant end) of a byte.
pub open spec fn bit_at(b: u8, k: nat) -> u8 {
    (((b as nat) / pow2(k)) % 2) as u8
}

/// A byte sequence unpacked into bits, least-significant-bit first.
pub open spec fn spec_bytes_to_bits(bytes: Seq<u8>) -> Seq<u8> {
    Seq::new(bytes.len() * 8, |i: int| bit_at(bytes[i / 8], (i % 8) as nat))
}

/// Unpack bytes into a bit sequence, least-significant-bit first within each
/// byte; the inverse direction of [`bits_to_bytes`] on whole bytes.
pub fn bytes_to_bits(bytes: &[u8]) -> (r: Vec<u8>)
    ensures
        r@ == spec_bytes_to_bits(bytes@),
{
    let mut r: Vec<u8> = Vec::new();
    let mut i: usize = 0;
    while i < bytes.len()
        invariant
            i <= bytes.len(),
            r@.len() == 8 * i,
            r@ == spec_bytes_to_bits(bytes@).take(8 * i),
        decreases bytes.len() - i,
    {
        let byte = bytes[i];
        let mut pow: u8 = 1;
        let mut k: usize = 0;
        proof {
            vstd::arithmetic::power2::lemma2_to64();
        }
        while k < 8
            invariant
                k <= 8,
                i < bytes.len(),
                byte == bytes@[i as int],
                k < 8 ==> pow == pow2(k as nat),
                r@.len() == 8 * i + k,
                r@ == spec_bytes_to_bits(bytes@).take(8 * i + k),
            decreases 8 - k,
        {
            proof {
                vstd::arithmetic::power2::lemma2_to64();
            }
            let bit = (byte / pow) % 2;
            assert(bit == bit_at(bytes@[i as int], k as nat));
            r.push(bit);
            assert(r@ =~= spec_bytes_to_bits(bytes@).take(8 * i + k + 1));
            if k < 7 {
                proof {
                    vstd::arithmetic::power2::lemma_pow2_unfold((k + 1) as nat);
                    vstd::arithmetic::power2::lemma_pow2_strictly_increases((k + 1) as nat, 8);
                }
                pow = pow * 2;
            }
            k += 1;
        }
        i += 1;
    }
    assert(r@ =~= spec_bytes_to_bits(bytes@));
    r
}

/// Whiten a bit sequence: pack it into bytes, digest the bytes, and unpack
/// the digest into bits again; an empty input stays empty.
pub open spec fn spec_hash_randomness(bits: Seq<u8>) -> Seq<u8> {
    if bits.len() == 0 {
        Seq::empty()
    } else {
        spec_bytes_to_bits(sha3_256_of(spec_bits_to_bytes(bits)))
    }
}

/// Condition a raw bit sequence through one SHA3-256 digest of its packed
/// bytes, returning the digest unpacked as bits.
pub fn hash_randomness(bits: &[u8]) -> (r: Vec<u8>)
    ensures
        r@ == spec_hash_randomness(bits@),
        bits@.len() > 0 ==> r@.len() == 256,
{
    if bits.len() == 0 {
        return Vec::new();
    }
    let bytes = bits_to_bytes(bits);
    let digest = sha3_256(bytes.as_slice());
    bytes_to_bits(digest.as_slice())
}

/// Bitwise exclusive-or of two sequences, cut to the shorter length.
pub open spec fn spec_xor_combine(a: Seq<u8>, b: Seq<u8>) -> Seq<u8> {
    Seq::new(if a.len() <= b.len() {
        a.len()
    } else {
        b.len()
    }, |i: int| a[i] ^ b[i])
}

/// Combine two batches drawn from independent sources element by element
/// with exclusive-or; the result is as long as the shorter batch.
pub fn xor_combine(a: &[u8], b: &[u8]) -> (r: Vec<u8>)
    ensures
        r@ == spec_xor_combine(a@, b@),
{
    let n = if a.len() <= b.len() {
        a.len()
    } else {
        b.len()
    };
    let mut r: Vec<u8> = Vec::new();
    let mut i: usize = 0;
    while i < n
        invariant
            i <= n,
            n == spec_xor_combine(a@, b@).len(),
            n <= a@.len() && n <= b@.len(),
            r@ == spec_xor_combine(a@, b@).take(i as int),
        decreases n - i,
    {
        r.push(a[i] ^ b[i]);
        assert(r@ =~= spec_xor_combine(a@, b@).take(i + 1));
        i += 1;
    }
    assert(r@ =~= spec_xor_combine(a@, b@));
    r
}

} // verus!
