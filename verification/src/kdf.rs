//! Extract-then-expand key derivation over the pool, and password
//! generation from pool material.
//!
//! Outputs up to one digest width come from a single SHA3-512 over the key
//! material, the purpose label and the output length; longer outputs come
//! from counter-mode expansion, hashing the key material, the purpose label
//! and a running counter and concatenating the blocks.  Derivation from a
//! caller-supplied master key is bit-exact reproducible from its inputs.

use vstd::prelude::*;

use crate::engine::QuantumCryptoEngine;
use crate::hashing::sha3_256;
use crate::hashing::sha3_256_of;
use crate::hashing::sha3_512;
use crate::hashing::sha3_512_of;
use crate::CryptoError;
use vstd::bytes::spec_u64_to_le_bytes;
use vstd::bytes::u64_to_le_bytes;
use vstd::string::StrSliceExecFns;

verus! {

/// Width in bytes of one expansion block (the SHA3-512 digest width).
pub const KDF_BLOCK_BYTES: usize = 64;

/// What one derivation hash digests: the key material, then the purpose
/// label, then a little-endian tag — the output length for the one-shot
/// form, the block counter for counter-mode expansion.
pub open spec fn spec_kdf_input(key: Seq<u8>, purpose: Seq<u8>, tag: u64) -> Seq<u8> {
    key + purpose + spec_u64_to_le_bytes(tag)
}

/// One counter-mode expansion block.
pub open spec fn spec_kdf_block(key: Seq<u8>, purpose: Seq<u8>, counter: u64) -> Seq<u8> {
    sha3_512_of(spec_kdf_input(key, purpose, counter))
}

/// The first `count` expansion blocks, concatenated in counter order.
pub open spec fn spec_kdf_blocks(key: Seq<u8>, purpose: Seq<u8>, count: nat) -> Seq<u8>
    decreases count,
{
    if count == 0 {
        Seq::empty()
    } else {
        spec_kdf_blocks(key, purpose, (count - 1) as nat) + spec_kdf_block(
            key,
            purpose,
            (count - 1) as u64,
        )
    }
}

/// The derived key for `master`, `purpose` and `len` output bytes: one
/// truncated hash up to one block width, counter-mode expansion past it.
pub open spec fn spec_derive_subkey(master: Seq<u8>, purpose: Seq<u8>, len: nat) -> Seq<u8> {
    if len <= KDF_BLOCK_BYTES {
        sha3_512_of(spec_kdf_input(master, purpose, len as u64)).take(len as int)
    } else {
        spec_kdf_blocks(master, purpose, (len + KDF_BLOCK_BYTES - 1) as nat / (
        KDF_BLOCK_BYTES as nat)).take(len as int)
    }
}

/// The pool material that pool-fed derivation consumes: a 32-byte
/// extraction from the current pool state.
pub open spec fn spec_pool_key(pool: crate::pool::EntropyPool) -> Seq<u8> {
    pool.spec_digest().take(32)
}

/// Subkey derivation is deterministic: any two results that satisfy the
/// derivation contract for the same master key, purpose and length are
/// byte-identical.
pub proof fn lemma_derive_subkey_deterministic(
    master: Seq<u8>,
    purpose: Seq<u8>,
    len: nat,
    r1: Seq<u8>,
    r2: Seq<u8>,
)
    requires
        r1 == spec_derive_subkey(master, purpose, len),
        r2 == spec_derive_subkey(master, purpose, len),
    ensures
        r1 == r2,
{
}

/// The available password alphabets.
#[derive(Clone, Copy, Debug, PartialEq, Eq, Structural)]
pub enum PasswordCharset {
    Alphanumeric,
    AlphanumericSymbols,
    Hex,
    Base64,
}

/// The characters of each alphabet, in fixed order.
pub open spec fn spec_charset(c: PasswordCharset) -> Seq<char> {
    match c {
        PasswordCharset::Alphanumeric => "ABCDEFGHIJKLMNOPQRSTUVWXYZabcdefghijklmnopqrstuvwxyz0123456789"@,
        PasswordCharset::AlphanumericSymbols => "ABCDEFGHIJKLMNOPQRSTUVWXYZabcdefghijklmnopqrstuvwxyz0123456789!@#$%^&*()-_=+[]{}|;:,.<>?"@,
        PasswordCharset::Hex => "0123456789abcdef"@,
        PasswordCharset::Base64 => "ABCDEFGHIJKLMNOPQRSTUVWXYZabcdefghijklmnopqrstuvwxyz0123456789+/"@,
    }
}

/// How many pool bytes password generation extracts for `length`
/// characters: twice the length, capped at the extraction ceiling.
pub open spec fn spec_password_extract_amount(length: nat) -> nat {
    if 2 * length > 64 {
        64
    } else {
        2 * length
    }
}

/// The password characters: character `i` is the alphabet entry selected
/// by digest byte `i mod 32`, reduced modulo the alphabet size.
pub open spec fn spec_password_chars(hash: Seq<u8>, chars: Seq<char>, length: nat) -> Seq<char>
    recommends
        hash.len() > 0,
        chars.len() > 0,
{
    Seq::new(
        length,
        |i: int| chars[(hash[i % (hash.len() as int)] as int) % (chars.len() as int)],
    )
}

/// Every password character is drawn from the chosen alphabet.
pub proof fn lemma_password_chars_from_charset(hash: Seq<u8>, chars: Seq<char>, length: nat)
    requires
        hash.len() > 0,
        chars.len() > 0,
    ensures
        spec_password_chars(hash, chars, length).len() == length,
        forall|i: int|
            0 <= i < length ==> chars.contains(
                #[trigger] spec_password_chars(hash, chars, length)[i],
            ),
{
    assert forall|i: int| 0 <= i < length implies chars.contains(
        #[trigger] spec_password_chars(hash, chars, length)[i],
    ) by {
        let h = hash.len() as int;
        let c = chars.len() as int;
        assert(0 <= i % h < h) by (nonlinear_arith)
            requires
                h > 0,
                i >= 0,
        ;
        let b = hash[i % h] as int;
        assert(0 <= b % c < c) by (nonlinear_arith)
            requires
                c > 0,
                b >= 0,
        ;
        assert(spec_password_chars(hash, chars, length)[i] == chars[b % c]);
    };
}

/// The characters of an ASCII alphabet literal, in order.
fn chars_of(s: &str) -> (r: Vec<char>)
    ensures
        r@ == s@,
{
    let n = s.unicode_len();
    let mut r: Vec<char> = Vec::new();
    let mut i: usize = 0;
    while i < n
        invariant
            i <= n,
            n == s@.len(),
            r@ == s@.take(i as int),
        decreases n - i,
    {
        r.push(s.get_char(i));
        assert(r@ =~= s@.take(i + 1));
        i += 1;
    }
    assert(s@.take(n as int) =~= s@);
    r
}

impl PasswordCharset {
    /// The characters of this alphabet, in fixed order.
    pub fn get_charset(&self) -> (r: Vec<char>)
        ensures
            r@ == spec_charset(*self),
            r@.len() > 0,
    {
        let r = match self {
            PasswordCharset::Alphanumeric => chars_of(
                "ABCDEFGHIJKLMNOPQRSTUVWXYZabcdefghijklmnopqrstuvwxyz0123456789",
            ),
            PasswordCharset::AlphanumericSymbols => chars_of(
                "ABCDEFGHIJKLMNOPQRSTUVWXYZabcdefghijklmnopqrstuvwxyz0123456789!@#$%^&*()-_=+[]{}|;:,.<>?",
            ),
            PasswordCharset::Hex => chars_of("0123456789abcdef"),
            PasswordCharset::Base64 => chars_of(
                "ABCDEFGHIJKLMNOPQRSTUVWXYZabcdefghijklmnopqrstuvwxyz0123456789+/",
            ),
        };
        proof {
            reveal_strlit("ABCDEFGHIJKLMNOPQRSTUVWXYZabcdefghijklmnopqrstuvwxyz0123456789");
            reveal_strlit(
                "ABCDEFGHIJKLMNOPQRSTUVWXYZabcdefghijklmnopqrstuvwxyz0123456789!@#$%^&*()-_=+[]{}|;:,.<>?",
            );
            reveal_strlit("0123456789abcdef");
            reveal_strlit("ABCDEFGHIJKLMNOPQRSTUVWXYZabcdefghijklmnopqrstuvwxyz0123456789+/");
        }
        r
    }
}

/// Relies on String::push: appends exactly one character at the end.
pub assume_specification[ String::push ](s: &mut String, ch: char)
    ensures
        final(s)@ == old(s)@.push(ch),
;

/// The byte sequence `key + purpose + tag` that one derivation hash
/// digests, built for the call.
fn build_kdf_input(key: &[u8], purpose: &[u8], tag: u64) -> (r: Vec<u8>)
    ensures
        r@ == spec_kdf_input(key@, purpose@, tag),
{
    let mut input: Vec<u8> = Vec::new();
    input.extend_from_slice(key);
    input.extend_from_slice(purpose);
    let mut tag_bytes = u64_to_le_bytes(tag);
    input.append(&mut tag_bytes);
    assert(input@ =~= spec_kdf_input(key@, purpose@, tag));
    input
}

/// One-shot derivation for outputs up to one block width.
fn kdf_single(key: &[u8], purpose: &[u8], output_len: usize) -> (r: Vec<u8>)
    requires
        output_len <= KDF_BLOCK_BYTES,
    ensures
        r@ == spec_derive_subkey(key@, purpose@, output_len as nat),
        r@.len() == output_len,
{
    let input = build_kdf_input(key, purpose, output_len as u64);
    let digest = sha3_512(input.as_slice());
    let mut out: Vec<u8> = Vec::new();
    let mut i: usize = 0;
    while i < output_len
        invariant
            i <= output_len,
            output_len <= digest@.len(),
            digest@ == sha3_512_of(spec_kdf_input(key@, purpose@, output_len as u64)),
            out@ == digest@.take(i as int),
        decreases output_len - i,
    {
        out.push(digest[i]);
        assert(out@ =~= digest@.take(i + 1));
        i += 1;
    }
    out
}

/// Counter-mode expansion for outputs past one block width.
fn kdf_expand(key: &[u8], purpose: &[u8], output_len: usize) -> (r: Vec<u8>)
    requires
        output_len > KDF_BLOCK_BYTES,
    ensures
        r@ == spec_derive_subkey(key@, purpose@, output_len as nat),
        r@.len() == output_len,
{
    let mut output: Vec<u8> = Vec::new();
    let mut counter: u64 = 0;
    while output.len() < output_len
        invariant
            output@.len() <= output_len,
            output@.len() < output_len ==> output@.len() == 64 * counter,
            output@.len() == output_len ==> output_len <= 64 * counter,
            spec_kdf_blocks(key@, purpose@, counter as nat).len() == 64 * counter,
            output@ == spec_kdf_blocks(key@, purpose@, counter as nat).take(output@.len() as int),
            counter > 0 ==> 64 * (counter - 1) < output_len,
        decreases output_len - output@.len(),
    {
        let ghost blocks_before = spec_kdf_blocks(key@, purpose@, counter as nat);
        let input = build_kdf_input(key, purpose, counter);
        let block = sha3_512(input.as_slice());
        let remaining = output_len - output.len();
        let to_take = if remaining < KDF_BLOCK_BYTES {
            remaining
        } else {
            KDF_BLOCK_BYTES
        };
        let ghost out_before = output@;
        let mut k: usize = 0;
        while k < to_take
            invariant
                k <= to_take,
                to_take <= block@.len(),
                output@ == out_before + block@.take(k as int),
            decreases to_take - k,
        {
            output.push(block[k]);
            assert(output@ =~= out_before + block@.take(k + 1));
            k += 1;
        }
        proof {
            let c1 = counter as nat + 1;
            assert(spec_kdf_blocks(key@, purpose@, c1) == blocks_before + block@);
            assert(out_before == blocks_before.take(out_before.len() as int));
            assert(out_before =~= blocks_before);
            assert(output@ =~= spec_kdf_blocks(key@, purpose@, c1).take(
                out_before.len() + to_take,
            ));
            assert(64 * c1 == 64 * (counter as nat) + 64);
        }
        counter = counter + 1;
    }
    proof {
        let c = counter as nat;
        let target = ((output_len + KDF_BLOCK_BYTES - 1) as nat) / (KDF_BLOCK_BYTES as nat);
        assert(target == c) by (nonlinear_arith)
            requires
                64 * (c - 1) < output_len <= 64 * c,
                c >= 1,
                target == ((output_len + 63) as int) / 64,
        ;
    }
    output
}

/// Extract-then-expand key derivation.  The engine handle is passed per
/// call: shared ownership of the engine lives in the embedding application.
pub struct KeyDerivation {
    _private: (),
}

impl KeyDerivation {
    /// A derivation context.
    pub fn new() -> (r: Self) {
        KeyDerivation { _private: () }
    }

    /// Derive `output_len` bytes bound to `purpose` from a caller-supplied
    /// master key: deterministic by design, so that the same master key,
    /// purpose and length always reproduce the same subkey.  Never fails.
    pub fn derive_subkey(
        &self,
        master_key: &[u8],
        purpose: &[u8],
        output_len: usize,
    ) -> (r: Result<Vec<u8>, CryptoError>)
        ensures
            r matches Ok(b) && b@ == spec_derive_subkey(master_key@, purpose@, output_len as nat)
                && b@.len() == output_len,
    {
        if output_len > KDF_BLOCK_BYTES {
            Ok(kdf_expand(master_key, purpose, output_len))
        } else {
            Ok(kdf_single(master_key, purpose, output_len))
        }
    }

    /// Derive `output_len` bytes bound to `purpose` from fresh pool
    /// material: a 32-byte pool extraction is the master key, so the result
    /// is a function of the current pool state and evolves with it.  Fails
    /// with `InsufficientEntropy` exactly when the pool has not reached its
    /// minimum absorbed bits.
    pub fn derive_key(
        &self,
        engine: &QuantumCryptoEngine,
        purpose: &[u8],
        output_len: usize,
    ) -> (r: Result<Vec<u8>, CryptoError>)
        requires
            engine.wf(),
        ensures
            engine.pool().bits_absorbed() < crate::pool::MIN_BITS_BEFORE_EXTRACT ==> r == Err::<
                Vec<u8>,
                CryptoError,
            >(CryptoError::InsufficientEntropy),
            engine.pool().bits_absorbed() >= crate::pool::MIN_BITS_BEFORE_EXTRACT ==> (r matches
            Ok(b) && b@ == spec_derive_subkey(
                spec_pool_key(engine.pool()),
                purpose@,
                output_len as nat,
            ) && b@.len() == output_len),
    {
        let entropy = match engine.extract_key_material(32) {
            Ok(e) => e,
            Err(e) => {
                return Err(e);
            },
        };
        let mut entropy = entropy;
        let r = if output_len > KDF_BLOCK_BYTES {
            kdf_expand(entropy.as_slice(), purpose, output_len)
        } else {
            kdf_single(entropy.as_slice(), purpose, output_len)
        };
        wipe_vec(&mut entropy);
        Ok(r)
    }

    /// Generate a password of exactly `length` characters over the chosen
    /// alphabet: a short burst of pool material is digested once and each
    /// digest byte selects one character modulo the alphabet size.  Fails
    /// with `InsufficientEntropy` exactly when the pool has not reached its
    /// minimum absorbed bits.
    pub fn generate_password(
        &self,
        engine: &QuantumCryptoEngine,
        length: usize,
        charset: PasswordCharset,
    ) -> (r: Result<String, CryptoError>)
        requires
            engine.wf(),
        ensures
            engine.pool().bits_absorbed() < crate::pool::MIN_BITS_BEFORE_EXTRACT ==> r == Err::<
                String,
                CryptoError,
            >(CryptoError::InsufficientEntropy),
            engine.pool().bits_absorbed() >= crate::pool::MIN_BITS_BEFORE_EXTRACT ==> (r matches
            Ok(p) && p@ == spec_password_chars(
                sha3_256_of(
                    engine.pool().spec_digest().take(
                        spec_password_extract_amount(length as nat) as int,
                    ),
                ),
                spec_charset(charset),
                length as nat,
            ) && p@.len() == length),
    {
        let chars = charset.get_charset();
        let amount = if length > 32 {
            64
        } else {
            length * 2
        };
        assert(amount == spec_password_extract_amount(length as nat));
        let entropy_bytes = match engine.extract_key_material(amount) {
            Ok(e) => e,
            Err(e) => {
                return Err(e);
            },
        };
        let mut entropy_bytes = entropy_bytes;
        let hash = sha3_256(entropy_bytes.as_slice());
        wipe_vec(&mut entropy_bytes);
        let ghost hview = hash@;
        let ghost cview = chars@;
        let mut password = String::new();
        let mut i: usize = 0;
        while i < length
            invariant
                i <= length,
                hash@ == hview,
                chars@ == cview,
                hview.len() == 32,
                cview.len() > 0,
                password@ == spec_password_chars(hview, cview, i as nat),
            decreases length - i,
        {
            let idx = (hash[i % 32] as usize) % chars.len();
            proof {
                let h = hview.len() as int;
                let c = cview.len() as int;
                assert(0 <= (i as int) % h < h) by (nonlinear_arith)
                    requires
                        h == 32,
                        i >= 0,
                ;
                assert(0 <= (hview[(i as int) % h] as int) % c < c) by (nonlinear_arith)
                    requires
                        c > 0,
                ;
            }
            password.push(chars[idx]);
            assert(password@ =~= spec_password_chars(hview, cview, i as nat + 1));
            i += 1;
        }
        Ok(password)
    }
}

/// Overwrite a consumed entropy buffer with zero bytes before it is
/// dropped, so key material does not linger in memory.
fn wipe_vec(v: &mut Vec<u8>)
    ensures
        final(v)@.len() == old(v)@.len(),
        forall|i: int| 0 <= i < final(v)@.len() ==> final(v)@[i] == 0u8,
{
    let mut i: usize = 0;
    while i < v.len()
        invariant
            i <= v@.len(),
            v@.len() == old(v)@.len(),
            forall|j: int| 0 <= j < i ==> v@[j] == 0u8,
        decreases v@.len() - i,
    {
        v[i] = 0u8;
        i += 1;
    }
}

} // verus!
