use vstd::prelude::*;

pub mod engine;
pub mod hashing;
pub mod health;
pub mod kdf;
pub mod pool;
pub mod utils;

pub use engine::BatchOutcome;
pub use engine::COLLECTION_BATCH_BITS;
pub use engine::CollectorAction;
pub use engine::EntropySource;
pub use engine::EntropyStats;
pub use engine::QuantumCryptoEngine;
pub use health::HealthMonitor;
pub use kdf::KeyDerivation;
pub use kdf::PasswordCharset;
pub use health::HealthStatus;
pub use pool::EntropyPool;

verus! {

/// Errors reported by the entropy engine and its derivation layer.
#[derive(Clone, Copy, Debug, PartialEq, Eq, Structural)]
pub enum CryptoError {
    /// The pool has not yet absorbed the minimum number of bits.
    InsufficientEntropy,
    /// A single extraction asked for more than the per-call ceiling.
    RequestTooLarge,
    /// A batch request from the configured source failed.
    SourceFailure,
    /// The circuit breaker tripped: collection has stopped.
    CollectionHalted,
    /// Collection was started while already running.
    AlreadyRunning,
    /// A lifecycle operation needed a running collector.
    NotRunning,
    /// Key material of the wrong byte length was supplied.
    InvalidKeyMaterialLength,
    /// The requested pool capacity is below the minimum.
    PoolTooSmall,
}

/// A byte buffer for sensitive material that can be wiped in place
/// before it is dropped, so that key bytes do not linger in memory.
pub struct SecureBytes {
    data: Vec<u8>,
}

impl View for SecureBytes {
    type V = Seq<u8>;

    closed spec fn view(&self) -> Seq<u8> {
        self.data@
    }
}

impl SecureBytes {
    pub fn new(data: Vec<u8>) -> (r: Self)
        ensures
            r@ == data@,
    {
        SecureBytes { data }
    }

    pub fn as_slice(&self) -> (r: &[u8])
        ensures
            r@ == self@,
    {
        self.data.as_slice()
    }

    /// Overwrite every byte with zero; the length is kept.
    pub fn wipe(&mut self)
        ensures
            final(self)@.len() == old(self)@.len(),
            forall|i: int| 0 <= i < final(self)@.len() ==> final(self)@[i] == 0u8,
    {
        let mut i: usize = 0;
        while i < self.data.len()
            invariant
                i <= self.data.len(),
                self.data.len() == old(self)@.len(),
                forall|j: int| 0 <= j < i ==> self.data@[j] == 0u8,
            decreases self.data.len() - i,
        {
            self.data[i] = 0u8;
            i += 1;
        }
    }
}

} // verus!
