//! The engine: pool, monitor and collector lifecycle under one roof.
//!
//! The engine holds the shared state and makes every collection decision:
//! admission gating, failure counting and the circuit breaker.  The outside
//! work of a collection cycle — blocking on a sensor, backing off, sleeping
//! between cycles — happens in the embedding application, which pulls one
//! batch per cycle, hands the outcome to [`QuantumCryptoEngine::process_batch`]
//! and performs the action that call returns.

use vstd::prelude::*;

use crate::health::spec_batch_score;
use crate::health::spec_is_healthy;
use crate::health::spec_status;
use crate::health::spec_window_push;
use crate::health::HealthMonitor;
use crate::health::HealthStatus;
use crate::pool::count_nonzero;
use crate::pool::spec_absorb;
use crate::pool::EntropyPool;
use crate::pool::MIN_POOL_CAPACITY;
use crate::utils::spec_bits_to_bytes;
use crate::CryptoError;

verus! {

/// Consecutive source failures tolerated before the circuit breaker trips.
pub const MAX_CONSECUTIVE_FAILURES: u32 = 10;

/// Bits requested from the source per collection cycle.
pub const COLLECTION_BATCH_BITS: usize = 2048;

/// The kind of physical sensor a collection cycle draws from.
#[derive(Clone, Copy, Debug, PartialEq, Eq, Structural)]
pub enum EntropySource {
    Webcam,
    Audio,
    Hybrid,
}

/// What one collection cycle produced: a raw bit batch, or a source failure.
pub enum BatchOutcome {
    Batch(Vec<u8>),
    Failure,
}

/// What the engine decided about one cycle's outcome.
#[derive(Clone, Copy, Debug, PartialEq, Eq, Structural)]
pub enum CollectorAction {
    /// The batch was scored healthy and mixed into the pool.
    Admitted,
    /// The batch was scored unhealthy and discarded; the pool is untouched.
    Rejected,
    /// The source failed; collection continues after a back-off interval.
    BackOff,
    /// The failure ceiling was reached; collection has stopped.
    Halted,
}

/// A read-only snapshot of pool utilization and monitor state.
#[derive(Clone, Debug)]
pub struct EntropyStats {
    /// Non-zero bytes in the pool buffer.
    pub available_bytes: usize,
    /// Configured pool capacity in bytes.
    pub pool_capacity: usize,
    /// Current health bucket.
    pub health_status: HealthStatus,
    /// Window average score in parts per million.
    pub average_entropy: u32,
}

/// The shared-state façade: owns the entropy pool, the health monitor and
/// the collector lifecycle flags, and serves extraction and status queries.
pub struct QuantumCryptoEngine {
    entropy_pool: EntropyPool,
    health_monitor: HealthMonitor,
    running: bool,
    consecutive_failures: u32,
}

impl QuantumCryptoEngine {
    /// The entropy pool.
    pub closed spec fn pool(&self) -> EntropyPool {
        self.entropy_pool
    }

    /// The health monitor.
    pub closed spec fn monitor(&self) -> HealthMonitor {
        self.health_monitor
    }

    /// Whether a collection cycle is currently active.
    pub closed spec fn is_running(&self) -> bool {
        self.running
    }

    /// The current count of consecutive source failures.
    pub closed spec fn failures(&self) -> u32 {
        self.consecutive_failures
    }

    /// Pool and monitor invariants hold and the failure count never passes
    /// the ceiling.
    pub open spec fn wf(&self) -> bool {
        &&& self.pool().wf()
        &&& self.monitor().wf()
        &&& self.failures() <= MAX_CONSECUTIVE_FAILURES
        &&& self.is_running() ==> self.failures() < MAX_CONSECUTIVE_FAILURES
    }

    /// A stopped engine around a fresh pool of `pool_size_bytes` bytes, or
    /// `PoolTooSmall` exactly when the requested capacity is below the
    /// minimum.
    pub fn new(pool_size_bytes: usize) -> (r: Result<Self, CryptoError>)
        ensures
            pool_size_bytes < MIN_POOL_CAPACITY <==> r == Err::<Self, CryptoError>(
                CryptoError::PoolTooSmall,
            ),
            match r {
                Ok(e) => {
                    &&& e.wf()
                    &&& e.pool().cap() == pool_size_bytes
                    &&& e.pool().buf() =~= Seq::new(pool_size_bytes as nat, |i: int| 0u8)
                    &&& e.pool().cursor() == 0
                    &&& e.pool().counter() == 0
                    &&& e.pool().bits_absorbed() == 0
                    &&& e.monitor().window() == Seq::<u32>::empty()
                    &&& !e.is_running()
                    &&& e.failures() == 0
                },
                Err(e) => e == CryptoError::PoolTooSmall,
            },
    {
        if pool_size_bytes < MIN_POOL_CAPACITY {
            return Err(CryptoError::PoolTooSmall);
        }
        Ok(
            QuantumCryptoEngine {
                entropy_pool: EntropyPool::new(pool_size_bytes),
                health_monitor: HealthMonitor::new(),
                running: false,
                consecutive_failures: 0,
            },
        )
    }

    /// Mark collection as running, or fail with `AlreadyRunning` exactly
    /// when a cycle is already active: only one collection cycle may be
    /// active per engine.  Starting a stopped engine always succeeds.  The
    /// caller then drives cycles through [`Self::process_batch`].
    pub fn start_continuous_collection(&mut self) -> (r: Result<(), CryptoError>)
        requires
            old(self).wf(),
        ensures
            final(self).wf(),
            old(self).is_running() <==> r matches Err(_),
            r matches Err(e) ==> e == CryptoError::AlreadyRunning,
            r matches Ok(_) ==> final(self).is_running() && final(self).failures() == 0,
            r matches Err(_) ==> *final(self) == *old(self),
            final(self).pool() == old(self).pool(),
            final(self).monitor() == old(self).monitor(),
    {
        if self.running {
            return Err(CryptoError::AlreadyRunning);
        }
        self.running = true;
        self.consecutive_failures = 0;
        Ok(())
    }

    /// Mark collection as stopped.  Idempotent: safe whether or not a cycle
    /// was active, and nothing but the running flag changes.
    pub fn stop_collection(&mut self)
        requires
            old(self).wf(),
        ensures
            final(self).wf(),
            !final(self).is_running(),
            final(self).pool() == old(self).pool(),
            final(self).monitor() == old(self).monitor(),
            final(self).failures() == old(self).failures(),
    {
        self.running = false;
    }

    /// Decide one collection cycle from its outcome.
    ///
    /// A delivered batch resets the failure count, is scored by the
    /// monitor, and is mixed into the pool exactly when the monitor still
    /// reports healthy — a batch the monitor has just scored as unhealthy
    /// never reaches the pool.  A source failure leaves pool and monitor
    /// untouched and raises the failure count; reaching the ceiling stops
    /// collection for good (`Halted`), otherwise the caller should retry
    /// after its back-off interval (`BackOff`).
    pub fn process_batch(&mut self, outcome: BatchOutcome) -> (r: CollectorAction)
        requires
            old(self).wf(),
            old(self).is_running(),
            outcome matches BatchOutcome::Batch(bits) ==> old(self).pool().bits_absorbed()
                + bits@.len() <= u64::MAX,
        ensures
            final(self).wf(),
            final(self).pool().cap() == old(self).pool().cap(),
            outcome matches BatchOutcome::Batch(bits) ==> {
                &&& final(self).failures() == 0
                &&& final(self).is_running()
                &&& final(self).monitor().window() == spec_window_push(
                    old(self).monitor().window(),
                    spec_batch_score(bits@),
                )
                &&& if spec_is_healthy(final(self).monitor().window()) {
                    &&& r == CollectorAction::Admitted
                    &&& final(self).pool().buf() == spec_absorb(
                        old(self).pool().buf(),
                        old(self).pool().cursor() as int,
                        spec_bits_to_bytes(bits@),
                    )
                    &&& final(self).pool().bits_absorbed() == old(self).pool().bits_absorbed()
                        + bits@.len()
                } else {
                    &&& r == CollectorAction::Rejected
                    &&& final(self).pool() == old(self).pool()
                }
            },
            outcome matches BatchOutcome::Failure ==> {
                &&& final(self).pool() == old(self).pool()
                &&& final(self).monitor() == old(self).monitor()
                &&& final(self).failures() == old(self).failures() + 1
                &&& if old(self).failures() + 1 >= MAX_CONSECUTIVE_FAILURES {
                    r == CollectorAction::Halted && !final(self).is_running()
                } else {
                    r == CollectorAction::BackOff && final(self).is_running()
                }
            },
    {
        match outcome {
            BatchOutcome::Batch(bits) => {
                self.consecutive_failures = 0;
                self.health_monitor.update_statistics(bits.as_slice());
                if self.health_monitor.is_healthy() {
                    self.entropy_pool.add_entropy(bits.as_slice());
                    CollectorAction::Admitted
                } else {
                    CollectorAction::Rejected
                }
            },
            BatchOutcome::Failure => {
                self.consecutive_failures = self.consecutive_failures + 1;
                if self.consecutive_failures >= MAX_CONSECUTIVE_FAILURES {
                    self.running = false;
                    CollectorAction::Halted
                } else {
                    CollectorAction::BackOff
                }
            },
        }
    }

    /// Serve an extraction request from the pool, with the pool's own error
    /// conditions; extraction is independent of collector liveness.
    pub fn extract_key_material(&self, num_bytes: usize) -> (r: Result<Vec<u8>, CryptoError>)
        requires
            self.wf(),
        ensures
            match r {
                Ok(b) => self.pool().spec_extract(num_bytes as nat) == Ok::<Seq<u8>, CryptoError>(
                    b@,
                ) && b@.len() == num_bytes,
                Err(e) => self.pool().spec_extract(num_bytes as nat) == Err::<Seq<u8>, CryptoError>(
                    e,
                ),
            },
    {
        self.entropy_pool.extract(num_bytes)
    }

    /// The monitor's current status bucket.
    pub fn health_status(&self) -> (r: HealthStatus)
        requires
            self.wf(),
        ensures
            r == spec_status(self.monitor().window()),
    {
        self.health_monitor.current_status()
    }

    /// Whether a collection cycle is currently active.
    pub fn is_collecting(&self) -> (r: bool)
        ensures
            r == self.is_running(),
    {
        self.running
    }

    /// A read-only snapshot of pool utilization and monitor state.
    pub fn entropy_stats(&self) -> (r: EntropyStats)
        requires
            self.wf(),
        ensures
            r.available_bytes == count_nonzero(self.pool().buf()),
            r.pool_capacity == self.pool().cap(),
            r.health_status == spec_status(self.monitor().window()),
            r.average_entropy == crate::health::spec_average(self.monitor().window()),
    {
        EntropyStats {
            available_bytes: self.entropy_pool.available_entropy(),
            pool_capacity: self.entropy_pool.capacity(),
            health_status: self.health_monitor.current_status(),
            average_entropy: self.health_monitor.average_entropy(),
        }
    }

    /// Total bits absorbed by the pool so far.
    pub fn total_bits_collected(&self) -> (r: u64)
        ensures
            r == self.pool().bits_absorbed(),
    {
        self.entropy_pool.total_bits_collected()
    }

    /// Wipe the pool buffer in place; to be called when the engine is
    /// retired, after collection has stopped.
    pub fn wipe_pool(&mut self)
        requires
            old(self).wf(),
        ensures
            final(self).wf(),
            forall|i: int|
                0 <= i < final(self).pool().buf().len() ==> final(self).pool().buf()[i] == 0u8,
    {
        self.entropy_pool.wipe();
    }
}

} // verus!
