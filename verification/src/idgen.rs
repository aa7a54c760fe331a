//! Transaction id generation.
//!
//! Ids come from a snowflake generator: a custom epoch, a machine and a
//! node part, and a per-millisecond sequence. The generator state is held
//! in an [`IdGen`] value that the caller owns; the service keeps one for
//! its lifetime.

use vstd::prelude::*;

verus! {

/// Milliseconds since the UNIX epoch of the id space's own epoch.
pub const SNOWFLAKE_EPOCH: u64 = 1669205840566;

#[verifier::external_type_specification]
#[verifier::external_body]
pub struct ExSnowflakeIdGenerator(snowflake::SnowflakeIdGenerator);

/// A handle to the process-wide id generator.
pub struct IdGen {
    inner: snowflake::SnowflakeIdGenerator,
}

impl IdGen {
    /// Relies on `snowflake::SnowflakeIdGenerator::with_epoch`, which
    /// builds a generator for the given machine and node parts; it reads
    /// the clock and panics if the clock is before the epoch.
    #[verifier::external_body]
    pub fn new(machine_id: i32, node_id: i32) -> (r: IdGen)
        requires
            0 <= machine_id < 32,
            0 <= node_id < 32,
    {
        let epoch = std::time::UNIX_EPOCH + core::time::Duration::from_millis(SNOWFLAKE_EPOCH);
        IdGen { inner: snowflake::SnowflakeIdGenerator::with_epoch(machine_id, node_id, epoch) }
    }

    /// Relies on `snowflake::SnowflakeIdGenerator::generate`: the next id
    /// is the non-negative millisecond count since the epoch shifted left
    /// past the machine, node and sequence parts. Every path leaves either
    /// a sequence of at least one or a refreshed millisecond of at least
    /// one, so the id is strictly positive: the generator's clock reads
    /// panic rather than return a count below the epoch, and the
    /// millisecond count stays within its bit width for decades past the
    /// 2022 epoch.
    #[verifier::external_body]
    fn generate(&mut self) -> (r: i64)
        ensures
            r > 0,
    {
        self.inner.generate()
    }

    /// Draws the next transaction id: strictly positive, as the id space
    /// demands. Distinctness across a process lifetime is an assumption on
    /// the generator, not a claim of this contract.
    pub fn next(&mut self) -> (r: i64)
        ensures
            r > 0,
    {
        self.generate()
    }
}

} // verus!
