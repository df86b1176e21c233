//! Per-task I/O counters and the saturating arithmetic on them.

use vstd::prelude::*;

verus! {

/// One sample of a task's cumulative I/O counters, or the difference of two.
#[derive(Debug, Clone, Copy, PartialEq, Eq, Structural)]
pub struct TaskStats {
    pub version: u16,
    /// Nanoseconds spent blocked on block I/O.
    pub blkio_delay_total: u64,
    /// Nanoseconds spent blocked on swap-in.
    pub swapin_delay_total: u64,
    pub read_bytes: u64,
    pub write_bytes: u64,
    pub cancelled_write_bytes: u64,
}

/// `a - b`, or zero where `b` exceeds `a`.
pub open spec fn sat_sub(a: int, b: int) -> int {
    if a >= b {
        a - b
    } else {
        0
    }
}

/// `a + b`, capped at the largest `u64`.
pub open spec fn sat_add(a: int, b: int) -> int {
    if a + b > u64::MAX as int {
        u64::MAX as int
    } else {
        a + b
    }
}

impl TaskStats {
    /// The record with every counter at zero.
    pub open spec fn zero() -> TaskStats {
        TaskStats {
            version: 0,
            blkio_delay_total: 0,
            swapin_delay_total: 0,
            read_bytes: 0,
            write_bytes: 0,
            cancelled_write_bytes: 0,
        }
    }

    /// All five counters are zero.
    pub open spec fn spec_is_all_zero(self) -> bool {
        &&& self.blkio_delay_total == 0
        &&& self.swapin_delay_total == 0
        &&& self.read_bytes == 0
        &&& self.write_bytes == 0
        &&& self.cancelled_write_bytes == 0
    }

    /// Componentwise `self - other`, each counter stopping at zero.
    pub open spec fn spec_delta(self, other: TaskStats) -> TaskStats {
        TaskStats {
            version: self.version,
            blkio_delay_total: sat_sub(
                self.blkio_delay_total as int,
                other.blkio_delay_total as int,
            ) as u64,
            swapin_delay_total: sat_sub(
                self.swapin_delay_total as int,
                other.swapin_delay_total as int,
            ) as u64,
            read_bytes: sat_sub(self.read_bytes as int, other.read_bytes as int) as u64,
            write_bytes: sat_sub(self.write_bytes as int, other.write_bytes as int) as u64,
            cancelled_write_bytes: sat_sub(
                self.cancelled_write_bytes as int,
                other.cancelled_write_bytes as int,
            ) as u64,
        }
    }

    /// Componentwise `self + delta`, each counter stopping at `u64::MAX`.
    pub open spec fn spec_accumulate(self, delta: TaskStats) -> TaskStats {
        TaskStats {
            version: self.version,
            blkio_delay_total: sat_add(
                self.blkio_delay_total as int,
                delta.blkio_delay_total as int,
            ) as u64,
            swapin_delay_total: sat_add(
                self.swapin_delay_total as int,
                delta.swapin_delay_total as int,
            ) as u64,
            read_bytes: sat_add(self.read_bytes as int, delta.read_bytes as int) as u64,
            write_bytes: sat_add(self.write_bytes as int, delta.write_bytes as int) as u64,
            cancelled_write_bytes: sat_add(
                self.cancelled_write_bytes as int,
                delta.cancelled_write_bytes as int,
            ) as u64,
        }
    }

    /// Every counter of `self` is at least the same counter of `other`.
    pub open spec fn ge(self, other: TaskStats) -> bool {
        &&& self.blkio_delay_total >= other.blkio_delay_total
        &&& self.swapin_delay_total >= other.swapin_delay_total
        &&& self.read_bytes >= other.read_bytes
        &&& self.write_bytes >= other.write_bytes
        &&& self.cancelled_write_bytes >= other.cancelled_write_bytes
    }

    /// The record of one kernel sample. The two delays come in nanoseconds
    /// and are kept in 64 bits, the low ones where they do not fit.
    pub fn from_kernel_stats(
        blkio_delay_ns: u128,
        swapin_delay_ns: u128,
        read_bytes: u64,
        write_bytes: u64,
        cancelled_write_bytes: u64,
    ) -> (r: TaskStats)
        ensures
            r == (TaskStats {
                version: 0,
                blkio_delay_total: blkio_delay_ns as u64,
                swapin_delay_total: swapin_delay_ns as u64,
                read_bytes,
                write_bytes,
                cancelled_write_bytes,
            }),
    {
        TaskStats {
            version: 0,
            blkio_delay_total: #[verifier::truncate]
            (blkio_delay_ns as u64),
            swapin_delay_total: #[verifier::truncate]
            (swapin_delay_ns as u64),
            read_bytes,
            write_bytes,
            cancelled_write_bytes,
        }
    }

    /// Whether this sample shows that the kernel accounts for delays: a
    /// kernel without delay accounting reports the block-I/O delay as zero.
    pub fn has_delay_acct(&self) -> (r: bool)
        ensures
            r == (self.blkio_delay_total != 0),
    {
        self.blkio_delay_total != 0
    }

    pub fn is_all_zero(&self) -> (r: bool)
        ensures
            r == self.spec_is_all_zero(),
    {
        self.blkio_delay_total == 0 && self.swapin_delay_total == 0 && self.read_bytes == 0
            && self.write_bytes == 0 && self.cancelled_write_bytes == 0
    }

    /// What was counted between the earlier sample `other` and `self`.
    pub fn delta(&self, other: &TaskStats) -> (r: TaskStats)
        ensures
            r == self.spec_delta(*other),
    {
        TaskStats {
            version: self.version,
            blkio_delay_total: self.blkio_delay_total.saturating_sub(other.blkio_delay_total),
            swapin_delay_total: self.swapin_delay_total.saturating_sub(other.swapin_delay_total),
            read_bytes: self.read_bytes.saturating_sub(other.read_bytes),
            write_bytes: self.write_bytes.saturating_sub(other.write_bytes),
            cancelled_write_bytes: self.cancelled_write_bytes.saturating_sub(
                other.cancelled_write_bytes,
            ),
        }
    }

    /// Adds `delta` into the running totals.
    pub fn accumulate(&mut self, delta: &TaskStats)
        ensures
            *final(self) == old(self).spec_accumulate(*delta),
    {
        self.blkio_delay_total = self.blkio_delay_total.saturating_add(delta.blkio_delay_total);
        self.swapin_delay_total = self.swapin_delay_total.saturating_add(delta.swapin_delay_total);
        self.read_bytes = self.read_bytes.saturating_add(delta.read_bytes);
        self.write_bytes = self.write_bytes.saturating_add(delta.write_bytes);
        self.cancelled_write_bytes = self.cancelled_write_bytes.saturating_add(
            delta.cancelled_write_bytes,
        );
    }
}

/// Whether any sample so far showed that the kernel accounts for delays.
/// Once set, it stays set.
#[derive(Debug, Clone, Copy, PartialEq, Eq, Structural)]
pub struct DelayAcct {
    pub seen: bool,
}

impl DelayAcct {
    pub fn new() -> (r: DelayAcct)
        ensures
            !r.seen,
    {
        DelayAcct { seen: false }
    }

    /// Takes note of a sample.
    pub fn observe(&mut self, sample: &TaskStats)
        ensures
            final(self).seen == (old(self).seen || sample.blkio_delay_total != 0),
    {
        if !self.seen && sample.has_delay_acct() {
            self.seen = true;
        }
    }

    /// Takes note of the outcome of sampling a task and hands it on: a
    /// failed sample is no sample.
    pub fn get_task_stats(&mut self, outcome: Option<TaskStats>) -> (r: Option<TaskStats>)
        ensures
            r == outcome,
            final(self).seen == (old(self).seen || (outcome is Some
                && outcome->0.blkio_delay_total != 0)),
    {
        match outcome {
            Some(stats) => {
                self.observe(&stats);
                Some(stats)
            },
            None => None,
        }
    }

    pub fn has_delay_acct(&self) -> (r: bool)
        ensures
            r == self.seen,
    {
        self.seen
    }
}

impl Default for TaskStats {
    fn default() -> (r: TaskStats)
        ensures
            r == TaskStats::zero(),
    {
        TaskStats {
            version: 0,
            blkio_delay_total: 0,
            swapin_delay_total: 0,
            read_bytes: 0,
            write_bytes: 0,
            cancelled_write_bytes: 0,
        }
    }
}

/// Subtracting the zero record from a sample leaves the sample.
pub proof fn lemma_delta_zero(sample: TaskStats)
    ensures
        sample.spec_delta(TaskStats { version: sample.version, ..TaskStats::zero() }) == sample,
        sample.spec_delta(TaskStats::zero()) == sample,
{
}

/// Adding a record to the zero record gives that record's counters.
pub proof fn lemma_accumulate_zero(x: TaskStats)
    ensures
        TaskStats::zero().spec_accumulate(x) == (TaskStats { version: 0, ..x }),
{
}

/// A record's difference with itself is zero, and adding it back changes nothing.
pub proof fn lemma_accumulate_self_delta(x: TaskStats)
    ensures
        x.spec_delta(x).spec_is_all_zero(),
        x.spec_accumulate(x.spec_delta(x)) == x,
{
}

/// A difference is never negative, and never more than the later sample.
pub proof fn lemma_delta_bounds(sample: TaskStats, previous: TaskStats)
    ensures
        sample.spec_delta(previous).ge(TaskStats::zero()),
        sample.ge(sample.spec_delta(previous)),
{
}

/// A sample below the previous one in every counter gives a zero difference.
pub proof fn lemma_delta_after_reset(sample: TaskStats, previous: TaskStats)
    requires
        previous.ge(sample),
    ensures
        sample.spec_delta(previous).spec_is_all_zero(),
{
}

/// Running totals never shrink when a record is added.
pub proof fn lemma_accumulate_monotone(acc: TaskStats, d: TaskStats)
    ensures
        acc.spec_accumulate(d).ge(acc),
{
}

} // verus!
