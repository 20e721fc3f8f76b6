//! Progress of one entry, counted in compressed bytes.
//!
//! The decompressed stream reports progress in uncompressed bytes; the
//! overall progress bar counts compressed bytes. Every full tick of
//! uncompressed bytes is worth a fixed share of the entry's compressed size,
//! and whatever is left over is reported when the entry finishes, so that an
//! entry always reports exactly its compressed size.
use vstd::arithmetic::div_mod::lemma_div_is_ordered;
use vstd::arithmetic::mul::lemma_mul_inequality;
use vstd::prelude::*;

verus! {

/// The compressed bytes one tick of `granularity` uncompressed bytes is
/// worth: its proportional share, rounded down, and never more than the
/// whole entry. An entry with no uncompressed bytes earns nothing by ticks.
pub open spec fn tick_amount(compressed: int, uncompressed: int, granularity: int) -> int {
    if uncompressed == 0 {
        0
    } else if granularity * compressed / uncompressed <= compressed {
        granularity * compressed / uncompressed
    } else {
        compressed
    }
}

/// What has been reported after `seen` uncompressed bytes: one tick amount
/// for each boundary crossed, never more than the whole entry.
pub open spec fn owed(compressed: int, per_tick: int, granularity: int, seen: int) -> int {
    if granularity == 0 {
        0
    } else if (seen / granularity) * per_tick <= compressed {
        (seen / granularity) * per_tick
    } else {
        compressed
    }
}

/// Turns uncompressed progress of one entry into compressed-byte amounts.
pub struct ProgressUpdater {
    compressed_size: u64,
    granularity: u64,
    per_tick: u64,
    seen: u64,
    emitted: u64,
}

impl ProgressUpdater {
    /// The entry's compressed size.
    pub closed spec fn compressed_size(&self) -> int {
        self.compressed_size as int
    }

    /// The compressed bytes worth one tick.
    pub closed spec fn per_tick(&self) -> int {
        self.per_tick as int
    }

    /// The uncompressed bytes in one tick.
    pub closed spec fn granularity(&self) -> int {
        self.granularity as int
    }

    /// The uncompressed bytes seen so far (stopping at the largest `u64`).
    pub closed spec fn seen(&self) -> int {
        self.seen as int
    }

    /// The compressed bytes reported so far.
    pub closed spec fn emitted(&self) -> int {
        self.emitted as int
    }

    pub open spec fn wf(&self) -> bool {
        &&& 0 <= self.per_tick() <= self.compressed_size()
        &&& self.emitted() == owed(self.compressed_size(), self.per_tick(), self.granularity(), self.seen())
    }

    /// An updater for an entry of the given sizes that reports once per
    /// `tick_granularity` uncompressed bytes; a granularity of zero reports
    /// everything at the finish.
    pub fn new(compressed_size: u64, uncompressed_size: u64, tick_granularity: u64) -> (r: Self)
        ensures
            r.wf(),
            r.compressed_size() == compressed_size,
            r.granularity() == tick_granularity,
            r.per_tick() == tick_amount(compressed_size as int, uncompressed_size as int, tick_granularity as int),
            r.seen() == 0,
            r.emitted() == 0,
    {
        let per_tick: u64 = if uncompressed_size == 0 {
            0
        } else {
            let a: u128 = tick_granularity as u128;
            let b: u128 = compressed_size as u128;
            assert(a * b <= 0xffff_ffff_ffff_ffffu128 * 0xffff_ffff_ffff_ffffu128) by (nonlinear_arith)
                requires a <= 0xffff_ffff_ffff_ffffu128, b <= 0xffff_ffff_ffff_ffffu128;
            let share: u128 = (tick_granularity as u128 * compressed_size as u128) / uncompressed_size as u128;
            if share <= compressed_size as u128 {
                share as u64
            } else {
                compressed_size
            }
        };
        let r = ProgressUpdater {
            compressed_size,
            granularity: tick_granularity,
            per_tick,
            seen: 0,
            emitted: 0,
        };
        assert(r.emitted() == owed(r.compressed_size(), r.per_tick(), r.granularity(), 0)) by {
            if tick_granularity > 0 {
                assert(0int / (tick_granularity as int) == 0) by (nonlinear_arith)
                    requires tick_granularity > 0;
                assert((0int / (tick_granularity as int)) * per_tick == 0) by (nonlinear_arith)
                    requires 0int / (tick_granularity as int) == 0;
            }
        }
        r
    }

    /// `delta` more uncompressed bytes were written; returns the compressed
    /// bytes to report for the tick boundaries they crossed.
    pub fn progress(&mut self, delta: u64) -> (r: u64)
        requires
            old(self).wf(),
        ensures
            final(self).wf(),
            final(self).compressed_size() == old(self).compressed_size(),
            final(self).granularity() == old(self).granularity(),
            final(self).per_tick() == old(self).per_tick(),
            final(self).seen() == if old(self).seen() + delta <= u64::MAX {
                old(self).seen() + delta
            } else {
                u64::MAX as int
            },
            final(self).emitted() == old(self).emitted() + r,
    {
        let seen: u64 = if self.seen <= u64::MAX - delta { self.seen + delta } else { u64::MAX };
        let owed_now: u64 = if self.granularity == 0 {
            0
        } else {
            let a: u128 = (seen / self.granularity) as u128;
            let b: u128 = self.per_tick as u128;
            assert(a * b <= 0xffff_ffff_ffff_ffffu128 * 0xffff_ffff_ffff_ffffu128) by (nonlinear_arith)
                requires a <= 0xffff_ffff_ffff_ffffu128, b <= 0xffff_ffff_ffff_ffffu128;
            let total: u128 = (seen / self.granularity) as u128 * self.per_tick as u128;
            if total <= self.compressed_size as u128 {
                total as u64
            } else {
                self.compressed_size
            }
        };
        proof {
            if self.granularity > 0 {
                let g = self.granularity as int;
                lemma_div_is_ordered(self.seen as int, seen as int, g);
                lemma_mul_inequality(self.seen as int / g, seen as int / g, self.per_tick as int);
                assert(0 <= (self.seen as int) / g) by (nonlinear_arith)
                    requires g > 0, self.seen >= 0;
                assert(0 <= (self.seen as int / g) * self.per_tick) by (nonlinear_arith)
                    requires 0 <= (self.seen as int) / g, self.per_tick >= 0;
            }
        }
        let r: u64 = owed_now - self.emitted;
        self.seen = seen;
        self.emitted = owed_now;
        r
    }

    /// The entry is done: returns the rest of its compressed size, so that
    /// all amounts reported for it add up to exactly that size.
    pub fn finish(self) -> (r: u64)
        requires
            self.wf(),
        ensures
            self.emitted() + r == self.compressed_size(),
    {
        self.compressed_size - self.emitted
    }
}

/// An entry with no uncompressed bytes reports nothing by ticks, however
/// much is written, and so reports its whole compressed size at the finish.
pub proof fn lemma_empty_entry_reports_at_finish(compressed: u64, granularity: u64, seen: u64)
    ensures
        tick_amount(compressed as int, 0, granularity as int) == 0,
        owed(compressed as int, tick_amount(compressed as int, 0, granularity as int), granularity as int, seen as int) == 0,
{
    if granularity > 0 {
        assert((seen as int / granularity as int) * 0 == 0) by (nonlinear_arith);
    }
}

/// The uncompressed bytes seen after progress of `deltas`, in order,
/// stopping at the largest `u64`.
pub open spec fn seen_after(deltas: Seq<u64>) -> int
    decreases deltas.len(),
{
    if deltas.len() == 0 {
        0
    } else {
        let before = seen_after(deltas.drop_last());
        if before + deltas.last() <= u64::MAX {
            before + deltas.last()
        } else {
            u64::MAX as int
        }
    }
}

/// The sum of the amounts that progress of `deltas`, in order, returns.
pub open spec fn reported(compressed: int, per_tick: int, granularity: int, deltas: Seq<u64>) -> int
    decreases deltas.len(),
{
    if deltas.len() == 0 {
        0
    } else {
        reported(compressed, per_tick, granularity, deltas.drop_last())
            + owed(compressed, per_tick, granularity, seen_after(deltas))
            - owed(compressed, per_tick, granularity, seen_after(deltas.drop_last()))
    }
}

/// Whatever progress an entry reports, the amounts handed out on the way and
/// the amount handed out at the finish add up to exactly its compressed
/// size.
pub proof fn lemma_entry_reports_compressed_size(
    compressed: u64,
    uncompressed: u64,
    granularity: u64,
    deltas: Seq<u64>,
)
    ensures
        ({
            let per_tick = tick_amount(compressed as int, uncompressed as int, granularity as int);
            let during = reported(compressed as int, per_tick, granularity as int, deltas);
            let at_finish = compressed - owed(compressed as int, per_tick, granularity as int, seen_after(deltas));
            during + at_finish == compressed
        }),
    decreases deltas.len(),
{
    let per_tick = tick_amount(compressed as int, uncompressed as int, granularity as int);
    lemma_reported_is_owed(compressed as int, per_tick, granularity as int, deltas);
}

proof fn lemma_reported_is_owed(compressed: int, per_tick: int, granularity: int, deltas: Seq<u64>)
    requires
        granularity >= 0,
        compressed >= 0,
    ensures
        reported(compressed, per_tick, granularity, deltas) == owed(compressed, per_tick, granularity, seen_after(deltas)),
    decreases deltas.len(),
{
    if deltas.len() == 0 {
        if granularity > 0 {
            assert(0int / granularity == 0) by (nonlinear_arith)
                requires granularity > 0;
            assert((0int / granularity) * per_tick == 0) by (nonlinear_arith)
                requires 0int / granularity == 0;
        }
    } else {
        lemma_reported_is_owed(compressed, per_tick, granularity, deltas.drop_last());
    }
}

} // verus!
