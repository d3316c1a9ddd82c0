//! Thread count, spot limit and the split of the row range among workers.
use vstd::prelude::*;

verus! {

/// An inclusive range of 1-indexed row ids; empty when `stop + 1 == start`.
#[derive(Debug, Clone, Copy, PartialEq, Eq, Structural)]
pub struct RowRange {
    pub start: u64,
    pub stop: u64,
}

/// The number of threads to run: all cores for a request of zero, else the
/// request capped at the number of cores.
pub open spec fn thread_count(requested: u64, cores: u64) -> u64 {
    if requested == 0 {
        cores
    } else if requested < cores {
        requested
    } else {
        cores
    }
}

/// Resolves a requested thread count against the number of available cores.
pub fn resolve_threads(requested: u64, cores: u64) -> (r: u64)
    ensures
        r == thread_count(requested, cores),
{
    if requested == 0 {
        cores
    } else if requested < cores {
        requested
    } else {
        cores
    }
}

/// Relies on `num_cpus::get`: the number of logical CPUs this process may use,
/// which its documentation promises is at least one. The value depends on the
/// machine, so nothing more is promised of it.
#[verifier::external_body]
fn available_cores() -> (r: u64)
    ensures
        r >= 1,
{
    num_cpus::get() as u64
}

/// Options of the worker pool.
#[derive(Debug, Clone, Copy)]
pub struct RuntimeOptions {
    /// Requested number of threads (0: all available cores)
    pub threads: u64,
}

impl RuntimeOptions {
    /// The number of threads to run on this machine: the request resolved
    /// against the machine's core count, so at least one.
    pub fn threads(&self) -> (r: u64)
        ensures
            r >= 1,
            self.threads > 0 ==> r <= self.threads,
            exists|c: u64| c >= 1 && r == thread_count(self.threads, c),
    {
        let cores = available_cores();
        let r = resolve_threads(self.threads, cores);
        assert(cores >= 1 && r == thread_count(self.threads, cores));
        r
    }
}

/// The number of spots to process, and whether the limit exceeds the archive.
pub fn spots_to_process(total: u64, limit: Option<u64>) -> (r: (u64, bool))
    ensures
        r.0 == match limit {
            Some(l) => if l < total { l } else { total },
            None => total,
        },
        r.1 == (limit is Some && limit->Some_0 > total),
{
    match limit {
        Some(l) => {
            let n = if l < total { l } else { total };
            (n, l > total)
        },
        None => (total, false),
    }
}

/// Range `i` of `t` over rows `1..=n`: each range holds `n / t` rows, and the
/// last one also holds the remainder.
pub open spec fn nth_range(n: u64, t: u64, i: int) -> (int, int) {
    let per = (n / t) as int;
    let start = i * per + 1;
    if i == t - 1 {
        (start, start + per + (n % t) as int - 1)
    } else {
        (start, start + per - 1)
    }
}

/// Splits rows `1..=n` into `t` contiguous ranges, in order; the last range
/// absorbs the remainder.
pub fn partition_rows(n: u64, t: u64) -> (r: Vec<RowRange>)
    requires
        t >= 1,
        n < u64::MAX,
    ensures
        r@.len() == t,
        forall|i: int|
            0 <= i < t ==> (#[trigger] r@[i]).start == nth_range(n, t, i).0 && r@[i].stop == nth_range(
                n,
                t,
                i,
            ).1,
{
    let per: u64 = n / t;
    let rem: u64 = n % t;
    let mut r: Vec<RowRange> = Vec::new();
    let mut i: u64 = 0;
    while i < t
        invariant
            t >= 1,
            n < u64::MAX,
            per == n / t,
            rem == n % t,
            i <= t,
            r@.len() == i,
            forall|k: int|
                0 <= k < i ==> (#[trigger] r@[k]).start == nth_range(n, t, k).0 && r@[k].stop
                    == nth_range(n, t, k).1,
        decreases t - i,
    {
        proof {
            assert(i * per <= t * per) by (nonlinear_arith)
                requires i <= t;
            assert(t * per + rem == n) by (nonlinear_arith)
                requires per == n / t, rem == n % t, t >= 1;
            assert(t * per <= n) by (nonlinear_arith)
                requires t * per + rem == n, rem >= 0;
        }
        let start: u64 = i * per + 1;
        proof {
            assert(i * per + per == (i + 1) * per) by (nonlinear_arith);
            assert((i + 1) * per <= t * per) by (nonlinear_arith)
                requires i + 1 <= t;
        }
        let stop: u64 = if i == t - 1 {
            start + per + rem - 1
        } else {
            start + per - 1
        };
        proof {
            if i < t - 1 {
                assert((i + 1) * per <= t * per) by (nonlinear_arith)
                    requires i + 1 <= t;
            }
        }
        r.push(RowRange { start, stop });
        i = i + 1;
    }
    r
}

/// The ranges of `partition_rows` follow each other without gap or overlap
/// and together cover rows `1..=n`.
pub proof fn lemma_ranges_cover(n: u64, t: u64)
    requires
        t >= 1,
    ensures
        nth_range(n, t, 0).0 == 1,
        nth_range(n, t, t - 1).1 == n,
        forall|i: int| 0 <= i < t - 1 ==> #[trigger] nth_range(n, t, i + 1).0 == nth_range(n, t, i).1 + 1,
{
    let per = (n / t) as int;
    let rem = (n % t) as int;
    assert(t * per + rem == n) by (nonlinear_arith)
        requires per == n / t, rem == n % t, t >= 1;
    assert((t - 1) * per + 1 + per + rem - 1 == n) by (nonlinear_arith)
        requires t * per + rem == n;
    assert forall|i: int| 0 <= i < t - 1 implies #[trigger] nth_range(n, t, i + 1).0 == nth_range(n, t, i).1
        + 1 by {
        assert((i + 1) * per == i * per + per) by (nonlinear_arith);
    }
}

} // verus!
