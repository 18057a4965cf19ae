//! Raw snapshots of one tick, and the reductions over logical CPUs that make them.
use vstd::prelude::*;
use vstd::arithmetic::div_mod::lemma_fundamental_div_mod;

verus! {

/// CPU figures of one tick.
#[derive(Clone, Copy, Debug, PartialEq, Eq, Structural)]
pub struct CpuInfo {
    pub physical_cores: usize,
    /// Logical CPUs.
    pub cpu_count: usize,
    /// Average utilization, in hundredths of a percent.
    pub cpu_avg: u32,
    /// Largest utilization of one logical CPU, in hundredths of a percent.
    pub cpu_max: u32,
    /// Mean clock of the logical CPUs, in MHz.
    pub cpu_freq: u64,
}

/// GPU figures of one tick, for device 0.
#[derive(Clone, Copy, Debug, PartialEq, Eq, Structural)]
pub struct GpuInfo {
    /// Memory in use, in bytes.
    pub mem_used: u64,
    /// Memory in all, in bytes.
    pub mem_total: u64,
    /// Graphics clock in MHz.
    pub clock: u32,
    /// Power draw in milliwatts.
    pub power: u32,
    /// Utilization in hundredths of a percent.
    pub util: u32,
}

impl GpuInfo {
    /// All figures zero: the state before any GPU reading, and for a host without one.
    pub fn zeroed() -> (g: GpuInfo)
        ensures
            g == (GpuInfo { mem_used: 0, mem_total: 0, clock: 0, power: 0, util: 0 }),
    {
        GpuInfo { mem_used: 0, mem_total: 0, clock: 0, power: 0, util: 0 }
    }
}

/// `m` is the largest of `s`, or 0 when `s` is empty.
pub open spec fn is_max_of(m: u32, s: Seq<u32>) -> bool {
    &&& forall|i: int| 0 <= i < s.len() ==> s[i] <= m
    &&& s.len() == 0 ==> m == 0
    &&& s.len() > 0 ==> exists|i: int| 0 <= i < s.len() && s[i] == m
}

pub open spec fn sum_of(s: Seq<u64>) -> int
    decreases s.len(),
{
    if s.len() == 0 {
        0
    } else {
        sum_of(s.drop_last()) + s.last()
    }
}

/// The arithmetic mean of `s`, rounded down; 0 when `s` is empty.
pub open spec fn mean_of(s: Seq<u64>) -> int {
    if s.len() == 0 {
        0
    } else {
        sum_of(s) / (s.len() as int)
    }
}

/// The largest utilization among the logical CPUs; exactly 0 when there are none.
pub fn max_usage(usages: &[u32]) -> (m: u32)
    ensures
        is_max_of(m, usages@),
{
    let mut m: u32 = 0;
    let mut i: usize = 0;
    let ghost mut at: int = -1;
    while i < usages.len()
        invariant
            i <= usages@.len(),
            forall|k: int| 0 <= k < i ==> usages@[k] <= m,
            i == 0 ==> m == 0,
            i > 0 ==> 0 <= at < i && usages@[at] == m,
        decreases usages@.len() - i,
    {
        if i == 0 || usages[i] > m {
            m = usages[i];
            proof {
                at = i as int;
            }
        }
        i += 1;
    }
    m
}

/// The mean clock of the logical CPUs, rounded down; 0 when there are none.
pub fn mean_frequency(freqs: &[u64]) -> (f: u64)
    ensures
        f == mean_of(freqs@),
{
    let n = freqs.len();
    if n == 0 {
        return 0;
    }
    let mut sum: u128 = 0;
    let mut i: usize = 0;
    while i < n
        invariant
            n == freqs@.len(),
            i <= n,
            sum == sum_of(freqs@.take(i as int)),
            sum <= i * 0xFFFF_FFFF_FFFF_FFFFu128,
        decreases n - i,
    {
        assert(freqs@.take(i + 1).drop_last() =~= freqs@.take(i as int));
        sum = sum + freqs[i] as u128;
        i += 1;
    }
    assert(freqs@.take(n as int) =~= freqs@);
    let q = sum / (n as u128);
    proof {
        lemma_fundamental_div_mod(sum as int, n as int);
        assert(q <= 0xFFFF_FFFF_FFFF_FFFFu128) by (nonlinear_arith)
            requires
                n * q + (sum as int) % (n as int) == sum,
                (sum as int) % (n as int) >= 0,
                sum <= n * 0xFFFF_FFFF_FFFF_FFFFu128,
                n >= 1,
        ;
    }
    q as u64
}

/// This tick's CPU figures: `cpu_avg` as measured, the largest and the mean
/// over the logical CPUs; the core counts stay those of `prev`.
pub fn sample_cpu(prev: &CpuInfo, cpu_avg: u32, usages: &[u32], freqs: &[u64]) -> (c: CpuInfo)
    ensures
        c.physical_cores == prev.physical_cores,
        c.cpu_count == prev.cpu_count,
        c.cpu_avg == cpu_avg,
        is_max_of(c.cpu_max, usages@),
        c.cpu_freq == mean_of(freqs@),
{
    CpuInfo {
        physical_cores: prev.physical_cores,
        cpu_count: prev.cpu_count,
        cpu_avg,
        cpu_max: max_usage(usages),
        cpu_freq: mean_frequency(freqs),
    }
}

/// The GPU figures after a query: the new reading, or the last good one when
/// the query gave nothing.
pub fn carry_forward(last: GpuInfo, reading: Option<GpuInfo>) -> (g: GpuInfo)
    ensures
        g == (match reading {
            Some(r) => r,
            None => last,
        }),
{
    match reading {
        Some(r) => r,
        None => last,
    }
}

} // verus!
