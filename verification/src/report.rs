use vstd::prelude::*;

verus! {

/// Average time spent per node: a run's total duration in nanoseconds
/// divided by its node count, truncated to whole nanoseconds of a 64-bit
/// duration as the caller rebuilds one.
pub fn per_node(dur_nanos: u128, count: u32) -> (r: u64)
    requires
        count > 0,
    ensures
        r == (dur_nanos / (count as u128)) as u64,
        dur_nanos / (count as u128) <= u64::MAX ==> r == dur_nanos / (count as u128),
{
    let q: u128 = dur_nanos / (count as u128);
    #[verifier::truncate] (q as u64)
}

/// The comparative outcome of the two snapshot runs: one over the brokered
/// (routed) bus connection, one over direct peer-to-peer connections.
#[derive(Debug, Clone, Copy, PartialEq, Eq)]
pub struct BenchReport {
    pub routed_count: u32,
    pub direct_count: u32,
    /// Whether the two traversals saw the same number of nodes. A report
    /// flags disagreement instead of silently averaging the two runs.
    pub counts_agree: bool,
    pub routed_ns_per_node: u64,
    pub direct_ns_per_node: u64,
}

/// Validates and summarises the two timed runs: the same static remote tree
/// must yield the same node count over both transports, so `counts_agree`
/// is the first thing a reader checks.
pub fn build_report(
    routed_count: u32,
    direct_count: u32,
    routed_nanos: u128,
    direct_nanos: u128,
) -> (rep: BenchReport)
    requires
        routed_count > 0,
        direct_count > 0,
    ensures
        rep.routed_count == routed_count,
        rep.direct_count == direct_count,
        rep.counts_agree == (routed_count == direct_count),
        rep.routed_ns_per_node == (routed_nanos / (routed_count as u128)) as u64,
        rep.direct_ns_per_node == (direct_nanos / (direct_count as u128)) as u64,
{
    BenchReport {
        routed_count,
        direct_count,
        counts_agree: routed_count == direct_count,
        routed_ns_per_node: per_node(routed_nanos, routed_count),
        direct_ns_per_node: per_node(direct_nanos, direct_count),
    }
}

} // verus!
