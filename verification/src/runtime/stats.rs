//! The resources that a container uses, out of what the engine reports.

use vstd::prelude::*;

verus! {

/// What the engine reports of a container.
#[derive(Debug, Clone, Default)]
pub struct DockerStatsResponse {
    pub cpu_stats: CpuStats,
    pub precpu_stats: CpuStats,
    pub memory_stats: MemoryStats,
    /// The interfaces by name; no name occurs twice.
    pub networks: Vec<(String, NetworkStats)>,
    pub blkio_stats: BlkioStats,
}

/// CPU times.
#[derive(Debug, Clone, Copy, Default)]
pub struct CpuStats {
    pub cpu_usage: CpuUsage,
    pub system_cpu_usage: u64,
    pub online_cpus: u64,
}

/// The CPU time of the container.
#[derive(Debug, Clone, Copy, Default)]
pub struct CpuUsage {
    pub total_usage: u64,
}

/// Memory, the page cache in it.
#[derive(Debug, Clone, Copy, Default)]
pub struct MemoryStats {
    pub usage: u64,
    pub limit: u64,
    pub stats: MemoryDetailStats,
}

/// The page cache.
#[derive(Debug, Clone, Copy, Default)]
pub struct MemoryDetailStats {
    pub cache: u64,
}

/// The traffic of one interface.
#[derive(Debug, Clone, Copy, Default)]
pub struct NetworkStats {
    pub rx_bytes: u64,
    pub tx_bytes: u64,
}

/// Disk traffic.
#[derive(Debug, Clone, Default)]
pub struct BlkioStats {
    pub io_service_bytes_recursive: Vec<BlkioEntry>,
}

/// The disk traffic of one kind of operation.
#[derive(Debug, Clone, Default)]
pub struct BlkioEntry {
    pub op: String,
    pub value: u64,
}

/// The resources that a container uses. `P` is the type of a CPU percentage.
#[derive(Debug, Clone, Copy, Default)]
pub struct Stats<P> {
    pub cpu_percent: P,
    pub mem_used_bytes: u64,
    pub mem_limit_bytes: u64,
    pub net_rx_bytes: u64,
    pub net_tx_bytes: u64,
}

/// The bytes that interfaces have received in all.
pub open spec fn received(networks: Seq<(String, NetworkStats)>) -> int
    decreases networks.len(),
{
    if networks.len() == 0 {
        0
    } else {
        received(networks.drop_last()) + networks.last().1.rx_bytes
    }
}

/// The bytes that interfaces have sent in all.
pub open spec fn sent(networks: Seq<(String, NetworkStats)>) -> int
    decreases networks.len(),
{
    if networks.len() == 0 {
        0
    } else {
        sent(networks.drop_last()) + networks.last().1.tx_bytes
    }
}

/// The traffic of the first interfaces is at most that of all.
proof fn lemma_traffic_grows(networks: Seq<(String, NetworkStats)>, n: int)
    requires
        0 <= n <= networks.len(),
    ensures
        0 <= received(networks.take(n)) <= received(networks),
        0 <= sent(networks.take(n)) <= sent(networks),
    decreases networks.len(), n,
{
    if n == networks.len() {
        assert(networks.take(n) =~= networks);
        if n > 0 {
            lemma_traffic_grows(networks.drop_last(), n - 1);
            assert(networks.drop_last().take(n - 1) =~= networks.drop_last());
        }
    } else {
        lemma_traffic_grows(networks.drop_last(), n);
        assert(networks.drop_last().take(n) =~= networks.take(n));
    }
}

/// Sums the traffic of interfaces. There is no sum where it exceeds the range
/// of a counter.
pub fn total_traffic(networks: &Vec<(String, NetworkStats)>) -> (out: Option<(u64, u64)>)
    ensures
        match out {
            Some((rx, tx)) => rx == received(networks@) && tx == sent(networks@),
            None => received(networks@) > u64::MAX || sent(networks@) > u64::MAX,
        },
{
    let mut rx: u64 = 0;
    let mut tx: u64 = 0;
    let mut i: usize = 0;
    while i < networks.len()
        invariant
            i <= networks@.len(),
            rx == received(networks@.take(i as int)),
            tx == sent(networks@.take(i as int)),
        decreases networks@.len() - i,
    {
        assert(networks@.take(i + 1).drop_last() =~= networks@.take(i as int));
        proof {
            lemma_traffic_grows(networks@, i + 1);
        }
        let net: NetworkStats = networks[i].1;
        if net.rx_bytes > u64::MAX - rx || net.tx_bytes > u64::MAX - tx {
            return None;
        }
        rx = rx + net.rx_bytes;
        tx = tx + net.tx_bytes;
        i = i + 1;
    }
    assert(networks@.take(i as int) =~= networks@);
    Some((rx, tx))
}

/// Converts what the engine reports, given the CPU percentage that its CPU
/// times amount to. The page cache does not count as memory in use, and the
/// traffic of all interfaces is added up.
pub fn parse_docker_stats<P>(raw: &DockerStatsResponse, cpu_percent: P) -> (out: Stats<P>)
    requires
        received(raw.networks@) <= u64::MAX,
        sent(raw.networks@) <= u64::MAX,
    ensures
        out.cpu_percent == cpu_percent,
        out.mem_used_bytes == (if raw.memory_stats.usage >= raw.memory_stats.stats.cache {
            raw.memory_stats.usage - raw.memory_stats.stats.cache
        } else {
            0
        }),
        out.mem_limit_bytes == raw.memory_stats.limit,
        out.net_rx_bytes == received(raw.networks@),
        out.net_tx_bytes == sent(raw.networks@),
        are_stats_of(out, *raw, cpu_percent),
{
    let (rx, tx): (u64, u64) = match total_traffic(&raw.networks) {
        Some(sums) => sums,
        None => (0, 0),
    };
    let memory: &MemoryStats = &raw.memory_stats;
    let mem_used_bytes: u64 = if memory.usage >= memory.stats.cache {
        memory.usage - memory.stats.cache
    } else {
        0
    };
    Stats { cpu_percent, mem_used_bytes, mem_limit_bytes: memory.limit, net_rx_bytes: rx, net_tx_bytes: tx }
}

/// The traffic of all interfaces is added up: one more interface adds what it has
/// received and sent, each to its own sum.
pub proof fn law_traffic_is_added_up(networks: Seq<(String, NetworkStats)>, more: (String, NetworkStats))
    ensures
        received(Seq::<(String, NetworkStats)>::empty()) == 0,
        sent(Seq::<(String, NetworkStats)>::empty()) == 0,
        received(networks.push(more)) == received(networks) + more.1.rx_bytes,
        sent(networks.push(more)) == sent(networks) + more.1.tx_bytes,
{
    assert(networks.push(more).drop_last() =~= networks);
}

/// Whether figures are those of what the engine reports.
pub open spec fn are_stats_of<P>(out: Stats<P>, raw: DockerStatsResponse, cpu_percent: P) -> bool {
    &&& out.cpu_percent == cpu_percent
    &&& out.mem_used_bytes == (if raw.memory_stats.usage >= raw.memory_stats.stats.cache {
        raw.memory_stats.usage - raw.memory_stats.stats.cache
    } else {
        0
    })
    &&& out.mem_limit_bytes == raw.memory_stats.limit
    &&& out.net_rx_bytes == received(raw.networks@)
    &&& out.net_tx_bytes == sent(raw.networks@)
}

/// The memory in use and the page cache are together what the engine counts, where
/// it counts as much as the cache; what was received and what was sent are not
/// mixed up, nor are use and limit.
pub proof fn law_figures_are_the_engines<P>(out: Stats<P>, raw: DockerStatsResponse, cpu_percent: P)
    requires
        are_stats_of(out, raw, cpu_percent),
    ensures
        out.cpu_percent == cpu_percent,
        raw.memory_stats.usage >= raw.memory_stats.stats.cache ==> out.mem_used_bytes + raw.memory_stats.stats.cache
            == raw.memory_stats.usage,
        raw.memory_stats.usage < raw.memory_stats.stats.cache ==> out.mem_used_bytes == 0,
        out.mem_limit_bytes == raw.memory_stats.limit,
        out.net_rx_bytes == received(raw.networks@),
        out.net_tx_bytes == sent(raw.networks@),
{
}

} // verus!
