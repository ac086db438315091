//! Reporting the state of every known container.

use vstd::prelude::*;

use crate::dispatcher::Dispatcher;
use crate::payloads::{ContainerHeartbeat, HeartbeatPayload};
use crate::runtime::containers::ContainerState;
use crate::runtime::stats::Stats;

verus! {

/// What was found out about a server's container.
#[derive(Debug, Clone)]
pub struct Observation<P> {
    pub server_id: String,
    /// Whether it runs, if the engine could tell.
    pub state: Option<ContainerState>,
    /// The resources that it uses, if the engine was asked and could tell.
    pub stats: Option<Stats<P>>,
}

/// Whether the resources of a container are worth asking for.
pub fn wants_stats(state: Option<ContainerState>) -> (r: bool)
    ensures
        r == (state matches Some(s) && s.running),
        r == is_measured(state),
{
    match state {
        Some(s) => s.running,
        None => false,
    }
}

/// What a heartbeat says of a container: nothing if the engine could not tell
/// its state, and `idle` and zero of the resources of one that does not run or
/// whose resources are not known.
pub open spec fn report_of<P>(o: Observation<P>, idle: P) -> Option<ContainerHeartbeat<P>> {
    match o.state {
        None => None,
        Some(state) => Some(
            match o.stats {
                Some(stats) if state.running => ContainerHeartbeat {
                    server_id: o.server_id,
                    running: true,
                    cpu_percent: stats.cpu_percent,
                    mem_used_bytes: stats.mem_used_bytes,
                    mem_limit_bytes: stats.mem_limit_bytes,
                    net_rx_bytes: stats.net_rx_bytes,
                    net_tx_bytes: stats.net_tx_bytes,
                },
                _ => ContainerHeartbeat {
                    server_id: o.server_id,
                    running: state.running,
                    cpu_percent: idle,
                    mem_used_bytes: 0,
                    mem_limit_bytes: 0,
                    net_rx_bytes: 0,
                    net_tx_bytes: 0,
                },
            },
        ),
    }
}

/// What a heartbeat says of containers.
pub open spec fn reports_of<P>(observations: Seq<Observation<P>>, idle: P) -> Seq<ContainerHeartbeat<P>>
    decreases observations.len(),
{
    if observations.len() == 0 {
        seq![]
    } else {
        let before = reports_of(observations.drop_last(), idle);
        match report_of(observations.last(), idle) {
            Some(report) => before.push(report),
            None => before,
        }
    }
}

impl Dispatcher {
    /// Reports what was found out about containers. One that could not be looked
    /// at, because it is being removed for example, is left out rather than
    /// failing the whole heartbeat.
    pub fn heartbeat<P: Copy>(observations: &Vec<Observation<P>>, idle: P) -> (out: HeartbeatPayload<P>)
        ensures
            out.containers@ == reports_of(observations@, idle),
    {
        let mut containers: Vec<ContainerHeartbeat<P>> = Vec::new();
        let mut i: usize = 0;
        while i < observations.len()
            invariant
                i <= observations@.len(),
                containers@ == reports_of(observations@.take(i as int), idle),
            decreases observations@.len() - i,
        {
            assert(observations@.take(i + 1).drop_last() =~= observations@.take(i as int));
            let o: &Observation<P> = &observations[i];
            if let Some(state) = o.state {
                let mut report = ContainerHeartbeat {
                    server_id: o.server_id.clone(),
                    running: state.running,
                    cpu_percent: idle,
                    mem_used_bytes: 0,
                    mem_limit_bytes: 0,
                    net_rx_bytes: 0,
                    net_tx_bytes: 0,
                };
                if state.running {
                    if let Some(stats) = &o.stats {
                        report.cpu_percent = stats.cpu_percent;
                        report.mem_used_bytes = stats.mem_used_bytes;
                        report.mem_limit_bytes = stats.mem_limit_bytes;
                        report.net_rx_bytes = stats.net_rx_bytes;
                        report.net_tx_bytes = stats.net_tx_bytes;
                    }
                }
                containers.push(report);
            }
            i = i + 1;
        }
        assert(observations@.take(i as int) =~= observations@);
        HeartbeatPayload { containers }
    }
}

/// Whether a report is about an observed container, and tells whether it runs.
pub open spec fn is_about<P>(report: ContainerHeartbeat<P>, o: Observation<P>) -> bool {
    &&& o.state is Some
    &&& report.server_id == o.server_id
    &&& report.running == o.state->0.running
}

/// A heartbeat reports every container that could be looked at, and no other.
pub proof fn law_heartbeat_reports_what_was_seen<P>(observations: Seq<Observation<P>>, idle: P)
    ensures
        forall|i: int|
            0 <= i < observations.len() && (#[trigger] observations[i]).state is Some ==> exists|k: int|
                0 <= k < reports_of(observations, idle).len() && is_about(
                    #[trigger] reports_of(observations, idle)[k],
                    observations[i],
                ),
        forall|k: int|
            0 <= k < reports_of(observations, idle).len() ==> exists|i: int|
                0 <= i < observations.len() && is_about(
                    #[trigger] reports_of(observations, idle)[k],
                    #[trigger] observations[i],
                ),
    decreases observations.len(),
{
    if observations.len() > 0 {
        let init = observations.drop_last();
        let before = reports_of(init, idle);
        let all = reports_of(observations, idle);
        law_heartbeat_reports_what_was_seen(init, idle);
        assert forall|i: int|
            0 <= i < observations.len() && (#[trigger] observations[i]).state is Some implies exists|k: int|
            0 <= k < all.len() && is_about(#[trigger] all[k], observations[i]) by {
            if i < init.len() {
                assert(init[i] == observations[i]);
                let k = choose|k: int| 0 <= k < before.len() && is_about(#[trigger] before[k], init[i]);
                assert(all[k] == before[k]);
            } else {
                assert(is_about(all[before.len() as int], observations[i]));
            }
        }
        assert forall|k: int| 0 <= k < all.len() implies exists|i: int|
            0 <= i < observations.len() && is_about(#[trigger] all[k], #[trigger] observations[i]) by {
            if k < before.len() {
                assert(all[k] == before[k]);
                let i = choose|i: int| 0 <= i < init.len() && is_about(before[k], #[trigger] init[i]);
                assert(is_about(all[k], observations[i]));
            } else {
                assert(is_about(all[k], observations[observations.len() - 1]));
            }
        }
    }
}

/// Whether a report tells what was observed of a container: its server, whether it
/// runs, and the resources of one that runs where they are known, figure by figure;
/// of any other they are nothing.
pub open spec fn tells_what_was_seen<P>(report: ContainerHeartbeat<P>, o: Observation<P>, idle: P) -> bool {
    &&& o.state is Some
    &&& report.server_id == o.server_id
    &&& report.running == o.state->0.running
    &&& if o.state->0.running && o.stats is Some {
        &&& report.cpu_percent == o.stats->0.cpu_percent
        &&& report.mem_used_bytes == o.stats->0.mem_used_bytes
        &&& report.mem_limit_bytes == o.stats->0.mem_limit_bytes
        &&& report.net_rx_bytes == o.stats->0.net_rx_bytes
        &&& report.net_tx_bytes == o.stats->0.net_tx_bytes
    } else {
        &&& report.cpu_percent == idle
        &&& report.mem_used_bytes == 0
        &&& report.mem_limit_bytes == 0
        &&& report.net_rx_bytes == 0
        &&& report.net_tx_bytes == 0
    }
}

/// A heartbeat tells of each container that could be looked at, once and in order,
/// just what was observed of it: one more container adds one report to those that
/// were there, and one that could not be looked at adds none.
pub proof fn law_heartbeat_tells_what_was_seen<P>(observations: Seq<Observation<P>>, o: Observation<P>, idle: P)
    ensures
        reports_of(Seq::<Observation<P>>::empty(), idle) == Seq::<ContainerHeartbeat<P>>::empty(),
        o.state is None ==> reports_of(observations.push(o), idle) == reports_of(observations, idle),
        o.state is Some ==> {
            let all = reports_of(observations.push(o), idle);
            &&& all.len() == reports_of(observations, idle).len() + 1
            &&& all.drop_last() == reports_of(observations, idle)
            &&& tells_what_was_seen(all.last(), o, idle)
        },
{
    assert(observations.push(o).drop_last() =~= observations);
    if o.state is Some {
        let before = reports_of(observations, idle);
        assert(reports_of(observations.push(o), idle).drop_last() =~= before);
    }
}

/// Whether the resources of a container in a state are worth asking for.
pub open spec fn is_measured(state: Option<ContainerState>) -> bool {
    state matches Some(s) && s.running
}

/// Resources are asked for exactly of containers that are known to run, which are
/// those whose resources a heartbeat can tell.
pub proof fn law_running_containers_are_measured<P>(o: Observation<P>, idle: P)
    ensures
        is_measured(o.state) <==> (report_of(o, idle) matches Some(told) && told.running),
        o.state is None ==> !is_measured(o.state),
{
}

} // verus!
