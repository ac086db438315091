//! Creating a container: the request, and how its soft failures are recovered.

use vstd::prelude::*;
use vstd::string::*;

use crate::payloads::{ContainerSpec, PortBinding};
use crate::text;

verus! {

/// One host port that a container port is published on.
#[derive(Debug, Clone)]
pub struct PortBindingEntry {
    pub host_port: String,
}

/// The host ports of each container port.
#[derive(Debug, Clone)]
pub struct PortBindings {
    /// No container port occurs twice.
    pub groups: Vec<(String, Vec<PortBindingEntry>)>,
}

/// The part of a create request that concerns the host.
#[derive(Debug, Clone)]
pub struct HostConfig {
    pub binds: Vec<String>,
    pub port_bindings: PortBindings,
    pub memory: i64,
    pub nano_cpus: i64,
    pub cap_drop: Vec<String>,
    pub security_opt: Vec<String>,
    /// Resolvers, so that a container can resolve download hosts whatever the
    /// node's own resolver is. Empty stands for the engine's default.
    pub dns: Vec<String>,
}

/// A request to create a container.
#[derive(Debug, Clone)]
pub struct CreateContainerRequest {
    pub image: String,
    pub cmd: Vec<String>,
    pub env: Vec<String>,
    pub working_dir: String,
    pub labels: Vec<(String, String)>,
    pub tty: bool,
    pub open_stdin: bool,
    pub host_config: HostConfig,
}

/// The host ports of published ports.
pub open spec fn entry_texts(entries: Seq<PortBindingEntry>) -> Seq<Seq<char>> {
    entries.map_values(|e: PortBindingEntry| e.host_port@)
}

/// The host ports that bindings give a container port, in order.
pub open spec fn hosts_for(bindings: Seq<PortBinding>, port: Seq<char>) -> Seq<Seq<char>>
    decreases bindings.len(),
{
    if bindings.len() == 0 {
        seq![]
    } else {
        let rest = hosts_for(bindings.drop_last(), port);
        if bindings.last().container_port@ == port {
            rest.push(bindings.last().host_port@)
        } else {
            rest
        }
    }
}

/// Whether one of the bindings is for a container port.
pub open spec fn binds_port(bindings: Seq<PortBinding>, port: Seq<char>) -> bool {
    exists|i: int| 0 <= i < bindings.len() && (#[trigger] bindings[i]).container_port@ == port
}

impl PortBindings {
    /// Whether a container port has a group.
    pub open spec fn has(&self, port: Seq<char>) -> bool {
        exists|i: int| 0 <= i < self.groups@.len() && (#[trigger] self.groups@[i]).0@ == port
    }

    /// Whether the groups are those of the given bindings: each container port
    /// that is bound has one group, which holds its host ports in order.
    pub open spec fn groups_of(&self, bindings: Seq<PortBinding>) -> bool {
        &&& forall|i: int, j: int|
            #![trigger self.groups@[i], self.groups@[j]]
            0 <= i < j < self.groups@.len() ==> self.groups@[i].0@ != self.groups@[j].0@
        &&& forall|i: int|
            0 <= i < self.groups@.len() ==> entry_texts((#[trigger] self.groups@[i]).1@) == hosts_for(
                bindings,
                self.groups@[i].0@,
            )
        &&& forall|port: Seq<char>| #[trigger] self.has(port) <==> binds_port(bindings, port)
    }

    /// The number of container ports.
    pub fn len(&self) -> (n: usize)
        ensures
            n == self.groups@.len(),
    {
        self.groups.len()
    }

    /// The host ports of a container port.
    pub fn get(&self, port: &str) -> (out: Option<&Vec<PortBindingEntry>>)
        ensures
            match out {
                Some(entries) => exists|i: int|
                    {
                        &&& 0 <= i < self.groups@.len()
                        &&& (#[trigger] self.groups@[i]).0@ == port@
                        &&& self.groups@[i].1 == *entries
                        &&& forall|j: int| 0 <= j < i ==> (#[trigger] self.groups@[j]).0@ != port@
                    },
                None => !self.has(port@),
            },
    {
        let mut i: usize = 0;
        while i < self.groups.len()
            invariant
                i <= self.groups@.len(),
                forall|j: int| 0 <= j < i ==> (#[trigger] self.groups@[j]).0@ != port@,
            decreases self.groups@.len() - i,
        {
            if text::same_text(self.groups[i].0.as_str(), port) {
                assert(self.groups@[i as int].0@ == port@);
                return Some(&self.groups[i].1);
            }
            i = i + 1;
        }
        None
    }
}

/// The host ports that bindings give a container port.
fn entries_for(bindings: &Vec<PortBinding>, port: &str) -> (out: Vec<PortBindingEntry>)
    ensures
        entry_texts(out@) == hosts_for(bindings@, port@),
{
    let mut out: Vec<PortBindingEntry> = Vec::new();
    let mut i: usize = 0;
    assert(entry_texts(out@) =~= hosts_for(bindings@.take(0), port@));
    while i < bindings.len()
        invariant
            i <= bindings@.len(),
            entry_texts(out@) == hosts_for(bindings@.take(i as int), port@),
        decreases bindings@.len() - i,
    {
        assert(bindings@.take(i + 1).drop_last() =~= bindings@.take(i as int));
        let ghost before = entry_texts(out@);
        if text::same_text(bindings[i].container_port.as_str(), port) {
            out.push(PortBindingEntry { host_port: bindings[i].host_port.clone() });
            assert(entry_texts(out@) =~= before.push(bindings@[i as int].host_port@));
        }
        i = i + 1;
    }
    assert(bindings@.take(i as int) =~= bindings@);
    out
}

/// Groups port bindings by container port.
pub fn group_bindings(bindings: &Vec<PortBinding>) -> (out: PortBindings)
    ensures
        out.groups_of(bindings@),
{
    let mut out: PortBindings = PortBindings { groups: Vec::new() };
    let mut i: usize = 0;
    while i < bindings.len()
        invariant
            i <= bindings@.len(),
            forall|a: int, b: int|
                #![trigger out.groups@[a], out.groups@[b]]
                0 <= a < b < out.groups@.len() ==> out.groups@[a].0@ != out.groups@[b].0@,
            forall|a: int|
                0 <= a < out.groups@.len() ==> entry_texts((#[trigger] out.groups@[a]).1@) == hosts_for(
                    bindings@,
                    out.groups@[a].0@,
                ),
            forall|port: Seq<char>| #[trigger] out.has(port) <==> binds_port(bindings@.take(i as int), port),
        decreases bindings@.len() - i,
    {
        let port: &String = &bindings[i].container_port;
        let ghost before = out;
        let ghost seen = bindings@.take(i as int);
        let ghost more = bindings@.take(i + 1);
        if out.get(port.as_str()).is_none() {
            let entries: Vec<PortBindingEntry> = entries_for(bindings, port.as_str());
            out.groups.push((port.clone(), entries));
            proof {
                assert forall|a: int, b: int|
                    #![trigger out.groups@[a], out.groups@[b]]
                    0 <= a < b < out.groups@.len() implies out.groups@[a].0@ != out.groups@[b].0@ by {
                    assert(out.groups@[a] == before.groups@[a]);
                    if b < before.groups@.len() {
                        assert(out.groups@[b] == before.groups@[b]);
                    }
                }
                assert forall|a: int| 0 <= a < out.groups@.len() implies entry_texts((#[trigger] out.groups@[a]).1@)
                    == hosts_for(bindings@, out.groups@[a].0@) by {
                    if a < before.groups@.len() {
                        assert(out.groups@[a] == before.groups@[a]);
                    }
                }
            }
        }
        proof {
            assert forall|p: Seq<char>| #[trigger] out.has(p) <==> binds_port(more, p) by {
                if out.has(p) {
                    let a = choose|a: int| 0 <= a < out.groups@.len() && (#[trigger] out.groups@[a]).0@ == p;
                    if a < before.groups@.len() {
                        assert(before.groups@[a].0@ == p);
                        assert(before.has(p));
                        let j = choose|j: int| 0 <= j < seen.len() && (#[trigger] seen[j]).container_port@ == p;
                        assert(more[j].container_port@ == p);
                    } else {
                        assert(more[i as int].container_port@ == p);
                    }
                }
                if binds_port(more, p) {
                    let j = choose|j: int| 0 <= j < more.len() && (#[trigger] more[j]).container_port@ == p;
                    if j < i {
                        assert(seen[j].container_port@ == p);
                        assert(before.has(p));
                        let a = choose|a: int| 0 <= a < before.groups@.len() && (#[trigger] before.groups@[a]).0@ == p;
                        assert(out.groups@[a].0@ == p);
                    } else if before.has(p) {
                        let a = choose|a: int| 0 <= a < before.groups@.len() && (#[trigger] before.groups@[a]).0@ == p;
                        assert(out.groups@[a].0@ == p);
                    } else {
                        assert(out.groups@[before.groups@.len() as int].0@ == p);
                    }
                }
            }
        }
        i = i + 1;
    }
    assert(bindings@.take(i as int) =~= bindings@);
    out
}

/// No binding is lost by grouping: the host port of each stands in the group
/// of its container port.
pub proof fn law_every_binding_is_published(bindings: Seq<PortBinding>, i: int)
    requires
        0 <= i < bindings.len(),
    ensures
        hosts_for(bindings, bindings[i].container_port@).contains(bindings[i].host_port@),
    decreases bindings.len(),
{
    let port = bindings[i].container_port@;
    let host = bindings[i].host_port@;
    let rest = hosts_for(bindings.drop_last(), port);
    if i < bindings.len() - 1 {
        assert(bindings.drop_last()[i] == bindings[i]);
        law_every_binding_is_published(bindings.drop_last(), i);
        let k = choose|k: int| 0 <= k < rest.len() && rest[k] == host;
        assert(hosts_for(bindings, port)[k] == host);
    } else {
        assert(hosts_for(bindings, port)[rest.len() as int] == host);
    }
}

/// Copies a list of strings.
pub fn copy_strings(list: &Vec<String>) -> (out: Vec<String>)
    ensures
        out@ == list@,
{
    let out: Vec<String> = list.clone();
    assert(out@ =~= list@);
    out
}

/// Copies a list of labels.
fn copy_labels(labels: &Vec<(String, String)>) -> (out: Vec<(String, String)>)
    ensures
        out@ == labels@,
{
    let mut out: Vec<(String, String)> = Vec::new();
    let mut i: usize = 0;
    while i < labels.len()
        invariant
            i <= labels@.len(),
            out@ == labels@.take(i as int),
        decreases labels@.len() - i,
    {
        out.push((labels[i].0.clone(), labels[i].1.clone()));
        i = i + 1;
        assert(labels@.take(i as int) =~= labels@.take(i - 1).push(labels@[i - 1]));
    }
    assert(labels@.take(i as int) =~= labels@);
    out
}

/// Whether a request creates the container of a specification. The engine's
/// default capabilities are kept, since common images start as root and drop to
/// an unprivileged user at boot; gaining new privileges is ruled out.
pub open spec fn is_create_request(request: CreateContainerRequest, spec: ContainerSpec, dns: Seq<String>) -> bool {
    &&& request.image == spec.image
    &&& request.cmd@ == spec.cmd@
    &&& request.env@ == spec.env@
    &&& request.working_dir == spec.working_dir
    &&& request.labels@ == spec.labels@
    &&& !request.tty
    &&& request.open_stdin
    &&& request.host_config.binds@ == spec.binds@
    &&& request.host_config.port_bindings.groups_of(spec.port_bindings@)
    &&& request.host_config.memory == spec.memory_bytes
    &&& request.host_config.nano_cpus == spec.nano_cpus
    &&& request.host_config.cap_drop@.len() == 0
    &&& text::texts(request.host_config.security_opt@) == seq!["no-new-privileges"@]
    &&& request.host_config.dns@ == dns
}

/// The create request of a container.
pub fn to_create_request(spec: &ContainerSpec, dns: &Vec<String>) -> (out: CreateContainerRequest)
    ensures
        is_create_request(out, *spec, dns@),
        out.image@ == spec.image@,
        out.cmd@.len() == spec.cmd@.len(),
        forall|i: int| 0 <= i < spec.cmd@.len() ==> (#[trigger] out.cmd@[i])@ == spec.cmd@[i]@,
        out.env@.len() == spec.env@.len(),
        forall|i: int| 0 <= i < spec.env@.len() ==> (#[trigger] out.env@[i])@ == spec.env@[i]@,
        out.working_dir@ == spec.working_dir@,
        out.labels@.len() == spec.labels@.len(),
        forall|i: int|
            0 <= i < spec.labels@.len() ==> (#[trigger] out.labels@[i]).0@ == spec.labels@[i].0@ && out.labels@[i].1@
                == spec.labels@[i].1@,
        !out.tty,
        out.open_stdin,
        out.host_config.binds@.len() == spec.binds@.len(),
        forall|i: int| 0 <= i < spec.binds@.len() ==> (#[trigger] out.host_config.binds@[i])@ == spec.binds@[i]@,
        out.host_config.memory == spec.memory_bytes,
        out.host_config.nano_cpus == spec.nano_cpus,
        out.host_config.cap_drop@.len() == 0,
        out.host_config.security_opt@.len() == 1,
        out.host_config.security_opt@[0]@ == "no-new-privileges"@,
        out.host_config.dns@.len() == dns@.len(),
        forall|i: int| 0 <= i < dns@.len() ==> (#[trigger] out.host_config.dns@[i])@ == dns@[i]@,
{
    let mut security_opt: Vec<String> = Vec::new();
    security_opt.push("no-new-privileges".to_owned());
    assert(text::texts(security_opt@) =~= seq!["no-new-privileges"@]);
    CreateContainerRequest {
        image: spec.image.clone(),
        cmd: copy_strings(&spec.cmd),
        env: copy_strings(&spec.env),
        working_dir: spec.working_dir.clone(),
        labels: copy_labels(&spec.labels),
        tty: false,
        open_stdin: true,
        host_config: HostConfig {
            binds: copy_strings(&spec.binds),
            port_bindings: group_bindings(&spec.port_bindings),
            memory: spec.memory_bytes,
            nano_cpus: spec.nano_cpus,
            cap_drop: Vec::new(),
            security_opt,
            dns: copy_strings(dns),
        },
    }
}

/// A container gets all that its specification says, entry by entry and in order,
/// and nothing besides but its resolvers: no argument, no variable, no label and no
/// volume is lost or added, its limits are those of the specification, its input
/// stays open, and it cannot gain privileges.
pub proof fn law_container_gets_its_specification(
    request: CreateContainerRequest,
    spec: ContainerSpec,
    dns: Seq<String>,
    i: int,
)
    requires
        is_create_request(request, spec, dns),
    ensures
        request.image@ == spec.image@,
        request.working_dir@ == spec.working_dir@,
        request.cmd@.len() == spec.cmd@.len(),
        0 <= i < spec.cmd@.len() ==> request.cmd@[i]@ == spec.cmd@[i]@,
        request.env@.len() == spec.env@.len(),
        0 <= i < spec.env@.len() ==> request.env@[i]@ == spec.env@[i]@,
        request.labels@.len() == spec.labels@.len(),
        0 <= i < spec.labels@.len() ==> request.labels@[i].0@ == spec.labels@[i].0@ && request.labels@[i].1@
            == spec.labels@[i].1@,
        request.host_config.binds@.len() == spec.binds@.len(),
        0 <= i < spec.binds@.len() ==> request.host_config.binds@[i]@ == spec.binds@[i]@,
        request.host_config.dns@.len() == dns.len(),
        0 <= i < dns.len() ==> request.host_config.dns@[i]@ == dns[i]@,
        request.host_config.memory == spec.memory_bytes,
        request.host_config.nano_cpus == spec.nano_cpus,
        !request.tty,
        request.open_stdin,
        request.host_config.cap_drop@.len() == 0,
        request.host_config.security_opt@.len() == 1,
        request.host_config.security_opt@[0]@ == "no-new-privileges"@,
{
    let options = request.host_config.security_opt@;
    assert(text::texts(options).len() == options.len());
    assert(text::texts(options)[0] == options[0]@);
}

/// The host ports that bindings give a container port are those of the bindings for
/// it, in order and as often as they stand there.
pub proof fn law_host_ports_are_those_bound(bindings: Seq<PortBinding>, port: Seq<char>)
    ensures
        hosts_for(bindings, port) == bindings.filter_map(
            |b: PortBinding|
                if b.container_port@ == port {
                    Some(b.host_port@)
                } else {
                    None
                },
        ),
    decreases bindings.len(),
{
    if bindings.len() > 0 {
        law_host_ports_are_those_bound(bindings.drop_last(), port);
        assert(hosts_for(bindings, port) =~= bindings.filter_map(
            |b: PortBinding|
                if b.container_port@ == port {
                    Some(b.host_port@)
                } else {
                    None
                },
        ));
    }
}

/// Every binding of a specification is published: the group of its container port
/// holds its host port.
pub proof fn law_bound_port_is_published(groups: PortBindings, bindings: Seq<PortBinding>, i: int)
    requires
        groups.groups_of(bindings),
        0 <= i < bindings.len(),
    ensures
        exists|g: int, k: int|
            {
                &&& 0 <= g < groups.groups@.len()
                &&& 0 <= k < groups.groups@[g].1@.len()
                &&& groups.groups@[g].0@ == bindings[i].container_port@
                &&& (#[trigger] groups.groups@[g].1@[k]).host_port@ == bindings[i].host_port@
            },
{
    let port = bindings[i].container_port@;
    let host = bindings[i].host_port@;
    assert(binds_port(bindings, port));
    assert(groups.has(port));
    let g = choose|g: int| 0 <= g < groups.groups@.len() && (#[trigger] groups.groups@[g]).0@ == port;
    law_every_binding_is_published(bindings, i);
    let hosts = hosts_for(bindings, port);
    let k = choose|k: int| 0 <= k < hosts.len() && hosts[k] == host;
    let entries = groups.groups@[g].1@;
    assert(entry_texts(entries).len() == entries.len());
    assert(entry_texts(entries)[k] == entries[k].host_port@);
    assert(groups.groups@[g].1@[k].host_port@ == host);
}

/// Nothing is published that no binding asks for: each host port of a group stands
/// in a binding for the group's container port, and no other group is for that one.
pub proof fn law_published_port_is_bound(groups: PortBindings, bindings: Seq<PortBinding>, g: int, k: int, h: int)
    requires
        groups.groups_of(bindings),
        0 <= g < groups.groups@.len(),
        0 <= k < groups.groups@[g].1@.len(),
    ensures
        exists|i: int|
            {
                &&& 0 <= i < bindings.len()
                &&& (#[trigger] bindings[i]).container_port@ == groups.groups@[g].0@
                &&& bindings[i].host_port@ == groups.groups@[g].1@[k].host_port@
            },
        0 <= h < groups.groups@.len() && h != g ==> groups.groups@[h].0@ != groups.groups@[g].0@,
{
    let entries = groups.groups@[g].1@;
    assert(entry_texts(entries)[k] == entries[k].host_port@);
    lemma_host_is_bound(bindings, groups.groups@[g].0@, k);
    assert(groups.groups@[h] == groups.groups@[h]);
}

/// Each host port that bindings give a container port stands in one of them.
proof fn lemma_host_is_bound(bindings: Seq<PortBinding>, port: Seq<char>, k: int)
    requires
        0 <= k < hosts_for(bindings, port).len(),
    ensures
        exists|i: int|
            {
                &&& 0 <= i < bindings.len()
                &&& (#[trigger] bindings[i]).container_port@ == port
                &&& bindings[i].host_port@ == hosts_for(bindings, port)[k]
            },
    decreases bindings.len(),
{
    let init = bindings.drop_last();
    let rest = hosts_for(init, port);
    if k < rest.len() {
        lemma_host_is_bound(init, port, k);
        let i = choose|i: int|
            {
                &&& 0 <= i < init.len()
                &&& (#[trigger] init[i]).container_port@ == port
                &&& init[i].host_port@ == rest[k]
            };
        assert(bindings[i] == init[i]);
    } else {
        assert(bindings[bindings.len() - 1].container_port@ == port);
    }
}

/// The path of the request that creates a container under a name, if it has one.
pub open spec fn create_path_text(name: Seq<char>) -> Seq<char> {
    if name.len() == 0 {
        "/containers/create"@
    } else {
        "/containers/create"@ + "?name="@ + name
    }
}

/// A container is created under its whole name: requests for different names go to
/// different paths, and what stands behind the parameter is the name.
pub proof fn law_container_is_created_under_its_name(a: Seq<char>, b: Seq<char>)
    ensures
        create_path_text(a) == create_path_text(b) <==> a == b,
        a.len() > 0 ==> create_path_text(a) == "/containers/create?name="@ + a,
        a.len() == 0 ==> create_path_text(a) == "/containers/create"@,
{
    reveal_strlit("/containers/create");
    reveal_strlit("?name=");
    reveal_strlit("/containers/create?name=");
    assert("/containers/create"@ + "?name="@ =~= "/containers/create?name="@);
    let start = "/containers/create?name="@;
    if create_path_text(a) == create_path_text(b) {
        if a.len() > 0 && b.len() > 0 {
            assert((start + a).skip(start.len() as int) =~= a);
            assert((start + b).skip(start.len() as int) =~= b);
        } else if a.len() > 0 {
            assert((start + a).len() > create_path_text(b).len());
        } else if b.len() > 0 {
            assert((start + b).len() > create_path_text(a).len());
        } else {
            assert(a =~= b);
        }
    }
}

/// The path of the request that creates a container.
pub fn create_path(name: &str) -> (out: String)
    ensures
        out@ == (if name@.len() == 0 {
            "/containers/create"@
        } else {
            "/containers/create"@ + "?name="@ + name@
        }),
        out@ == create_path_text(name@),
{
    if name.is_empty() {
        "/containers/create".to_owned()
    } else {
        text::concat3("/containers/create", "?name=", name)
    }
}

/// What to do once the engine has answered a create request.
#[derive(Debug, Clone, Copy, PartialEq, Eq, Structural)]
pub enum CreateStep {
    /// The container exists.
    Created,
    /// The image is missing: pull it and ask again.
    PullImage,
    /// The name is taken by a leftover container: remove it and ask again.
    RemoveLeftover,
    /// The engine refuses.
    Fail,
}

/// The recoveries that a create request has been through.
#[derive(Debug, Clone, Copy)]
pub struct CreateFlow {
    pub pulled: bool,
    pub cleared: bool,
}

/// What to do about a status, given which recoveries have been tried and
/// whether the container has a name.
pub open spec fn create_step(pulled: bool, cleared: bool, status: u16, named: bool) -> CreateStep {
    if status == 201 {
        CreateStep::Created
    } else if status == 404 && !pulled {
        CreateStep::PullImage
    } else if status == 409 && !cleared && named {
        CreateStep::RemoveLeftover
    } else {
        CreateStep::Fail
    }
}

impl CreateFlow {
    /// No recovery has been tried.
    pub fn new() -> (out: Self)
        ensures
            !out.pulled,
            !out.cleared,
    {
        CreateFlow { pulled: false, cleared: false }
    }

    /// Decides what to do about the engine's answer. Each recovery is tried at
    /// most once, so a lasting failure surfaces instead of looping.
    pub fn on_status(&mut self, status: u16, named: bool) -> (step: CreateStep)
        ensures
            step == create_step(old(self).pulled, old(self).cleared, status, named),
            (final(self).pulled, final(self).cleared) == tried(old(self).pulled, old(self).cleared, step),
            final(self).pulled == (old(self).pulled || step == CreateStep::PullImage),
            final(self).cleared == (old(self).cleared || step == CreateStep::RemoveLeftover),
    {
        if status == 201 {
            CreateStep::Created
        } else if status == 404 && !self.pulled {
            self.pulled = true;
            CreateStep::PullImage
        } else if status == 409 && !self.cleared && named {
            self.cleared = true;
            CreateStep::RemoveLeftover
        } else {
            CreateStep::Fail
        }
    }
}

/// A container exists exactly where the engine answers 201; a missing image is
/// pulled and a name that is taken is cleared, each the first time that it is
/// answered and never again; every other answer is a failure.
pub proof fn law_create_answers_are_taken_as_meant(pulled: bool, cleared: bool, status: u16, named: bool)
    ensures
        create_step(pulled, cleared, status, named) == CreateStep::Created <==> status == 201,
        create_step(pulled, cleared, status, named) == CreateStep::PullImage <==> status == 404 && !pulled,
        create_step(pulled, cleared, status, named) == CreateStep::RemoveLeftover <==> status == 409 && !cleared
            && named,
{
}

/// A create request goes through in the end where the engine needs the image and
/// then the name: however the two come first, the third answer creates.
pub proof fn law_create_recovers(named: bool, first: u16, second: u16)
    requires
        named,
        first == 404 && second == 409 || first == 409 && second == 404,
    ensures
        retries(false, false, seq![first, second, 201u16], named) == 2,
{
    let all = seq![first, second, 201u16];
    let later = all.drop_first();
    let last = later.drop_first();
    assert(all[0] == first);
    assert(later[0] == second);
    assert(last[0] == 201u16);
    assert(retries(true, true, last, named) == 0);
    assert(create_step(false, false, first, named) == CreateStep::PullImage || create_step(
        false,
        false,
        first,
        named,
    ) == CreateStep::RemoveLeftover);
    assert(retries(first == 404, first == 409, later, named) == 1 + retries(true, true, last, named));
}

/// How many of a series of answers lead to another request, when the requests
/// end with the first answer that does not.
pub open spec fn retries(pulled: bool, cleared: bool, statuses: Seq<u16>, named: bool) -> nat
    decreases statuses.len(),
{
    if statuses.len() == 0 {
        0
    } else {
        let rest = statuses.drop_first();
        match create_step(pulled, cleared, statuses[0], named) {
            CreateStep::Created => 0,
            CreateStep::Fail => 0,
            CreateStep::PullImage => 1 + retries(true, cleared, rest, named),
            CreateStep::RemoveLeftover => 1 + retries(pulled, true, rest, named),
        }
    }
}

/// Creating a container never loops: whatever the engine answers, a request is
/// repeated at most once for each recovery that has not been tried yet.
pub proof fn law_create_ends(pulled: bool, cleared: bool, statuses: Seq<u16>, named: bool)
    ensures
        retries(pulled, cleared, statuses, named) <= (if pulled {
            0int
        } else {
            1
        }) + (if cleared {
            0int
        } else {
            1
        }),
    decreases statuses.len(),
{
    if statuses.len() > 0 {
        law_create_ends(true, cleared, statuses.drop_first(), named);
        law_create_ends(pulled, true, statuses.drop_first(), named);
    }
}

/// Which recoveries have been tried once a step has been decided on.
pub open spec fn tried(pulled: bool, cleared: bool, step: CreateStep) -> (bool, bool) {
    (pulled || step == CreateStep::PullImage, cleared || step == CreateStep::RemoveLeftover)
}

/// A recovery that was called for is not called for again, however the engine
/// answers later; the other one still is.
pub proof fn law_recoveries_are_tried_once(
    pulled: bool,
    cleared: bool,
    status: u16,
    named: bool,
    later: u16,
    later_named: bool,
)
    ensures
        ({
            let step = create_step(pulled, cleared, status, named);
            let (p, c) = tried(pulled, cleared, step);
            let next = create_step(p, c, later, later_named);
            &&& step == CreateStep::PullImage ==> next != CreateStep::PullImage && c == cleared
            &&& step == CreateStep::RemoveLeftover ==> next != CreateStep::RemoveLeftover && p == pulled
            &&& step == CreateStep::Created || step == CreateStep::Fail ==> (p, c) == (pulled, cleared)
            &&& later == 201 ==> next == CreateStep::Created
        }),
{
}

} // verus!
