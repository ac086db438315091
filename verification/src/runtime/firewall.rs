//! Opening published ports in the host's firewall.
//!
//! This is a convenience, and best effort: a failure is reported and otherwise
//! ignored. Ports are numbers and go to the program as arguments of their own,
//! so that no value of theirs can become part of a command.

use vstd::prelude::*;
use vstd::string::*;

use crate::payloads::PortBinding;
use crate::search;
use crate::text;

verus! {

/// How ports are opened.
#[derive(Debug, Clone, Copy, PartialEq, Eq, Structural)]
pub enum FirewallMode {
    /// Not at all.
    Off,
    /// By calling the firewall's program.
    Auto,
    /// By calling the firewall's program through `sudo`, without a prompt.
    Sudo,
}

/// The ports of the first bindings, each once and in order.
pub open spec fn binding_ports(bindings: Seq<PortBinding>) -> Seq<u16>
    decreases bindings.len(),
{
    if bindings.len() == 0 {
        seq![]
    } else {
        let before = binding_ports(bindings.drop_last());
        match text::numeral_within(bindings.last().host_port@, 10, u16::MAX as int) {
            Some(p) => if p != 0 && !before.contains(p as u16) {
                before.push(p as u16)
            } else {
                before
            },
            None => before,
        }
    }
}

/// Whether a list holds a port.
fn holds_port(ports: &Vec<u16>, port: u16) -> (r: bool)
    ensures
        r == ports@.contains(port),
{
    let mut i: usize = 0;
    while i < ports.len()
        invariant
            i <= ports@.len(),
            forall|j: int| 0 <= j < i ==> ports@[j] != port,
        decreases ports@.len() - i,
    {
        if ports[i] == port {
            return true;
        }
        i = i + 1;
    }
    false
}

/// Takes the host ports out of port bindings. What is no port number, and port
/// zero, is left out; a port that is bound for two protocols counts once, since
/// the firewall opens a port for both.
pub fn ports_from_bindings(bindings: &Vec<PortBinding>) -> (out: Vec<u16>)
    ensures
        out@ == binding_ports(bindings@),
{
    let mut out: Vec<u16> = Vec::new();
    let mut i: usize = 0;
    while i < bindings.len()
        invariant
            i <= bindings@.len(),
            out@ == binding_ports(bindings@.take(i as int)),
        decreases bindings@.len() - i,
    {
        assert(bindings@.take(i + 1).drop_last() =~= bindings@.take(i as int));
        if let Some(port) = text::parse_u16(bindings[i].host_port.as_str()) {
            if port != 0 && !holds_port(&out, port) {
                out.push(port);
            }
        }
        i = i + 1;
    }
    assert(bindings@.take(i as int) =~= bindings@);
    out
}

/// No port is opened twice, and port zero never.
pub proof fn law_ports_are_distinct(bindings: Seq<PortBinding>)
    ensures
        binding_ports(bindings).no_duplicates(),
        !binding_ports(bindings).contains(0u16),
    decreases bindings.len(),
{
    if bindings.len() > 0 {
        law_ports_are_distinct(bindings.drop_last());
        text::lemma_numeral_natural(bindings.last().host_port@, 10);
    }
}

/// A program and its arguments.
#[derive(Debug, Clone)]
pub struct ProgramCall {
    pub program: String,
    pub args: Vec<String>,
}

/// Whether a call is the one that opens a port by the program `bin`.
pub open spec fn opens_port(call: ProgramCall, mode: FirewallMode, bin: Seq<char>, port: u16) -> bool {
    if mode == FirewallMode::Sudo {
        &&& call.program@ == "sudo"@
        &&& text::texts(call.args@) == seq!["-n"@, bin, "allow"@, text::decimal(port as nat)]
    } else {
        &&& call.program@ == bin
        &&& text::texts(call.args@) == seq!["allow"@, text::decimal(port as nat)]
    }
}

/// The call that opens a port by the program `bin`.
pub fn open_port_call(mode: FirewallMode, bin: &str, port: u16) -> (out: ProgramCall)
    ensures
        opens_port(out, mode, bin@, port),
{
    let number: String = text::decimal_text(port as u64);
    let mut args: Vec<String> = Vec::new();
    if mode == FirewallMode::Sudo {
        args.push("-n".to_owned());
        args.push(bin.to_owned());
        args.push("allow".to_owned());
        args.push(number);
        assert(text::texts(args@) =~= seq!["-n"@, bin@, "allow"@, text::decimal(port as nat)]);
        ProgramCall { program: "sudo".to_owned(), args }
    } else {
        args.push("allow".to_owned());
        args.push(number);
        assert(text::texts(args@) =~= seq!["allow"@, text::decimal(port as nat)]);
        ProgramCall { program: bin.to_owned(), args }
    }
}

/// What opening ports comes to.
#[derive(Debug, Clone)]
pub enum FirewallPlan {
    /// There is nothing to do.
    Nothing,
    /// The firewall's program is not installed.
    NotInstalled,
    /// Make these calls, one for each port.
    Calls(Vec<ProgramCall>),
}

/// Plans how to open ports. Nothing is done where the mode is off, where there
/// are no ports, or where the host is not Linux. `bin` is where the firewall's
/// program has been found.
pub fn plan_ports(mode: FirewallMode, ports: &Vec<u16>, linux: bool, bin: Option<&str>) -> (out: FirewallPlan)
    ensures
        match out {
            FirewallPlan::Nothing => mode == FirewallMode::Off || ports@.len() == 0 || !linux,
            FirewallPlan::NotInstalled => {
                &&& mode != FirewallMode::Off
                &&& ports@.len() > 0
                &&& linux
                &&& bin is None
            },
            FirewallPlan::Calls(calls) => {
                &&& mode != FirewallMode::Off
                &&& ports@.len() > 0
                &&& linux
                &&& bin is Some
                &&& calls@.len() == ports@.len()
                &&& forall|i: int|
                    0 <= i < calls@.len() ==> opens_port(#[trigger] calls@[i], mode, bin->0@, ports@[i])
            },
        },
        plans_ports(
            out,
            mode,
            ports@,
            linux,
            (match bin {
                Some(bin) => Some(bin@),
                None => None,
            }),
        ),
{
    if mode == FirewallMode::Off || ports.len() == 0 || !linux {
        return FirewallPlan::Nothing;
    }
    match bin {
        None => FirewallPlan::NotInstalled,
        Some(bin) => {
            let mut calls: Vec<ProgramCall> = Vec::new();
            let mut i: usize = 0;
            while i < ports.len()
                invariant
                    i <= ports@.len(),
                    calls@.len() == i,
                    forall|j: int| 0 <= j < i ==> opens_port(#[trigger] calls@[j], mode, bin@, ports@[j]),
                decreases ports@.len() - i,
            {
                calls.push(open_port_call(mode, bin, ports[i]));
                i = i + 1;
            }
            FirewallPlan::Calls(calls)
        },
    }
}

/// The numerals of ports, with a space between each two.
pub open spec fn port_list(ports: Seq<u16>) -> Seq<char>
    decreases ports.len(),
{
    if ports.len() == 0 {
        seq![]
    } else if ports.len() == 1 {
        text::decimal(ports[0] as nat)
    } else {
        port_list(ports.drop_last()) + " "@ + text::decimal(ports.last() as nat)
    }
}

/// Writes the numerals of ports, with a space between each two.
pub fn port_hint(ports: &Vec<u16>) -> (out: String)
    ensures
        out@ == port_list(ports@),
{
    let mut out: String = String::new();
    let mut i: usize = 0;
    assert(out@ =~= port_list(ports@.take(0)));
    while i < ports.len()
        invariant
            i <= ports@.len(),
            out@ == port_list(ports@.take(i as int)),
        decreases ports@.len() - i,
    {
        assert(ports@.take(i + 1).drop_last() =~= ports@.take(i as int));
        if i > 0 {
            out.append(" ");
        }
        let ghost start = out@;
        out.append(text::decimal_text(ports[i] as u64).as_str());
        if i == 0 {
            assert(out@ =~= text::decimal(ports@[0] as nat));
            assert(ports@.take(1)[0] == ports@[0]);
        }
        i = i + 1;
    }
    assert(ports@.take(i as int) =~= ports@);
    out
}

/// How loud a report is.
#[derive(Debug, Clone, Copy, PartialEq, Eq, Structural)]
pub enum Loudness {
    Warning,
    Detail,
}

/// Whether a failure to open a port has been reported loudly before.
#[derive(Debug, Clone, Copy)]
pub struct FirewallReports {
    pub warned: bool,
}

impl FirewallReports {
    /// Nothing has been reported.
    pub fn new() -> (out: Self)
        ensures
            !out.warned,
    {
        FirewallReports { warned: false }
    }

    /// Reports ports that could not be opened: with advice the first time, and
    /// quietly from then on.
    pub fn report(&mut self, ports: &Vec<u16>, detail: &str) -> (out: (Loudness, String))
        ensures
            final(self).warned,
            (out.0, out.1@) == reported(old(self).warned, ports@, detail@),
            out.0 == (if old(self).warned {
                Loudness::Detail
            } else {
                Loudness::Warning
            }),
            out.1@ == (if old(self).warned {
                "firewall: couldn't open port(s) "@ + port_list(ports@) + " ("@ + detail@ + ")"@
            } else {
                "firewall: couldn't open port(s) "@ + port_list(ports@) + " automatically ("@ + detail@
                    + "). Open manually with: sudo ufw allow <port>"@
            }),
    {
        let hint: String = port_hint(ports);
        let mut said: String = "firewall: couldn't open port(s) ".to_owned();
        said.append(hint.as_str());
        if self.warned {
            said.append(" (");
            said.append(detail);
            said.append(")");
            return (Loudness::Detail, said);
        }
        self.warned = true;
        said.append(" automatically (");
        said.append(detail);
        said.append("). Open manually with: sudo ufw allow <port>");
        (Loudness::Warning, said)
    }
}

/// Every port that a binding publishes is opened, and no other: a port is among
/// them exactly if it is not zero and some binding writes it down.
pub proof fn law_published_ports_are_opened(bindings: Seq<PortBinding>, port: u16)
    ensures
        binding_ports(bindings).contains(port) <==> port != 0 && exists|i: int|
            0 <= i < bindings.len() && text::numeral_within((#[trigger] bindings[i]).host_port@, 10, 65535) == Some(
                port as int,
            ),
    decreases bindings.len(),
{
    if bindings.len() > 0 {
        let init = bindings.drop_last();
        let before = binding_ports(init);
        let all = binding_ports(bindings);
        let read = text::numeral_within(bindings.last().host_port@, 10, 65535);
        law_published_ports_are_opened(init, port);
        text::lemma_numeral_natural(bindings.last().host_port@, 10);
        assert(bindings[bindings.len() - 1] == bindings.last());
        if before.contains(port) {
            let k = choose|k: int| 0 <= k < before.len() && before[k] == port;
            assert(all[k] == port);
            let i = choose|i: int|
                0 <= i < init.len() && text::numeral_within((#[trigger] init[i]).host_port@, 10, 65535) == Some(
                    port as int,
                );
            assert(bindings[i] == init[i]);
        }
        if read == Some(port as int) && port != 0 {
            if !before.contains(port) {
                assert(all == before.push(port));
                assert(all[before.len() as int] == port);
            }
        }
        if all.contains(port) && !before.contains(port) {
            let k = choose|k: int| 0 <= k < all.len() && all[k] == port;
            if k < before.len() {
                assert(before[k] == port);
            }
            assert(read == Some(port as int));
        }
        if port != 0 && exists|i: int|
            0 <= i < bindings.len() && text::numeral_within((#[trigger] bindings[i]).host_port@, 10, 65535) == Some(
                port as int,
            ) {
            let i = choose|i: int|
                0 <= i < bindings.len() && text::numeral_within((#[trigger] bindings[i]).host_port@, 10, 65535) == Some(
                    port as int,
                );
            if i < init.len() {
                assert(init[i] == bindings[i]);
            }
        }
    }
}

/// A call opens one port by the firewall's program: its last argument is the
/// numeral of the port behind `allow`. Through `sudo` the program is an argument
/// itself, and there is never a prompt.
pub proof fn law_call_opens_its_port(call: ProgramCall, mode: FirewallMode, bin: Seq<char>, port: u16)
    requires
        opens_port(call, mode, bin, port),
    ensures
        call.args@.len() >= 2,
        text::numeral(call.args@.last()@, 10) == Some(port as int),
        call.args@[call.args@.len() - 2]@ == seq!['a', 'l', 'l', 'o', 'w'],
        mode == FirewallMode::Sudo ==> call.program@ == seq!['s', 'u', 'd', 'o'] && call.args@.len() == 4
            && call.args@[0]@ == seq!['-', 'n'] && call.args@[1]@ == bin,
        mode != FirewallMode::Sudo ==> call.program@ == bin && call.args@.len() == 2,
{
    reveal_strlit("allow");
    reveal_strlit("sudo");
    reveal_strlit("-n");
    assert("allow"@ =~= seq!['a', 'l', 'l', 'o', 'w']);
    assert("sudo"@ =~= seq!['s', 'u', 'd', 'o']);
    assert("-n"@ =~= seq!['-', 'n']);
    text::law_numeral_reads_back(port as nat, u16::MAX as int);
    let args = call.args@;
    assert(text::texts(args).len() == args.len());
    assert forall|i: int| 0 <= i < args.len() implies #[trigger] text::texts(args)[i] == args[i]@ by {}
}

/// The hint names every port, in order, with a blank between each two.
pub proof fn law_hint_names_every_port(ports: Seq<u16>, port: u16)
    ensures
        port_list(Seq::<u16>::empty()) == Seq::<char>::empty(),
        port_list(seq![port]) == text::decimal(port as nat),
        ports.len() > 0 ==> port_list(ports.push(port)) == port_list(ports).push(' ') + text::decimal(port as nat),
{
    reveal_strlit(" ");
    assert(ports.push(port).drop_last() =~= ports);
    assert(port_list(ports) + " "@ =~= port_list(ports).push(' '));
}

/// Whether a plan opens ports as it should.
pub open spec fn plans_ports(
    out: FirewallPlan,
    mode: FirewallMode,
    ports: Seq<u16>,
    linux: bool,
    bin: Option<Seq<char>>,
) -> bool {
    if mode == FirewallMode::Off || ports.len() == 0 || !linux {
        out is Nothing
    } else {
        match bin {
            None => out is NotInstalled,
            Some(bin) => out matches FirewallPlan::Calls(calls) && calls@.len() == ports.len() && forall|i: int|
                0 <= i < calls@.len() ==> opens_port(#[trigger] calls@[i], mode, bin, ports[i]),
        }
    }
}

/// Where the firewall is to be opened, can be, and there is something to open, every
/// port gets a call of its own, in order; else nothing is called.
pub proof fn law_every_port_gets_a_call(
    out: FirewallPlan,
    mode: FirewallMode,
    ports: Seq<u16>,
    linux: bool,
    bin: Option<Seq<char>>,
    i: int,
)
    requires
        plans_ports(out, mode, ports, linux, bin),
    ensures
        out is Calls <==> mode != FirewallMode::Off && ports.len() > 0 && linux && bin is Some,
        out is NotInstalled <==> mode != FirewallMode::Off && ports.len() > 0 && linux && bin is None,
        out matches FirewallPlan::Calls(calls) ==> calls@.len() == ports.len() && (0 <= i < ports.len() ==> {
            &&& calls@[i].args@.len() >= 2
            &&& text::numeral(calls@[i].args@.last()@, 10) == Some(ports[i] as int)
        }),
{
    if let FirewallPlan::Calls(calls) = out {
        if 0 <= i < ports.len() {
            law_call_opens_its_port(calls@[i], mode, bin->0, ports[i]);
        }
    }
}

/// How loud a report is, and its words, given whether there was one before.
pub open spec fn reported(warned: bool, ports: Seq<u16>, detail: Seq<char>) -> (Loudness, Seq<char>) {
    if warned {
        (Loudness::Detail, "firewall: couldn't open port(s) "@ + port_list(ports) + " ("@ + detail + ")"@)
    } else {
        (
            Loudness::Warning,
            "firewall: couldn't open port(s) "@ + port_list(ports) + " automatically ("@ + detail
                + "). Open manually with: sudo ufw allow <port>"@,
        )
    }
}

/// The first report warns and advises, and none after it does; each names every port
/// and the whole detail, so that reports on different details differ.
pub proof fn law_reports_name_ports_and_detail(warned: bool, ports: Seq<u16>, a: Seq<char>, b: Seq<char>)
    ensures
        reported(warned, ports, a).0 == Loudness::Warning <==> !warned,
        reported(warned, ports, a).1 == reported(warned, ports, b).1 <==> a == b,
        ("firewall: couldn't open port(s) "@ + port_list(ports)).is_prefix_of(reported(warned, ports, a).1),
        search::occurs(reported(warned, ports, a).1, a),
        !warned ==> "). Open manually with: sudo ufw allow <port>"@.is_suffix_of(reported(warned, ports, a).1),
{
    let start = "firewall: couldn't open port(s) "@ + port_list(ports);
    let (middle, tail) = if warned {
        (" ("@, ")"@)
    } else {
        (" automatically ("@, "). Open manually with: sudo ufw allow <port>"@)
    };
    let head = start + middle;
    let sa = reported(warned, ports, a).1;
    let sb = reported(warned, ports, b).1;
    assert(sa =~= head + a + tail);
    assert(sb =~= head + b + tail);
    search::law_pattern_stands_between_its_sides(head, a, tail);
    assert(sa.take(start.len() as int) =~= start);
    assert(sa.skip(sa.len() - tail.len()) =~= tail);
    if sa == sb {
        assert(a.len() == b.len());
        assert(sa.subrange(head.len() as int, (head.len() + a.len()) as int) =~= a);
        assert(sb.subrange(head.len() as int, (head.len() + a.len()) as int) =~= b);
    }
}

} // verus!
