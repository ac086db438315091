use sky_daemon::payloads::PortBinding;
use sky_daemon::runtime::firewall::{
    open_port_call, plan_ports, port_hint, ports_from_bindings, FirewallMode, FirewallPlan, FirewallReports, Loudness,
};

fn pb(container_port: &str, host_port: &str) -> PortBinding {
    PortBinding { container_port: container_port.into(), host_port: host_port.into() }
}

#[test]
fn dedupes_tcp_udp_pairs_and_preserves_order() {
    let bindings = vec![
        pb("25565/tcp", "25565"),
        pb("25565/udp", "25565"),
        pb("25570/tcp", "25570"),
        pb("25570/udp", "25570"),
    ];
    assert_eq!(ports_from_bindings(&bindings), vec![25565, 25570]);
}

#[test]
fn skips_unparseable_and_zero_ports() {
    let bindings = vec![pb("x/tcp", "not-a-port"), pb("0/tcp", "0"), pb("25565/tcp", "25565")];
    assert_eq!(ports_from_bindings(&bindings), vec![25565]);
}

#[test]
fn off_mode_and_empty_ports_are_noops() {
    assert!(matches!(plan_ports(FirewallMode::Off, &vec![25565], true, Some("/usr/sbin/ufw")), FirewallPlan::Nothing));
    assert!(matches!(plan_ports(FirewallMode::Auto, &vec![], true, Some("/usr/sbin/ufw")), FirewallPlan::Nothing));
    assert!(matches!(plan_ports(FirewallMode::Auto, &vec![1], false, Some("/usr/sbin/ufw")), FirewallPlan::Nothing));
}

#[test]
fn ports_are_arguments_of_their_own() {
    let plain = open_port_call(FirewallMode::Auto, "/usr/sbin/ufw", 25565);
    assert_eq!(plain.program, "/usr/sbin/ufw");
    assert_eq!(plain.args, vec!["allow", "25565"]);
    let sudo = open_port_call(FirewallMode::Sudo, "/usr/sbin/ufw", 80);
    assert_eq!(sudo.program, "sudo");
    assert_eq!(sudo.args, vec!["-n", "/usr/sbin/ufw", "allow", "80"]);
}

#[test]
fn each_port_gets_a_call() {
    assert!(matches!(plan_ports(FirewallMode::Auto, &vec![1], true, None), FirewallPlan::NotInstalled));
    match plan_ports(FirewallMode::Auto, &vec![1, 2], true, Some("ufw")) {
        FirewallPlan::Calls(calls) => {
            assert_eq!(calls.len(), 2);
            assert_eq!(calls[0].args, vec!["allow", "1"]);
            assert_eq!(calls[1].args, vec!["allow", "2"]);
        }
        _ => panic!("expected calls"),
    }
}

#[test]
fn failures_are_reported_loudly_once() {
    let mut reports = FirewallReports::new();
    let (loudness, said) = reports.report(&vec![1, 22, 333], "ufw is not installed");
    assert_eq!(loudness, Loudness::Warning);
    assert_eq!(
        said,
        "firewall: couldn't open port(s) 1 22 333 automatically (ufw is not installed). Open manually with: sudo ufw allow <port>"
    );
    let (loudness, said) = reports.report(&vec![5], "timed out");
    assert_eq!(loudness, Loudness::Detail);
    assert_eq!(said, "firewall: couldn't open port(s) 5 (timed out)");
    assert_eq!(port_hint(&vec![]), "");
}
