use sky_daemon::runtime::containers::{
    conflicting_containers, host_ports, looks_like_server_id, managed_containers, server_id_from, ContainerListItem,
};

const ID: &str = "b24aa5c8-a1ab-4a42-9edd-956dd23d017f";
const OTHER: &str = "00000000-1111-2222-3333-444444444444";

fn item(id: &str, name: &str, label: &str, state: &str, ports: &[u16]) -> ContainerListItem {
    ContainerListItem {
        id: id.to_string(),
        names: if name.is_empty() { vec![] } else { vec![name.to_string()] },
        labels: if label.is_empty() { vec![] } else { vec![("sky-panel.server_id".to_string(), label.to_string())] },
        state: state.to_string(),
        public_ports: ports.iter().map(|p| Some(*p)).collect(),
    }
}

#[test]
fn looks_like_server_id_accepts_uuids_rejects_foreign_names() {
    assert!(looks_like_server_id("b24aa5c8-a1ab-4a42-9edd-956dd23d017f"));
    // The rest of a foreign name must not match.
    assert!(!looks_like_server_id("panel"));
    assert!(!looks_like_server_id("cache"));
    assert!(!looks_like_server_id(""));
    assert!(!looks_like_server_id("b24aa5c8-a1ab-4a42-9edd-956dd23d017")); // too short
    assert!(!looks_like_server_id("b24aa5c8xa1abx4a42x9eddx956dd23d017f")); // no hyphens
    assert!(!looks_like_server_id("g24aa5c8-a1ab-4a42-9edd-956dd23d017f")); // no hexadecimal digit
}

#[test]
fn server_ids_are_in_lower_case() {
    assert!(!looks_like_server_id("B24AA5C8-A1AB-4A42-9EDD-956DD23D017F"));
}

#[test]
fn a_server_is_named_by_label_or_name() {
    let label = vec![("other".to_string(), "x".to_string()), ("sky-panel.server_id".to_string(), "s1".to_string())];
    let empty = vec![("sky-panel.server_id".to_string(), String::new())];
    let names = vec!["/unrelated".to_string(), format!("//sky-{}", ID)];
    assert_eq!(server_id_from(&names, &label), Some("s1".to_string()));
    assert_eq!(server_id_from(&names, &empty), Some(ID.to_string()));
    assert_eq!(server_id_from(&names, &vec![]), Some(ID.to_string()));
    assert_eq!(server_id_from(&vec!["/sky-panel".to_string()], &vec![]), None);
    assert_eq!(server_id_from(&vec![], &vec![]), None);
}

#[test]
fn only_containers_of_the_daemon_are_managed() {
    let named = format!("/sky-{}", ID);
    let items = vec![
        item("c1", "/postgres", "", "running", &[]),
        item("c2", "", "server-2", "exited", &[]),
        item("c3", &named, "", "running", &[]),
        item("c4", "/sky-cache", "", "running", &[]),
    ];
    let found: Vec<(String, String)> =
        managed_containers(&items).into_iter().map(|m| (m.server_id, m.container_id)).collect();
    assert_eq!(found, vec![("server-2".to_string(), "c2".to_string()), (ID.to_string(), "c3".to_string())]);
}

#[test]
fn only_leftovers_are_removed_to_free_a_port() {
    let items = vec![
        item("target", "", ID, "created", &[]),
        item("same", "", ID, "running", &[25565]),
        item("stopped", "", OTHER, "exited", &[25565]),
        item("healthy", "", OTHER, "Running", &[25565]),
        item("foreign", "/postgres", "", "exited", &[25565]),
        item("elsewhere", "", ID, "exited", &[1]),
    ];
    assert_eq!(conflicting_containers("target", &vec![25565], &items), vec!["same", "stopped"]);
    assert!(conflicting_containers("target", &vec![], &items).is_empty());
}

#[test]
fn a_container_that_is_not_listed_has_no_siblings() {
    let items = vec![item("same", "", ID, "running", &[25565]), item("stopped", "", OTHER, "exited", &[25565])];
    assert_eq!(conflicting_containers("target", &vec![25565], &items), vec!["stopped"]);
}

#[test]
fn host_ports_are_read_off_their_numerals() {
    let hosts: Vec<String> =
        vec!["25565", "", "x", "+80", "70000", "0"].into_iter().map(|s| s.to_string()).collect();
    assert_eq!(host_ports(&hosts), vec![25565, 80, 0]);
}
