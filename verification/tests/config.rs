use sky_daemon::client::{Backoff, Client, ClientAction, ClientEvent, MAX_BACKOFF, MIN_BACKOFF};
use sky_daemon::config::{comma_items, Config};

fn env(pairs: &[(&str, &str)]) -> Vec<(String, String)> {
    pairs.iter().map(|(k, v)| (k.to_string(), v.to_string())).collect()
}

#[test]
fn an_empty_environment_gives_the_defaults() {
    let cfg = Config::from_env(&env(&[]));
    assert_eq!(cfg.panel_ws_url, "ws://127.0.0.1:8080/agent/ws");
    assert_eq!(cfg.node_token, "");
    assert_eq!(cfg.docker_socket, "/var/run/docker.sock");
    assert_eq!(cfg.heartbeat_interval, 5);
    assert_eq!(cfg.volumes_root, "/srv/sky-panel/volumes");
    assert_eq!(cfg.backups_root, "/srv/sky-panel/backups");
    assert_eq!(cfg.container_dns, vec!["1.1.1.1", "8.8.8.8"]);
    assert!(cfg.database.is_none());
}

#[test]
fn variables_replace_the_defaults() {
    let cfg = Config::from_env(&env(&[
        ("SKY_PANEL_WS_URL", "wss://panel.example.com/agent/ws"),
        ("SKY_NODE_TOKEN", "token"),
        ("SKY_DOCKER_SOCKET", "/run/d.sock"),
        ("SKY_HEARTBEAT_INTERVAL", "17"),
        ("SKY_VOLUMES_ROOT", "/v"),
        ("SKY_BACKUPS_ROOT", "/b"),
        ("SKY_CONTAINER_DNS", " 9.9.9.9 ,, 1.0.0.1"),
    ]));
    assert_eq!(cfg.panel_ws_url, "wss://panel.example.com/agent/ws");
    assert_eq!(cfg.node_token, "token");
    assert_eq!(cfg.docker_socket, "/run/d.sock");
    assert_eq!(cfg.heartbeat_interval, 17);
    assert_eq!(cfg.volumes_root, "/v");
    assert_eq!(cfg.backups_root, "/b");
    assert_eq!(cfg.container_dns, vec!["9.9.9.9", "1.0.0.1"]);
}

#[test]
fn an_empty_list_of_resolvers_is_allowed() {
    let cfg = Config::from_env(&env(&[("SKY_CONTAINER_DNS", "")]));
    assert!(cfg.container_dns.is_empty());
    assert_eq!(comma_items("a"), vec!["a"]);
    assert_eq!(comma_items(" , \t"), Vec::<String>::new());
}

#[test]
fn what_is_no_number_counts_as_absent() {
    for bad in ["", "x", "-1", "1.5", "18446744073709551616"] {
        let cfg = Config::from_env(&env(&[("SKY_HEARTBEAT_INTERVAL", bad)]));
        assert_eq!(cfg.heartbeat_interval, 5);
    }
    let cfg = Config::from_env(&env(&[("SKY_HEARTBEAT_INTERVAL", "18446744073709551615")]));
    assert_eq!(cfg.heartbeat_interval, u64::MAX);
}

#[test]
fn databases_take_an_admin_user() {
    assert!(Config::from_env(&env(&[("SKY_DB_ADMIN_USER", "")])).database.is_none());
    let db = Config::from_env(&env(&[("SKY_DB_ADMIN_USER", "root")])).database.unwrap();
    assert_eq!(db.admin_user, "root");
    assert_eq!(db.admin_host, "127.0.0.1");
    assert_eq!(db.admin_port, 3306);
    assert_eq!(db.admin_password, "");
    assert_eq!(db.public_host, "127.0.0.1");
    assert_eq!(db.public_port, 3306);
}

#[test]
fn public_endpoints_fall_back_to_the_admins() {
    let db = Config::from_env(&env(&[
        ("SKY_DB_ADMIN_USER", "root"),
        ("SKY_DB_ADMIN_PASSWORD", "pw"),
        ("SKY_DB_ADMIN_HOST", "10.0.0.1"),
        ("SKY_DB_ADMIN_PORT", "3310"),
        ("SKY_DB_PUBLIC_HOST", ""),
        ("SKY_DB_PUBLIC_PORT", "70000"),
    ]))
    .database
    .unwrap();
    assert_eq!(db.admin_password, "pw");
    assert_eq!(db.public_host, "10.0.0.1");
    assert_eq!(db.public_port, 3310);
    let db = Config::from_env(&env(&[
        ("SKY_DB_ADMIN_USER", "root"),
        ("SKY_DB_PUBLIC_HOST", "db.example.com"),
        ("SKY_DB_PUBLIC_PORT", "13306"),
    ]))
    .database
    .unwrap();
    assert_eq!(db.public_host, "db.example.com");
    assert_eq!(db.public_port, 13306);
}

#[test]
fn waits_double_up_to_a_limit_and_start_over() {
    let mut backoff = Backoff::new();
    let waits: Vec<u64> = (0..7).map(|_| backoff.next()).collect();
    assert_eq!(waits, vec![1, 2, 4, 8, 16, 30, 30]);
    backoff.connected();
    assert_eq!(backoff.next(), MIN_BACKOFF);
    assert_eq!(MAX_BACKOFF, 30);
}

#[test]
fn staying_connected_waits_between_attempts() {
    let mut client = Client::new();
    assert_eq!(client.react(ClientEvent::Started, false), ClientAction::Dial);
    for secs in [1u64, 2, 4, 8, 16, 30, 30] {
        assert_eq!(client.react(ClientEvent::DialFailed, false), ClientAction::Wait(secs));
        assert_eq!(client.react(ClientEvent::Waited, false), ClientAction::Dial);
    }
    assert_eq!(client.react(ClientEvent::SessionEnded, false), ClientAction::Wait(1));
    assert_eq!(client.react(ClientEvent::Waited, false), ClientAction::Dial);
    assert_eq!(client.react(ClientEvent::DialFailed, false), ClientAction::Wait(2));
}

#[test]
fn only_a_shutdown_ends_the_attempts() {
    assert_eq!(Client::new().react(ClientEvent::Started, true), ClientAction::Return);
    assert_eq!(Client::new().react(ClientEvent::DialFailed, true), ClientAction::Return);
    assert_eq!(Client::new().react(ClientEvent::SessionEnded, true), ClientAction::Return);
    assert_eq!(Client::new().react(ClientEvent::Waited, true), ClientAction::Return);
}
