use sky_daemon::backups::BackupFile;
use sky_daemon::dispatcher::{write_step, Dispatcher, Effect, Next, MAX_FILE_BYTES};
use sky_daemon::heartbeat::{wants_stats, Observation};
use sky_daemon::outcomes::{
    on_archive_removed, on_archived, on_backups_listed, on_classified, on_deleted, on_directory_created, on_listed,
    on_measured, on_pulled, on_read, on_renamed, on_restored, on_stopped, on_written, pull_started, ArchiveFault,
    BackupsFault, ListFault, WriteFault,
};
use sky_daemon::acks::{concluded_with, console_line};
use sky_daemon::payloads::{
    AckPayload, Action, ActionResult, CommandPayload, ContainerSpec, EventKind, FileEntry,
};
use sky_daemon::runtime::containers::{ContainerState, ManagedContainer};
use sky_daemon::runtime::stats::Stats;
use sky_daemon::steps::Outcome;

fn dispatcher() -> Dispatcher {
    Dispatcher::new("/volumes".to_string(), "/backups".to_string())
}

fn cmd(action: Action, server_id: &str) -> CommandPayload {
    CommandPayload {
        command_id: "cmd-1".into(),
        action,
        server_id: server_id.into(),
        ..Default::default()
    }
}

fn refusal(next: Next) -> String {
    match next {
        Next::Reply(ack) => error(ack),
        Next::Do(effect) => panic!("expected a refusal, got {:?}", effect),
    }
}

fn error(ack: AckPayload) -> String {
    assert_eq!(ack.command_id, "cmd-1");
    assert!(!ack.ok);
    assert!(ack.result.is_none());
    ack.error.unwrap()
}

fn succeeded(ack: AckPayload) -> Option<ActionResult> {
    assert_eq!(ack.command_id, "cmd-1");
    assert!(ack.ok);
    assert!(ack.error.is_none());
    ack.result
}

/// Carries out a command on a runtime on which everything succeeds.
fn carry_out(d: &mut Dispatcher, cmd: &CommandPayload) -> AckPayload {
    let mut next = d.handle(cmd);
    loop {
        let effect = match next {
            Next::Reply(ack) => return ack,
            Next::Do(effect) => effect,
        };
        let outcome = match &effect {
            Effect::CreateContainer(_) => Outcome::Created(Ok("container-1".to_string())),
            Effect::AttachConsole(_) => Outcome::Attached(true),
            _ => Outcome::Done(Ok(())),
        };
        next = d.resume(cmd, effect, outcome).1;
    }
}

fn create(server_id: &str) -> CommandPayload {
    CommandPayload {
        spec: Some(ContainerSpec { image: "test".into(), ..Default::default() }),
        ..cmd(Action::Create, server_id)
    }
}

#[test]
fn dispatcher_create_start_stop_remove_lifecycle() {
    let mut d = dispatcher();
    assert!(carry_out(&mut d, &create("server-1")).ok);
    assert_eq!(d.container_id_for_server("server-1"), Some("container-1".to_string()));

    assert!(carry_out(&mut d, &cmd(Action::Start, "server-1")).ok);
    assert!(carry_out(&mut d, &cmd(Action::Stop, "server-1")).ok);
    assert!(carry_out(&mut d, &cmd(Action::Remove, "server-1")).ok);

    // Not known any more, so naming it by the server alone must fail.
    assert!(!carry_out(&mut d, &cmd(Action::Start, "server-1")).ok);
    assert_eq!(d.container_id_for_server("server-1"), None);
}

#[test]
fn start_with_explicit_container_id_works_without_tracking() {
    let mut d = dispatcher();
    let mut start = cmd(Action::Start, "server-1");
    start.container_id = Some("container-7".to_string());
    match d.handle(&start) {
        Next::Do(Effect::StartContainer(id)) => assert_eq!(id, "container-7"),
        other => panic!("unexpected {:?}", other),
    }
    assert!(carry_out(&mut d, &start).ok);
}

#[test]
fn a_named_container_wins_over_the_known_one() {
    let mut d = dispatcher();
    carry_out(&mut d, &create("server-1"));
    let mut kill = cmd(Action::Kill, "server-1");
    match d.handle(&kill) {
        Next::Do(Effect::KillContainer(id)) => assert_eq!(id, "container-1"),
        other => panic!("unexpected {:?}", other),
    }
    kill.container_id = Some("other".to_string());
    match d.handle(&kill) {
        Next::Do(Effect::KillContainer(id)) => assert_eq!(id, "other"),
        other => panic!("unexpected {:?}", other),
    }
}

#[test]
fn heartbeat_reports_tracked_containers() {
    let mut d = dispatcher();
    carry_out(&mut d, &create("server-1"));
    carry_out(&mut d, &cmd(Action::Start, "server-1"));
    let observations: Vec<Observation<f64>> = d
        .snapshot()
        .into_iter()
        .map(|(server_id, _)| Observation {
            server_id,
            state: Some(ContainerState { running: true }),
            stats: None,
        })
        .collect();
    let hb = Dispatcher::heartbeat(&observations, 0.0);
    assert_eq!(hb.containers.len(), 1);
    assert_eq!(hb.containers[0].server_id, "server-1");
    assert!(hb.containers[0].running);
}

#[test]
fn heartbeat_skips_what_cannot_be_looked_at() {
    let stats = Stats { cpu_percent: 2.5, mem_used_bytes: 1, mem_limit_bytes: 2, net_rx_bytes: 3, net_tx_bytes: 4 };
    let observations = vec![
        Observation { server_id: "gone".into(), state: None, stats: Some(stats) },
        Observation { server_id: "up".into(), state: Some(ContainerState { running: true }), stats: Some(stats) },
        Observation { server_id: "down".into(), state: Some(ContainerState { running: false }), stats: Some(stats) },
    ];
    let hb = Dispatcher::heartbeat(&observations, 0.0);
    assert_eq!(hb.containers.len(), 2);
    assert_eq!(hb.containers[0].server_id, "up");
    assert_eq!(hb.containers[0].cpu_percent, 2.5);
    assert_eq!(hb.containers[0].mem_used_bytes, 1);
    assert_eq!(hb.containers[0].mem_limit_bytes, 2);
    assert_eq!(hb.containers[0].net_rx_bytes, 3);
    assert_eq!(hb.containers[0].net_tx_bytes, 4);
    assert!(!hb.containers[1].running);
    assert_eq!(hb.containers[1].cpu_percent, 0.0);
    assert_eq!(hb.containers[1].net_tx_bytes, 0);
    assert!(wants_stats(Some(ContainerState { running: true })));
    assert!(!wants_stats(Some(ContainerState { running: false })));
    assert!(!wants_stats(None));
}

#[test]
fn path_traversal_is_rejected() {
    let d = dispatcher();
    let read = CommandPayload { path: Some("../../etc/passwd".into()), ..cmd(Action::ReadFile, "server-1") };
    assert!(refusal(d.handle(&read)).contains("escapes"));
}

#[test]
fn absolute_path_is_rejected() {
    let d = dispatcher();
    let read = CommandPayload { path: Some("/etc/passwd".into()), ..cmd(Action::ReadFile, "server-1") };
    assert!(refusal(d.handle(&read)).contains("escapes"));
}

#[test]
fn unknown_action_on_missing_container_fails_gracefully() {
    let mut d = dispatcher();
    let ack = carry_out(&mut d, &cmd(Action::Start, "server-1"));
    assert!(!ack.ok);
    assert!(ack.error.is_some());
}

#[test]
fn mkdir_creates_nested_directories() {
    let d = dispatcher();
    let mkdir = CommandPayload { path: Some("a/b/c".into()), ..cmd(Action::Mkdir, "server-1") };
    match d.handle(&mkdir) {
        Next::Do(Effect::CreateDirectory(path)) => assert_eq!(path, "/volumes/server-1/a/b/c"),
        other => panic!("unexpected {:?}", other),
    }
    assert!(on_directory_created(&mkdir, true).ok);
    assert_eq!(error(on_directory_created(&mkdir, false)), "create directory");
}

#[test]
fn file_roundtrip_write_list_read_rename_delete() {
    let d = dispatcher();
    let content = "aGVsbG8gd29ybGQ=";
    let write = CommandPayload {
        path: Some("config.txt".into()),
        content_base64: Some(content.into()),
        ..cmd(Action::WriteFile, "server-1")
    };
    let written = match d.handle(&write) {
        Next::Do(Effect::WriteFile(path, bytes)) => {
            assert_eq!(path, "/volumes/server-1/config.txt");
            assert_eq!(bytes, b"hello world");
            bytes
        }
        other => panic!("unexpected {:?}", other),
    };
    assert!(on_written(&write, None).ok);

    let list = CommandPayload { path: Some("".into()), ..cmd(Action::ListFiles, "server-1") };
    match d.handle(&list) {
        Next::Do(Effect::ListDirectory(path)) => assert_eq!(path, "/volumes/server-1/"),
        other => panic!("unexpected {:?}", other),
    }
    let entry = FileEntry { name: "config.txt".into(), is_dir: false, size_bytes: 11 };
    match succeeded(on_listed(&list, Ok(vec![entry]))) {
        Some(ActionResult::Files(result)) => {
            assert_eq!(result.entries.len(), 1);
            assert_eq!(result.entries[0].name, "config.txt");
        }
        other => panic!("unexpected {:?}", other),
    }

    let read = CommandPayload { path: Some("config.txt".into()), ..cmd(Action::ReadFile, "server-1") };
    let path = match d.handle(&read) {
        Next::Do(Effect::MeasureFile(path)) => path,
        other => panic!("unexpected {:?}", other),
    };
    match on_measured(&read, path, Some(11)) {
        Next::Do(Effect::ReadFile(path)) => assert_eq!(path, "/volumes/server-1/config.txt"),
        other => panic!("unexpected {:?}", other),
    }
    match succeeded(on_read(&read, Some(written))) {
        Some(ActionResult::File(result)) => {
            assert_eq!(result.content_base64, content);
            assert_eq!(result.size_bytes, 11);
        }
        other => panic!("unexpected {:?}", other),
    }

    let rename = CommandPayload {
        path: Some("config.txt".into()),
        new_path: Some("renamed.txt".into()),
        ..cmd(Action::RenameFile, "server-1")
    };
    match d.handle(&rename) {
        Next::Do(Effect::Rename(from, to)) => {
            assert_eq!(from, "/volumes/server-1/config.txt");
            assert_eq!(to, "/volumes/server-1/renamed.txt");
        }
        other => panic!("unexpected {:?}", other),
    }
    assert!(on_renamed(&rename, true).ok);

    let delete = CommandPayload { path: Some("renamed.txt".into()), ..cmd(Action::DeleteFile, "server-1") };
    let path = match d.handle(&delete) {
        Next::Do(Effect::ClassifyPath(path)) => path,
        other => panic!("unexpected {:?}", other),
    };
    match on_classified(&delete, path, Some(false)) {
        Next::Do(Effect::RemoveFile(path)) => assert_eq!(path, "/volumes/server-1/renamed.txt"),
        other => panic!("unexpected {:?}", other),
    }
    assert!(on_deleted(&delete, false, true).ok);
}

#[test]
fn a_second_start_does_not_attach_again() {
    let mut d = dispatcher();
    let start = CommandPayload { container_id: Some("c".into()), ..cmd(Action::Start, "server-1") };
    let (event, next) = d.on_started(&start, "c".into(), Ok(()));
    let event = event.unwrap();
    assert_eq!(event.server_id, "server-1");
    assert_eq!(event.kind, EventKind::StateChanged);
    assert_eq!(event.message, "running");
    match next {
        Next::Do(Effect::AttachConsole(id)) => assert_eq!(id, "c"),
        other => panic!("unexpected {:?}", other),
    }
    assert!(d.on_attached(&start, true).ok);
    match d.on_started(&start, "c".into(), Ok(())).1 {
        Next::Reply(ack) => assert!(ack.ok),
        other => panic!("unexpected {:?}", other),
    }
    d.on_console_closed("server-1");
    assert!(matches!(d.on_started(&start, "c".into(), Ok(())).1, Next::Do(Effect::AttachConsole(_))));
    assert!(matches!(d.on_started(&start, "c".into(), Err("no".into())), (None, Next::Reply(_))));
}

#[test]
fn a_start_succeeds_without_a_console() {
    let mut d = dispatcher();
    let start = cmd(Action::Start, "server-1");
    assert!(d.on_attached(&start, false).ok);
    let input = CommandPayload { input: Some("say hi".into()), ..cmd(Action::ConsoleInput, "server-1") };
    assert_eq!(refusal(d.handle(&input)), "no active console session for server server-1");
}

#[test]
fn console_input_goes_to_the_live_console() {
    let mut d = dispatcher();
    d.on_attached(&cmd(Action::Start, "server-1"), true);
    let input = CommandPayload { input: Some("say hello".into()), ..cmd(Action::ConsoleInput, "server-1") };
    match d.handle(&input) {
        Next::Do(Effect::WriteConsole(line)) => assert_eq!(line, "say hello\n"),
        other => panic!("unexpected {:?}", other),
    }
    assert!(concluded_with(&input, Ok(())).ok);
    assert_eq!(error(concluded_with(&input, Err("broken pipe".into()))), "broken pipe");
    assert_eq!(refusal(d.handle(&cmd(Action::ConsoleInput, "server-1"))), "console_input command missing input");
    let line = console_line(&"server-1".to_string(), "Server started!".to_string());
    assert_eq!(line.kind, EventKind::ConsoleLine);
    assert_eq!(line.message, "Server started!");
}

#[test]
fn removal_forgets_the_container_and_its_console() {
    let mut d = dispatcher();
    carry_out(&mut d, &create("server-1"));
    carry_out(&mut d, &create("server-2"));
    d.on_attached(&cmd(Action::Start, "server-1"), true);
    let remove = cmd(Action::Remove, "server-1");
    assert_eq!(error(d.on_removed(&remove, Err("in use".into()))), "in use");
    assert!(d.container_id_for_server("server-1").is_some());
    assert!(d.on_removed(&remove, Ok(())).ok);
    assert!(d.container_id_for_server("server-1").is_none());
    assert!(d.container_id_for_server("server-2").is_some());
    let input = CommandPayload { input: Some("x".into()), ..cmd(Action::ConsoleInput, "server-1") };
    assert_eq!(refusal(d.handle(&input)), "no active console session for server server-1");
}

#[test]
fn stopping_gives_fifteen_seconds_and_tells_the_panel() {
    let mut d = dispatcher();
    carry_out(&mut d, &create("server-1"));
    let stop = cmd(Action::Stop, "server-1");
    match d.handle(&stop) {
        Next::Do(Effect::StopContainer(id, secs)) => {
            assert_eq!(id, "container-1");
            assert_eq!(secs, 15);
        }
        other => panic!("unexpected {:?}", other),
    }
    let (event, ack) = on_stopped(&stop, Ok(()));
    assert_eq!(event.unwrap().message, "offline");
    assert!(ack.ok);
    let (event, ack) = on_stopped(&stop, Err("timeout".into()));
    assert!(event.is_none());
    assert_eq!(error(ack), "timeout");
}

#[test]
fn images_are_pulled_with_progress_on_the_console() {
    let d = dispatcher();
    let pull = CommandPayload { image: Some("node:22".into()), ..cmd(Action::PullImage, "server-1") };
    match d.handle(&pull) {
        Next::Do(Effect::PullImage(image)) => assert_eq!(image, "node:22"),
        other => panic!("unexpected {:?}", other),
    }
    let started = pull_started(&pull, "node:22").unwrap();
    assert_eq!(started.kind, EventKind::ConsoleLine);
    assert_eq!(started.message, "pulling node:22\u{2026}");
    let (event, ack) = on_pulled(&pull, "node:22", Ok(()));
    assert_eq!(event.unwrap().message, "node:22 ready");
    assert!(ack.ok);
    let (event, ack) = on_pulled(&pull, "node:22", Err("manifest unknown".into()));
    assert!(event.is_none());
    assert_eq!(error(ack), "manifest unknown");
    assert_eq!(refusal(d.handle(&cmd(Action::PullImage, "server-1"))), "pull_image command missing image");
    // An image that is pulled ahead of time is for no server yet.
    let warm = CommandPayload { image: Some("itzg/minecraft-server".into()), ..cmd(Action::PullImage, "") };
    assert!(pull_started(&warm, "itzg/minecraft-server").is_none());
    let (event, ack) = on_pulled(&warm, "itzg/minecraft-server", Ok(()));
    assert!(event.is_none());
    assert!(ack.ok);
}

#[test]
fn missing_fields_are_named() {
    let d = dispatcher();
    assert_eq!(refusal(d.handle(&cmd(Action::Create, "s"))), "create command missing spec");
    assert_eq!(refusal(d.handle(&cmd(Action::Stop, "s"))), "no known container for server s");
    assert_eq!(refusal(d.handle(&cmd(Action::ReadFile, "s"))), "read_file missing path");
    assert_eq!(refusal(d.handle(&cmd(Action::WriteFile, "s"))), "write_file missing path");
    assert_eq!(refusal(d.handle(&cmd(Action::RenameFile, "s"))), "rename_file missing path");
    assert_eq!(refusal(d.handle(&cmd(Action::DeleteFile, "s"))), "delete_file missing path");
    assert_eq!(refusal(d.handle(&cmd(Action::Mkdir, "s"))), "mkdir missing path");
    assert_eq!(refusal(d.handle(&cmd(Action::RestoreBackup, "s"))), "restore_backup missing path");
    assert_eq!(refusal(d.handle(&cmd(Action::DeleteBackup, "s"))), "delete_backup missing path");
    let write = CommandPayload { path: Some("a".into()), ..cmd(Action::WriteFile, "s") };
    assert_eq!(refusal(d.handle(&write)), "write_file missing content");
    let rename = CommandPayload { path: Some("a".into()), ..cmd(Action::RenameFile, "s") };
    assert_eq!(refusal(d.handle(&rename)), "rename_file missing new_path");
    let rename = CommandPayload { new_path: Some("../b".into()), ..rename };
    assert_eq!(refusal(d.handle(&rename)), "path escapes the server volume: ../b");
    assert!(matches!(d.handle(&cmd(Action::ListFiles, "s")), Next::Do(Effect::ListDirectory(_))));
}

#[test]
fn content_has_to_be_base64() {
    let d = dispatcher();
    for bad in ["!!!", "aGVsbG8", "aGVsbG8=\n", "a"] {
        let write = CommandPayload {
            path: Some("a".into()),
            content_base64: Some(bad.into()),
            ..cmd(Action::WriteFile, "s")
        };
        assert_eq!(refusal(d.handle(&write)), "decode base64 content");
    }
}

#[test]
fn files_are_limited_in_size() {
    let write = cmd(Action::WriteFile, "s");
    let limit = MAX_FILE_BYTES as usize;
    assert!(matches!(write_step(&write, "p".into(), Some(vec![0; limit])), Next::Do(Effect::WriteFile(_, _))));
    let expected = "file is too large for the command channel (10485761 bytes, max 10485760)";
    assert_eq!(refusal(write_step(&write, "p".into(), Some(vec![0; limit + 1]))), expected);
    assert_eq!(refusal(on_measured(&write, "p".into(), Some(MAX_FILE_BYTES + 1))), expected);
    assert!(matches!(on_measured(&write, "p".into(), Some(MAX_FILE_BYTES)), Next::Do(Effect::ReadFile(_))));
    assert_eq!(refusal(on_measured(&write, "p".into(), None)), "stat file");
}

#[test]
fn failed_effects_are_named() {
    let c = cmd(Action::ListFiles, "s");
    assert_eq!(error(on_listed(&c, Err(ListFault::Open))), "list files");
    assert_eq!(error(on_listed(&c, Err(ListFault::Entry))), "read directory entry");
    assert_eq!(error(on_listed(&c, Err(ListFault::Metadata))), "read entry metadata");
    assert_eq!(error(on_read(&c, None)), "read file");
    assert_eq!(error(on_written(&c, Some(WriteFault::Parent))), "create parent directory");
    assert_eq!(error(on_written(&c, Some(WriteFault::Write))), "write file");
    assert_eq!(error(on_renamed(&c, false)), "rename file");
    assert_eq!(refusal(on_classified(&c, "p".into(), None)), "stat path");
    assert!(matches!(on_classified(&c, "p".into(), Some(true)), Next::Do(Effect::RemoveDirectory(_))));
    assert_eq!(error(on_deleted(&c, true, false)), "delete directory");
    assert_eq!(error(on_deleted(&c, false, false)), "delete file");
    assert_eq!(error(on_archived(&c, "f".into(), Err(ArchiveFault::Panicked)).1), "backup task panicked");
    assert_eq!(error(on_archived(&c, "f".into(), Err(ArchiveFault::Failed)).1), "create backup archive");
    assert_eq!(error(on_restored(&c, Some(ArchiveFault::Panicked))), "restore task panicked");
    assert_eq!(error(on_restored(&c, Some(ArchiveFault::Failed))), "restore backup archive");
    assert!(on_restored(&c, None).ok);
    assert_eq!(error(on_archive_removed(&c, false)), "delete backup archive");
    assert!(on_archive_removed(&c, true).ok);
    assert_eq!(error(on_backups_listed(&c, Err(BackupsFault::Open))), "list backups");
    assert_eq!(error(on_backups_listed(&c, Err(BackupsFault::Entry))), "read backup entry");
    assert_eq!(error(on_backups_listed(&c, Err(BackupsFault::Metadata))), "stat backup");
    let mut d = dispatcher();
    assert_eq!(error(d.on_created(&c, Err("no image".into()))), "no image");
    assert!(d.container_id_for_server("s").is_none());
}

#[test]
fn backups_are_archived_under_the_time() {
    let d = dispatcher();
    let backup = cmd(Action::Backup, "server-1");
    match d.handle(&backup) {
        Next::Do(Effect::CreateBackupDirectory(dir)) => assert_eq!(dir, "/backups/server-1"),
        other => panic!("unexpected {:?}", other),
    }
    assert_eq!(refusal(d.on_backup_directory(&backup, false, 5)), "create backups directory");
    let plan = match d.on_backup_directory(&backup, true, 1_700_000_000) {
        Next::Do(Effect::ArchiveVolume(plan)) => plan,
        other => panic!("unexpected {:?}", other),
    };
    assert_eq!(plan.source, "/volumes/server-1");
    assert_eq!(plan.filename, "backup-1700000000.tar.zst");
    assert_eq!(plan.target, "/backups/server-1/backup-1700000000.tar.zst");
    let (event, ack) = on_archived(&backup, plan.filename, Ok(42));
    let event = event.unwrap();
    assert_eq!(event.kind, EventKind::BackupDone);
    assert_eq!(event.message, "backup-1700000000.tar.zst");
    match succeeded(ack) {
        Some(ActionResult::Backup(result)) => {
            assert_eq!(result.filename, "backup-1700000000.tar.zst");
            assert_eq!(result.size_bytes, 42);
        }
        other => panic!("unexpected {:?}", other),
    }
}

#[test]
fn backups_are_named_by_a_single_component() {
    let d = dispatcher();
    let restore = CommandPayload { path: Some("b.tar.zst".into()), ..cmd(Action::RestoreBackup, "server-1") };
    match d.handle(&restore) {
        Next::Do(Effect::RestoreArchive(archive, volume)) => {
            assert_eq!(archive, "/backups/server-1/b.tar.zst");
            assert_eq!(volume, "/volumes/server-1");
        }
        other => panic!("unexpected {:?}", other),
    }
    let delete = CommandPayload { path: Some("b.tar.zst".into()), ..cmd(Action::DeleteBackup, "server-1") };
    match d.handle(&delete) {
        Next::Do(Effect::RemoveArchive(archive)) => assert_eq!(archive, "/backups/server-1/b.tar.zst"),
        other => panic!("unexpected {:?}", other),
    }
    for bad in ["", ".", "..", "a/b", "/a", "a/", "../x"] {
        let delete = CommandPayload { path: Some(bad.into()), ..cmd(Action::DeleteBackup, "server-1") };
        assert_eq!(refusal(d.handle(&delete)), format!("invalid backup name: {}", bad));
    }
}

#[test]
fn backups_are_listed_newest_first() {
    let d = dispatcher();
    let list = cmd(Action::ListBackups, "server-1");
    match d.handle(&list) {
        Next::Do(Effect::ListBackups(dir)) => assert_eq!(dir, "/backups/server-1"),
        other => panic!("unexpected {:?}", other),
    }
    let file = |name: &str, is_file: bool, modified: Option<u64>| BackupFile {
        filename: name.to_string(),
        is_file,
        size_bytes: 7,
        modified,
    };
    let files = vec![
        file("unknown", true, None),
        file("old", true, Some(10)),
        file("directory", false, Some(99)),
        file("new", true, Some(20)),
        file("old too", true, Some(10)),
    ];
    match succeeded(on_backups_listed(&list, Ok(files))) {
        Some(ActionResult::Backups(result)) => {
            let names: Vec<&str> = result.backups.iter().map(|b| b.filename.as_str()).collect();
            assert_eq!(names, vec!["new", "old", "old too", "unknown"]);
            assert_eq!(result.backups[0].created_at, 20);
            assert_eq!(result.backups[3].created_at, 0);
            assert_eq!(result.backups[3].size_bytes, 7);
        }
        other => panic!("unexpected {:?}", other),
    }
    match succeeded(on_backups_listed(&list, Err(BackupsFault::Missing))) {
        Some(ActionResult::Backups(result)) => assert!(result.backups.is_empty()),
        other => panic!("unexpected {:?}", other),
    }
}

#[test]
fn a_restart_takes_over_the_containers_that_are_left() {
    let mut d = dispatcher();
    carry_out(&mut d, &create("server-1"));
    let found = vec![
        ManagedContainer { server_id: "server-2".into(), container_id: "c2".into() },
        ManagedContainer { server_id: "server-3".into(), container_id: "old".into() },
        ManagedContainer { server_id: "server-3".into(), container_id: "c3".into() },
    ];
    assert_eq!(d.reconcile(&found), 3);
    assert_eq!(d.container_id_for_server("server-1"), Some("container-1".to_string()));
    assert_eq!(d.container_id_for_server("server-2"), Some("c2".to_string()));
    assert_eq!(d.container_id_for_server("server-3"), Some("c3".to_string()));
    assert_eq!(d.snapshot().len(), 3);
}

#[test]
fn every_path_stays_in_the_volume() {
    let d = dispatcher();
    for rel in ["", ".", "a", "./a", "a//b", "a/./b", "...", "..a", "a..", "a/"] {
        let path = d.resolve_path("s", rel).unwrap();
        assert!(path.starts_with("/volumes/s/"), "{}", path);
    }
    for rel in ["..", "../a", "a/..", "a/../b", "/", "/a", "a/../../b"] {
        assert_eq!(d.resolve_path("s", rel), Err(format!("path escapes the server volume: {}", rel)));
    }
    assert_eq!(d.backup_path("s", "b"), Ok("/backups/s/b".to_string()));
    assert_eq!(d.backups_dir("s"), "/backups/s");
}
