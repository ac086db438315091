use sky_daemon::backups::BackupFile;
use sky_daemon::dispatcher::{Dispatcher, Effect, Next, MAX_FILE_BYTES};
use sky_daemon::outcomes::{ArchiveFault, BackupsFault, ListFault, WriteFault};
use sky_daemon::payloads::{
    AckPayload, Action, ActionResult, CommandPayload, ContainerSpec, EventKind, EventPayload, FileEntry,
};
use sky_daemon::steps::{announce, Outcome};

fn new_dispatcher() -> Dispatcher {
    Dispatcher::new("/volumes".to_string(), "/backups".to_string())
}

fn command(action: Action) -> CommandPayload {
    CommandPayload {
        command_id: "cmd-1".into(),
        action,
        server_id: "server-1".into(),
        container_id: None,
        spec: Some(ContainerSpec { image: "test".into(), ..Default::default() }),
        image: Some("alpine:3".into()),
        input: Some("say hi".into()),
        path: Some("a.txt".into()),
        new_path: Some("b.txt".into()),
        content_base64: Some("aGk=".into()),
    }
}

/// Carries a command out, where its effects come to the given outcomes in turn.
/// Returns the effects, what the panel was told, and the answer.
fn run(
    d: &mut Dispatcher,
    cmd: &CommandPayload,
    outcomes: Vec<Outcome>,
) -> (Vec<String>, Vec<EventPayload>, AckPayload) {
    let mut effects = Vec::new();
    let mut events = Vec::new();
    let mut outcomes = outcomes.into_iter();
    let mut next = d.handle(cmd);
    loop {
        let effect = match next {
            Next::Reply(ack) => {
                assert!(outcomes.next().is_none(), "more outcomes than effects");
                assert_eq!(ack.command_id, "cmd-1");
                return (effects, events, ack);
            }
            Next::Do(effect) => effect,
        };
        effects.push(format!("{:?}", effect));
        events.extend(announce(cmd, &effect));
        let (event, following) = d.resume(cmd, effect, outcomes.next().expect("an outcome for each effect"));
        events.extend(event);
        next = following;
    }
}

fn said(events: &[EventPayload]) -> Vec<(EventKind, &str)> {
    for event in events {
        assert_eq!(event.server_id, "server-1");
    }
    events.iter().map(|e| (e.kind, e.message.as_str())).collect()
}

fn failure(action: Action, outcomes: Vec<Outcome>) -> String {
    let mut d = new_dispatcher();
    d.on_created(&command(Action::Create), Ok("c1".to_string()));
    d.on_attached(&command(Action::Start), true);
    let (_, events, ack) = run(&mut d, &command(action), outcomes);
    assert!(!ack.ok);
    assert!(ack.result.is_none());
    assert!(events.iter().all(|e| e.message.starts_with("pulling ")));
    assert_eq!(d.container_id_for_server("server-1"), Some("c1".to_string()));
    ack.error.unwrap()
}

#[test]
fn a_container_is_known_from_its_creation_to_its_removal() {
    let mut d = new_dispatcher();
    let (effects, events, ack) = run(&mut d, &command(Action::Create), vec![Outcome::Created(Ok("c1".into()))]);
    assert!(ack.ok && effects.len() == 1 && events.is_empty());
    assert_eq!(d.container_id_for_server("server-1"), Some("c1".to_string()));

    let outcomes = vec![Outcome::Done(Ok(())), Outcome::Attached(true)];
    let (effects, events, ack) = run(&mut d, &command(Action::Start), outcomes);
    assert!(ack.ok);
    assert_eq!(effects, vec!["StartContainer(\"c1\")".to_string(), "AttachConsole(\"c1\")".to_string()]);
    assert_eq!(said(&events), vec![(EventKind::StateChanged, "running")]);

    // The console is live, so that it is not attached to a second time.
    let (effects, _, ack) = run(&mut d, &command(Action::Start), vec![Outcome::Done(Ok(()))]);
    assert!(ack.ok && effects.len() == 1);

    let (_, events, ack) = run(&mut d, &command(Action::Stop), vec![Outcome::Done(Ok(()))]);
    assert!(ack.ok);
    assert_eq!(said(&events), vec![(EventKind::StateChanged, "offline")]);

    let (_, events, ack) = run(&mut d, &command(Action::Remove), vec![Outcome::Done(Ok(()))]);
    assert!(ack.ok && events.is_empty());
    assert_eq!(d.container_id_for_server("server-1"), None);
    let (effects, _, ack) = run(&mut d, &command(Action::Start), vec![]);
    assert!(!ack.ok && effects.is_empty());
}

#[test]
fn a_console_that_cannot_be_attached_to_does_not_fail_the_start() {
    let mut d = new_dispatcher();
    d.on_created(&command(Action::Create), Ok("c1".to_string()));
    let outcomes = vec![Outcome::Done(Ok(())), Outcome::Attached(false)];
    let (_, events, ack) = run(&mut d, &command(Action::Start), outcomes);
    assert!(ack.ok);
    assert_eq!(said(&events), vec![(EventKind::StateChanged, "running")]);
    let (effects, _, ack) = run(&mut d, &command(Action::ConsoleInput), vec![]);
    assert!(effects.is_empty());
    assert_eq!(ack.error.unwrap(), "no active console session for server server-1");
}

#[test]
fn a_console_that_has_ended_meanwhile_is_refused_in_the_same_words() {
    assert_eq!(
        failure(Action::ConsoleInput, vec![Outcome::NoConsole]),
        "no active console session for server server-1"
    );
    assert_eq!(failure(Action::ConsoleInput, vec![Outcome::Done(Err("broken pipe".into()))]), "broken pipe");
}

#[test]
fn a_pull_tells_of_its_start_and_its_end() {
    let mut d = new_dispatcher();
    let (_, events, ack) = run(&mut d, &command(Action::PullImage), vec![Outcome::Done(Ok(()))]);
    assert!(ack.ok);
    assert_eq!(
        said(&events),
        vec![(EventKind::ConsoleLine, "pulling alpine:3…"), (EventKind::ConsoleLine, "alpine:3 ready")]
    );
}

#[test]
fn a_failed_effect_is_told_and_changes_nothing() {
    let err = || Outcome::Done(Err("no such container".into()));
    assert_eq!(failure(Action::Create, vec![Outcome::Created(Err("no image".into()))]), "no image");
    assert_eq!(failure(Action::Start, vec![err()]), "no such container");
    assert_eq!(failure(Action::Stop, vec![err()]), "no such container");
    assert_eq!(failure(Action::Kill, vec![err()]), "no such container");
    assert_eq!(failure(Action::Remove, vec![err()]), "no such container");
    assert_eq!(failure(Action::PullImage, vec![err()]), "no such container");
    assert_eq!(failure(Action::ListFiles, vec![Outcome::Listed(Err(ListFault::Open))]), "list files");
    assert_eq!(failure(Action::ReadFile, vec![Outcome::Measured(None)]), "stat file");
    assert_eq!(
        failure(Action::ReadFile, vec![Outcome::Measured(Some(MAX_FILE_BYTES + 1))]),
        "file is too large for the command channel (10485761 bytes, max 10485760)"
    );
    assert_eq!(failure(Action::ReadFile, vec![Outcome::Measured(Some(2)), Outcome::Read(None)]), "read file");
    assert_eq!(failure(Action::WriteFile, vec![Outcome::Written(Some(WriteFault::Write))]), "write file");
    assert_eq!(failure(Action::RenameFile, vec![Outcome::Succeeded(false)]), "rename file");
    assert_eq!(failure(Action::DeleteFile, vec![Outcome::Classified(None)]), "stat path");
    assert_eq!(
        failure(Action::DeleteFile, vec![Outcome::Classified(Some(true)), Outcome::Succeeded(false)]),
        "delete directory"
    );
    assert_eq!(
        failure(Action::DeleteFile, vec![Outcome::Classified(Some(false)), Outcome::Succeeded(false)]),
        "delete file"
    );
    assert_eq!(failure(Action::Mkdir, vec![Outcome::Succeeded(false)]), "create directory");
    assert_eq!(failure(Action::Backup, vec![Outcome::BackupDirectory(false, 7)]), "create backups directory");
    assert_eq!(
        failure(
            Action::Backup,
            vec![Outcome::BackupDirectory(true, 7), Outcome::Archived(Err(ArchiveFault::Panicked))]
        ),
        "backup task panicked"
    );
    assert_eq!(failure(Action::ListBackups, vec![Outcome::Backups(Err(BackupsFault::Open))]), "list backups");
    assert_eq!(
        failure(Action::RestoreBackup, vec![Outcome::Restored(Some(ArchiveFault::Failed))]),
        "restore backup archive"
    );
    assert_eq!(failure(Action::DeleteBackup, vec![Outcome::Succeeded(false)]), "delete backup archive");
}

#[test]
fn commands_on_files_hand_back_what_was_found() {
    let mut d = new_dispatcher();
    let entry = FileEntry { name: "a.txt".into(), is_dir: false, size_bytes: 2 };
    let (_, _, ack) = run(&mut d, &command(Action::ListFiles), vec![Outcome::Listed(Ok(vec![entry]))]);
    match ack.result {
        Some(ActionResult::Files(list)) => assert_eq!(list.entries[0].name, "a.txt"),
        other => panic!("unexpected {:?}", other),
    }

    let outcomes = vec![Outcome::Measured(Some(2)), Outcome::Read(Some(b"hi".to_vec()))];
    let (effects, _, ack) = run(&mut d, &command(Action::ReadFile), outcomes);
    assert_eq!(effects[1], "ReadFile(\"/volumes/server-1/a.txt\")");
    match ack.result {
        Some(ActionResult::File(file)) => {
            assert_eq!(file.content_base64, "aGk=");
            assert_eq!(file.size_bytes, 2);
        }
        other => panic!("unexpected {:?}", other),
    }

    assert!(run(&mut d, &command(Action::WriteFile), vec![Outcome::Written(None)]).2.ok);
    assert!(run(&mut d, &command(Action::RenameFile), vec![Outcome::Succeeded(true)]).2.ok);
    assert!(run(&mut d, &command(Action::Mkdir), vec![Outcome::Succeeded(true)]).2.ok);
    let outcomes = vec![Outcome::Classified(Some(true)), Outcome::Succeeded(true)];
    let (effects, _, ack) = run(&mut d, &command(Action::DeleteFile), outcomes);
    assert!(ack.ok);
    assert_eq!(effects[1], "RemoveDirectory(\"/volumes/server-1/a.txt\")");
}

#[test]
fn commands_on_backups_are_carried_out_to_their_end() {
    let mut d = new_dispatcher();
    let outcomes = vec![Outcome::BackupDirectory(true, 1_700_000_000), Outcome::Archived(Ok(42))];
    let (_, events, ack) = run(&mut d, &command(Action::Backup), outcomes);
    assert_eq!(said(&events), vec![(EventKind::BackupDone, "backup-1700000000.tar.zst")]);
    match ack.result {
        Some(ActionResult::Backup(made)) => {
            assert_eq!(made.filename, "backup-1700000000.tar.zst");
            assert_eq!(made.size_bytes, 42);
        }
        other => panic!("unexpected {:?}", other),
    }

    let file = BackupFile {
        filename: "backup-1.tar.zst".into(),
        is_file: true,
        size_bytes: 9,
        modified: Some(1),
    };
    let (_, _, ack) = run(&mut d, &command(Action::ListBackups), vec![Outcome::Backups(Ok(vec![file]))]);
    match ack.result {
        Some(ActionResult::Backups(list)) => assert_eq!(list.backups[0].filename, "backup-1.tar.zst"),
        other => panic!("unexpected {:?}", other),
    }
    let missing = vec![Outcome::Backups(Err(BackupsFault::Missing))];
    match run(&mut d, &command(Action::ListBackups), missing).2.result {
        Some(ActionResult::Backups(list)) => assert!(list.backups.is_empty()),
        other => panic!("unexpected {:?}", other),
    }
    assert!(run(&mut d, &command(Action::RestoreBackup), vec![Outcome::Restored(None)]).2.ok);
    assert!(run(&mut d, &command(Action::DeleteBackup), vec![Outcome::Succeeded(true)]).2.ok);
}

#[test]
fn the_last_container_created_or_removed_counts() {
    let mut d = new_dispatcher();
    let other = CommandPayload { server_id: "server-2".into(), ..command(Action::Create) };
    run(&mut d, &command(Action::Create), vec![Outcome::Created(Ok("c1".into()))]);
    run(&mut d, &other, vec![Outcome::Created(Ok("d1".into()))]);
    run(&mut d, &command(Action::Create), vec![Outcome::Created(Ok("c2".into()))]);
    run(&mut d, &command(Action::Create), vec![Outcome::Created(Err("no image".into()))]);
    assert_eq!(d.container_id_for_server("server-1"), Some("c2".to_string()));
    run(&mut d, &command(Action::Remove), vec![Outcome::Done(Ok(()))]);
    assert_eq!(d.container_id_for_server("server-1"), None);
    assert_eq!(d.container_id_for_server("server-2"), Some("d1".to_string()));
}
