//! Carrying a command out step by step: what an effect comes to, and what
//! follows from that.

use vstd::prelude::*;

use crate::acks;
use crate::backups::{self, BackupFile};
use crate::content;
use crate::dispatcher::{self, Dispatcher, Effect, Next, MAX_FILE_BYTES};
use crate::outcomes::{self, ArchiveFault, BackupsFault, ListFault, WriteFault};
use crate::paths;
use crate::payloads::{
    AckPayload, Action, ActionResult, BackupResult, CommandPayload, EventKind, EventPayload, FileEntry, ListFilesResult,
};
use crate::text;

verus! {

/// What an effect came to.
#[derive(Debug)]
pub enum Outcome {
    /// A container was created, under the given identifier, or could not be.
    Created(Result<String, String>),
    /// It was done, or failed in the given words.
    Done(Result<(), String>),
    /// There is no live console to write to any more.
    NoConsole,
    /// Whether a console was attached to.
    Attached(bool),
    Listed(Result<Vec<FileEntry>, ListFault>),
    /// How long a file is, if that could be found out.
    Measured(Option<u64>),
    /// What a file holds, if it could be read.
    Read(Option<Vec<u8>>),
    /// Where the writing of a file failed, if it did.
    Written(Option<WriteFault>),
    /// Whether it was done.
    Succeeded(bool),
    /// Whether a path is a directory, if that could be found out.
    Classified(Option<bool>),
    /// Whether the directory for backups is there, and the time in Unix seconds.
    BackupDirectory(bool, u64),
    /// How long an archive is, or why it could not be made.
    Archived(Result<u64, ArchiveFault>),
    Backups(Result<Vec<BackupFile>, BackupsFault>),
    /// Why a backup could not be restored, if it could not.
    Restored(Option<ArchiveFault>),
}

/// Whether an effect can come to an outcome. What is read of a file has to fit in
/// memory as text.
pub open spec fn fits(effect: Effect, outcome: Outcome) -> bool {
    match effect {
        Effect::CreateContainer(_) => outcome is Created,
        Effect::StartContainer(_) => outcome is Done,
        Effect::StopContainer(_, _) => outcome is Done,
        Effect::KillContainer(_) => outcome is Done,
        Effect::RemoveContainer(_) => outcome is Done,
        Effect::AttachConsole(_) => outcome is Attached,
        Effect::PullImage(_) => outcome is Done,
        Effect::WriteConsole(_) => outcome is Done || outcome is NoConsole,
        Effect::ListDirectory(_) => outcome is Listed,
        Effect::MeasureFile(_) => outcome is Measured,
        Effect::ReadFile(_) => outcome matches Outcome::Read(bytes) && (bytes matches Some(b) ==> (b@.len() + 2) / 3
            * 4 <= isize::MAX),
        Effect::WriteFile(_, _) => outcome is Written,
        Effect::Rename(_, _) => outcome is Succeeded,
        Effect::ClassifyPath(_) => outcome is Classified,
        Effect::RemoveDirectory(_) => outcome is Succeeded,
        Effect::RemoveFile(_) => outcome is Succeeded,
        Effect::CreateDirectory(_) => outcome is Succeeded,
        Effect::CreateBackupDirectory(_) => outcome is BackupDirectory,
        Effect::ArchiveVolume(_) => outcome is Archived,
        Effect::ListBackups(_) => outcome is Backups,
        Effect::RestoreArchive(_, _) => outcome is Restored,
        Effect::RemoveArchive(_) => outcome is Succeeded,
    }
}

/// What is known of containers once an effect has come to an outcome: only a
/// container that was created or removed changes it.
pub open spec fn containers_after(
    containers: Map<Seq<char>, String>,
    cmd: CommandPayload,
    effect: Effect,
    outcome: Outcome,
) -> Map<Seq<char>, String> {
    match (effect, outcome) {
        (Effect::CreateContainer(_), Outcome::Created(Ok(id))) => containers.insert(cmd.server_id@, id),
        (Effect::RemoveContainer(_), Outcome::Done(Ok(_))) => containers.remove(cmd.server_id@),
        _ => containers,
    }
}

/// Which servers have a live console once an effect has come to an outcome.
pub open spec fn consoles_after(
    consoles: Map<Seq<char>, ()>,
    cmd: CommandPayload,
    effect: Effect,
    outcome: Outcome,
) -> Map<Seq<char>, ()> {
    match (effect, outcome) {
        (Effect::AttachConsole(_), Outcome::Attached(true)) => consoles.insert(cmd.server_id@, ()),
        (Effect::RemoveContainer(_), Outcome::Done(Ok(_))) => consoles.remove(cmd.server_id@),
        _ => consoles,
    }
}

/// Whether a command is answered as having succeeded, with nothing to hand back.
pub open spec fn accepted(next: Next, cmd: CommandPayload) -> bool {
    next matches Next::Reply(ack) && acks::accepts(ack, cmd)
}

/// Whether a command is answered by whether its effect succeeded, where only the
/// given words are told of a failure.
pub open spec fn concluded(next: Next, cmd: CommandPayload, succeeded: bool, error: Seq<char>) -> bool {
    if succeeded {
        accepted(next, cmd)
    } else {
        dispatcher::turned_down(next, cmd, error)
    }
}

/// Whether a command is answered by how its effect went, where a failure is
/// passed on in its own words.
pub open spec fn concluded_with(next: Next, cmd: CommandPayload, outcome: Result<(), String>) -> bool {
    match outcome {
        Ok(_) => accepted(next, cmd),
        Err(e) => dispatcher::turned_down(next, cmd, e@),
    }
}

/// Whether the panel is told that a server's state has changed.
pub open spec fn tells_state(event: Option<EventPayload>, cmd: CommandPayload, state: Seq<char>) -> bool {
    event matches Some(event) && acks::tells(event, cmd.server_id, EventKind::StateChanged, state)
}

/// Whether a dispatcher goes on rightly with a command on a container, once its
/// effect has come to an outcome.
pub open spec fn goes_on_with_container(
    d: Dispatcher,
    cmd: CommandPayload,
    effect: Effect,
    outcome: Outcome,
    event: Option<EventPayload>,
    next: Next,
) -> bool {
    match (effect, outcome) {
        (Effect::CreateContainer(_), Outcome::Created(Ok(_))) => event is None && accepted(next, cmd),
        (Effect::CreateContainer(_), Outcome::Created(Err(e))) => event is None && dispatcher::turned_down(
            next,
            cmd,
            e@,
        ),
        (Effect::StartContainer(id), Outcome::Done(Ok(_))) => {
            &&& tells_state(event, cmd, "running"@)
            &&& if d.consoles@.contains_key(cmd.server_id@) {
                accepted(next, cmd)
            } else {
                next matches Next::Do(Effect::AttachConsole(given)) && given == id
            }
        },
        (Effect::StartContainer(_), Outcome::Done(Err(e))) => event is None && dispatcher::turned_down(next, cmd, e@),
        (Effect::StopContainer(_, _), Outcome::Done(done)) => {
            &&& concluded_with(next, cmd, done)
            &&& if done is Ok {
                tells_state(event, cmd, "offline"@)
            } else {
                event is None
            }
        },
        (Effect::KillContainer(_), Outcome::Done(done)) => {
            &&& concluded_with(next, cmd, done)
            &&& if done is Ok {
                tells_state(event, cmd, "offline"@)
            } else {
                event is None
            }
        },
        (Effect::RemoveContainer(_), Outcome::Done(done)) => event is None && concluded_with(next, cmd, done),
        (Effect::AttachConsole(_), Outcome::Attached(_)) => event is None && accepted(next, cmd),
        (Effect::PullImage(image), Outcome::Done(done)) => {
            &&& concluded_with(next, cmd, done)
            &&& if done is Ok {
                outcomes::tells_progress(event, cmd, image@ + " ready"@)
            } else {
                event is None
            }
        },
        (Effect::WriteConsole(_), Outcome::Done(done)) => event is None && concluded_with(next, cmd, done),
        (Effect::WriteConsole(_), Outcome::NoConsole) => event is None && dispatcher::turned_down(
            next,
            cmd,
            "no active console session for server "@ + cmd.server_id@,
        ),
        _ => true,
    }
}

/// Whether a dispatcher goes on rightly with a command on files, once its effect
/// has come to an outcome.
pub open spec fn goes_on_with_files(cmd: CommandPayload, effect: Effect, outcome: Outcome, next: Next) -> bool {
    match (effect, outcome) {
        (Effect::ListDirectory(_), Outcome::Listed(listed)) => match listed {
            Ok(entries) => next matches Next::Reply(ack) && acks::answers(ack, cmd) && ack.result == Some(
                ActionResult::Files((ListFilesResult { entries })),
            ),
            Err(ListFault::Open) => dispatcher::turned_down(next, cmd, "list files"@),
            Err(ListFault::Entry) => dispatcher::turned_down(next, cmd, "read directory entry"@),
            Err(ListFault::Metadata) => dispatcher::turned_down(next, cmd, "read entry metadata"@),
        },
        (Effect::MeasureFile(path), Outcome::Measured(length)) => match length {
            None => dispatcher::turned_down(next, cmd, "stat file"@),
            Some(n) => if n > MAX_FILE_BYTES {
                dispatcher::turned_down(next, cmd, dispatcher::too_large_text(n as int))
            } else {
                next matches Next::Do(Effect::ReadFile(p)) && p == path
            },
        },
        (Effect::ReadFile(_), Outcome::Read(bytes)) => match bytes {
            None => dispatcher::turned_down(next, cmd, "read file"@),
            Some(b) => next matches Next::Reply(ack) && outcomes::hands_back(ack, cmd, b@),
        },
        (Effect::WriteFile(_, _), Outcome::Written(fault)) => match fault {
            None => accepted(next, cmd),
            Some(WriteFault::Parent) => dispatcher::turned_down(next, cmd, "create parent directory"@),
            Some(WriteFault::Write) => dispatcher::turned_down(next, cmd, "write file"@),
        },
        (Effect::Rename(_, _), Outcome::Succeeded(done)) => concluded(next, cmd, done, "rename file"@),
        (Effect::ClassifyPath(path), Outcome::Classified(is_dir)) => match is_dir {
            None => dispatcher::turned_down(next, cmd, "stat path"@),
            Some(true) => next matches Next::Do(Effect::RemoveDirectory(p)) && p == path,
            Some(false) => next matches Next::Do(Effect::RemoveFile(p)) && p == path,
        },
        (Effect::RemoveDirectory(_), Outcome::Succeeded(done)) => concluded(next, cmd, done, "delete directory"@),
        (Effect::RemoveFile(_), Outcome::Succeeded(done)) => concluded(next, cmd, done, "delete file"@),
        (Effect::CreateDirectory(_), Outcome::Succeeded(done)) => concluded(next, cmd, done, "create directory"@),
        _ => true,
    }
}

/// Whether a dispatcher goes on rightly with a command on backups, once its
/// effect has come to an outcome.
pub open spec fn goes_on_with_backups(
    d: Dispatcher,
    cmd: CommandPayload,
    effect: Effect,
    outcome: Outcome,
    event: Option<EventPayload>,
    next: Next,
) -> bool {
    match (effect, outcome) {
        (Effect::CreateBackupDirectory(_), Outcome::BackupDirectory(created, now_secs)) => {
            &&& event is None
            &&& if created {
                next matches Next::Do(Effect::ArchiveVolume(plan)) && {
                    &&& plan.filename@ == "backup-"@ + text::decimal(now_secs as nat) + ".tar.zst"@
                    &&& plan.source@ == dispatcher::volume_of(d.volumes_root@, cmd.server_id@)
                    &&& plan.target@ == paths::joined(d.backups_of(cmd.server_id@), plan.filename@)
                }
            } else {
                dispatcher::turned_down(next, cmd, "create backups directory"@)
            }
        },
        (Effect::ArchiveVolume(plan), Outcome::Archived(archived)) => match archived {
            Ok(size_bytes) => {
                &&& event matches Some(event) && acks::tells(
                    event,
                    cmd.server_id,
                    EventKind::BackupDone,
                    plan.filename@,
                )
                &&& next matches Next::Reply(ack) && acks::answers(ack, cmd) && ack.result == Some(
                    ActionResult::Backup((BackupResult { filename: plan.filename, size_bytes })),
                )
            },
            Err(ArchiveFault::Panicked) => event is None && dispatcher::turned_down(
                next,
                cmd,
                "backup task panicked"@,
            ),
            Err(ArchiveFault::Failed) => event is None && dispatcher::turned_down(next, cmd, "create backup archive"@),
        },
        (Effect::ListBackups(_), Outcome::Backups(listed)) => {
            &&& event is None
            &&& match listed {
                Ok(files) => next matches Next::Reply(ack) && acks::answers(ack, cmd) && (ack.result matches Some(
                    ActionResult::Backups(list),
                ) && backups::sorted_from(list.backups@, backups::entries_of(files@))),
                Err(BackupsFault::Missing) => next matches Next::Reply(ack) && acks::answers(ack, cmd) && (
                ack.result matches Some(ActionResult::Backups(list)) && list.backups@.len() == 0),
                Err(BackupsFault::Open) => dispatcher::turned_down(next, cmd, "list backups"@),
                Err(BackupsFault::Entry) => dispatcher::turned_down(next, cmd, "read backup entry"@),
                Err(BackupsFault::Metadata) => dispatcher::turned_down(next, cmd, "stat backup"@),
            }
        },
        (Effect::RestoreArchive(_, _), Outcome::Restored(fault)) => {
            &&& event is None
            &&& match fault {
                None => accepted(next, cmd),
                Some(ArchiveFault::Panicked) => dispatcher::turned_down(next, cmd, "restore task panicked"@),
                Some(ArchiveFault::Failed) => dispatcher::turned_down(next, cmd, "restore backup archive"@),
            }
        },
        (Effect::RemoveArchive(_), Outcome::Succeeded(done)) => event is None && concluded(
            next,
            cmd,
            done,
            "delete backup archive"@,
        ),
        _ => true,
    }
}

/// Whether an effect is one of a command on files.
pub open spec fn is_on_files(effect: Effect) -> bool {
    match effect {
        Effect::ListDirectory(_) => true,
        Effect::MeasureFile(_) => true,
        Effect::ReadFile(_) => true,
        Effect::WriteFile(_, _) => true,
        Effect::Rename(_, _) => true,
        Effect::ClassifyPath(_) => true,
        Effect::RemoveDirectory(_) => true,
        Effect::RemoveFile(_) => true,
        Effect::CreateDirectory(_) => true,
        _ => false,
    }
}

/// Whether a dispatcher goes on rightly with a command once its effect has come
/// to an outcome: what it tells the panel, and what comes next.
pub open spec fn goes_on(
    d: Dispatcher,
    cmd: CommandPayload,
    effect: Effect,
    outcome: Outcome,
    event: Option<EventPayload>,
    next: Next,
) -> bool {
    &&& goes_on_with_container(d, cmd, effect, outcome, event, next)
    &&& goes_on_with_files(cmd, effect, outcome, next)
    &&& is_on_files(effect) ==> event is None
    &&& goes_on_with_backups(d, cmd, effect, outcome, event, next)
}

/// Whether what is told the panel before an effect is right: that an image is
/// being pulled, and nothing else.
pub open spec fn announces(event: Option<EventPayload>, cmd: CommandPayload, effect: Effect) -> bool {
    match effect {
        Effect::PullImage(image) => outcomes::tells_progress(event, cmd, "pulling "@ + image@ + "…"@),
        _ => event is None,
    }
}

/// Tells the panel of an effect before it is carried out.
pub fn announce(cmd: &CommandPayload, effect: &Effect) -> (event: Option<EventPayload>)
    ensures
        announces(event, *cmd, *effect),
{
    match effect {
        Effect::PullImage(image) => outcomes::pull_started(cmd, image.as_str()),
        _ => None,
    }
}

/// Answers a command that writes to a console which has ended meanwhile.
fn on_no_console(cmd: &CommandPayload) -> (out: AckPayload)
    ensures
        acks::refuses(out, *cmd, "no active console session for server "@ + cmd.server_id@),
{
    let mut e: String = "no active console session for server ".to_owned();
    e.append(cmd.server_id.as_str());
    acks::refused(cmd, e.as_str())
}

impl Dispatcher {
    /// Goes on with a command once its effect has come to an outcome: notes what
    /// has changed, and says what the panel is told and what comes next.
    pub fn resume<'a>(&mut self, cmd: &CommandPayload, effect: Effect<'a>, outcome: Outcome) -> (out: (
        Option<EventPayload>,
        Next<'a>,
    ))
        requires
            fits(effect, outcome),
        ensures
            goes_on(*old(self), *cmd, effect, outcome, out.0, out.1),
            final(self).containers@ == containers_after(old(self).containers@, *cmd, effect, outcome),
            final(self).consoles@ == consoles_after(old(self).consoles@, *cmd, effect, outcome),
            final(self).volumes_root == old(self).volumes_root,
            final(self).backups_root == old(self).backups_root,
    {
        match (effect, outcome) {
            (Effect::CreateContainer(_), Outcome::Created(done)) => (None, Next::Reply(self.on_created(cmd, done))),
            (Effect::StartContainer(id), Outcome::Done(done)) => self.on_started(cmd, id, done),
            (Effect::StopContainer(_, _), Outcome::Done(done)) => {
                let (event, ack) = outcomes::on_stopped(cmd, done);
                (event, Next::Reply(ack))
            },
            (Effect::KillContainer(_), Outcome::Done(done)) => {
                let (event, ack) = outcomes::on_stopped(cmd, done);
                (event, Next::Reply(ack))
            },
            (Effect::RemoveContainer(_), Outcome::Done(done)) => (None, Next::Reply(self.on_removed(cmd, done))),
            (Effect::AttachConsole(_), Outcome::Attached(attached)) => (
                None,
                Next::Reply(self.on_attached(cmd, attached)),
            ),
            (Effect::PullImage(image), Outcome::Done(done)) => {
                let (event, ack) = outcomes::on_pulled(cmd, image.as_str(), done);
                (event, Next::Reply(ack))
            },
            (Effect::WriteConsole(_), Outcome::Done(done)) => (None, Next::Reply(acks::concluded_with(cmd, done))),
            (Effect::WriteConsole(_), Outcome::NoConsole) => (None, Next::Reply(on_no_console(cmd))),
            (Effect::ListDirectory(_), Outcome::Listed(listed)) => (
                None,
                Next::Reply(outcomes::on_listed(cmd, listed)),
            ),
            (Effect::MeasureFile(path), Outcome::Measured(length)) => (
                None,
                outcomes::on_measured(cmd, path, length),
            ),
            (Effect::ReadFile(_), Outcome::Read(bytes)) => (None, Next::Reply(outcomes::on_read(cmd, bytes))),
            (Effect::WriteFile(_, _), Outcome::Written(fault)) => (
                None,
                Next::Reply(outcomes::on_written(cmd, fault)),
            ),
            (Effect::Rename(_, _), Outcome::Succeeded(done)) => (None, Next::Reply(outcomes::on_renamed(cmd, done))),
            (Effect::ClassifyPath(path), Outcome::Classified(is_dir)) => (
                None,
                outcomes::on_classified(cmd, path, is_dir),
            ),
            (Effect::RemoveDirectory(_), Outcome::Succeeded(done)) => (
                None,
                Next::Reply(outcomes::on_deleted(cmd, true, done)),
            ),
            (Effect::RemoveFile(_), Outcome::Succeeded(done)) => (
                None,
                Next::Reply(outcomes::on_deleted(cmd, false, done)),
            ),
            (Effect::CreateDirectory(_), Outcome::Succeeded(done)) => (
                None,
                Next::Reply(outcomes::on_directory_created(cmd, done)),
            ),
            (Effect::CreateBackupDirectory(_), Outcome::BackupDirectory(created, now_secs)) => (
                None,
                self.on_backup_directory(cmd, created, now_secs),
            ),
            (Effect::ArchiveVolume(plan), Outcome::Archived(archived)) => {
                let (event, ack) = outcomes::on_archived(cmd, plan.filename, archived);
                (event, Next::Reply(ack))
            },
            (Effect::ListBackups(_), Outcome::Backups(listed)) => (
                None,
                Next::Reply(outcomes::on_backups_listed(cmd, listed)),
            ),
            (Effect::RestoreArchive(_, _), Outcome::Restored(fault)) => (
                None,
                Next::Reply(outcomes::on_restored(cmd, fault)),
            ),
            (Effect::RemoveArchive(_), Outcome::Succeeded(done)) => (
                None,
                Next::Reply(outcomes::on_archive_removed(cmd, done)),
            ),
            _ => vstd::pervasive::unreached(),
        }
    }
}

/// Whether a command is carried out in the given way: what comes first of it, and
/// after each effect what comes next, given what the effect came to and what the
/// dispatcher knew by then. Other commands may have been carried out meanwhile.
pub open spec fn carried_out(
    cmd: CommandPayload,
    known: Seq<Dispatcher>,
    nexts: Seq<Next>,
    outcomes: Seq<Outcome>,
    events: Seq<Option<EventPayload>>,
) -> bool {
    &&& nexts.len() == outcomes.len() + 1
    &&& known.len() == nexts.len()
    &&& events.len() == outcomes.len()
    &&& known[0].begins(cmd, nexts[0])
    &&& forall|i: int|
        0 <= i < outcomes.len() ==> {
            &&& nexts[i] is Do
            &&& fits(nexts[i]->Do_0, #[trigger] outcomes[i])
            &&& goes_on(known[i + 1], cmd, nexts[i]->Do_0, outcomes[i], events[i], nexts[i + 1])
        }
}

/// Whether an effect is one of those that another may follow.
spec fn may_go_on(effect: Effect) -> bool {
    effect is StartContainer || effect is MeasureFile || effect is ClassifyPath || effect is CreateBackupDirectory
}

/// A command calls for two effects at most; then it is answered.
pub proof fn law_command_ends_after_two_effects(
    cmd: CommandPayload,
    known: Seq<Dispatcher>,
    nexts: Seq<Next>,
    outcomes: Seq<Outcome>,
    events: Seq<Option<EventPayload>>,
)
    requires
        carried_out(cmd, known, nexts, outcomes, events),
    ensures
        outcomes.len() <= 2,
        outcomes.len() == 2 ==> nexts[2] is Reply,
{
    if outcomes.len() >= 2 {
        assert(fits(nexts[0]->Do_0, outcomes[0]));
        assert(nexts[1] is Do && !may_go_on(nexts[1]->Do_0)) by {
            assert(fits(nexts[1]->Do_0, outcomes[1]));
        }
        assert(fits(nexts[1]->Do_0, outcomes[1]));
        assert(nexts[2] is Reply);
        if outcomes.len() > 2 {
            assert(fits(nexts[2]->Do_0, outcomes[2]));
        }
    }
}

/// Whatever a command is answered, the answer names the command.
pub proof fn law_answer_names_its_command(
    cmd: CommandPayload,
    known: Seq<Dispatcher>,
    nexts: Seq<Next>,
    outcomes: Seq<Outcome>,
    events: Seq<Option<EventPayload>>,
)
    requires
        carried_out(cmd, known, nexts, outcomes, events),
        nexts.last() is Reply,
    ensures
        nexts.last()->Reply_0.command_id == cmd.command_id,
{
    let n = outcomes.len() as int;
    if n > 0 {
        assert(fits(nexts[n - 1]->Do_0, outcomes[n - 1]));
    }
}

/// Whether an effect has been carried out as its command wants it. A server whose
/// console could not be attached to runs all the same, and no directory for
/// backups means that there are none.
pub open spec fn succeeded(outcome: Outcome) -> bool {
    match outcome {
        Outcome::Created(done) => done is Ok,
        Outcome::Done(done) => done is Ok,
        Outcome::NoConsole => false,
        Outcome::Attached(_) => true,
        Outcome::Listed(listed) => listed is Ok,
        Outcome::Measured(length) => length matches Some(n) && n <= MAX_FILE_BYTES,
        Outcome::Read(bytes) => bytes is Some,
        Outcome::Written(fault) => fault is None,
        Outcome::Succeeded(done) => done,
        Outcome::Classified(is_dir) => is_dir is Some,
        Outcome::BackupDirectory(created, _) => created,
        Outcome::Archived(archived) => archived is Ok,
        Outcome::Backups(listed) => listed is Ok || listed == Err::<Vec<BackupFile>, BackupsFault>(
            BackupsFault::Missing,
        ),
        Outcome::Restored(fault) => fault is None,
    }
}

/// A command is answered as having succeeded exactly if it called for something
/// and the last thing that it called for succeeded.
pub proof fn law_answer_tells_how_it_went(
    cmd: CommandPayload,
    known: Seq<Dispatcher>,
    nexts: Seq<Next>,
    outcomes: Seq<Outcome>,
    events: Seq<Option<EventPayload>>,
)
    requires
        carried_out(cmd, known, nexts, outcomes, events),
        nexts.last() is Reply,
    ensures
        nexts.last()->Reply_0.ok <==> (outcomes.len() > 0 && succeeded(outcomes.last())),
{
    let n = outcomes.len() as int;
    if n == 0 {
        dispatcher::law_early_answers_are_refusals(known[0], cmd, nexts[0]);
    } else {
        assert(fits(nexts[n - 1]->Do_0, outcomes[n - 1]));
    }
}

/// Over a whole command, what is known of containers changes only by a container
/// that a create command created or a remove command removed, and only for the
/// command's server.
pub proof fn law_containers_change_only_by_create_and_remove(
    cmd: CommandPayload,
    known: Seq<Dispatcher>,
    nexts: Seq<Next>,
    outcomes: Seq<Outcome>,
    events: Seq<Option<EventPayload>>,
    i: int,
    containers: Map<Seq<char>, String>,
)
    requires
        carried_out(cmd, known, nexts, outcomes, events),
        0 <= i < outcomes.len(),
    ensures
        containers_after(containers, cmd, nexts[i]->Do_0, outcomes[i]) == (match (cmd.action, outcomes[i]) {
            (Action::Create, Outcome::Created(Ok(id))) => containers.insert(cmd.server_id@, id),
            (Action::Remove, Outcome::Done(Ok(_))) => containers.remove(cmd.server_id@),
            _ => containers,
        }),
{
    law_command_ends_after_two_effects(cmd, known, nexts, outcomes, events);
    assert(fits(nexts[0]->Do_0, outcomes[0]));
    if i == 1 {
        assert(fits(nexts[1]->Do_0, outcomes[1]));
    }
}

/// What is known of containers after effects of any commands have come to their
/// outcomes, one after the other.
pub open spec fn containers_after_all(
    containers: Map<Seq<char>, String>,
    steps: Seq<(CommandPayload, Effect, Outcome)>,
) -> Map<Seq<char>, String>
    decreases steps.len(),
{
    if steps.len() == 0 {
        containers
    } else {
        let step = steps.last();
        containers_after(containers_after_all(containers, steps.drop_last()), step.0, step.1, step.2)
    }
}

/// What the last container that was created or removed for a server left: the
/// created one, or none.
pub open spec fn last_change(
    steps: Seq<(CommandPayload, Effect, Outcome)>,
    server_id: Seq<char>,
) -> Option<Option<String>>
    decreases steps.len(),
{
    if steps.len() == 0 {
        None
    } else {
        let earlier = last_change(steps.drop_last(), server_id);
        let step = steps.last();
        if step.0.server_id@ != server_id {
            earlier
        } else {
            match (step.1, step.2) {
                (Effect::CreateContainer(_), Outcome::Created(Ok(id))) => Some(Some(id)),
                (Effect::RemoveContainer(_), Outcome::Done(Ok(_))) => Some(None),
                _ => earlier,
            }
        }
    }
}

/// However the commands of several servers are carried out, what is known of a
/// server's container is what the last container that was created or removed for
/// it left, or else what was known before.
pub proof fn law_last_create_or_remove_counts(
    containers: Map<Seq<char>, String>,
    steps: Seq<(CommandPayload, Effect, Outcome)>,
    server_id: Seq<char>,
)
    ensures
        match last_change(steps, server_id) {
            Some(Some(id)) => {
                &&& containers_after_all(containers, steps).contains_key(server_id)
                &&& containers_after_all(containers, steps)[server_id] == id
            },
            Some(None) => !containers_after_all(containers, steps).contains_key(server_id),
            None => {
                &&& containers_after_all(containers, steps).contains_key(server_id) == containers.contains_key(
                    server_id,
                )
                &&& containers.contains_key(server_id) ==> containers_after_all(containers, steps)[server_id]
                    == containers[server_id]
            },
        },
    decreases steps.len(),
{
    if steps.len() > 0 {
        law_last_create_or_remove_counts(containers, steps.drop_last(), server_id);
    }
}

/// The panel is told of what happens to a server's container: that it runs once it
/// was started, that it is offline once it was stopped or killed, on the console
/// that an image is ready, and of nothing where that failed.
pub proof fn law_panel_is_told_what_happened(
    d: Dispatcher,
    cmd: CommandPayload,
    effect: Effect,
    outcome: Outcome,
    event: Option<EventPayload>,
    next: Next,
)
    requires
        fits(effect, outcome),
        goes_on(d, cmd, effect, outcome, event, next),
    ensures
        effect is StartContainer && outcome->Done_0 is Ok ==> (event matches Some(e) && e.server_id == cmd.server_id
            && e.kind == EventKind::StateChanged && e.message@ == "running"@),
        (effect is StopContainer || effect is KillContainer) && outcome->Done_0 is Ok ==> (event matches Some(e)
            && e.server_id == cmd.server_id && e.kind == EventKind::StateChanged && e.message@ == "offline"@),
        effect is PullImage && outcome->Done_0 is Ok && cmd.server_id@.len() > 0 ==> (event matches Some(e)
            && e.server_id == cmd.server_id && e.kind == EventKind::ConsoleLine && e.message@
            == effect->PullImage_0@ + " ready"@),
        effect is ArchiveVolume && outcome->Archived_0 is Ok ==> (event matches Some(e) && e.server_id
            == cmd.server_id && e.kind == EventKind::BackupDone && e.message@
            == effect->ArchiveVolume_0.filename@),
        !succeeded(outcome) ==> event is None,
        !(effect is StartContainer || effect is StopContainer || effect is KillContainer || effect is PullImage
            || effect is ArchiveVolume) ==> event is None,
{
}

/// What the panel is told before an effect: that an image is being pulled, on the
/// console of the server that it is for, and nothing else.
pub proof fn law_panel_is_told_of_a_pull(event: Option<EventPayload>, cmd: CommandPayload, effect: Effect)
    requires
        announces(event, cmd, effect),
    ensures
        effect is PullImage && cmd.server_id@.len() > 0 ==> (event matches Some(e) && e.server_id == cmd.server_id
            && e.kind == EventKind::ConsoleLine && e.message@ == "pulling "@ + effect->PullImage_0@ + "…"@),
        !(effect is PullImage) || cmd.server_id@.len() == 0 ==> event is None,
{
}

/// What follows an effect works on what the effect worked on: a container that was
/// started is attached to under its own id, unless its console is live; a file is
/// read where it was measured, if it has ten mebibytes at most; and a path is
/// deleted as what it was found to be.
pub proof fn law_what_follows_works_on_the_same(
    d: Dispatcher,
    cmd: CommandPayload,
    effect: Effect,
    outcome: Outcome,
    event: Option<EventPayload>,
    next: Next,
)
    requires
        fits(effect, outcome),
        goes_on(d, cmd, effect, outcome, event, next),
    ensures
        effect is StartContainer && outcome->Done_0 is Ok ==> if d.consoles@.contains_key(cmd.server_id@) {
            next matches Next::Reply(ack) && ack.ok
        } else {
            next matches Next::Do(Effect::AttachConsole(id)) && id@ == effect->StartContainer_0@
        },
        effect is MeasureFile ==> match outcome->Measured_0 {
            Some(n) => if n <= 10 * 1024 * 1024 {
                next matches Next::Do(Effect::ReadFile(p)) && p@ == effect->MeasureFile_0@
            } else {
                next matches Next::Reply(ack) && !ack.ok && (ack.error matches Some(e) && e@
                    == dispatcher::too_large_text(n as int))
            },
            None => next matches Next::Reply(ack) && !ack.ok,
        },
        effect is ClassifyPath ==> match outcome->Classified_0 {
            Some(true) => next matches Next::Do(Effect::RemoveDirectory(p)) && p@ == effect->ClassifyPath_0@,
            Some(false) => next matches Next::Do(Effect::RemoveFile(p)) && p@ == effect->ClassifyPath_0@,
            None => next matches Next::Reply(ack) && !ack.ok,
        },
        next matches Next::Do(following) ==> following is AttachConsole || following is ReadFile || following
            is RemoveDirectory || following is RemoveFile || following is ArchiveVolume,
{
}

/// A backup archives the server's own volume into the server's own directory for
/// backups, under a name that tells the time at which it is made.
pub proof fn law_backup_archives_the_servers_volume(
    d: Dispatcher,
    cmd: CommandPayload,
    effect: Effect,
    outcome: Outcome,
    event: Option<EventPayload>,
    next: Next,
)
    requires
        effect is CreateBackupDirectory,
        fits(effect, outcome),
        goes_on(d, cmd, effect, outcome, event, next),
    ensures
        outcome matches Outcome::BackupDirectory(created, now_secs) && if created {
            next matches Next::Do(Effect::ArchiveVolume(plan)) && {
                &&& plan.source@ == paths::joined(d.volumes_root@, cmd.server_id@)
                &&& plan.filename@ == "backup-"@ + text::decimal(now_secs as nat) + ".tar.zst"@
                &&& paths::place(plan.target@) == paths::place(
                    paths::joined(d.backups_root@, cmd.server_id@),
                ).push(plan.filename@)
            }
        } else {
            next matches Next::Reply(ack) && !ack.ok
        },
{
    if let Outcome::BackupDirectory(created, now_secs) = outcome {
        if created {
            backups::lemma_backup_name_is_file_name(now_secs);
            paths::law_file_name_stays_in_directory(
                d.backups_of(cmd.server_id@),
                "backup-"@ + text::decimal(now_secs as nat) + ".tar.zst"@,
            );
        }
    }
}

/// What was found is handed back as it is: the entries of a directory, the bytes of
/// a file as text that decodes to them, the name and length of a backup, and the
/// backups of a server, all of them with the newest first.
pub proof fn law_what_was_found_is_handed_back(
    d: Dispatcher,
    cmd: CommandPayload,
    effect: Effect,
    outcome: Outcome,
    event: Option<EventPayload>,
    next: Next,
)
    requires
        fits(effect, outcome),
        goes_on(d, cmd, effect, outcome, event, next),
    ensures
        effect is ListDirectory ==> (outcome->Listed_0 matches Ok(entries) ==> (next matches Next::Reply(ack) && ack.ok
            && (ack.result matches Some(ActionResult::Files(list)) && list.entries@ == entries@))),
        effect is ReadFile ==> (outcome->Read_0 matches Some(bytes) ==> (next matches Next::Reply(ack) && ack.ok && (
        ack.result matches Some(ActionResult::File(file)) && file.size_bytes == bytes@.len()
            && content::base64_bytes(file.content_base64@) == Some(bytes@)))),
        effect is ArchiveVolume ==> (outcome->Archived_0 matches Ok(size) ==> (next matches Next::Reply(ack) && ack.ok
            && (ack.result matches Some(ActionResult::Backup(made)) && made.filename@
            == effect->ArchiveVolume_0.filename@ && made.size_bytes == size))),
        effect is ListBackups ==> (outcome->Backups_0 matches Ok(files) ==> (next matches Next::Reply(ack) && ack.ok
            && (ack.result matches Some(ActionResult::Backups(list)) && backups::sorted_from(
            list.backups@,
            backups::entries_of(files@),
        )))),
        effect is ListBackups && outcome->Backups_0 == Err::<Vec<BackupFile>, BackupsFault>(BackupsFault::Missing)
            ==> (next matches Next::Reply(ack) && ack.ok && (ack.result matches Some(ActionResult::Backups(list))
            && list.backups@.len() == 0)),
{
}

/// A failure is told as it is: in the engine's or the console's own words where
/// they are known, and else in words for the step that failed.
pub proof fn law_failures_are_told(
    d: Dispatcher,
    cmd: CommandPayload,
    effect: Effect,
    outcome: Outcome,
    event: Option<EventPayload>,
    next: Next,
)
    requires
        fits(effect, outcome),
        goes_on(d, cmd, effect, outcome, event, next),
    ensures
        outcome matches Outcome::Created(Err(e)) ==> told_as(next, cmd, e@),
        outcome matches Outcome::Done(Err(e)) ==> told_as(next, cmd, e@),
        outcome is NoConsole ==> told_as(next, cmd, "no active console session for server "@ + cmd.server_id@),
        outcome matches Outcome::Listed(Err(ListFault::Open)) ==> told_as(next, cmd, "list files"@),
        outcome matches Outcome::Listed(Err(ListFault::Entry)) ==> told_as(next, cmd, "read directory entry"@),
        outcome matches Outcome::Listed(Err(ListFault::Metadata)) ==> told_as(next, cmd, "read entry metadata"@),
        outcome matches Outcome::Measured(None) ==> told_as(next, cmd, "stat file"@),
        outcome matches Outcome::Read(None) ==> told_as(next, cmd, "read file"@),
        outcome matches Outcome::Written(Some(WriteFault::Parent)) ==> told_as(next, cmd, "create parent directory"@),
        outcome matches Outcome::Written(Some(WriteFault::Write)) ==> told_as(next, cmd, "write file"@),
        outcome matches Outcome::Classified(None) ==> told_as(next, cmd, "stat path"@),
        outcome matches Outcome::BackupDirectory(false, _) ==> told_as(next, cmd, "create backups directory"@),
        outcome matches Outcome::Archived(Err(ArchiveFault::Panicked)) ==> told_as(
            next,
            cmd,
            "backup task panicked"@,
        ),
        outcome matches Outcome::Archived(Err(ArchiveFault::Failed)) ==> told_as(
            next,
            cmd,
            "create backup archive"@,
        ),
        outcome matches Outcome::Backups(Err(BackupsFault::Open)) ==> told_as(next, cmd, "list backups"@),
        outcome matches Outcome::Backups(Err(BackupsFault::Entry)) ==> told_as(next, cmd, "read backup entry"@),
        outcome matches Outcome::Backups(Err(BackupsFault::Metadata)) ==> told_as(next, cmd, "stat backup"@),
        outcome matches Outcome::Restored(Some(ArchiveFault::Panicked)) ==> told_as(
            next,
            cmd,
            "restore task panicked"@,
        ),
        outcome matches Outcome::Restored(Some(ArchiveFault::Failed)) ==> told_as(
            next,
            cmd,
            "restore backup archive"@,
        ),
        outcome matches Outcome::Succeeded(false) ==> {
            &&& effect is Rename ==> told_as(next, cmd, "rename file"@)
            &&& effect is RemoveDirectory ==> told_as(next, cmd, "delete directory"@)
            &&& effect is RemoveFile ==> told_as(next, cmd, "delete file"@)
            &&& effect is CreateDirectory ==> told_as(next, cmd, "create directory"@)
            &&& effect is RemoveArchive ==> told_as(next, cmd, "delete backup archive"@)
        },
{
}

/// Whether a command is answered as having failed, with the given words.
pub open spec fn told_as(next: Next, cmd: CommandPayload, error: Seq<char>) -> bool {
    next matches Next::Reply(ack) && ack.command_id == cmd.command_id && !ack.ok && ack.error is Some
        && ack.error->0@ == error
}

/// Which servers have a live console changes only by attaching to one and by
/// removing a container, and only for the command's server.
pub proof fn law_consoles_change_only_by_attach_and_remove(
    consoles: Map<Seq<char>, ()>,
    cmd: CommandPayload,
    effect: Effect,
    outcome: Outcome,
    server_id: Seq<char>,
)
    requires
        fits(effect, outcome),
    ensures
        consoles_after(consoles, cmd, effect, outcome).contains_key(server_id) <==> {
            ||| effect is AttachConsole && outcome->Attached_0 && server_id == cmd.server_id@
            ||| consoles.contains_key(server_id) && !(effect is RemoveContainer && outcome->Done_0 is Ok && server_id
                == cmd.server_id@)
        },
{
}

/// A container that was created is known under its id from then on, one that was
/// removed is known no more, and of other servers nothing changes.
pub proof fn law_created_and_removed_containers_are_noted(
    containers: Map<Seq<char>, String>,
    cmd: CommandPayload,
    effect: Effect,
    outcome: Outcome,
    server_id: Seq<char>,
)
    requires
        fits(effect, outcome),
    ensures
        ({
            let after = containers_after(containers, cmd, effect, outcome);
            let created = effect is CreateContainer && outcome->Created_0 is Ok && server_id == cmd.server_id@;
            let removed = effect is RemoveContainer && outcome->Done_0 is Ok && server_id == cmd.server_id@;
            &&& created ==> after.contains_key(server_id) && after[server_id] == outcome->Created_0->Ok_0
            &&& removed ==> !after.contains_key(server_id)
            &&& !created && !removed ==> after.contains_key(server_id) == containers.contains_key(server_id)
            &&& !created && !removed && containers.contains_key(server_id) ==> after[server_id]
                == containers[server_id]
        }),
{
}

} // verus!
