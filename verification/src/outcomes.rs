//! How the effects of commands end: what comes next, or what is answered.

use vstd::prelude::*;
use vstd::string::*;

use crate::acks;
use crate::backups::{self, BackupFile};
use crate::content;
use crate::dispatcher::{self, Effect, Next, MAX_FILE_BYTES};
use crate::payloads::{
    AckPayload, ActionResult, BackupResult, CommandPayload, EventKind, EventPayload, FileEntry, ListBackupsResult,
    ListFilesResult, ReadFileResult,
};
use crate::text;

verus! {

/// Whether the progress of a pull is told on the console of the command's server.
/// An image that is pulled ahead of time may be for no server yet, in which case
/// nothing is told.
pub open spec fn tells_progress(event: Option<EventPayload>, cmd: CommandPayload, line: Seq<char>) -> bool {
    match event {
        Some(event) => {
            &&& cmd.server_id@.len() > 0
            &&& acks::tells(event, cmd.server_id, EventKind::ConsoleLine, line)
        },
        None => cmd.server_id@.len() == 0,
    }
}

/// Tells the panel, on the server's console, how a pull is going.
fn progress(cmd: &CommandPayload, line: String) -> (out: Option<EventPayload>)
    ensures
        tells_progress(out, *cmd, line@),
{
    if cmd.server_id.as_str().is_empty() {
        None
    } else {
        Some(acks::console_line(&cmd.server_id, line))
    }
}

/// Tells the panel, on the server's console, that an image is being pulled.
pub fn pull_started(cmd: &CommandPayload, image: &str) -> (out: Option<EventPayload>)
    ensures
        tells_progress(out, *cmd, "pulling "@ + image@ + "…"@),
{
    let line: String = text::concat3("pulling ", image, "…");
    progress(cmd, line)
}

/// Concludes a pull: that the image is there is told on the server's console.
pub fn on_pulled(cmd: &CommandPayload, image: &str, outcome: Result<(), String>) -> (out: (
    Option<EventPayload>,
    AckPayload,
))
    ensures
        match outcome {
            Ok(_) => {
                &&& tells_progress(out.0, *cmd, image@ + " ready"@)
                &&& acks::accepts(out.1, *cmd)
            },
            Err(e) => out.0 is None && acks::refuses(out.1, *cmd, e@),
        },
{
    match outcome {
        Ok(_) => {
            let mut line: String = image.to_owned();
            line.append(" ready");
            (progress(cmd, line), acks::accepted(cmd))
        },
        Err(e) => (None, acks::refused(cmd, e.as_str())),
    }
}

/// Concludes the stopping or killing of a container.
pub fn on_stopped(cmd: &CommandPayload, outcome: Result<(), String>) -> (out: (Option<EventPayload>, AckPayload))
    ensures
        match outcome {
            Ok(_) => {
                &&& out.0 is Some
                &&& acks::tells(out.0->0, cmd.server_id, EventKind::StateChanged, "offline"@)
                &&& acks::accepts(out.1, *cmd)
            },
            Err(e) => out.0 is None && acks::refuses(out.1, *cmd, e@),
        },
{
    match outcome {
        Ok(_) => (Some(acks::event_of(&cmd.server_id, EventKind::StateChanged, "offline")), acks::accepted(cmd)),
        Err(e) => (None, acks::refused(cmd, e.as_str())),
    }
}

/// Where the listing of a directory failed.
#[derive(Debug, Clone, Copy, PartialEq, Eq, Structural)]
pub enum ListFault {
    /// The directory could not be opened.
    Open,
    /// Its next entry could not be read.
    Entry,
    /// Nothing could be found out about an entry.
    Metadata,
}

/// Concludes the listing of a directory.
pub fn on_listed(cmd: &CommandPayload, outcome: Result<Vec<FileEntry>, ListFault>) -> (out: AckPayload)
    ensures
        match outcome {
            Ok(entries) => acks::answers(out, *cmd) && out.result == Some(
                ActionResult::Files((ListFilesResult { entries })),
            ),
            Err(ListFault::Open) => acks::refuses(out, *cmd, "list files"@),
            Err(ListFault::Entry) => acks::refuses(out, *cmd, "read directory entry"@),
            Err(ListFault::Metadata) => acks::refuses(out, *cmd, "read entry metadata"@),
        },
{
    match outcome {
        Ok(entries) => acks::answered(cmd, ActionResult::Files(ListFilesResult { entries })),
        Err(ListFault::Open) => acks::refused(cmd, "list files"),
        Err(ListFault::Entry) => acks::refused(cmd, "read directory entry"),
        Err(ListFault::Metadata) => acks::refused(cmd, "read entry metadata"),
    }
}

/// Goes on once the length of a file is known: a file that is too long is not
/// read.
pub fn on_measured<'a>(cmd: &CommandPayload, path: String, length: Option<u64>) -> (out: Next<'a>)
    ensures
        match length {
            None => dispatcher::turned_down(out, *cmd, "stat file"@),
            Some(n) => if n > MAX_FILE_BYTES {
                dispatcher::turned_down(out, *cmd, dispatcher::too_large_text(n as int))
            } else {
                out matches Next::Do(Effect::ReadFile(p)) && p == path
            },
        },
{
    match length {
        None => Next::Reply(acks::refused(cmd, "stat file")),
        Some(n) => {
            if n > MAX_FILE_BYTES {
                let error: String = dispatcher::too_large(n);
                Next::Reply(acks::refused(cmd, error.as_str()))
            } else {
                Next::Do(Effect::ReadFile(path))
            }
        },
    }
}

/// Whether an answer hands back the bytes of a file, as a text that decodes to
/// them.
pub open spec fn hands_back(ack: AckPayload, cmd: CommandPayload, bytes: Seq<u8>) -> bool {
    &&& acks::answers(ack, cmd)
    &&& ack.result matches Some(ActionResult::File(file)) && {
        &&& file.content_base64@ == content::base64_text(bytes)
        &&& content::base64_bytes(file.content_base64@) == Some(bytes)
        &&& file.size_bytes == bytes.len()
    }
}

/// Concludes the reading of a file: its content goes back as text that decodes
/// to the bytes which were read. The text has to fit in memory.
pub fn on_read(cmd: &CommandPayload, bytes: Option<Vec<u8>>) -> (out: AckPayload)
    requires
        bytes matches Some(b) ==> (b@.len() + 2) / 3 * 4 <= isize::MAX,
    ensures
        match bytes {
            None => acks::refuses(out, *cmd, "read file"@),
            Some(b) => hands_back(out, *cmd, b@),
        },
{
    match bytes {
        None => acks::refused(cmd, "read file"),
        Some(b) => {
            let content_base64: String = content::encode_base64(b.as_slice());
            let size_bytes: u64 = b.len() as u64;
            acks::answered(cmd, ActionResult::File(ReadFileResult { content_base64, size_bytes }))
        },
    }
}

/// Where the writing of a file failed.
#[derive(Debug, Clone, Copy, PartialEq, Eq, Structural)]
pub enum WriteFault {
    /// The directory that it goes into could not be created.
    Parent,
    /// It could not be written.
    Write,
}

/// Concludes the writing of a file.
pub fn on_written(cmd: &CommandPayload, fault: Option<WriteFault>) -> (out: AckPayload)
    ensures
        match fault {
            None => acks::accepts(out, *cmd),
            Some(WriteFault::Parent) => acks::refuses(out, *cmd, "create parent directory"@),
            Some(WriteFault::Write) => acks::refuses(out, *cmd, "write file"@),
        },
{
    match fault {
        None => acks::accepted(cmd),
        Some(WriteFault::Parent) => acks::refused(cmd, "create parent directory"),
        Some(WriteFault::Write) => acks::refused(cmd, "write file"),
    }
}

/// Concludes the renaming of a file.
pub fn on_renamed(cmd: &CommandPayload, renamed: bool) -> (out: AckPayload)
    ensures
        if renamed {
            acks::accepts(out, *cmd)
        } else {
            acks::refuses(out, *cmd, "rename file"@)
        },
{
    acks::concluded(cmd, renamed, "rename file")
}

/// Concludes the creation of a directory.
pub fn on_directory_created(cmd: &CommandPayload, created: bool) -> (out: AckPayload)
    ensures
        if created {
            acks::accepts(out, *cmd)
        } else {
            acks::refuses(out, *cmd, "create directory"@)
        },
{
    acks::concluded(cmd, created, "create directory")
}

/// Goes on with a deletion once it is known whether the path is a directory.
pub fn on_classified<'a>(cmd: &CommandPayload, path: String, is_dir: Option<bool>) -> (out: Next<'a>)
    ensures
        match is_dir {
            None => dispatcher::turned_down(out, *cmd, "stat path"@),
            Some(true) => out matches Next::Do(Effect::RemoveDirectory(p)) && p == path,
            Some(false) => out matches Next::Do(Effect::RemoveFile(p)) && p == path,
        },
{
    match is_dir {
        None => Next::Reply(acks::refused(cmd, "stat path")),
        Some(is_dir) => {
            if is_dir {
                Next::Do(Effect::RemoveDirectory(path))
            } else {
                Next::Do(Effect::RemoveFile(path))
            }
        },
    }
}

/// Concludes a deletion.
pub fn on_deleted(cmd: &CommandPayload, is_dir: bool, deleted: bool) -> (out: AckPayload)
    ensures
        if deleted {
            acks::accepts(out, *cmd)
        } else if is_dir {
            acks::refuses(out, *cmd, "delete directory"@)
        } else {
            acks::refuses(out, *cmd, "delete file"@)
        },
{
    acks::concluded(
        cmd,
        deleted,
        if is_dir {
            "delete directory"
        } else {
            "delete file"
        },
    )
}

/// Why work on an archive did not succeed.
#[derive(Debug, Clone, Copy, PartialEq, Eq, Structural)]
pub enum ArchiveFault {
    /// It was broken off.
    Panicked,
    /// It failed.
    Failed,
}

/// Concludes a backup: the panel is told under which name it is kept.
pub fn on_archived(cmd: &CommandPayload, filename: String, outcome: Result<u64, ArchiveFault>) -> (out: (
    Option<EventPayload>,
    AckPayload,
))
    ensures
        match outcome {
            Ok(size) => {
                &&& out.0 is Some
                &&& acks::tells(out.0->0, cmd.server_id, EventKind::BackupDone, filename@)
                &&& acks::answers(out.1, *cmd)
                &&& out.1.result == Some(
                    ActionResult::Backup((BackupResult { filename, size_bytes: size })),
                )
            },
            Err(ArchiveFault::Panicked) => out.0 is None && acks::refuses(out.1, *cmd, "backup task panicked"@),
            Err(ArchiveFault::Failed) => out.0 is None && acks::refuses(out.1, *cmd, "create backup archive"@),
        },
{
    match outcome {
        Ok(size_bytes) => {
            let event: EventPayload = acks::event_of(&cmd.server_id, EventKind::BackupDone, filename.as_str());
            (Some(event), acks::answered(cmd, ActionResult::Backup(BackupResult { filename, size_bytes })))
        },
        Err(ArchiveFault::Panicked) => (None, acks::refused(cmd, "backup task panicked")),
        Err(ArchiveFault::Failed) => (None, acks::refused(cmd, "create backup archive")),
    }
}

/// Where the listing of backups failed.
#[derive(Debug, Clone, Copy, PartialEq, Eq, Structural)]
pub enum BackupsFault {
    /// There is no directory for backups yet.
    Missing,
    /// The directory could not be opened.
    Open,
    /// Its next entry could not be read.
    Entry,
    /// Nothing could be found out about an entry.
    Metadata,
}

/// Concludes the listing of backups, which stand with the newest first. No
/// directory for them means that there are none.
pub fn on_backups_listed(cmd: &CommandPayload, outcome: Result<Vec<BackupFile>, BackupsFault>) -> (out: AckPayload)
    ensures
        match outcome {
            Ok(files) => acks::answers(out, *cmd) && (out.result matches Some(ActionResult::Backups(list))
                && backups::sorted_from(list.backups@, backups::entries_of(files@))),
            Err(BackupsFault::Missing) => acks::answers(out, *cmd) && (out.result matches Some(
                ActionResult::Backups(list),
            ) && list.backups@.len() == 0),
            Err(BackupsFault::Open) => acks::refuses(out, *cmd, "list backups"@),
            Err(BackupsFault::Entry) => acks::refuses(out, *cmd, "read backup entry"@),
            Err(BackupsFault::Metadata) => acks::refuses(out, *cmd, "stat backup"@),
        },
{
    match outcome {
        Ok(files) => acks::answered(
            cmd,
            ActionResult::Backups(ListBackupsResult { backups: backups::list_backups(&files) }),
        ),
        Err(BackupsFault::Missing) => acks::answered(
            cmd,
            ActionResult::Backups(ListBackupsResult { backups: Vec::new() }),
        ),
        Err(BackupsFault::Open) => acks::refused(cmd, "list backups"),
        Err(BackupsFault::Entry) => acks::refused(cmd, "read backup entry"),
        Err(BackupsFault::Metadata) => acks::refused(cmd, "stat backup"),
    }
}

/// Concludes the restoring of a backup.
pub fn on_restored(cmd: &CommandPayload, fault: Option<ArchiveFault>) -> (out: AckPayload)
    ensures
        match fault {
            None => acks::accepts(out, *cmd),
            Some(ArchiveFault::Panicked) => acks::refuses(out, *cmd, "restore task panicked"@),
            Some(ArchiveFault::Failed) => acks::refuses(out, *cmd, "restore backup archive"@),
        },
{
    match fault {
        None => acks::accepted(cmd),
        Some(ArchiveFault::Panicked) => acks::refused(cmd, "restore task panicked"),
        Some(ArchiveFault::Failed) => acks::refused(cmd, "restore backup archive"),
    }
}

/// Concludes the deletion of a backup.
pub fn on_archive_removed(cmd: &CommandPayload, removed: bool) -> (out: AckPayload)
    ensures
        if removed {
            acks::accepts(out, *cmd)
        } else {
            acks::refuses(out, *cmd, "delete backup archive"@)
        },
{
    acks::concluded(cmd, removed, "delete backup archive")
}

/// Reading a file gives back what was written to it: if the bytes that a write
/// puts into a file are read again, the text of the answer stands for the same
/// bytes as the text of the command.
pub proof fn law_read_gives_back_what_was_written(
    write: CommandPayload,
    path: Seq<char>,
    next: Next,
    read: CommandPayload,
    ack: AckPayload,
)
    requires
        write.content_base64 is Some,
        dispatcher::writes(next, write, path, content::base64_bytes(write.content_base64->0@)),
        next matches Next::Do(Effect::WriteFile(_, bytes)) && hands_back(ack, read, bytes@),
    ensures
        ack.result matches Some(ActionResult::File(file)) && content::base64_bytes(file.content_base64@)
            == content::base64_bytes(write.content_base64->0@),
{
}

/// A file that was written through the command channel is not too long to be
/// read through it.
pub proof fn law_written_file_can_be_read(cmd: CommandPayload, path: Seq<char>, decoded: Option<Seq<u8>>, next: Next)
    requires
        dispatcher::writes(next, cmd, path, decoded),
        next is Do,
    ensures
        next matches Next::Do(Effect::WriteFile(_, bytes)) && bytes@.len() <= MAX_FILE_BYTES,
{
}

} // verus!
