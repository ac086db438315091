//! Executing the panel's commands.
//!
//! The dispatcher knows which container backs which server, and which servers
//! have a live console. It decides what a command calls for; the caller does
//! it, and hands back how it went. File actions work on a server's volume on
//! the host.

use vstd::prelude::*;
use vstd::string::*;

use crate::acks;
use crate::backups;
use crate::content;
use crate::paths;
use crate::payloads::{AckPayload, Action, CommandPayload, ContainerSpec, EventKind, EventPayload};
use crate::runtime::containers::ManagedContainer;
use crate::table::{self, Table};
use crate::text;

verus! {

/// The largest file that goes through the command channel, which is for editing
/// configuration and not for bulk transfer.
pub const MAX_FILE_BYTES: u64 = 10485760;

/// How many seconds a container is given to stop.
pub const STOP_SECONDS: u64 = 15;

/// Something that a command calls for.
#[derive(Debug)]
pub enum Effect<'a> {
    CreateContainer(&'a ContainerSpec),
    StartContainer(String),
    /// Stop, and kill after so many seconds.
    StopContainer(String, u64),
    KillContainer(String),
    RemoveContainer(String),
    /// Attach to a container and keep its console.
    AttachConsole(String),
    /// Make sure that an image is present.
    PullImage(String),
    /// Write to the server's live console.
    WriteConsole(String),
    ListDirectory(String),
    /// Find out how long a file is.
    MeasureFile(String),
    ReadFile(String),
    /// Write a file, creating the directories above it.
    WriteFile(String, Vec<u8>),
    Rename(String, String),
    /// Find out whether a path is a directory.
    ClassifyPath(String),
    RemoveDirectory(String),
    RemoveFile(String),
    /// Create a directory and those above it.
    CreateDirectory(String),
    /// Create the directory that backups are kept in.
    CreateBackupDirectory(String),
    /// Archive a volume to a file.
    ArchiveVolume(ArchivePlan),
    ListBackups(String),
    /// Unpack an archive into a volume.
    RestoreArchive(String, String),
    RemoveArchive(String),
}

/// A backup that is to be made.
#[derive(Debug)]
pub struct ArchivePlan {
    pub source: String,
    pub target: String,
    pub filename: String,
}

/// What comes next of a command.
#[derive(Debug)]
pub enum Next<'a> {
    Do(Effect<'a>),
    Reply(AckPayload),
}

/// How a file that is too long is reported.
pub open spec fn too_large_text(length: int) -> Seq<char> {
    "file is too large for the command channel ("@ + text::decimal(length as nat) + " bytes, max "@ + text::decimal(
        MAX_FILE_BYTES as nat,
    ) + ")"@
}

/// Reports a file that is too long.
pub fn too_large(length: u64) -> (out: String)
    ensures
        out@ == too_large_text(length as int),
{
    let number: String = text::decimal_text(length);
    let limit: String = text::decimal_text(MAX_FILE_BYTES);
    let mut out: String = text::concat3(
        "file is too large for the command channel (",
        number.as_str(),
        " bytes, max ",
    );
    out.append(limit.as_str());
    out.append(")");
    out
}

/// The container that a command is about: the one that it names, or else the one
/// that is tracked for its server.
pub open spec fn container_of(containers: Map<Seq<char>, String>, cmd: CommandPayload) -> Option<Seq<char>> {
    match cmd.container_id {
        Some(id) => Some(id@),
        None => if containers.contains_key(cmd.server_id@) {
            Some(containers[cmd.server_id@]@)
        } else {
            None
        },
    }
}

/// What the dispatcher knows.
pub struct Dispatcher {
    pub volumes_root: String,
    pub backups_root: String,
    /// The container of each server.
    pub containers: Table<String>,
    /// The servers that have a live console. A server in here is not attached
    /// to a second time.
    pub consoles: Table<()>,
}

/// The volume of a server.
pub open spec fn volume_of(volumes_root: Seq<char>, server_id: Seq<char>) -> Seq<char> {
    paths::joined(volumes_root, server_id)
}

/// Whether a refusal is that of a path that leaves its server's volume.
pub open spec fn refuses_escape(next: Next, cmd: CommandPayload, rel: Seq<char>) -> bool {
    next matches Next::Reply(ack) && acks::refuses(ack, cmd, "path escapes the server volume: "@ + rel)
}

/// Whether a refusal has the given words.
pub open spec fn turned_down(next: Next, cmd: CommandPayload, error: Seq<char>) -> bool {
    next matches Next::Reply(ack) && acks::refuses(ack, cmd, error)
}

/// The path that a command works on.
pub open spec fn target_of(volumes_root: Seq<char>, cmd: CommandPayload, rel: Seq<char>) -> Seq<char> {
    paths::joined(volume_of(volumes_root, cmd.server_id@), rel)
}

/// Whether what comes next of a command on the contents of a file is right,
/// given the bytes that its content decodes to, if it is well-formed.
pub open spec fn writes(next: Next, cmd: CommandPayload, path: Seq<char>, decoded: Option<Seq<u8>>) -> bool {
    match decoded {
        None => turned_down(next, cmd, "decode base64 content"@),
        Some(bytes) => if bytes.len() > MAX_FILE_BYTES {
            turned_down(next, cmd, too_large_text(bytes.len() as int))
        } else {
            next matches Next::Do(Effect::WriteFile(p, b)) && p@ == path && b@ == bytes
        },
    }
}

/// Decides about writing a file, given the bytes that the command's content
/// decodes to.
pub fn write_step<'a>(cmd: &CommandPayload, path: String, decoded: Option<Vec<u8>>) -> (out: Next<'a>)
    ensures
        writes(
            out,
            *cmd,
            path@,
            (match decoded {
                Some(bytes) => Some(bytes@),
                None => None,
            }),
        ),
{
    match decoded {
        None => Next::Reply(acks::refused(cmd, "decode base64 content")),
        Some(bytes) => {
            if bytes.len() as u64 > MAX_FILE_BYTES {
                let error: String = too_large(bytes.len() as u64);
                Next::Reply(acks::refused(cmd, error.as_str()))
            } else {
                Next::Do(Effect::WriteFile(path, bytes))
            }
        },
    }
}

/// Whether what comes next of a command that works on one path is right up to
/// the effect: the path has to be there and must not leave the volume.
pub open spec fn reaches_path(
    cmd: CommandPayload,
    path: Option<Seq<char>>,
    missing: Seq<char>,
    next: Next,
) -> bool {
    match path {
        None => turned_down(next, cmd, missing),
        Some(rel) => paths::escapes(rel) ==> refuses_escape(next, cmd, rel),
    }
}

/// A path that a command can work on: it is there and does not leave the volume.
pub open spec fn usable(path: Option<Seq<char>>) -> bool {
    path is Some && !paths::escapes(path->0)
}

/// The characters of a text that may be absent.
pub open spec fn text_model(s: Option<String>) -> Option<Seq<char>> {
    match s {
        Some(s) => Some(s@),
        None => None,
    }
}

impl Dispatcher {
    /// The directory that a server's backups are kept in.
    pub open spec fn backups_of(&self, server_id: Seq<char>) -> Seq<char> {
        paths::joined(self.backups_root@, server_id)
    }

    /// The path that a command works on.
    pub open spec fn target(&self, cmd: CommandPayload, rel: Seq<char>) -> Seq<char> {
        target_of(self.volumes_root@, cmd, rel)
    }

    /// Whether `next` is what comes first of a command on a container.
    pub open spec fn begins_on_container(&self, cmd: CommandPayload, next: Next) -> bool {
        match container_of(self.containers@, cmd) {
            None => turned_down(next, cmd, "no known container for server "@ + cmd.server_id@),
            Some(id) => match cmd.action {
                Action::Start => next matches Next::Do(Effect::StartContainer(given)) && given@ == id,
                Action::Stop => next matches Next::Do(Effect::StopContainer(given, secs)) && given@ == id && secs
                    == STOP_SECONDS,
                Action::Kill => next matches Next::Do(Effect::KillContainer(given)) && given@ == id,
                _ => next matches Next::Do(Effect::RemoveContainer(given)) && given@ == id,
            },
        }
    }

    /// Whether `next` is what comes first of a command on files.
    pub open spec fn begins_on_files(&self, cmd: CommandPayload, next: Next) -> bool {
        let path = text_model(cmd.path);
        match cmd.action {
            Action::ListFiles => {
                let rel = match path {
                    Some(rel) => rel,
                    None => ""@,
                };
                if paths::escapes(rel) {
                    refuses_escape(next, cmd, rel)
                } else {
                    next matches Next::Do(Effect::ListDirectory(p)) && p@ == self.target(cmd, rel)
                }
            },
            Action::ReadFile => {
                &&& reaches_path(cmd, path, "read_file missing path"@, next)
                &&& usable(path) ==> (next matches Next::Do(Effect::MeasureFile(p)) && p@ == self.target(
                    cmd,
                    path->0,
                ))
            },
            Action::WriteFile => {
                &&& reaches_path(cmd, path, "write_file missing path"@, next)
                &&& usable(path) ==> match cmd.content_base64 {
                    None => turned_down(next, cmd, "write_file missing content"@),
                    Some(text) => writes(
                        next,
                        cmd,
                        self.target(cmd, path->0),
                        content::base64_bytes(text@),
                    ),
                }
            },
            Action::RenameFile => {
                let to = text_model(cmd.new_path);
                &&& reaches_path(cmd, path, "rename_file missing path"@, next)
                &&& usable(path) ==> reaches_path(cmd, to, "rename_file missing new_path"@, next)
                &&& usable(path) && usable(to) ==> (next matches Next::Do(Effect::Rename(a, b)) && a@ == self.target(
                    cmd,
                    path->0,
                ) && b@ == self.target(cmd, to->0))
            },
            Action::DeleteFile => {
                &&& reaches_path(cmd, path, "delete_file missing path"@, next)
                &&& usable(path) ==> (next matches Next::Do(Effect::ClassifyPath(p)) && p@ == self.target(
                    cmd,
                    path->0,
                ))
            },
            _ => {
                &&& reaches_path(cmd, path, "mkdir missing path"@, next)
                &&& usable(path) ==> (next matches Next::Do(Effect::CreateDirectory(p)) && p@ == self.target(
                    cmd,
                    path->0,
                ))
            },
        }
    }

    /// Whether `next` is what comes first of a command on backups.
    pub open spec fn begins_on_backups(&self, cmd: CommandPayload, next: Next) -> bool {
        let dir = self.backups_of(cmd.server_id@);
        match cmd.action {
            Action::Backup => next matches Next::Do(Effect::CreateBackupDirectory(d)) && d@ == dir,
            Action::ListBackups => next matches Next::Do(Effect::ListBackups(d)) && d@ == dir,
            Action::RestoreBackup => match cmd.path {
                None => turned_down(next, cmd, "restore_backup missing path"@),
                Some(name) => if paths::is_file_name(name@) {
                    next matches Next::Do(Effect::RestoreArchive(archive, volume)) && archive@ == paths::joined(
                        dir,
                        name@,
                    ) && volume@ == volume_of(self.volumes_root@, cmd.server_id@)
                } else {
                    turned_down(next, cmd, "invalid backup name: "@ + name@)
                },
            },
            _ => match cmd.path {
                None => turned_down(next, cmd, "delete_backup missing path"@),
                Some(name) => if paths::is_file_name(name@) {
                    next matches Next::Do(Effect::RemoveArchive(archive)) && archive@ == paths::joined(dir, name@)
                } else {
                    turned_down(next, cmd, "invalid backup name: "@ + name@)
                },
            },
        }
    }

    /// Whether `next` is what comes first of a command.
    pub open spec fn begins(&self, cmd: CommandPayload, next: Next) -> bool {
        match cmd.action {
            Action::Create => match cmd.spec {
                None => turned_down(next, cmd, "create command missing spec"@),
                Some(spec) => next matches Next::Do(Effect::CreateContainer(given)) && *given == spec,
            },
            Action::Start => self.begins_on_container(cmd, next),
            Action::Stop => self.begins_on_container(cmd, next),
            Action::Kill => self.begins_on_container(cmd, next),
            Action::Remove => self.begins_on_container(cmd, next),
            Action::PullImage => match cmd.image {
                None => turned_down(next, cmd, "pull_image command missing image"@),
                Some(image) => next matches Next::Do(Effect::PullImage(given)) && given@ == image@,
            },
            Action::ConsoleInput => match cmd.input {
                None => turned_down(next, cmd, "console_input command missing input"@),
                Some(input) => if self.consoles@.contains_key(cmd.server_id@) {
                    next matches Next::Do(Effect::WriteConsole(line)) && line@ == input@ + "\n"@
                } else {
                    turned_down(next, cmd, "no active console session for server "@ + cmd.server_id@)
                },
            },
            Action::ListFiles => self.begins_on_files(cmd, next),
            Action::ReadFile => self.begins_on_files(cmd, next),
            Action::WriteFile => self.begins_on_files(cmd, next),
            Action::RenameFile => self.begins_on_files(cmd, next),
            Action::DeleteFile => self.begins_on_files(cmd, next),
            Action::Mkdir => self.begins_on_files(cmd, next),
            Action::Backup => self.begins_on_backups(cmd, next),
            Action::ListBackups => self.begins_on_backups(cmd, next),
            Action::RestoreBackup => self.begins_on_backups(cmd, next),
            Action::DeleteBackup => self.begins_on_backups(cmd, next),
        }
    }

    /// A dispatcher that knows of no container.
    pub fn new(volumes_root: String, backups_root: String) -> (out: Self)
        ensures
            out.volumes_root == volumes_root,
            out.backups_root == backups_root,
            out.containers@ == Map::<Seq<char>, String>::empty(),
            out.consoles@ == Map::<Seq<char>, ()>::empty(),
    {
        Dispatcher { volumes_root, backups_root, containers: Table::new(), consoles: Table::new() }
    }

    /// The container that a command is about.
    fn container_for(&self, cmd: &CommandPayload) -> (out: Result<String, String>)
        ensures
            match out {
                Ok(id) => container_of(self.containers@, *cmd) == Some(id@),
                Err(e) => {
                    &&& container_of(self.containers@, *cmd) is None
                    &&& e@ == "no known container for server "@ + cmd.server_id@
                },
            },
    {
        if let Some(id) = &cmd.container_id {
            return Ok(id.clone());
        }
        match self.containers.get(cmd.server_id.as_str()) {
            Some(id) => Ok(id.clone()),
            None => {
                let mut e: String = "no known container for server ".to_owned();
                e.append(cmd.server_id.as_str());
                Err(e)
            },
        }
    }

    /// The container that is known of for a server.
    pub fn container_id_for_server(&self, server_id: &str) -> (out: Option<String>)
        ensures
            match out {
                Some(id) => self.containers@.contains_key(server_id@) && id == self.containers@[server_id@],
                None => !self.containers@.contains_key(server_id@),
            },
            out == known_container(self.containers@, server_id@),
    {
        match self.containers.get(server_id) {
            Some(id) => Some(id.clone()),
            None => None,
        }
    }

    /// Resolves a path that is relative to a server's volume. One that could
    /// leave the volume is refused. A link inside the volume that leads out of
    /// it is not noticed: planting one takes access to the volume.
    pub fn resolve_path(&self, server_id: &str, rel: &str) -> (out: Result<String, String>)
        ensures
            match out {
                Ok(path) => {
                    &&& !paths::escapes(rel@)
                    &&& path@ == paths::joined(volume_of(self.volumes_root@, server_id@), rel@)
                },
                Err(e) => paths::escapes(rel@) && e@ == "path escapes the server volume: "@ + rel@,
            },
    {
        if paths::path_escapes(rel) {
            let mut e: String = "path escapes the server volume: ".to_owned();
            e.append(rel);
            return Err(e);
        }
        let volume: String = paths::join(self.volumes_root.as_str(), server_id);
        Ok(paths::join(volume.as_str(), rel))
    }

    /// The directory that a server's backups are kept in.
    pub fn backups_dir(&self, server_id: &str) -> (out: String)
        ensures
            out@ == self.backups_of(server_id@),
    {
        paths::join(self.backups_root.as_str(), server_id)
    }

    /// Resolves the name of a backup to a path in the server's directory for
    /// them. What is not the name of a single file is refused.
    pub fn backup_path(&self, server_id: &str, name: &str) -> (out: Result<String, String>)
        ensures
            match out {
                Ok(path) => {
                    &&& paths::is_file_name(name@)
                    &&& path@ == paths::joined(self.backups_of(server_id@), name@)
                },
                Err(e) => !paths::is_file_name(name@) && e@ == "invalid backup name: "@ + name@,
            },
    {
        if !paths::names_file(name) {
            let mut e: String = "invalid backup name: ".to_owned();
            e.append(name);
            return Err(e);
        }
        let dir: String = self.backups_dir(server_id);
        Ok(paths::join(dir.as_str(), name))
    }

    /// The path that a command works on, which has to be there.
    fn required_path(&self, cmd: &CommandPayload, path: &Option<String>, missing: &str) -> (out: Result<
        String,
        String,
    >)
        ensures
            match (text_model(*path), out) {
                (None, Ok(_)) => false,
                (None, Err(e)) => e@ == missing@,
                (Some(rel), Ok(p)) => !paths::escapes(rel) && p@ == self.target(*cmd, rel),
                (Some(rel), Err(e)) => paths::escapes(rel) && e@ == "path escapes the server volume: "@ + rel,
            },
    {
        match path {
            None => Err(missing.to_owned()),
            Some(rel) => self.resolve_path(cmd.server_id.as_str(), rel.as_str()),
        }
    }

    /// Decides what a command on a container calls for.
    fn begin_on_container<'a>(&self, cmd: &'a CommandPayload) -> (out: Next<'a>)
        requires
            cmd.action == Action::Start || cmd.action == Action::Stop || cmd.action == Action::Kill || cmd.action
                == Action::Remove,
        ensures
            self.begins_on_container(*cmd, out),
    {
        match self.container_for(cmd) {
            Err(e) => Next::Reply(acks::refused(cmd, e.as_str())),
            Ok(id) => match cmd.action {
                Action::Start => Next::Do(Effect::StartContainer(id)),
                Action::Stop => Next::Do(Effect::StopContainer(id, STOP_SECONDS)),
                Action::Kill => Next::Do(Effect::KillContainer(id)),
                _ => Next::Do(Effect::RemoveContainer(id)),
            },
        }
    }

    /// Decides what a command on files calls for.
    fn begin_on_files<'a>(&self, cmd: &'a CommandPayload) -> (out: Next<'a>)
        requires
            cmd.action == Action::ListFiles || cmd.action == Action::ReadFile || cmd.action == Action::WriteFile
                || cmd.action == Action::RenameFile || cmd.action == Action::DeleteFile || cmd.action
                == Action::Mkdir,
        ensures
            self.begins_on_files(*cmd, out),
    {
        if cmd.action == Action::ListFiles {
            let rel: &str = match &cmd.path {
                Some(rel) => rel.as_str(),
                None => "",
            };
            return match self.resolve_path(cmd.server_id.as_str(), rel) {
                Err(e) => Next::Reply(acks::refused(cmd, e.as_str())),
                Ok(dir) => Next::Do(Effect::ListDirectory(dir)),
            };
        }
        let missing: &str = match cmd.action {
            Action::ReadFile => "read_file missing path",
            Action::WriteFile => "write_file missing path",
            Action::RenameFile => "rename_file missing path",
            Action::DeleteFile => "delete_file missing path",
            _ => "mkdir missing path",
        };
        let path: String = match self.required_path(cmd, &cmd.path, missing) {
            Err(e) => return Next::Reply(acks::refused(cmd, e.as_str())),
            Ok(path) => path,
        };
        match cmd.action {
            Action::ReadFile => Next::Do(Effect::MeasureFile(path)),
            Action::WriteFile => match &cmd.content_base64 {
                None => Next::Reply(acks::refused(cmd, "write_file missing content")),
                Some(encoded) => {
                    let decoded: Option<Vec<u8>> = content::decode_base64(encoded.as_str());
                    write_step(cmd, path, decoded)
                },
            },
            Action::RenameFile => match self.required_path(cmd, &cmd.new_path, "rename_file missing new_path") {
                Err(e) => Next::Reply(acks::refused(cmd, e.as_str())),
                Ok(to) => Next::Do(Effect::Rename(path, to)),
            },
            Action::DeleteFile => Next::Do(Effect::ClassifyPath(path)),
            _ => Next::Do(Effect::CreateDirectory(path)),
        }
    }

    /// Decides what a command on backups calls for.
    fn begin_on_backups<'a>(&self, cmd: &'a CommandPayload) -> (out: Next<'a>)
        requires
            cmd.action == Action::Backup || cmd.action == Action::ListBackups || cmd.action == Action::RestoreBackup
                || cmd.action == Action::DeleteBackup,
        ensures
            self.begins_on_backups(*cmd, out),
    {
        if cmd.action == Action::Backup {
            return Next::Do(Effect::CreateBackupDirectory(self.backups_dir(cmd.server_id.as_str())));
        }
        if cmd.action == Action::ListBackups {
            return Next::Do(Effect::ListBackups(self.backups_dir(cmd.server_id.as_str())));
        }
        let restoring: bool = cmd.action == Action::RestoreBackup;
        match &cmd.path {
            None => {
                let missing: &str = if restoring {
                    "restore_backup missing path"
                } else {
                    "delete_backup missing path"
                };
                Next::Reply(acks::refused(cmd, missing))
            },
            Some(name) => match self.backup_path(cmd.server_id.as_str(), name.as_str()) {
                Err(e) => Next::Reply(acks::refused(cmd, e.as_str())),
                Ok(archive) => {
                    if restoring {
                        let volume: String = paths::join(self.volumes_root.as_str(), cmd.server_id.as_str());
                        Next::Do(Effect::RestoreArchive(archive, volume))
                    } else {
                        Next::Do(Effect::RemoveArchive(archive))
                    }
                },
            },
        }
    }

    /// Decides what a command calls for. A command that cannot be carried out is
    /// answered at once; an answer never goes missing.
    pub fn handle<'a>(&self, cmd: &'a CommandPayload) -> (out: Next<'a>)
        ensures
            self.begins(*cmd, out),
    {
        match cmd.action {
            Action::Create => match &cmd.spec {
                None => Next::Reply(acks::refused(cmd, "create command missing spec")),
                Some(spec) => Next::Do(Effect::CreateContainer(spec)),
            },
            Action::Start | Action::Stop | Action::Kill | Action::Remove => self.begin_on_container(cmd),
            Action::PullImage => match &cmd.image {
                None => Next::Reply(acks::refused(cmd, "pull_image command missing image")),
                Some(image) => Next::Do(Effect::PullImage(image.clone())),
            },
            Action::ConsoleInput => match &cmd.input {
                None => Next::Reply(acks::refused(cmd, "console_input command missing input")),
                Some(input) => {
                    if self.consoles.contains(cmd.server_id.as_str()) {
                        let mut line: String = input.clone();
                        line.append("\n");
                        Next::Do(Effect::WriteConsole(line))
                    } else {
                        let mut e: String = "no active console session for server ".to_owned();
                        e.append(cmd.server_id.as_str());
                        Next::Reply(acks::refused(cmd, e.as_str()))
                    }
                },
            },
            Action::ListFiles | Action::ReadFile | Action::WriteFile | Action::RenameFile | Action::DeleteFile
            | Action::Mkdir => self.begin_on_files(cmd),
            Action::Backup | Action::ListBackups | Action::RestoreBackup | Action::DeleteBackup =>
            self.begin_on_backups(cmd),
        }
    }
}

impl Dispatcher {
    /// Concludes the creation of a container, which is the server's from then on.
    pub fn on_created(&mut self, cmd: &CommandPayload, outcome: Result<String, String>) -> (out: AckPayload)
        ensures
            match outcome {
                Ok(id) => {
                    &&& acks::accepts(out, *cmd)
                    &&& final(self).containers@ == old(self).containers@.insert(cmd.server_id@, id)
                },
                Err(e) => {
                    &&& acks::refuses(out, *cmd, e@)
                    &&& final(self).containers@ == old(self).containers@
                },
            },
            final(self).consoles@ == old(self).consoles@,
            final(self).volumes_root == old(self).volumes_root,
            final(self).backups_root == old(self).backups_root,
    {
        match outcome {
            Ok(id) => {
                self.containers.insert(cmd.server_id.clone(), id);
                acks::accepted(cmd)
            },
            Err(e) => acks::refused(cmd, e.as_str()),
        }
    }

    /// Goes on after the start of a container: the panel is told, and the
    /// console is attached to unless it is live already.
    pub fn on_started<'a>(&self, cmd: &CommandPayload, id: String, outcome: Result<(), String>) -> (out: (
        Option<EventPayload>,
        Next<'a>,
    ))
        ensures
            match outcome {
                Ok(_) => {
                    &&& out.0 is Some
                    &&& acks::tells(out.0->0, cmd.server_id, EventKind::StateChanged, "running"@)
                    &&& if self.consoles@.contains_key(cmd.server_id@) {
                        out.1 matches Next::Reply(ack) && acks::accepts(ack, *cmd)
                    } else {
                        out.1 matches Next::Do(Effect::AttachConsole(given)) && given == id
                    }
                },
                Err(e) => out.0 is None && turned_down(out.1, *cmd, e@),
            },
    {
        match outcome {
            Ok(_) => {
                let event: EventPayload = acks::event_of(&cmd.server_id, EventKind::StateChanged, "running");
                if self.consoles.contains(cmd.server_id.as_str()) {
                    (Some(event), Next::Reply(acks::accepted(cmd)))
                } else {
                    (Some(event), Next::Do(Effect::AttachConsole(id)))
                }
            },
            Err(e) => (None, Next::Reply(acks::refused(cmd, e.as_str()))),
        }
    }

    /// Concludes a start after the attempt to attach to the console. The
    /// container runs either way; without a console it has none until the next
    /// start.
    pub fn on_attached(&mut self, cmd: &CommandPayload, attached: bool) -> (out: AckPayload)
        ensures
            acks::accepts(out, *cmd),
            final(self).consoles@ == (if attached {
                old(self).consoles@.insert(cmd.server_id@, ())
            } else {
                old(self).consoles@
            }),
            final(self).containers@ == old(self).containers@,
            final(self).volumes_root == old(self).volumes_root,
            final(self).backups_root == old(self).backups_root,
    {
        if attached {
            self.consoles.insert(cmd.server_id.clone(), ());
        }
        acks::accepted(cmd)
    }

    /// Notes that a server's console has ended.
    pub fn on_console_closed(&mut self, server_id: &str)
        ensures
            final(self).consoles@ == old(self).consoles@.remove(server_id@),
            final(self).consoles@ == without_console(old(self).consoles@, server_id@),
            final(self).containers@ == old(self).containers@,
            final(self).volumes_root == old(self).volumes_root,
            final(self).backups_root == old(self).backups_root,
    {
        self.consoles.remove(server_id);
    }

    /// Concludes the removal of a container: its server has none, and no
    /// console.
    pub fn on_removed(&mut self, cmd: &CommandPayload, outcome: Result<(), String>) -> (out: AckPayload)
        ensures
            match outcome {
                Ok(_) => {
                    &&& acks::accepts(out, *cmd)
                    &&& final(self).containers@ == old(self).containers@.remove(cmd.server_id@)
                    &&& final(self).consoles@ == old(self).consoles@.remove(cmd.server_id@)
                },
                Err(e) => {
                    &&& acks::refuses(out, *cmd, e@)
                    &&& final(self).containers@ == old(self).containers@
                    &&& final(self).consoles@ == old(self).consoles@
                },
            },
            final(self).volumes_root == old(self).volumes_root,
            final(self).backups_root == old(self).backups_root,
    {
        match outcome {
            Ok(_) => {
                self.containers.remove(cmd.server_id.as_str());
                self.consoles.remove(cmd.server_id.as_str());
                acks::accepted(cmd)
            },
            Err(e) => acks::refused(cmd, e.as_str()),
        }
    }

    /// Takes over the containers that an earlier run of the daemon left, so that
    /// they are known of again. Returns how many there are.
    pub fn reconcile(&mut self, found: &Vec<ManagedContainer>) -> (n: usize)
        ensures
            n == found@.len(),
            final(self).containers@ == with_all(old(self).containers@, found@),
            final(self).consoles@ == old(self).consoles@,
            final(self).volumes_root == old(self).volumes_root,
            final(self).backups_root == old(self).backups_root,
    {
        let mut i: usize = 0;
        assert(found@.take(0) =~= Seq::<ManagedContainer>::empty());
        while i < found.len()
            invariant
                i <= found@.len(),
                self.containers@ == with_all(old(self).containers@, found@.take(i as int)),
                self.consoles@ == old(self).consoles@,
                self.volumes_root == old(self).volumes_root,
                self.backups_root == old(self).backups_root,
            decreases found@.len() - i,
        {
            assert(found@.take(i + 1).drop_last() =~= found@.take(i as int));
            self.containers.insert(found[i].server_id.clone(), found[i].container_id.clone());
            i = i + 1;
        }
        assert(found@.take(i as int) =~= found@);
        i
    }

    /// The servers and containers that a heartbeat is to report, each server
    /// once.
    pub fn snapshot(&self) -> (out: Vec<(String, String)>)
        ensures
            table::distinct_keys(out@),
            table::map_of(out@) == self.containers@,
    {
        self.containers.snapshot()
    }

    /// Goes on with a backup once its directory is there: the volume is archived
    /// under a name that tells the time.
    pub fn on_backup_directory<'a>(&self, cmd: &CommandPayload, created: bool, now_secs: u64) -> (out: Next<'a>)
        ensures
            if created {
                out matches Next::Do(Effect::ArchiveVolume(plan)) && {
                    &&& plan.filename@ == "backup-"@ + text::decimal(now_secs as nat) + ".tar.zst"@
                    &&& plan.source@ == volume_of(self.volumes_root@, cmd.server_id@)
                    &&& plan.target@ == paths::joined(self.backups_of(cmd.server_id@), plan.filename@)
                }
            } else {
                turned_down(out, *cmd, "create backups directory"@)
            },
    {
        if !created {
            return Next::Reply(acks::refused(cmd, "create backups directory"));
        }
        let filename: String = backups::backup_filename(now_secs);
        let source: String = paths::join(self.volumes_root.as_str(), cmd.server_id.as_str());
        let dir: String = self.backups_dir(cmd.server_id.as_str());
        let target: String = paths::join(dir.as_str(), filename.as_str());
        Next::Do(Effect::ArchiveVolume(ArchivePlan { source, target, filename }))
    }
}

/// What is known of containers once some more have been found.
pub open spec fn with_all(containers: Map<Seq<char>, String>, found: Seq<ManagedContainer>) -> Map<Seq<char>, String>
    decreases found.len(),
{
    if found.len() == 0 {
        containers
    } else {
        with_all(containers, found.drop_last()).insert(found.last().server_id@, found.last().container_id)
    }
}

/// Whether a path names a place at or below a directory.
pub open spec fn is_below(dir: Seq<char>, path: Seq<char>) -> bool {
    paths::place(dir).is_prefix_of(paths::place(path))
}

/// Whatever a command on files calls for, it stays inside the server's volume.
pub proof fn law_file_commands_stay_in_volume(d: Dispatcher, cmd: CommandPayload, next: Next)
    requires
        d.begins(cmd, next),
    ensures
        match next {
            Next::Do(Effect::ListDirectory(p)) => is_below(volume_of(d.volumes_root@, cmd.server_id@), p@),
            Next::Do(Effect::MeasureFile(p)) => is_below(volume_of(d.volumes_root@, cmd.server_id@), p@),
            Next::Do(Effect::WriteFile(p, _)) => is_below(volume_of(d.volumes_root@, cmd.server_id@), p@),
            Next::Do(Effect::Rename(a, b)) => {
                &&& is_below(volume_of(d.volumes_root@, cmd.server_id@), a@)
                &&& is_below(volume_of(d.volumes_root@, cmd.server_id@), b@)
            },
            Next::Do(Effect::ClassifyPath(p)) => is_below(volume_of(d.volumes_root@, cmd.server_id@), p@),
            Next::Do(Effect::CreateDirectory(p)) => is_below(volume_of(d.volumes_root@, cmd.server_id@), p@),
            _ => true,
        },
{
    let volume = volume_of(d.volumes_root@, cmd.server_id@);
    let rel = match text_model(cmd.path) {
        Some(rel) => rel,
        None => ""@,
    };
    if !paths::escapes(rel) {
        paths::law_path_stays_below(volume, rel);
    }
    if let Some(to) = text_model(cmd.new_path) {
        if !paths::escapes(to) {
            paths::law_path_stays_below(volume, to);
        }
    }
}

/// Whatever archive a command on backups names, it stands directly in the
/// server's directory for them.
pub proof fn law_archives_stay_in_directory(d: Dispatcher, cmd: CommandPayload, next: Next)
    requires
        d.begins(cmd, next),
    ensures
        match next {
            Next::Do(Effect::RestoreArchive(p, _)) => exists|name: Seq<char>|
                paths::place(p@) == #[trigger] paths::place(d.backups_of(cmd.server_id@)).push(name),
            Next::Do(Effect::RemoveArchive(p)) => exists|name: Seq<char>|
                paths::place(p@) == #[trigger] paths::place(d.backups_of(cmd.server_id@)).push(name),
            _ => true,
        },
{
    if let Some(name) = text_model(cmd.path) {
        if paths::is_file_name(name) {
            paths::law_file_name_stays_in_directory(d.backups_of(cmd.server_id@), name);
        }
    }
}

/// A command that is answered before anything is done is refused, with a reason,
/// and the answer names the command.
pub proof fn law_early_answers_are_refusals(d: Dispatcher, cmd: CommandPayload, next: Next)
    requires
        d.begins(cmd, next),
        next is Reply,
    ensures
        next->Reply_0.command_id == cmd.command_id,
        !next->Reply_0.ok,
        next->Reply_0.error is Some,
        next->Reply_0.result is None,
{
}

/// A command that names its container is about that one, whatever is known of
/// the server.
pub proof fn law_named_container_wins(containers: Map<Seq<char>, String>, cmd: CommandPayload)
    requires
        cmd.container_id is Some,
    ensures
        container_of(containers, cmd) == Some(cmd.container_id->0@),
{
}

/// Once a container has been created for a server, commands that name none are
/// about it; commands for other servers are about what they were about.
pub proof fn law_created_container_is_used(
    containers: Map<Seq<char>, String>,
    server_id: Seq<char>,
    id: String,
    cmd: CommandPayload,
)
    requires
        cmd.container_id is None,
    ensures
        cmd.server_id@ == server_id ==> container_of(containers.insert(server_id, id), cmd) == Some(id@),
        cmd.server_id@ != server_id ==> container_of(containers.insert(server_id, id), cmd) == container_of(
            containers,
            cmd,
        ),
{
}

/// Once a server's container has been removed, commands that name none find no
/// container; commands for other servers are about what they were about.
pub proof fn law_removed_container_is_forgotten(
    containers: Map<Seq<char>, String>,
    server_id: Seq<char>,
    cmd: CommandPayload,
)
    requires
        cmd.container_id is None,
    ensures
        cmd.server_id@ == server_id ==> container_of(containers.remove(server_id), cmd) is None,
        cmd.server_id@ != server_id ==> container_of(containers.remove(server_id), cmd) == container_of(
            containers,
            cmd,
        ),
{
}

/// Whether one of the containers that were found is a server's.
pub open spec fn is_found(found: Seq<ManagedContainer>, server_id: Seq<char>) -> bool {
    exists|i: int| 0 <= i < found.len() && (#[trigger] found[i]).server_id@ == server_id
}

/// Taking over the containers that were found makes each of their servers known,
/// and forgets none that was known before.
pub proof fn law_reconciled_servers_are_known(
    containers: Map<Seq<char>, String>,
    found: Seq<ManagedContainer>,
    server_id: Seq<char>,
)
    ensures
        with_all(containers, found).contains_key(server_id) <==> (containers.contains_key(server_id) || is_found(
            found,
            server_id,
        )),
    decreases found.len(),
{
    if found.len() > 0 {
        let shorter = found.drop_last();
        law_reconciled_servers_are_known(containers, shorter, server_id);
        if is_found(found, server_id) {
            let i = choose|i: int| 0 <= i < found.len() && (#[trigger] found[i]).server_id@ == server_id;
            if i < shorter.len() {
                assert(shorter[i].server_id@ == server_id);
            }
        }
        if is_found(shorter, server_id) {
            let i = choose|i: int| 0 <= i < shorter.len() && (#[trigger] shorter[i]).server_id@ == server_id;
            assert(found[i].server_id@ == server_id);
        }
        if found.last().server_id@ == server_id {
            assert(found[found.len() - 1].server_id@ == server_id);
        }
    }
}

/// Start, stop, kill and remove act on the command's own container: whatever effect
/// they call for is the one of the action and carries the id that the command
/// names, or else the id that is known for the command's server. Without either
/// they are refused. A container is given fifteen seconds to stop.
pub proof fn law_container_commands_act_on_their_container(d: Dispatcher, cmd: CommandPayload, next: Next)
    requires
        d.begins(cmd, next),
        cmd.action == Action::Start || cmd.action == Action::Stop || cmd.action == Action::Kill || cmd.action
            == Action::Remove,
    ensures
        match next {
            Next::Do(effect) => {
                let given = match effect {
                    Effect::StartContainer(id) => Some(id@),
                    Effect::StopContainer(id, _) => Some(id@),
                    Effect::KillContainer(id) => Some(id@),
                    Effect::RemoveContainer(id) => Some(id@),
                    _ => None,
                };
                &&& cmd.container_id is Some ==> given == Some(cmd.container_id->0@)
                &&& cmd.container_id is None ==> d.containers@.contains_key(cmd.server_id@) && given == Some(
                    d.containers@[cmd.server_id@]@,
                )
                &&& cmd.action == Action::Start ==> effect is StartContainer
                &&& cmd.action == Action::Stop ==> (effect matches Effect::StopContainer(_, secs) && secs == 15)
                &&& cmd.action == Action::Kill ==> effect is KillContainer
                &&& cmd.action == Action::Remove ==> effect is RemoveContainer
            },
            Next::Reply(ack) => {
                &&& cmd.container_id is None
                &&& !d.containers@.contains_key(cmd.server_id@)
                &&& !ack.ok
                &&& ack.error matches Some(e) && e@ == "no known container for server "@ + cmd.server_id@
            },
        },
{
}

/// A create command calls for the container that its specification describes, a
/// pull for the image that it names, and console input for its line with an end,
/// on a console that is live; without what they need they are refused.
pub proof fn law_commands_pass_on_what_they_carry(d: Dispatcher, cmd: CommandPayload, next: Next)
    requires
        d.begins(cmd, next),
    ensures
        cmd.action == Action::Create ==> match cmd.spec {
            Some(spec) => next matches Next::Do(Effect::CreateContainer(given)) && *given == spec,
            None => turned_down(next, cmd, "create command missing spec"@),
        },
        cmd.action == Action::PullImage ==> match cmd.image {
            Some(image) => next matches Next::Do(Effect::PullImage(given)) && given@ == image@,
            None => turned_down(next, cmd, "pull_image command missing image"@),
        },
        cmd.action == Action::ConsoleInput ==> match cmd.input {
            Some(input) => if d.consoles@.contains_key(cmd.server_id@) {
                next matches Next::Do(Effect::WriteConsole(line)) && line@ == input@.push('\n')
            } else {
                turned_down(next, cmd, "no active console session for server "@ + cmd.server_id@)
            },
            None => turned_down(next, cmd, "console_input command missing input"@),
        },
{
    reveal_strlit("\n");
    if let Some(input) = cmd.input {
        assert(input@ + "\n"@ =~= input@.push('\n'));
    }
}

/// The path that the effect of a command on files works on.
pub open spec fn first_path(effect: Effect) -> Option<Seq<char>> {
    match effect {
        Effect::ListDirectory(p) => Some(p@),
        Effect::MeasureFile(p) => Some(p@),
        Effect::WriteFile(p, _) => Some(p@),
        Effect::Rename(p, _) => Some(p@),
        Effect::ClassifyPath(p) => Some(p@),
        Effect::CreateDirectory(p) => Some(p@),
        _ => None,
    }
}

/// The path that a command on files gives; a listing without one is of the whole
/// volume.
pub open spec fn given_path(cmd: CommandPayload) -> Seq<char> {
    match cmd.path {
        Some(path) => path@,
        None => seq![],
    }
}

/// A command on files works on just the place that its path names in the server's
/// volume: the pieces that lead to the volume, followed by those of the path, where
/// empty ones and dots do not count. A rename leads to the place that the new path
/// names, likewise.
pub proof fn law_file_commands_reach_their_place(d: Dispatcher, cmd: CommandPayload, next: Next)
    requires
        d.begins(cmd, next),
        next is Do,
        first_path(next->Do_0) is Some,
    ensures
        paths::place(first_path(next->Do_0)->0) == paths::place(paths::joined(d.volumes_root@, cmd.server_id@))
            + text::split(given_path(cmd), '/').filter(|piece: Seq<char>| piece.len() > 0 && piece != "."@),
        paths::is_file_name(cmd.server_id@) ==> paths::place(first_path(next->Do_0)->0) == paths::place(
            d.volumes_root@,
        ).push(cmd.server_id@) + paths::steps_down(given_path(cmd)),
        next->Do_0 matches Effect::Rename(_, to) ==> cmd.new_path is Some && paths::place(to@) == paths::place(
            paths::joined(d.volumes_root@, cmd.server_id@),
        ) + text::split(cmd.new_path->0@, '/').filter(|piece: Seq<char>| piece.len() > 0 && piece != "."@),
        next->Do_0 matches Effect::WriteFile(_, bytes) ==> cmd.content_base64 is Some && content::base64_bytes(
            cmd.content_base64->0@,
        ) == Some(bytes@),
{
    reveal_strlit("");
    assert(""@ =~= Seq::<char>::empty());
    let volume = volume_of(d.volumes_root@, cmd.server_id@);
    let rel = given_path(cmd);
    if !paths::escapes(rel) {
        paths::law_path_leads_where_its_pieces_lead(volume, rel);
    }
    if let Some(to) = text_model(cmd.new_path) {
        if !paths::escapes(to) {
            paths::law_path_leads_where_its_pieces_lead(volume, to);
        }
    }
    if paths::is_file_name(cmd.server_id@) {
        paths::law_file_name_stays_in_directory(d.volumes_root@, cmd.server_id@);
    }
}

/// Two commands on a server's files work on the same place only where their paths
/// name the same one.
pub proof fn law_different_paths_reach_different_places(
    d: Dispatcher,
    a: CommandPayload,
    b: CommandPayload,
    next_a: Next,
    next_b: Next,
)
    requires
        d.begins(a, next_a),
        d.begins(b, next_b),
        a.server_id@ == b.server_id@,
        next_a is Do,
        next_b is Do,
        first_path(next_a->Do_0) is Some,
        first_path(next_b->Do_0) is Some,
    ensures
        paths::place(first_path(next_a->Do_0)->0) == paths::place(first_path(next_b->Do_0)->0)
            <==> paths::steps_down(given_path(a)) == paths::steps_down(given_path(b)),
{
    law_file_commands_reach_their_place(d, a, next_a);
    law_file_commands_reach_their_place(d, b, next_b);
    let start = paths::place(paths::joined(d.volumes_root@, a.server_id@));
    let x = paths::steps_down(given_path(a));
    let y = paths::steps_down(given_path(b));
    assert((start + x).skip(start.len() as int) =~= x);
    assert((start + y).skip(start.len() as int) =~= y);
}

/// A command on files is carried out, by the effect of its action, exactly where
/// its paths are there and do not leave the volume and its content, if it has to
/// have one, is well-formed and no longer than ten mebibytes. Else it is refused.
pub proof fn law_usable_file_commands_are_carried_out(d: Dispatcher, cmd: CommandPayload, next: Next)
    requires
        d.begins(cmd, next),
    ensures
        ({
            let there = cmd.path is Some && !paths::escapes(cmd.path->0@);
            let new_there = cmd.new_path is Some && !paths::escapes(cmd.new_path->0@);
            let fits = cmd.content_base64 is Some && (content::base64_bytes(cmd.content_base64->0@) matches Some(
                bytes,
            ) && bytes.len() <= 10 * 1024 * 1024);
            &&& cmd.action == Action::ListFiles ==> if cmd.path is None || there {
                next matches Next::Do(effect) && effect is ListDirectory
            } else {
                next matches Next::Reply(ack) && !ack.ok
            }
            &&& cmd.action == Action::ReadFile ==> if there {
                next matches Next::Do(effect) && effect is MeasureFile
            } else {
                next matches Next::Reply(ack) && !ack.ok
            }
            &&& cmd.action == Action::WriteFile ==> if there && fits {
                next matches Next::Do(effect) && effect is WriteFile
            } else {
                next matches Next::Reply(ack) && !ack.ok
            }
            &&& cmd.action == Action::RenameFile ==> if there && new_there {
                next matches Next::Do(effect) && effect is Rename
            } else {
                next matches Next::Reply(ack) && !ack.ok
            }
            &&& cmd.action == Action::DeleteFile ==> if there {
                next matches Next::Do(effect) && effect is ClassifyPath
            } else {
                next matches Next::Reply(ack) && !ack.ok
            }
            &&& cmd.action == Action::Mkdir ==> if there {
                next matches Next::Do(effect) && effect is CreateDirectory
            } else {
                next matches Next::Reply(ack) && !ack.ok
            }
        }),
{
    reveal_strlit("");
    assert(""@ =~= Seq::<char>::empty());
    let none: Seq<char> = seq![];
    paths::law_only_paths_that_lead_out_escape(none);
    assert(text::split(none, '/') =~= seq![none]);
}

/// What a command on files is refused for is told: that a path leaves the volume, by
/// naming the path, what is missing, that its content is malformed, or how long it
/// is and may be.
pub proof fn law_refused_file_commands_say_why(d: Dispatcher, cmd: CommandPayload, next: Next)
    requires
        d.begins(cmd, next),
    ensures
        cmd.path is Some && paths::escapes(cmd.path->0@) && (cmd.action == Action::ListFiles || cmd.action
            == Action::ReadFile || cmd.action == Action::WriteFile || cmd.action == Action::RenameFile || cmd.action
            == Action::DeleteFile || cmd.action == Action::Mkdir) ==> turned_down(
            next,
            cmd,
            "path escapes the server volume: "@ + cmd.path->0@,
        ),
        cmd.path is None && cmd.action == Action::ReadFile ==> turned_down(next, cmd, "read_file missing path"@),
        cmd.path is None && cmd.action == Action::WriteFile ==> turned_down(next, cmd, "write_file missing path"@),
        cmd.path is None && cmd.action == Action::RenameFile ==> turned_down(next, cmd, "rename_file missing path"@),
        cmd.path is None && cmd.action == Action::DeleteFile ==> turned_down(next, cmd, "delete_file missing path"@),
        cmd.path is None && cmd.action == Action::Mkdir ==> turned_down(next, cmd, "mkdir missing path"@),
        cmd.path is Some && !paths::escapes(cmd.path->0@) && cmd.action == Action::RenameFile ==> match cmd.new_path {
            None => turned_down(next, cmd, "rename_file missing new_path"@),
            Some(to) => paths::escapes(to@) ==> turned_down(next, cmd, "path escapes the server volume: "@ + to@),
        },
        cmd.path is Some && !paths::escapes(cmd.path->0@) && cmd.action == Action::WriteFile
            ==> match cmd.content_base64 {
            None => turned_down(next, cmd, "write_file missing content"@),
            Some(content) => match content::base64_bytes(content@) {
                None => turned_down(next, cmd, "decode base64 content"@),
                Some(bytes) => bytes.len() > 10 * 1024 * 1024 ==> turned_down(
                    next,
                    cmd,
                    "file is too large for the command channel ("@ + text::decimal(bytes.len()) + " bytes, max "@
                        + text::decimal(10485760) + ")"@,
                ),
            },
        },
{
}

/// Commands on backups work in the server's own directory for them: a backup and a
/// listing on the directory itself, a restore and a deletion on the file of the
/// given name in it; and a restore unpacks into the server's own volume. A name
/// that is not that of a file is refused.
pub proof fn law_backup_commands_reach_their_place(d: Dispatcher, cmd: CommandPayload, next: Next)
    requires
        d.begins(cmd, next),
    ensures
        ({
            let dir = paths::joined(d.backups_root@, cmd.server_id@);
            let volume = paths::joined(d.volumes_root@, cmd.server_id@);
            &&& cmd.action == Action::Backup ==> (next matches Next::Do(Effect::CreateBackupDirectory(p)) && p@ == dir)
            &&& cmd.action == Action::ListBackups ==> (next matches Next::Do(Effect::ListBackups(p)) && p@ == dir)
            &&& cmd.action == Action::RestoreBackup ==> match cmd.path {
                Some(name) => if paths::is_file_name(name@) {
                    next matches Next::Do(Effect::RestoreArchive(archive, into)) && paths::place(archive@)
                        == paths::place(dir).push(name@) && into@ == volume
                } else {
                    turned_down(next, cmd, "invalid backup name: "@ + name@)
                },
                None => turned_down(next, cmd, "restore_backup missing path"@),
            }
            &&& cmd.action == Action::DeleteBackup ==> match cmd.path {
                Some(name) => if paths::is_file_name(name@) {
                    next matches Next::Do(Effect::RemoveArchive(archive)) && paths::place(archive@) == paths::place(
                        dir,
                    ).push(name@)
                } else {
                    turned_down(next, cmd, "invalid backup name: "@ + name@)
                },
                None => turned_down(next, cmd, "delete_backup missing path"@),
            }
        }),
{
    if let Some(name) = text_model(cmd.path) {
        if paths::is_file_name(name) {
            paths::law_file_name_stays_in_directory(d.backups_of(cmd.server_id@), name);
        }
    }
}

/// Every server has a volume and a directory for backups of its own: those of two
/// servers whose ids are names of files are different places.
pub proof fn law_servers_do_not_share_places(d: Dispatcher, a: Seq<char>, b: Seq<char>)
    requires
        paths::is_file_name(a),
        paths::is_file_name(b),
    ensures
        paths::place(volume_of(d.volumes_root@, a)) == paths::place(d.volumes_root@).push(a),
        paths::place(d.backups_of(a)) == paths::place(d.backups_root@).push(a),
        paths::place(volume_of(d.volumes_root@, a)) == paths::place(volume_of(d.volumes_root@, b)) <==> a == b,
        paths::place(d.backups_of(a)) == paths::place(d.backups_of(b)) <==> a == b,
{
    paths::law_file_name_stays_in_directory(d.volumes_root@, a);
    paths::law_file_name_stays_in_directory(d.volumes_root@, b);
    paths::law_file_name_stays_in_directory(d.backups_root@, a);
    paths::law_file_name_stays_in_directory(d.backups_root@, b);
    assert(paths::place(d.volumes_root@).push(a).last() == a);
    assert(paths::place(d.volumes_root@).push(b).last() == b);
    assert(paths::place(d.backups_root@).push(a).last() == a);
    assert(paths::place(d.backups_root@).push(b).last() == b);
}

/// A file that is too long is told with its length and the limit.
pub proof fn law_too_long_is_told_in_numbers(length: int)
    requires
        0 <= length,
    ensures
        too_large_text(length) == "file is too large for the command channel ("@ + text::decimal(length as nat)
            + " bytes, max "@ + text::decimal(10485760) + ")"@,
{
}

/// A container that was found is known under its own id, the last one of a server
/// where there are several, and of servers for which none was found what was known
/// before stays.
pub proof fn law_found_containers_are_known_by_their_ids(
    containers: Map<Seq<char>, String>,
    found: Seq<ManagedContainer>,
    i: int,
    server_id: Seq<char>,
)
    ensures
        0 <= i < found.len() && (forall|j: int| i < j < found.len() ==> (#[trigger] found[j]).server_id@
            != found[i].server_id@) ==> with_all(containers, found).contains_key(found[i].server_id@) && with_all(
            containers,
            found,
        )[found[i].server_id@] == found[i].container_id,
        !is_found(found, server_id) && containers.contains_key(server_id) ==> with_all(containers, found)[server_id]
            == containers[server_id],
    decreases found.len(),
{
    if found.len() > 0 {
        let shorter = found.drop_last();
        law_found_containers_are_known_by_their_ids(containers, shorter, i, server_id);
        law_reconciled_servers_are_known(containers, shorter, server_id);
        assert(found[found.len() - 1] == found.last());
        if 0 <= i < shorter.len() {
            assert(shorter[i] == found[i]);
            if forall|j: int| i < j < found.len() ==> (#[trigger] found[j]).server_id@ != found[i].server_id@ {
                assert forall|j: int| i < j < shorter.len() implies (#[trigger] shorter[j]).server_id@
                    != shorter[i].server_id@ by {
                    assert(shorter[j] == found[j]);
                }
                assert(found[found.len() - 1].server_id@ != found[i].server_id@);
            }
        }
        if !is_found(found, server_id) {
            assert(!is_found(shorter, server_id)) by {
                if is_found(shorter, server_id) {
                    let k = choose|k: int| 0 <= k < shorter.len() && (#[trigger] shorter[k]).server_id@ == server_id;
                    assert(found[k].server_id@ == server_id);
                }
            }
            assert(found[found.len() - 1].server_id@ != server_id);
        }
    }
}

/// A command that is turned down is answered at once, under its id, with the whole
/// reason and nothing else.
pub proof fn law_turning_down_is_answering(next: Next, cmd: CommandPayload, error: Seq<char>)
    ensures
        turned_down(next, cmd, error) <==> (next matches Next::Reply(ack) && ack.command_id == cmd.command_id
            && !ack.ok && (ack.error matches Some(said) && said@ == error) && ack.result is None),
        refuses_escape(next, cmd, error) <==> turned_down(next, cmd, "path escapes the server volume: "@ + error),
{
}

/// The servers with a live console once that of one has ended.
pub open spec fn without_console(consoles: Map<Seq<char>, ()>, server_id: Seq<char>) -> Map<Seq<char>, ()> {
    consoles.remove(server_id)
}

/// A console that has ended is live no more, and those of other servers stay as they
/// are.
pub proof fn law_ended_console_is_live_no_more(consoles: Map<Seq<char>, ()>, server_id: Seq<char>, other: Seq<char>)
    ensures
        !without_console(consoles, server_id).contains_key(server_id),
        other != server_id ==> without_console(consoles, server_id).contains_key(other) == consoles.contains_key(other),
{
}

/// The container that is known of for a server.
pub open spec fn known_container(containers: Map<Seq<char>, String>, server_id: Seq<char>) -> Option<String> {
    if containers.contains_key(server_id) {
        Some(containers[server_id])
    } else {
        None
    }
}

/// The container that was noted last for a server is the one that is known of, until
/// it is removed; notes on other servers do not matter.
pub proof fn law_noted_container_is_known(
    containers: Map<Seq<char>, String>,
    server_id: Seq<char>,
    id: String,
    other: Seq<char>,
)
    ensures
        known_container(containers.insert(server_id, id), server_id) == Some(id),
        known_container(containers.remove(server_id), server_id) is None,
        known_container(Map::empty(), server_id) is None,
        other != server_id ==> known_container(containers.insert(server_id, id), other) == known_container(
            containers,
            other,
        ),
        other != server_id ==> known_container(containers.remove(server_id), other) == known_container(
            containers,
            other,
        ),
{
}

} // verus!
