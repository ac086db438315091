//! What envelopes carry: the payloads of the panel's protocol.

use vstd::prelude::*;

verus! {

/// Capability token: this daemon understands the `pull_image` command.
pub const CAP_PULL_IMAGE: &'static str = "pull_image";

/// The first message of a connection.
#[derive(Debug, Clone)]
pub struct HelloPayload {
    pub node_token: String,
    pub agent_version: String,
    /// Capability tokens that this daemon supports, so that the panel does not
    /// send commands that an older daemon would not understand.
    pub capabilities: Vec<String>,
}

/// The state of one server's container. `P` is the type of a CPU percentage.
#[derive(Debug, Clone)]
pub struct ContainerHeartbeat<P> {
    pub server_id: String,
    pub running: bool,
    pub cpu_percent: P,
    pub mem_used_bytes: u64,
    pub mem_limit_bytes: u64,
    pub net_rx_bytes: u64,
    pub net_tx_bytes: u64,
}

/// The state of every tracked container.
#[derive(Debug, Clone)]
pub struct HeartbeatPayload<P> {
    pub containers: Vec<ContainerHeartbeat<P>>,
}

/// What an event tells.
#[derive(Debug, Clone, Copy, PartialEq, Eq, Structural)]
pub enum EventKind {
    ConsoleLine,
    StateChanged,
    BackupDone,
    BackupFailed,
}

/// Something that happened to a server.
#[derive(Debug, Clone)]
pub struct EventPayload {
    pub server_id: String,
    pub kind: EventKind,
    pub message: String,
}

/// A published port of a container.
#[derive(Debug, Clone)]
pub struct PortBinding {
    /// For example `25565/tcp`.
    pub container_port: String,
    pub host_port: String,
}

/// The container that a server runs in.
#[derive(Debug, Clone, Default)]
pub struct ContainerSpec {
    pub name: String,
    pub image: String,
    pub cmd: Vec<String>,
    pub env: Vec<String>,
    pub working_dir: String,
    pub binds: Vec<String>,
    pub port_bindings: Vec<PortBinding>,
    pub memory_bytes: i64,
    pub nano_cpus: i64,
    /// Names and values; no name occurs twice.
    pub labels: Vec<(String, String)>,
}

/// The commands that the panel can dispatch to a node.
#[derive(Debug, Clone, Copy, PartialEq, Eq, Structural, Default)]
pub enum Action {
    #[default]
    Create,
    Start,
    Stop,
    Kill,
    Remove,
    /// Pull an image ahead of time, so that a later `Create` finds it in the
    /// local cache. A no-op when the image is already present.
    PullImage,
    ConsoleInput,
    ListFiles,
    ReadFile,
    WriteFile,
    RenameFile,
    DeleteFile,
    Mkdir,
    Backup,
    ListBackups,
    RestoreBackup,
    DeleteBackup,
}

/// One command of the panel.
#[derive(Debug, Clone, Default)]
pub struct CommandPayload {
    pub command_id: String,
    pub action: Action,
    pub server_id: String,
    pub container_id: Option<String>,
    pub spec: Option<ContainerSpec>,
    /// `PullImage`: the image reference to warm on the node.
    pub image: Option<String>,
    /// `ConsoleInput`: the line to write to standard input.
    pub input: Option<String>,
    /// File actions: the path relative to the server's volume root.
    pub path: Option<String>,
    /// `RenameFile`: the destination relative to the server's volume root.
    pub new_path: Option<String>,
    /// `WriteFile`: the file's content in base64.
    pub content_base64: Option<String>,
}

/// One entry of a directory.
#[derive(Debug, Clone)]
pub struct FileEntry {
    pub name: String,
    pub is_dir: bool,
    pub size_bytes: u64,
}

/// The entries of a directory.
#[derive(Debug, Clone, Default)]
pub struct ListFilesResult {
    pub entries: Vec<FileEntry>,
}

/// The content of a file.
#[derive(Debug, Clone)]
pub struct ReadFileResult {
    pub content_base64: String,
    pub size_bytes: u64,
}

/// A backup that has just been made.
#[derive(Debug, Clone)]
pub struct BackupResult {
    pub filename: String,
    pub size_bytes: u64,
}

/// A backup archive on disk.
#[derive(Debug, Clone)]
pub struct BackupEntry {
    pub filename: String,
    pub size_bytes: u64,
    /// Unix seconds.
    pub created_at: u64,
}

/// The backup archives of a server.
#[derive(Debug, Clone, Default)]
pub struct ListBackupsResult {
    pub backups: Vec<BackupEntry>,
}

/// What a command that reads something hands back.
#[derive(Debug, Clone)]
pub enum ActionResult {
    Files(ListFilesResult),
    File(ReadFileResult),
    Backup(BackupResult),
    Backups(ListBackupsResult),
}

/// The answer to a command.
#[derive(Debug, Clone, Default)]
pub struct AckPayload {
    pub command_id: String,
    pub ok: bool,
    pub error: Option<String>,
    pub result: Option<ActionResult>,
}

} // verus!
