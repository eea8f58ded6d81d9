//! The records the app stores and the values its commands hand back.
use vstd::prelude::*;

verus! {

/// A managed server.
pub struct ServerRecord {
    pub id: String,
    pub name: String,
    /// `None` until the address of a server prepared ahead of its VM is known.
    pub host: Option<String>,
    pub port: u16,
    pub username: String,
    pub os_info: Option<String>,
    /// SHA-256 fingerprint of the SSH host key seen on first connect (trust-on-first-use).
    pub known_host_fingerprint: Option<String>,
}

/// An installed game instance.
pub struct InstanceRecord {
    pub id: String,
    pub server_id: String,
    pub game_id: String,
    pub display_name: String,
    pub install_path: String,
    pub systemd_unit: String,
    pub cpu_limit_percent: u32,
    pub ram_limit_mb: u32,
}

/// A line of a streamed log, or the end of the stream.
pub enum LogEvent {
    Line { text: String },
    Closed,
}

/// Upload progress.
pub enum UploadEvent {
    Progress { bytes_sent: u64, total_bytes: u64 },
}

/// What the user enters to add a server.
pub struct AddServerInput {
    pub name: String,
    pub host: String,
    pub port: u16,
    pub username: String,
    pub password: String,
    /// IANA timezone of the machine running the app.
    pub timezone: Option<String>,
}

/// A server prepared before its VM exists: its id and the public key to give the provider.
pub struct PendingServer {
    pub server_id: String,
    pub public_key: String,
}

/// An install still running on a server.
pub struct ActiveInstall {
    pub instance_id: String,
    pub game_id: String,
    pub running: bool,
}

/// Installed and latest known version of a game instance.
pub struct VersionInfo {
    pub installed: Option<String>,
    pub latest: Option<String>,
    pub up_to_date: bool,
}

/// World name and player counts of a Minecraft server.
pub struct MinecraftLiveStatus {
    pub world: Option<String>,
    pub players_online: Option<u32>,
    pub players_max: Option<u32>,
}

/// Whether an instance's unit runs, since when, and under which process id.
pub struct InstanceStatus {
    pub state: String,
    pub uptime_seconds: i64,
    pub pid: Option<i64>,
    pub started_at: Option<String>,
}

/// CPU cores and RAM of a server.
pub struct HostCapacity {
    pub cpu_cores: u32,
    pub ram_total_mb: u32,
}

/// A daily restart at `time` ("HH:MM", 24h).
pub struct ScheduledRestart {
    pub id: String,
    pub time: String,
}

/// An entry of a listed directory.
pub struct DirEntry {
    pub name: String,
    pub is_dir: bool,
    pub size_bytes: u64,
}

/// A backup archive.
pub struct BackupEntry {
    pub name: String,
    pub size_bytes: u64,
    /// Unix timestamp (seconds) of the backup file's mtime.
    pub created_at: i64,
}

/// The app's settings.
pub struct AppSettings {
    pub close_to_tray: bool,
    pub refresh_interval_ms: u32,
}

/// The refresh interval used when the settings file names none.
pub fn default_refresh_interval_ms() -> (res: u32)
    ensures
        res == 3000,
{
    3000
}

impl Default for AppSettings {
    fn default() -> (res: Self)
        ensures
            res.close_to_tray == false,
            res.refresh_interval_ms == 3000,
    {
        AppSettings { close_to_tray: false, refresh_interval_ms: default_refresh_interval_ms() }
    }
}

} // verus!
