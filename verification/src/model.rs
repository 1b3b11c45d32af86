//! The data that the queue, the engine and the user interface exchange.
//! Points in time are UTC milliseconds since the Unix epoch.
use vstd::prelude::*;

verus! {

#[derive(Clone, Debug)]
pub struct HeaderEntry {
    pub name: String,
    pub value: String,
}

#[derive(Clone, Debug)]
pub struct CookieEntry {
    pub name: String,
    pub value: String,
}

#[derive(Clone, Debug)]
pub enum ProxySelection {
    Direct,
    Profile { profile_id: String },
}

#[derive(Clone, Debug)]
pub struct DownloadSource {
    pub url: String,
    pub headers: Vec<HeaderEntry>,
    pub cookies: Vec<CookieEntry>,
    pub proxy: ProxySelection,
    pub force_single_stream: bool,
}

#[derive(Clone, Copy, Debug, PartialEq, Eq, Structural)]
pub enum DownloadCategory {
    Video,
    Archive,
    Document,
    Audio,
    Other,
}

#[derive(Clone, Copy, Debug, PartialEq, Eq, Structural)]
pub enum TransferSize {
    Unknown,
    Known { total_bytes: u64 },
}

#[derive(Clone, Debug, PartialEq, Eq)]
pub enum SourceValidator {
    Absent,
    Etag { value: String },
    LastModified { value: String },
}

#[derive(Clone, Debug)]
pub enum ResumeSupport {
    Unknown,
    Supported,
    Unsupported { reason: String },
}

#[derive(Clone, Copy, Debug, PartialEq, Eq, Structural)]
pub enum TransferPhase {
    Idle,
    Preparing,
    Probing,
    Connecting,
    Transferring,
    Merging,
    Finalizing,
}

#[derive(Clone, Debug)]
pub enum TransferMode {
    Single { reason: Option<String> },
    Segmented,
}

#[derive(Clone, Copy, Debug, PartialEq, Eq, Structural)]
pub enum SegmentState {
    Pending,
    Connecting,
    Downloading,
    Paused,
    Completed,
    Failed,
    Stopped,
}

#[derive(Clone, Debug)]
pub struct SegmentProgress {
    pub index: u8,
    pub start_byte: u64,
    pub end_byte: Option<u64>,
    pub downloaded_bytes: u64,
    pub speed_bytes: u64,
    pub state: SegmentState,
    pub last_activity_at: Option<i64>,
    pub error: Option<String>,
}

#[derive(Clone, Debug)]
pub struct TransferTelemetry {
    pub phase: TransferPhase,
    pub mode: TransferMode,
    pub segments: Vec<SegmentProgress>,
}

impl TransferTelemetry {
    /// Telemetry of a transfer that has not started: idle, one stream, no segments.
    pub fn idle() -> (t: TransferTelemetry)
        ensures
            t.phase == TransferPhase::Idle,
            t.mode == (TransferMode::Single { reason: None }),
            t.segments@.len() == 0,
    {
        TransferTelemetry {
            phase: TransferPhase::Idle,
            mode: TransferMode::Single { reason: None },
            segments: Vec::new(),
        }
    }
}

impl Default for TransferTelemetry {
    fn default() -> (t: TransferTelemetry)
        ensures
            t.phase == TransferPhase::Idle,
            t.mode == (TransferMode::Single { reason: None }),
            t.segments@.len() == 0,
    {
        TransferTelemetry::idle()
    }
}

#[derive(Clone, Debug)]
pub struct TransferProgress {
    pub downloaded_bytes: u64,
    pub size: TransferSize,
    pub validator: SourceValidator,
    pub resume: ResumeSupport,
}

#[derive(Clone, Debug)]
pub enum DownloadState {
    Queued,
    Downloading { speed_bytes: u64 },
    Paused,
    Completed { completed_at: i64 },
    Failed { message: String, recoverable: bool },
}

#[derive(Clone, Debug)]
pub struct DownloadItem {
    pub id: String,
    pub file_name: String,
    pub category: DownloadCategory,
    pub state: DownloadState,
    pub source: DownloadSource,
    pub destination: String,
    pub transfer: TransferProgress,
    pub telemetry: TransferTelemetry,
    pub threads: u8,
    pub speed_limit_bytes: u64,
    pub created_at: i64,
    pub updated_at: i64,
}

#[derive(Clone, Debug)]
pub struct CreateDownloadInput {
    pub source: DownloadSource,
    pub file_name: String,
    pub file_name_customized: bool,
    pub category: DownloadCategory,
    pub category_customized: bool,
    pub destination: String,
    pub destination_customized: bool,
    pub threads: u8,
    pub speed_limit_bytes: u64,
    pub start_immediately: bool,
}

#[derive(Clone, Debug)]
pub struct BrowserDownloadInput {
    pub url: String,
    pub file_name: Option<String>,
    pub page_url: Option<String>,
    pub page_title: Option<String>,
    pub referrer: Option<String>,
    pub user_agent: Option<String>,
    pub cookies: Vec<CookieEntry>,
    pub force_single_stream: bool,
}

#[derive(Clone, Copy, Debug, PartialEq, Eq, Structural)]
pub enum DownloadAction {
    Pause,
    Resume,
    Retry,
    Restart,
    Remove,
}

#[derive(Clone, Debug)]
pub enum ProxyHealth {
    Untested,
    Checking,
    Online { latency_ms: u64 },
    Offline { reason: String },
}

#[derive(Clone, Debug)]
pub struct ProxyProfile {
    pub id: String,
    pub name: String,
    pub url: String,
    pub enabled: bool,
    pub health: ProxyHealth,
}

#[derive(Clone, Debug)]
pub struct CategoryDirectories {
    pub video: String,
    pub archive: String,
    pub document: String,
    pub audio: String,
    pub other: String,
}

impl Default for CategoryDirectories {
    fn default() -> (d: CategoryDirectories)
        ensures
            d.video@ == "Videos"@,
            d.archive@ == "Comprimidos"@,
            d.document@ == "Documentos"@,
            d.audio@ == "Audio"@,
            d.other@ == "Otros"@,
    {
        CategoryDirectories {
            video: "Videos".to_owned(),
            archive: "Comprimidos".to_owned(),
            document: "Documentos".to_owned(),
            audio: "Audio".to_owned(),
            other: "Otros".to_owned(),
        }
    }
}

#[derive(Clone, Debug)]
pub struct AppSettings {
    pub max_concurrent: u8,
    pub default_threads: u8,
    pub default_speed_limit_bytes: u64,
    pub download_directory: String,
    pub organize_by_category: bool,
    pub category_directories: CategoryDirectories,
    pub start_immediately: bool,
}

impl Default for AppSettings {
    fn default() -> (s: AppSettings)
        ensures
            s.max_concurrent == 3,
            s.default_threads == 8,
            s.default_speed_limit_bytes == 0,
            s.download_directory@ == "Fluxor"@,
            s.organize_by_category,
            s.category_directories.video@ == "Videos"@,
            s.category_directories.archive@ == "Comprimidos"@,
            s.category_directories.document@ == "Documentos"@,
            s.category_directories.audio@ == "Audio"@,
            s.category_directories.other@ == "Otros"@,
            s.start_immediately,
    {
        AppSettings {
            max_concurrent: 3,
            default_threads: 8,
            default_speed_limit_bytes: 0,
            download_directory: "Fluxor".to_owned(),
            organize_by_category: true,
            category_directories: CategoryDirectories::default(),
            start_immediately: true,
        }
    }
}

#[derive(Clone, Debug)]
pub struct AppSnapshot {
    pub revision: u64,
    pub downloads: Vec<DownloadItem>,
    pub proxies: Vec<ProxyProfile>,
    pub settings: AppSettings,
}

impl Default for AppSnapshot {
    fn default() -> (s: AppSnapshot)
        ensures
            s.revision == 0,
            s.downloads@.len() == 0,
            s.proxies@.len() == 0,
    {
        AppSnapshot {
            revision: 0,
            downloads: Vec::new(),
            proxies: Vec::new(),
            settings: AppSettings::default(),
        }
    }
}

#[derive(Clone, Copy, Debug)]
pub struct RevisionEvent {
    pub revision: u64,
}

#[derive(Clone, Debug)]
pub struct DownloadProgressEvent {
    pub revision: u64,
    pub download_id: String,
    pub state: DownloadState,
    pub transfer: TransferProgress,
    pub telemetry: TransferTelemetry,
    pub updated_at: i64,
}

} // verus!
