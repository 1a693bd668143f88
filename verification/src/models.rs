//! The records the commands exchange with the interface and with storage.
use vstd::prelude::*;
use crate::error::RelatedPort;
use crate::text::str_eq;

verus! {

/// Where a launch profile's process stands.
#[derive(Debug, Clone, Copy, PartialEq, Eq, Structural)]
pub enum RunStatus {
    /// Not running, and nothing is in its way.
    Idle,
    Starting,
    Running,
    /// An expected port was already taken when it was asked to start.
    Conflict,
    /// Its process ended.
    Exited,
    /// Its process could not be inspected.
    Unknown,
}

/// A port a launch profile is expected to listen on once it is ready.
#[derive(Debug, Clone, PartialEq, Eq)]
pub struct ExpectedPort {
    pub id: String,
    pub profile_id: String,
    pub port: u16,
    pub protocol: String,
}

/// One way to launch something inside a project.
#[derive(Debug, Clone, PartialEq, Eq)]
pub struct LaunchProfile {
    pub id: String,
    pub project_id: String,
    pub name: String,
    pub program: String,
    pub args: Vec<String>,
    pub cwd: String,
    pub expected_ports: Vec<ExpectedPort>,
    pub status: RunStatus,
    pub pid: Option<u32>,
}

/// A project and its launch profiles.
#[derive(Debug, Clone, PartialEq, Eq)]
pub struct Project {
    pub id: String,
    pub name: String,
    pub path: String,
    pub profiles: Vec<LaunchProfile>,
    pub created_at: i64,
    pub updated_at: i64,
}

/// Launch profiles started together, in order, and stopped in reverse.
#[derive(Debug, Clone, PartialEq, Eq)]
pub struct LaunchGroup {
    pub id: String,
    pub name: String,
    pub profile_ids: Vec<String>,
}

/// The interface language the user chose.
#[derive(Debug, Clone, Copy, PartialEq, Eq, Structural)]
pub enum LanguagePreference {
    System,
    English,
    SimplifiedChinese,
}

impl LanguagePreference {
    /// The preference a stored or requested value names: `system`, `en` or `zh-CN`.
    pub fn parse(value: &str) -> (r: Option<Self>)
        ensures
            r == language_named(value@),
    {
        if str_eq(value, "system") {
            Some(LanguagePreference::System)
        } else if str_eq(value, "en") {
            Some(LanguagePreference::English)
        } else if str_eq(value, "zh-CN") {
            Some(LanguagePreference::SimplifiedChinese)
        } else {
            None
        }
    }
}

/// The preference a value names, if any.
pub open spec fn language_named(value: Seq<char>) -> Option<LanguagePreference> {
    if value == "system"@ {
        Some(LanguagePreference::System)
    } else if value == "en"@ {
        Some(LanguagePreference::English)
    } else if value == "zh-CN"@ {
        Some(LanguagePreference::SimplifiedChinese)
    } else {
        None
    }
}

/// What closing the main window does.
#[derive(Debug, Clone, Copy, PartialEq, Eq, Structural)]
pub enum CloseBehavior {
    Ask,
    HideToTray,
    Quit,
}

impl CloseBehavior {
    /// The behavior a stored or requested value names: `ask`, `hideToTray` or `quit`.
    pub fn parse(value: &str) -> (r: Option<Self>)
        ensures
            r == close_behavior_named(value@),
    {
        if str_eq(value, "ask") {
            Some(CloseBehavior::Ask)
        } else if str_eq(value, "hideToTray") {
            Some(CloseBehavior::HideToTray)
        } else if str_eq(value, "quit") {
            Some(CloseBehavior::Quit)
        } else {
            None
        }
    }
}

/// The behavior a value names, if any.
pub open spec fn close_behavior_named(value: Seq<char>) -> Option<CloseBehavior> {
    if value == "ask"@ {
        Some(CloseBehavior::Ask)
    } else if value == "hideToTray"@ {
        Some(CloseBehavior::HideToTray)
    } else if value == "quit"@ {
        Some(CloseBehavior::Quit)
    } else {
        None
    }
}

/// What a restore of the last run set achieved: the profiles started, in order, and
/// the one that stopped it with why.
#[derive(Debug, Clone, PartialEq, Eq)]
pub struct RestoreResult {
    pub started_profile_ids: Vec<String>,
    pub failed_profile_id: Option<String>,
    pub error: Option<String>,
    pub related_port: Option<RelatedPort>,
}

/// One member of a launch group that refused to stop.
#[derive(Debug, Clone, PartialEq, Eq)]
pub struct LaunchGroupStopFailure {
    pub profile_id: String,
    pub error: String,
}

/// Who associated an observed port with a project.
#[derive(Debug, Clone, Copy, PartialEq, Eq, Structural)]
pub enum AssociationSource {
    Suggested,
    Confirmed,
}

/// One port as the last scan saw it.
#[derive(Debug, Clone, PartialEq, Eq)]
pub struct PortSnapshot {
    pub port: u16,
    pub protocol: String,
    pub state: String,
    pub bind_address: Option<String>,
    pub is_public: bool,
    pub active: bool,
    pub pid: Option<u32>,
    pub process_name: Option<String>,
    pub executable_path: Option<String>,
    pub command_line: Option<String>,
    pub process_started_at: Option<u64>,
    pub last_seen_at: Option<i64>,
    pub project_id: Option<String>,
    pub profile_id: Option<String>,
    pub association_source: Option<AssociationSource>,
}

/// A user's confirmation of a suggested port association, with the identity it was
/// made against.
#[derive(Debug, Clone, PartialEq, Eq)]
pub struct ConfirmAssociationRequest {
    pub port: u16,
    pub protocol: String,
    pub project_id: String,
    pub profile_id: Option<String>,
    pub pid: u32,
    pub started_at: u64,
    pub executable_path: String,
}

/// A request to end a process RunCove did not start, with the identity it was made
/// against.
#[derive(Debug, Clone, PartialEq, Eq)]
pub struct ExternalProcessRequest {
    pub pid: u32,
    pub port: u16,
    pub protocol: String,
    pub started_at: Option<u64>,
    pub executable_path: Option<String>,
}

/// The state of one socket in a port scan.
#[derive(Debug, Clone, Copy, PartialEq, Eq, Structural)]
pub enum ConnectionState {
    Listen,
    Other,
}

/// One socket as a port scan reports it; `protocol` is the protocol's display text.
#[derive(Debug, Clone, PartialEq, Eq)]
pub struct PortEntry {
    pub state: ConnectionState,
    pub port: u16,
    pub protocol: String,
    pub pid: Option<u32>,
    pub process_name: Option<String>,
}

/// A launch profile found in a project's manifests.
#[derive(Debug, Clone, PartialEq, Eq)]
pub struct DiscoveredProfile {
    pub name: String,
    pub program: String,
    pub args: Vec<String>,
    pub cwd: String,
    pub expected_ports: Vec<ExpectedPort>,
    pub observed_runtime: bool,
}

/// A project found on disk, with the launch profiles its manifests offer.
#[derive(Debug, Clone, PartialEq, Eq)]
pub struct DiscoveredProject {
    pub name: String,
    pub path: String,
    pub package_manager: String,
    pub workspace_patterns: Vec<String>,
    pub profiles: Vec<DiscoveredProfile>,
}

/// What the archive toggle and viewer show: the user's setting, and whether this run
/// can archive, with why not.
#[derive(Debug, Clone, PartialEq, Eq)]
pub struct RunLogArchiveState {
    pub enabled: bool,
    pub available: bool,
    pub unavailable_reason: Option<String>,
}

} // verus!
