//! Data types of the SFTP client.
use vstd::prelude::*;

verus! {

/// What a directory entry is.
#[derive(Clone, Copy, Debug, PartialEq, Eq, Structural)]
pub enum FileKind {
    Directory,
    File,
    Symlink,
    Other,
}

#[verifier::external_type_specification]
#[verifier::external_body]
pub struct ExSystemTime(std::time::SystemTime);

/// One entry of a directory listing.
#[derive(Debug, PartialEq, Eq)]
pub struct FileEntry {
    pub name: String,
    pub path: String,
    pub kind: FileKind,
    pub size: u64,
    pub modified_at: Option<std::time::SystemTime>,
    pub mode: Option<u32>,
}

/// Which way a transfer goes.
#[derive(Clone, Copy, Debug, PartialEq, Eq, Structural)]
pub enum TransferDirection {
    Upload,
    Download,
}

/// A private key: a file (by its path), inline key data, or both, with an
/// optional passphrase.
#[derive(Clone, Debug, PartialEq, Eq)]
pub struct PrivateKeySource {
    pub path: Option<String>,
    pub data: Option<Vec<u8>>,
    pub passphrase: Option<String>,
}

/// The SSH agent to ask: the default one, or one at a socket path.
#[derive(Clone, Debug, PartialEq, Eq)]
pub enum AgentEndpoint {
    Default,
    Path(String),
}

/// The credentials a connection offers.
#[derive(Clone, Debug, PartialEq, Eq)]
pub struct SftpAuthentication {
    pub password: Option<String>,
    pub private_keys: Vec<PrivateKeySource>,
    pub agent: Option<AgentEndpoint>,
}

/// Everything needed to open one SSH connection, and the jump host before it.
/// Timeouts and intervals are in milliseconds.
#[derive(Debug, PartialEq, Eq)]
pub struct SftpConnectionOptions {
    pub host: String,
    pub port: u32,
    pub username: Option<String>,
    pub authentication: SftpAuthentication,
    pub ready_timeout: Option<u64>,
    pub keepalive_interval: Option<u64>,
    pub keepalive_count_max: Option<usize>,
    pub jump: Option<Box<SftpConnectionOptions>>,
}

impl Default for SftpConnectionOptions {
    /// No host, port 22, no user, no credentials, no timeouts and no jump
    /// host.
    fn default() -> (r: Self)
        ensures
            r.host@.len() == 0,
            r.port == 22,
            r.username is None,
            r.authentication.password is None,
            r.authentication.private_keys@.len() == 0,
            r.authentication.agent is None,
            r.ready_timeout is None,
            r.keepalive_interval is None,
            r.keepalive_count_max is None,
            r.jump is None,
    {
        SftpConnectionOptions {
            host: String::new(),
            port: 22,
            username: None,
            authentication: SftpAuthentication { password: None, private_keys: Vec::new(), agent: None },
            ready_timeout: None,
            keepalive_interval: None,
            keepalive_count_max: None,
            jump: None,
        }
    }
}

/// Credentials that the UI supplies for a connection, taking precedence
/// over what the profile says.
#[derive(Clone, Debug, PartialEq, Eq)]
pub struct CredentialOverrides {
    pub password: Option<String>,
    pub private_keys: Option<Vec<PrivateKeySource>>,
    pub agent: Option<AgentEndpoint>,
}

/// Overrides for the target and the jump host, and the environment that
/// password variables are read from (the process environment when `None`).
#[derive(Clone, Debug, PartialEq, Eq)]
pub struct ProfileConnectionOverrides {
    pub credentials: CredentialOverrides,
    pub jump: CredentialOverrides,
    pub environment: Option<Vec<(String, String)>>,
}

/// How serious a compatibility issue is.
#[derive(Clone, Copy, Debug, PartialEq, Eq, Structural)]
pub enum CompatibilityIssueSeverity {
    NeedsInput,
    Warning,
    Unsupported,
}

/// Something of a profile that the SFTP client cannot do as OpenSSH would.
#[derive(Clone, Debug, PartialEq, Eq)]
pub struct CompatibilityIssue {
    pub field: String,
    pub severity: CompatibilityIssueSeverity,
    pub message: String,
}

/// A profile's connection options, the issues found, and whether the
/// connection is supported at all.
#[derive(Debug, PartialEq, Eq)]
pub struct ProfileConnectionResult {
    pub connection: SftpConnectionOptions,
    pub issues: Vec<CompatibilityIssue>,
    pub supported: bool,
}

pub struct KeyView {
    pub path: Option<Seq<char>>,
    pub data: Option<Seq<u8>>,
    pub passphrase: Option<Seq<char>>,
}

impl View for PrivateKeySource {
    type V = KeyView;

    open spec fn view(&self) -> KeyView {
        KeyView {
            path: crate::types::opt_str(self.path),
            data: match self.data {
                Some(d) => Some(d@),
                None => None,
            },
            passphrase: crate::types::opt_str(self.passphrase),
        }
    }
}

pub enum AgentView {
    Default,
    Path(Seq<char>),
}

impl View for AgentEndpoint {
    type V = AgentView;

    open spec fn view(&self) -> AgentView {
        match self {
            AgentEndpoint::Default => AgentView::Default,
            AgentEndpoint::Path(p) => AgentView::Path(p@),
        }
    }
}

pub open spec fn opt_agent(a: Option<AgentEndpoint>) -> Option<AgentView> {
    match a {
        Some(x) => Some(x@),
        None => None,
    }
}

pub open spec fn keys_view(v: Seq<PrivateKeySource>) -> Seq<KeyView> {
    v.map_values(|k: PrivateKeySource| k@)
}

pub struct AuthView {
    pub password: Option<Seq<char>>,
    pub private_keys: Seq<KeyView>,
    pub agent: Option<AgentView>,
}

impl View for SftpAuthentication {
    type V = AuthView;

    open spec fn view(&self) -> AuthView {
        AuthView {
            password: crate::types::opt_str(self.password),
            private_keys: keys_view(self.private_keys@),
            agent: opt_agent(self.agent),
        }
    }
}

/// One connection without its jump host.
pub struct HopView {
    pub host: Seq<char>,
    pub port: u32,
    pub username: Option<Seq<char>>,
    pub authentication: AuthView,
    pub ready_timeout: Option<u64>,
    pub keepalive_interval: Option<u64>,
    pub keepalive_count_max: Option<usize>,
}

impl SftpConnectionOptions {
    /// The connection itself, leaving out its jump host.
    pub open spec fn hop(&self) -> HopView {
        HopView {
            host: self.host@,
            port: self.port,
            username: crate::types::opt_str(self.username),
            authentication: self.authentication@,
            ready_timeout: self.ready_timeout,
            keepalive_interval: self.keepalive_interval,
            keepalive_count_max: self.keepalive_count_max,
        }
    }
}

pub struct CredentialsView {
    pub password: Option<Seq<char>>,
    pub private_keys: Option<Seq<KeyView>>,
    pub agent: Option<AgentView>,
}

impl View for CredentialOverrides {
    type V = CredentialsView;

    open spec fn view(&self) -> CredentialsView {
        CredentialsView {
            password: crate::types::opt_str(self.password),
            private_keys: match self.private_keys {
                Some(k) => Some(keys_view(k@)),
                None => None,
            },
            agent: opt_agent(self.agent),
        }
    }
}

pub open spec fn pairs_view(v: Seq<(String, String)>) -> Seq<(Seq<char>, Seq<char>)> {
    v.map_values(|e: (String, String)| (e.0@, e.1@))
}

pub struct IssueView {
    pub field: Seq<char>,
    pub severity: CompatibilityIssueSeverity,
    pub message: Seq<char>,
}

impl View for CompatibilityIssue {
    type V = IssueView;

    open spec fn view(&self) -> IssueView {
        IssueView { field: self.field@, severity: self.severity, message: self.message@ }
    }
}

pub open spec fn issues_view(v: Seq<CompatibilityIssue>) -> Seq<IssueView> {
    v.map_values(|i: CompatibilityIssue| i@)
}

pub struct OverridesView {
    pub credentials: CredentialsView,
    pub jump: CredentialsView,
    pub environment: Option<Seq<(Seq<char>, Seq<char>)>>,
}

impl View for ProfileConnectionOverrides {
    type V = OverridesView;

    open spec fn view(&self) -> OverridesView {
        OverridesView {
            credentials: self.credentials@,
            jump: self.jump@,
            environment: match self.environment {
                Some(e) => Some(pairs_view(e@)),
                None => None,
            },
        }
    }
}

} // verus!
