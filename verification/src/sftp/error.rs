//! Errors of the SFTP client, and the labels they are written with.
use vstd::prelude::*;

verus! {

/// Which connection of a session an error is about.
#[derive(Clone, Copy, Debug, PartialEq, Eq, Structural)]
pub enum ConnectionRole {
    Target,
    Jump,
}

pub open spec fn role_text(role: ConnectionRole) -> Seq<char> {
    match role {
        ConnectionRole::Target => "target host"@,
        ConnectionRole::Jump => "jump host"@,
    }
}

impl ConnectionRole {
    pub fn label(self) -> (r: &'static str)
        ensures
            r@ == role_text(self),
    {
        match self {
            ConnectionRole::Target => "target host",
            ConnectionRole::Jump => "jump host",
        }
    }
}

/// The kind of credential a connection asks for.
#[derive(Clone, Copy, Debug, PartialEq, Eq)]
pub enum CredentialMethod {
    PrivateKey,
    Agent,
    Authentication,
}

pub open spec fn method_text(method: CredentialMethod) -> Seq<char> {
    match method {
        CredentialMethod::PrivateKey => "private key"@,
        CredentialMethod::Agent => "SSH agent"@,
        CredentialMethod::Authentication => "authentication"@,
    }
}

impl CredentialMethod {
    pub fn label(self) -> (r: &'static str)
        ensures
            r@ == method_text(self),
    {
        match self {
            CredentialMethod::PrivateKey => "private key",
            CredentialMethod::Agent => "SSH agent",
            CredentialMethod::Authentication => "authentication",
        }
    }
}

/// An error of the SFTP client.
#[derive(Debug, PartialEq, Eq)]
pub enum SftpError {
    Aborted,
    CredentialRequired { role: ConnectionRole, method: CredentialMethod },
    AuthenticationFailed { role: ConnectionRole },
    InvalidConnection(String),
    ConnectionFailed(String),
    /// An operation on a path failed; `path` is the path as it is displayed.
    OperationFailed { operation: &'static str, path: Option<String>, detail: String },
    NotAFile(String),
    DestinationExists(String),
    ReplaceFailed { path: String, backup: String, detail: String },
}

/// The message an error is shown with.
pub open spec fn error_text(e: SftpError) -> Seq<char> {
    match e {
        SftpError::Aborted => "SFTP operation was cancelled"@,
        SftpError::CredentialRequired { role, method } => role_text(role) + " requires "@
            + method_text(method) + " credentials"@,
        SftpError::AuthenticationFailed { role } => "authentication failed for "@ + role_text(
            role,
        ),
        SftpError::InvalidConnection(s) => "invalid SFTP connection: "@ + s@,
        SftpError::ConnectionFailed(s) => "SFTP connection failed: "@ + s@,
        SftpError::OperationFailed { operation, path, detail } => operation@ + match path {
            Some(p) => " "@ + p@,
            None => Seq::empty(),
        } + " failed: "@ + detail@,
        SftpError::NotAFile(s) => s@ + " is not a regular file"@,
        SftpError::DestinationExists(s) => "destination already exists: "@ + s@,
        SftpError::ReplaceFailed { path, backup, detail } => "replace failed for "@ + path@
            + "; the original remains at "@ + backup@ + ": "@ + detail@,
    }
}

impl SftpError {
    /// An operation on a local path failed with `detail`.
    pub fn operation(operation: &'static str, path: &str, detail: &str) -> (r: SftpError)
        ensures
            r matches SftpError::OperationFailed { operation: o, path: Some(p), detail: d } && o
                == operation && p@ == path@ && d@ == detail@,
    {
        SftpError::OperationFailed {
            operation,
            path: Some(path.to_owned()),
            detail: detail.to_owned(),
        }
    }

    /// An operation on a remote path failed with `detail`.
    pub fn remote_operation(operation: &'static str, path: &str, detail: &str) -> (r: SftpError)
        ensures
            r matches SftpError::OperationFailed { operation: o, path: Some(p), detail: d } && o
                == operation && p@ == path@ && d@ == detail@,
    {
        SftpError::OperationFailed {
            operation,
            path: Some(path.to_owned()),
            detail: detail.to_owned(),
        }
    }

    /// The message the error is shown with.
    pub fn message(&self) -> (r: String)
        ensures
            r@ == error_text(*self),
    {
        match self {
            SftpError::Aborted => "SFTP operation was cancelled".to_owned(),
            SftpError::CredentialRequired { role, method } => {
                let mut r = role.label().to_owned();
                r.append(" requires ");
                r.append(method.label());
                r.append(" credentials");
                r
            },
            SftpError::AuthenticationFailed { role } => {
                let mut r = "authentication failed for ".to_owned();
                r.append(role.label());
                r
            },
            SftpError::InvalidConnection(s) => {
                let mut r = "invalid SFTP connection: ".to_owned();
                r.append(s.as_str());
                r
            },
            SftpError::ConnectionFailed(s) => {
                let mut r = "SFTP connection failed: ".to_owned();
                r.append(s.as_str());
                r
            },
            SftpError::OperationFailed { operation, path, detail } => {
                let mut r = (*operation).to_owned();
                match path {
                    Some(p) => {
                        r.append(" ");
                        r.append(p.as_str());
                    },
                    None => {},
                }
                r.append(" failed: ");
                r.append(detail.as_str());
                assert(r@ =~= error_text(*self));
                r
            },
            SftpError::NotAFile(s) => {
                let mut r = s.clone();
                r.append(" is not a regular file");
                r
            },
            SftpError::DestinationExists(s) => {
                let mut r = "destination already exists: ".to_owned();
                r.append(s.as_str());
                r
            },
            SftpError::ReplaceFailed { path, backup, detail } => {
                let mut r = "replace failed for ".to_owned();
                r.append(path.as_str());
                r.append("; the original remains at ");
                r.append(backup.as_str());
                r.append(": ");
                r.append(detail.as_str());
                r
            },
        }
    }
}

} // verus!
