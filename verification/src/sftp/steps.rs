//! The decisions inside connecting and transferring: which endpoints are
//! acceptable, in which order credentials are tried, which signature hashes
//! an RSA key is offered with, how `~` is expanded, and how a transfer is
//! staged and reported. The network and file work itself is done around
//! them.
use vstd::prelude::*;

use crate::sftp::error::{ConnectionRole, CredentialMethod, SftpError, role_text};
use crate::sftp::paths::{remote_dirname, remote_dirname_of, remote_temporary, remote_temporary_of};
use crate::sftp::types::{SftpAuthentication, SftpConnectionOptions};
use crate::text::{decimal, str_eq, trim, trim_string};

verus! {

/// Why an endpoint cannot be connected to: no host, or a port outside
/// `1..=65535`.
pub open spec fn endpoint_problem(host: Seq<char>, port: u32, role: ConnectionRole) -> Option<Seq<char>> {
    if trim(host).len() == 0 {
        Some(role_text(role) + " host is required"@)
    } else if port == 0 || port > 65535 {
        Some(role_text(role) + " port "@ + decimal(port as nat) + " is outside 1..=65535"@)
    } else {
        None
    }
}

/// The error for a problem with the connection settings.
pub open spec fn invalid(e: SftpError, message: Seq<char>) -> bool {
    e matches SftpError::InvalidConnection(m) && m@ == message
}

/// Checks one endpoint.
pub fn validate_endpoint(options: &SftpConnectionOptions, role: ConnectionRole) -> (r: Result<(), SftpError>)
    ensures
        match endpoint_problem(options.host@, options.port, role) {
            Some(m) => r matches Err(e) && invalid(e, m),
            None => r is Ok,
        },
{
    let host = trim_string(options.host.as_str());
    if host.as_str().is_empty() {
        let mut m = role.label().to_owned();
        m.append(" host is required");
        return Err(SftpError::InvalidConnection(m));
    }
    if options.port == 0 || options.port > 65535 {
        let mut m = role.label().to_owned();
        m.append(" port ");
        let number = crate::text::u64_to_string(options.port as u64);
        m.append(number.as_str());
        m.append(" is outside 1..=65535");
        return Err(SftpError::InvalidConnection(m));
    }
    Ok(())
}

/// Checks the settings before connecting: the target, then that there is at
/// most one jump host, then the jump host.
pub fn check_connection(options: &SftpConnectionOptions) -> (r: Result<(), SftpError>)
    ensures
        match endpoint_problem(options.host@, options.port, ConnectionRole::Target) {
            Some(m) => r matches Err(e) && invalid(e, m),
            None => match options.jump {
                None => r is Ok,
                Some(j) => if j.jump is Some {
                    r matches Err(e) && invalid(e, "only one SFTP jump host is supported"@)
                } else {
                    match endpoint_problem(j.host@, j.port, ConnectionRole::Jump) {
                        Some(m) => r matches Err(e) && invalid(e, m),
                        None => r is Ok,
                    }
                },
            },
        },
{
    validate_endpoint(options, ConnectionRole::Target)?;
    match &options.jump {
        None => Ok(()),
        Some(j) => {
            if j.jump.is_some() {
                return Err(SftpError::InvalidConnection("only one SFTP jump host is supported".to_owned()));
            }
            validate_endpoint(j, ConnectionRole::Jump)
        },
    }
}

/// The user to log in as: the configured one unless empty, else `fallback`
/// (the login name of the process).
pub fn username_for(options: &SftpConnectionOptions, fallback: String) -> (r: String)
    ensures
        r@ == match options.username {
            Some(u) => if u@.len() > 0 {
                u@
            } else {
                fallback@
            },
            None => fallback@,
        },
{
    match &options.username {
        Some(u) => if u.as_str().is_empty() {
            fallback
        } else {
            u.clone()
        },
        None => fallback,
    }
}

/// One way of logging in.
#[derive(Clone, Copy, Debug, PartialEq, Eq, Structural)]
pub enum AuthAttempt {
    Password,
    /// The private key at this index of the settings.
    PrivateKey(usize),
    Agent,
}

/// The ways of logging in, in the order they are tried: the password, each
/// private key, then the agent.
pub open spec fn attempts_of(auth: SftpAuthentication) -> Seq<AuthAttempt> {
    (if auth.password is Some {
        seq![AuthAttempt::Password]
    } else {
        Seq::empty()
    }) + Seq::new(auth.private_keys@.len(), |i: int| AuthAttempt::PrivateKey(i as usize)) + (
    if auth.agent is Some {
        seq![AuthAttempt::Agent]
    } else {
        Seq::empty()
    })
}

/// The order of login attempts; with no credential at all, the error that
/// asks for one.
pub fn auth_plan(auth: &SftpAuthentication, role: ConnectionRole) -> (r: Result<Vec<AuthAttempt>, SftpError>)
    ensures
        if auth.password is None && auth.private_keys@.len() == 0 && auth.agent is None {
            r matches Err(SftpError::CredentialRequired { role: ro, method: m }) && ro == role && m
                == CredentialMethod::Authentication
        } else {
            r matches Ok(v) && v@ == attempts_of(*auth)
        },
{
    if auth.password.is_none() && auth.private_keys.len() == 0 && auth.agent.is_none() {
        return Err(SftpError::CredentialRequired { role, method: CredentialMethod::Authentication });
    }
    let mut v: Vec<AuthAttempt> = Vec::new();
    if auth.password.is_some() {
        v.push(AuthAttempt::Password);
    }
    let ghost head = v@;
    let mut i: usize = 0;
    while i < auth.private_keys.len()
        invariant
            i <= auth.private_keys@.len(),
            v@ == head + Seq::new(i as nat, |k: int| AuthAttempt::PrivateKey(k as usize)),
        decreases auth.private_keys.len() - i,
    {
        v.push(AuthAttempt::PrivateKey(i));
        assert(v@ =~= head + Seq::new((i + 1) as nat, |k: int| AuthAttempt::PrivateKey(k as usize)));
        i += 1;
    }
    if auth.agent.is_some() {
        v.push(AuthAttempt::Agent);
    }
    assert(v@ =~= attempts_of(*auth));
    Ok(v)
}

/// An RSA signature hash.
#[derive(Clone, Copy, Debug, PartialEq, Eq, Structural)]
pub enum RsaHash {
    Sha256,
    Sha512,
}

/// The hashes a key is offered with (`None` is the key's own algorithm):
/// non-RSA keys once; RSA keys with the hash the server negotiated, or, when
/// it announced none, SHA-512, SHA-256 and then plain.
pub fn signature_candidates(rsa: bool, negotiated: Option<Option<RsaHash>>) -> (r: Vec<Option<RsaHash>>)
    ensures
        r@ == if !rsa {
            seq![None]
        } else {
            match negotiated {
                Some(h) => seq![h],
                None => seq![Some(RsaHash::Sha512), Some(RsaHash::Sha256), None],
            }
        },
{
    let mut r = Vec::new();
    if !rsa {
        r.push(None);
        return r;
    }
    match negotiated {
        Some(h) => r.push(h),
        None => {
            r.push(Some(RsaHash::Sha512));
            r.push(Some(RsaHash::Sha256));
            r.push(None);
        },
    }
    r
}

/// A path that starts with `~/` or `~\`.
pub open spec fn under_home(p: Seq<char>) -> bool {
    p.len() >= 2 && p[0] == '~' && (p[1] == '/' || p[1] == '\\')
}

/// `~` stands for the home directory, and so does a leading `~/` or `~\`
/// (the rest is joined to it by the platform's rules); without a home
/// directory, or without such a start, the path stays as it is.
pub fn expand_home(path: &str, home: Option<String>) -> (r: String)
    ensures
        path@ == "~"@ ==> r@ == match home {
            Some(h) => h@,
            None => path@,
        },
        path@ != "~"@ && !under_home(path@) ==> r@ == path@,
        home is None ==> r@ == path@,
        home is Some && under_home(path@) && crate::workspace::plain_name(path@.skip(2))
            && !crate::workspace::verbatim(home->0@) ==> crate::workspace::joined_locally(
            home->0@,
            path@.skip(2),
            r@,
        ),
{
    if str_eq(path, "~") {
        proof {
            reveal_strlit("~");
        }
        return match home {
            Some(h) => h,
            None => path.to_owned(),
        };
    }
    let chars = crate::text::chars_of(path);
    if chars.len() >= 2 && chars[0] == '~' && (chars[1] == '/' || chars[1] == '\\') {
        match home {
            Some(h) => {
                let rest = crate::text::string_from_range(&chars, 2, chars.len());
                assert(rest@ =~= path@.skip(2));
                crate::workspace::local_join(h.as_str(), rest.as_str())
            },
            None => path.to_owned(),
        }
    } else {
        path.to_owned()
    }
}

/// How a finished transfer is put in place.
#[derive(Clone, Copy, Debug, PartialEq, Eq, Structural)]
pub enum Commit {
    /// It was written to the destination itself.
    InPlace,
    /// Its temporary sibling is renamed to the destination.
    Rename,
    /// Its temporary sibling replaces the existing destination.
    Replace,
}

/// How an upload to `remote_path` is staged.
#[derive(Clone, Debug, PartialEq, Eq)]
pub struct UploadPlan {
    /// The directory to create first, with its parents.
    pub parent: Option<String>,
    /// Where the bytes are written.
    pub target: String,
    pub commit: Commit,
}

/// An atomic upload writes a temporary sibling named with `id` and moves it
/// into place, replacing an existing file when overwriting; parents are
/// created when asked, unless the parent is `.` or `/`.
pub fn upload_plan(remote_path: &str, create_parents: bool, atomic: bool, overwrite: bool, id: &str) -> (r: UploadPlan)
    ensures
        crate::types::opt_str(r.parent) == (if create_parents && remote_dirname_of(remote_path@)
            != "."@ && remote_dirname_of(remote_path@) != "/"@ {
            Some(remote_dirname_of(remote_path@))
        } else {
            None
        }),
        r.target@ == (if atomic {
            remote_temporary_of(remote_path@, id@)
        } else {
            remote_path@
        }),
        r.commit == (if !atomic {
            Commit::InPlace
        } else if overwrite {
            Commit::Replace
        } else {
            Commit::Rename
        }),
{
    let parent = if create_parents {
        let p = remote_dirname(remote_path);
        if str_eq(p.as_str(), ".") || str_eq(p.as_str(), "/") {
            None
        } else {
            Some(p)
        }
    } else {
        None
    };
    let target = if atomic {
        remote_temporary(remote_path, id)
    } else {
        remote_path.to_owned()
    };
    let commit = if !atomic {
        Commit::InPlace
    } else if overwrite {
        Commit::Replace
    } else {
        Commit::Rename
    };
    UploadPlan { parent, target, commit }
}

/// Only a regular file is transferred: any other source is refused as not a
/// file, named by `path`.
pub fn check_source(is_file: bool, path: String) -> (r: Result<(), SftpError>)
    ensures
        is_file ==> r == Ok::<(), SftpError>(()),
        !is_file ==> r == Err::<(), SftpError>(SftpError::NotAFile(path)),
{
    if is_file {
        Ok(())
    } else {
        Err(SftpError::NotAFile(path))
    }
}

/// An existing destination blocks a transfer unless it may be overwritten
/// and is a regular file.
pub fn destination_blocks(exists: bool, overwrite: bool, is_file: bool) -> (r: bool)
    ensures
        r == (exists && (!overwrite || !is_file)),
{
    exists && (!overwrite || !is_file)
}

/// Progress is reported at most every interval, and when the whole file
/// has been copied.
pub fn should_report(interval_passed: bool, transferred: u64, total: Option<u64>) -> (r: bool)
    ensures
        r == (interval_passed || (total matches Some(t) && transferred >= t)),
{
    interval_passed || match total {
        Some(t) => transferred >= t,
        None => false,
    }
}

/// The error when a destination moved aside could not be put back.
pub fn replace_failed(path: String, backup: String, replacement: &str, restore: &str) -> (r: SftpError)
    ensures
        r matches SftpError::ReplaceFailed { path: p, backup: b, detail: d } && p == path && b
            == backup && d@ == "replacement: "@ + replacement@ + "; restore: "@ + restore@,
{
    let mut detail = "replacement: ".to_owned();
    detail.append(replacement);
    detail.append("; restore: ");
    detail.append(restore);
    SftpError::ReplaceFailed { path, backup, detail }
}

} // verus!
