//! The snapshot, request and editor types of the manager.
use vstd::prelude::*;

use crate::json::{JsonObject, JsonView, Members};

verus! {

pub open spec fn opt_str(o: Option<String>) -> Option<Seq<char>> {
    match o {
        Some(s) => Some(s@),
        None => None,
    }
}

pub open spec fn opt_obj(o: Option<JsonObject>) -> Option<Members> {
    match o {
        Some(m) => Some(m@),
        None => None,
    }
}

pub open spec fn strs_view(v: Seq<String>) -> Seq<Seq<char>> {
    v.map_values(|s: String| s@)
}

pub fn clone_opt_string(o: &Option<String>) -> (r: Option<String>)
    ensures
        opt_str(r) == opt_str(*o),
{
    match o {
        Some(s) => Some(s.clone()),
        None => None,
    }
}

pub fn clone_opt_object(o: &Option<JsonObject>) -> (r: Option<JsonObject>)
    ensures
        opt_obj(r) == opt_obj(*o),
{
    match o {
        Some(m) => Some(m.clone()),
        None => None,
    }
}

pub fn clone_strings(v: &Vec<String>) -> (r: Vec<String>)
    ensures
        strs_view(r@) == strs_view(v@),
{
    let mut out: Vec<String> = Vec::new();
    let mut i: usize = 0;
    while i < v.len()
        invariant
            i <= v.len(),
            strs_view(out@) == strs_view(v@.take(i as int)),
        decreases v.len() - i,
    {
        let s = v[i].clone();
        let ghost prev = out@;
        out.push(s);
        assert(strs_view(prev) =~= strs_view(v@.take(i as int)));
        assert(strs_view(out@) =~= strs_view(prev).push(s@));
        assert(strs_view(out@) =~= strs_view(v@.take(i + 1)));
        i += 1;
    }
    assert(v@.take(i as int) =~= v@);
    out
}

/// Password-free connection details that the snapshot carries for a profile.
/// `extra` keeps the members that this program does not interpret.
#[derive(Debug, PartialEq)]
pub struct SftpProfileData {
    pub host: Option<String>,
    pub user: Option<String>,
    pub port: Option<u32>,
    pub auth: Option<String>,
    pub private_keys: Vec<String>,
    pub password_env: Option<String>,
    pub identity_agent: Option<String>,
    pub jump_host: Option<String>,
    pub proxy_command: Option<String>,
    pub ready_timeout: Option<u64>,
    pub keepalive_interval: Option<u64>,
    pub keepalive_count_max: Option<u32>,
    pub host_key_policy: Option<String>,
    pub ssh_options: Option<JsonObject>,
    pub extra: JsonObject,
}

pub struct SftpDataView {
    pub host: Option<Seq<char>>,
    pub user: Option<Seq<char>>,
    pub port: Option<u32>,
    pub auth: Option<Seq<char>>,
    pub private_keys: Seq<Seq<char>>,
    pub password_env: Option<Seq<char>>,
    pub identity_agent: Option<Seq<char>>,
    pub jump_host: Option<Seq<char>>,
    pub proxy_command: Option<Seq<char>>,
    pub ready_timeout: Option<u64>,
    pub keepalive_interval: Option<u64>,
    pub keepalive_count_max: Option<u32>,
    pub host_key_policy: Option<Seq<char>>,
    pub ssh_options: Option<Members>,
    pub extra: Members,
}

impl View for SftpProfileData {
    type V = SftpDataView;

    open spec fn view(&self) -> SftpDataView {
        SftpDataView {
            host: opt_str(self.host),
            user: opt_str(self.user),
            port: self.port,
            auth: opt_str(self.auth),
            private_keys: strs_view(self.private_keys@),
            password_env: opt_str(self.password_env),
            identity_agent: opt_str(self.identity_agent),
            jump_host: opt_str(self.jump_host),
            proxy_command: opt_str(self.proxy_command),
            ready_timeout: self.ready_timeout,
            keepalive_interval: self.keepalive_interval,
            keepalive_count_max: self.keepalive_count_max,
            host_key_policy: opt_str(self.host_key_policy),
            ssh_options: opt_obj(self.ssh_options),
            extra: self.extra@,
        }
    }
}

/// The value that `SftpProfileData::default()` has.
pub open spec fn empty_sftp_data() -> SftpDataView {
    SftpDataView {
        host: None,
        user: None,
        port: None,
        auth: None,
        private_keys: Seq::empty(),
        password_env: None,
        identity_agent: None,
        jump_host: None,
        proxy_command: None,
        ready_timeout: None,
        keepalive_interval: None,
        keepalive_count_max: None,
        host_key_policy: None,
        ssh_options: None,
        extra: Seq::empty(),
    }
}

impl SftpProfileData {
    pub fn empty() -> (r: SftpProfileData)
        ensures
            r@ == empty_sftp_data(),
    {
        let r = SftpProfileData {
            host: None,
            user: None,
            port: None,
            auth: None,
            private_keys: Vec::new(),
            password_env: None,
            identity_agent: None,
            jump_host: None,
            proxy_command: None,
            ready_timeout: None,
            keepalive_interval: None,
            keepalive_count_max: None,
            host_key_policy: None,
            ssh_options: None,
            extra: JsonObject::new(),
        };
        assert(strs_view(r.private_keys@) =~= Seq::<Seq<char>>::empty());
        r
    }
}

impl Clone for SftpProfileData {
    fn clone(&self) -> (r: Self)
        ensures
            r@ == self@,
    {
        SftpProfileData {
            host: clone_opt_string(&self.host),
            user: clone_opt_string(&self.user),
            port: self.port,
            auth: clone_opt_string(&self.auth),
            private_keys: clone_strings(&self.private_keys),
            password_env: clone_opt_string(&self.password_env),
            identity_agent: clone_opt_string(&self.identity_agent),
            jump_host: clone_opt_string(&self.jump_host),
            proxy_command: clone_opt_string(&self.proxy_command),
            ready_timeout: self.ready_timeout,
            keepalive_interval: self.keepalive_interval,
            keepalive_count_max: self.keepalive_count_max,
            host_key_policy: clone_opt_string(&self.host_key_policy),
            ssh_options: clone_opt_object(&self.ssh_options),
            extra: self.extra.clone(),
        }
    }
}

/// One host of the snapshot.
#[derive(Debug, PartialEq)]
pub struct Profile {
    pub id: String,
    pub name: String,
    pub group: String,
    pub editable: bool,
    pub source: String,
    pub host: String,
    pub user: String,
    pub port: u32,
    pub auth: String,
    pub has_password: bool,
    pub jump_host: String,
    pub icon: String,
    pub color: String,
    pub raw: Option<JsonObject>,
    pub sftp: Option<SftpProfileData>,
}

pub struct ProfileView {
    pub id: Seq<char>,
    pub name: Seq<char>,
    pub group: Seq<char>,
    pub editable: bool,
    pub source: Seq<char>,
    pub host: Seq<char>,
    pub user: Seq<char>,
    pub port: u32,
    pub auth: Seq<char>,
    pub has_password: bool,
    pub jump_host: Seq<char>,
    pub icon: Seq<char>,
    pub color: Seq<char>,
    pub raw: Option<Members>,
    pub sftp: Option<SftpDataView>,
}

pub open spec fn opt_sftp(o: Option<SftpProfileData>) -> Option<SftpDataView> {
    match o {
        Some(d) => Some(d@),
        None => None,
    }
}

impl View for Profile {
    type V = ProfileView;

    open spec fn view(&self) -> ProfileView {
        ProfileView {
            id: self.id@,
            name: self.name@,
            group: self.group@,
            editable: self.editable,
            source: self.source@,
            host: self.host@,
            user: self.user@,
            port: self.port,
            auth: self.auth@,
            has_password: self.has_password,
            jump_host: self.jump_host@,
            icon: self.icon@,
            color: self.color@,
            raw: opt_obj(self.raw),
            sftp: opt_sftp(self.sftp),
        }
    }
}

impl Clone for Profile {
    fn clone(&self) -> (r: Self)
        ensures
            r@ == self@,
    {
        Profile {
            id: self.id.clone(),
            name: self.name.clone(),
            group: self.group.clone(),
            editable: self.editable,
            source: self.source.clone(),
            host: self.host.clone(),
            user: self.user.clone(),
            port: self.port,
            auth: self.auth.clone(),
            has_password: self.has_password,
            jump_host: self.jump_host.clone(),
            icon: self.icon.clone(),
            color: self.color.clone(),
            raw: clone_opt_object(&self.raw),
            sftp: match &self.sftp {
                Some(d) => Some(d.clone()),
                None => None,
            },
        }
    }
}

pub open spec fn profiles_view(v: Seq<Profile>) -> Seq<ProfileView> {
    v.map_values(|p: Profile| p@)
}

/// What the Lua side hands the manager: the store, the groups and the hosts.
#[derive(Debug, PartialEq)]
pub struct Snapshot {
    pub store_path: String,
    pub default_where: String,
    pub groups: Vec<String>,
    pub profiles: Vec<Profile>,
}

pub struct SnapshotView {
    pub store_path: Seq<char>,
    pub default_where: Seq<char>,
    pub groups: Seq<Seq<char>>,
    pub profiles: Seq<ProfileView>,
}

impl View for Snapshot {
    type V = SnapshotView;

    open spec fn view(&self) -> SnapshotView {
        SnapshotView {
            store_path: self.store_path@,
            default_where: self.default_where@,
            groups: strs_view(self.groups@),
            profiles: profiles_view(self.profiles@),
        }
    }
}

/// A request from the manager to the Lua side.
#[derive(Debug, PartialEq)]
pub enum ManagerRequest {
    Connect { id: String, where_: String },
    Quick { target: String, where_: String },
    Hide,
    Upsert { id: Option<String>, raw: JsonObject },
    Delete { id: String },
    CopyIn { id: String },
    Reload,
}

pub enum RequestView {
    Connect { id: Seq<char>, where_: Seq<char> },
    Quick { target: Seq<char>, where_: Seq<char> },
    Hide,
    Upsert { id: Option<Seq<char>>, raw: Members },
    Delete { id: Seq<char> },
    CopyIn { id: Seq<char> },
    Reload,
}

impl View for ManagerRequest {
    type V = RequestView;

    open spec fn view(&self) -> RequestView {
        match self {
            ManagerRequest::Connect { id, where_ } => RequestView::Connect { id: id@, where_: where_@ },
            ManagerRequest::Quick { target, where_ } => RequestView::Quick {
                target: target@,
                where_: where_@,
            },
            ManagerRequest::Hide => RequestView::Hide,
            ManagerRequest::Upsert { id, raw } => RequestView::Upsert { id: opt_str(*id), raw: raw@ },
            ManagerRequest::Delete { id } => RequestView::Delete { id: id@ },
            ManagerRequest::CopyIn { id } => RequestView::CopyIn { id: id@ },
            ManagerRequest::Reload => RequestView::Reload,
        }
    }
}

/// The announcement of a request file: only the token, the sequence number and
/// the file name, never the request itself.
#[derive(Debug, PartialEq)]
pub struct RequestEnvelope {
    pub v: u8,
    pub token: String,
    pub seq: u64,
    pub request: String,
}

#[derive(Clone, Copy, Debug, PartialEq, Eq, Structural)]
pub enum MainPage {
    Manager,
    Sftp,
}

#[derive(Clone, Copy, Debug, PartialEq, Eq, Structural)]
pub enum ManagerFocus {
    Groups,
    Hosts,
    Details,
}

/// The edit form of a profile.
#[derive(Debug, PartialEq)]
pub struct ProfileDraft {
    pub original_id: Option<String>,
    pub name: String,
    pub group: String,
    pub host: String,
    pub port: String,
    pub user: String,
    pub auth: String,
    pub password: String,
    pub jump_host: String,
    pub raw: JsonObject,
}

pub struct DraftView {
    pub original_id: Option<Seq<char>>,
    pub name: Seq<char>,
    pub group: Seq<char>,
    pub host: Seq<char>,
    pub port: Seq<char>,
    pub user: Seq<char>,
    pub auth: Seq<char>,
    pub password: Seq<char>,
    pub jump_host: Seq<char>,
    pub raw: Members,
}

impl View for ProfileDraft {
    type V = DraftView;

    open spec fn view(&self) -> DraftView {
        DraftView {
            original_id: opt_str(self.original_id),
            name: self.name@,
            group: self.group@,
            host: self.host@,
            port: self.port@,
            user: self.user@,
            auth: self.auth@,
            password: self.password@,
            jump_host: self.jump_host@,
            raw: self.raw@,
        }
    }
}

impl Clone for ProfileDraft {
    fn clone(&self) -> (r: Self)
        ensures
            r@ == self@,
    {
        ProfileDraft {
            original_id: clone_opt_string(&self.original_id),
            name: self.name.clone(),
            group: self.group.clone(),
            host: self.host.clone(),
            port: self.port.clone(),
            user: self.user.clone(),
            auth: self.auth.clone(),
            password: self.password.clone(),
            jump_host: self.jump_host.clone(),
            raw: self.raw.clone(),
        }
    }
}

} // verus!
