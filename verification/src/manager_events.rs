//! What the manager does with the results of its background work: listings,
//! connections, disconnections, transfers, file changes and new snapshots.
//! A result that answers an outdated request (its number is not the latest)
//! changes nothing.
use vstd::prelude::*;

use crate::manager::{Action, EntryKind, EntryView, ManagerState, Modal, PanelView};
use crate::manager_sftp::{
    asks_credentials, bumped, joined, lists, only_status, panel_at, panel_of, read_sequence_of,
    refused, with_panel,
};
use crate::sftp::error::ConnectionRole;
use crate::sftp::types::{FileEntry, FileKind, TransferDirection};
use crate::text::str_eq;
use crate::types::{opt_str, strs_view, Profile, Snapshot};
use crate::workspace::{parent_path, SftpSide};

verus! {

/// Why opening a connection failed.
#[derive(Debug)]
pub enum ConnectFailure {
    /// A password or key is needed for this connection.
    Credential(ConnectionRole),
    Message(String),
    Cancelled,
}

/// How a transfer ended.
#[derive(Debug)]
pub enum TransferOutcome {
    Completed,
    DestinationExists,
    Cancelled,
    Failed(String),
}

/// The kind of a listed file as the panels show it.
pub open spec fn entry_kind_of(k: FileKind) -> EntryKind {
    match k {
        FileKind::Directory => EntryKind::Directory,
        FileKind::File => EntryKind::File,
        FileKind::Symlink => EntryKind::Link,
        FileKind::Other => EntryKind::Other,
    }
}

/// A panel row for a listed file; `modified` is its modification time as
/// shown. Directories show no size.
pub fn entry_view(entry: FileEntry, modified: Option<String>) -> (r: EntryView)
    ensures
        r.name == entry.name,
        r.path == entry.path,
        r.kind == entry_kind_of(entry.kind),
        r.size == (if entry.kind == FileKind::Directory {
            None
        } else {
            Some(entry.size)
        }),
        r.modified == modified,
{
    let kind = match entry.kind {
        FileKind::Directory => EntryKind::Directory,
        FileKind::File => EntryKind::File,
        FileKind::Symlink => EntryKind::Link,
        FileKind::Other => EntryKind::Other,
    };
    let size = if kind != EntryKind::Directory {
        Some(entry.size)
    } else {
        None
    };
    EntryView { name: entry.name, path: entry.path, kind, size, modified }
}

/// The rows of a listing of `path`: a `..` row to `parent` first, unless
/// `path` has no parent.
pub open spec fn rows_of(rows: Seq<EntryView>, entries: Seq<EntryView>, path: Seq<char>, parent: Seq<char>) -> bool {
    if parent == path {
        rows == entries
    } else {
        &&& rows.len() == entries.len() + 1
        &&& rows[0].name@ == ".."@
        &&& rows[0].path@ == parent
        &&& rows[0].kind == EntryKind::Directory
        &&& rows[0].size is None
        &&& rows[0].modified is None
        &&& rows.skip(1) == entries
    }
}

/// A panel showing a listing of `path` under `parent`.
pub open spec fn listing_shown(p: PanelView, path: Seq<char>, entries: Seq<EntryView>, parent: Seq<char>) -> bool {
    &&& p.path@ == path
    &&& rows_of(p.entries@, entries, path, parent)
    &&& p.selected == 0
    &&& !p.loading
    &&& p.error@.len() == 0
}

/// The message of a lost connection.
pub open spec fn disconnect_message(detail: Seq<char>) -> Seq<char> {
    if detail.len() == 0 {
        "SFTP 连接已断开"@
    } else {
        "SFTP 连接已断开："@ + detail
    }
}

/// The word for a direction.
pub open spec fn direction_word(d: TransferDirection) -> Seq<char> {
    if d == TransferDirection::Upload {
        "上传"@
    } else {
        "下载"@
    }
}

impl ManagerState {
    /// A listing arrived: the latest one for its side fills the panel, or
    /// shows its error.
    pub fn panel_loaded(
        &mut self,
        side: SftpSide,
        sequence: u64,
        path: String,
        result: Result<Vec<EntryView>, String>,
    )
        ensures
            ({
                let s0 = *old(self);
                let s1 = *final(self);
                if sequence != read_sequence_of(s0, side) {
                    s1 == s0
                } else {
                    match result {
                        Ok(entries) => {
                            &&& s1 == with_panel(s0, side, panel_of(s1, side))
                            &&& if side == SftpSide::Remote {
                                listing_shown(
                                    s1.remote_panel,
                                    path@,
                                    entries@,
                                    crate::workspace::remote_parent_of(path@),
                                )
                            } else {
                                exists|parent: Seq<char>|
                                    #![trigger listing_shown(s1.local_panel, path@, entries@, parent)]
                                    crate::workspace::local_parent_of(path@, parent) && listing_shown(
                                        s1.local_panel,
                                        path@,
                                        entries@,
                                        parent,
                                    )
                            }
                        },
                        Err(e) => {
                            &&& s1 == with_panel(ManagerState { status: s1.status, ..s0 }, side, panel_of(s1, side))
                            &&& s1.status@ == e@
                            &&& panel_of(s1, side).path@ == path@
                            &&& panel_of(s1, side).entries@.len() == 0
                            &&& panel_of(s1, side).selected == 0
                            &&& !panel_of(s1, side).loading
                            &&& panel_of(s1, side).error@ == e@
                        },
                    }
                }
            }),
    {
        let current = match side {
            SftpSide::Local => self.local_read_sequence,
            SftpSide::Remote => self.remote_read_sequence,
        };
        if sequence != current {
            return;
        }
        match result {
            Ok(entries) => {
                let ghost given = entries@;
                let parent = parent_path(side, path.as_str());
                let mut rows: Vec<EntryView> = Vec::new();
                if !str_eq(parent.as_str(), path.as_str()) {
                    rows.push(
                        EntryView {
                            name: "..".to_owned(),
                            path: parent.clone(),
                            kind: EntryKind::Directory,
                            size: None,
                            modified: None,
                        },
                    );
                }
                let mut entries = entries;
                rows.append(&mut entries);
                assert(parent@ != path@ ==> rows@.skip(1) =~= given);
                assert(parent@ == path@ ==> rows@ =~= given);
                let panel = PanelView { path, entries: rows, selected: 0, loading: false, error: String::new() };
                assert(listing_shown(panel, path@, given, parent@));
                match side {
                    SftpSide::Local => self.local_panel = panel,
                    SftpSide::Remote => self.remote_panel = panel,
                }
            },
            Err(error) => {
                let panel = PanelView {
                    path,
                    entries: Vec::new(),
                    selected: 0,
                    loading: false,
                    error: error.clone(),
                };
                match side {
                    SftpSide::Local => self.local_panel = panel,
                    SftpSide::Remote => self.remote_panel = panel,
                }
                self.status = error;
            },
        }
    }
}


/// The status after a connection opened.
pub open spec fn connected_message(name: Seq<char>, warnings: Seq<Seq<char>>) -> Seq<char> {
    if warnings.len() == 0 {
        "SFTP 已连接："@ + name
    } else {
        "SFTP 已连接；"@ + joined(warnings, "；"@)
    }
}

/// The status when a connection needs credentials.
pub open spec fn credential_message(role: ConnectionRole) -> Seq<char> {
    if role == ConnectionRole::Jump {
        "跳板机需要认证信息"@
    } else {
        "目标主机需要认证信息"@
    }
}

/// What a connection's result does. Only the latest connection counts, and
/// only while its profile is unchanged in the snapshot; then a session is
/// kept and the remote panel lists its home, a missing credential opens the
/// credentials dialog, and a failure is reported. `keep` says whether the
/// program keeps the session.
pub open spec fn connection_answered(
    s0: ManagerState,
    s1: ManagerState,
    sequence: u64,
    profile: crate::types::ProfileView,
    fingerprint: Seq<char>,
    profile_current: bool,
    warnings: Seq<Seq<char>>,
    result: Result<Seq<char>, ConnectFailure>,
    keep: bool,
    actions: Seq<Action>,
) -> bool {
    if sequence != s0.connection_sequence {
        s1 == s0 && !keep && actions.len() == 0
    } else {
        let s = ManagerState { connecting: false, sftp_busy: false, ..s0 };
        if !profile_current {
            !keep && refused(s, s1, actions, "连接期间配置已更新，请重试"@)
        } else {
            match result {
                Ok(home) => {
                    let n = bumped(s0.remote_read_sequence);
                    &&& keep
                    &&& s1 == (ManagerState {
                        remote_connected: true,
                        connected_profile: s1.connected_profile,
                        connected_fingerprint: s1.connected_fingerprint,
                        status: s1.status,
                        remote_panel: s1.remote_panel,
                        remote_read_sequence: n,
                        ..s
                    })
                    &&& s1.connected_profile matches Some(cp) && cp@ == profile
                    &&& opt_str(s1.connected_fingerprint) == Some(fingerprint)
                    &&& s1.status@ == connected_message(profile.name, warnings)
                    &&& panel_at(s1.remote_panel, home, true)
                    &&& actions.len() == 1
                    &&& lists(actions[0], SftpSide::Remote, n, home)
                },
                Err(ConnectFailure::Credential(role)) => {
                    &&& !keep
                    &&& actions.len() == 0
                    &&& s1 == (ManagerState { status: s1.status, modal: s1.modal, ..s })
                    &&& s1.status@ == credential_message(role)
                    &&& asks_credentials(s1.modal, profile, if role == ConnectionRole::Jump { 1 } else { 0 })
                },
                Err(ConnectFailure::Cancelled) => {
                    &&& !keep
                    &&& actions.len() == 0
                    &&& s1 == (ManagerState {
                        status: s1.status,
                        remote_panel: PanelView { loading: false, ..s.remote_panel },
                        ..s
                    })
                    &&& s1.status@ == "SFTP 连接已取消"@
                },
                Err(ConnectFailure::Message(e)) => {
                    &&& !keep
                    &&& actions.len() == 0
                    &&& s1 == (ManagerState {
                        status: s1.status,
                        remote_panel: PanelView { loading: false, error: s1.remote_panel.error, ..s.remote_panel },
                        ..s
                    })
                    &&& s1.status@ == e@
                    &&& s1.remote_panel.error@ == e@
                },
            }
        }
    }
}

/// The home directory of a successful result, in the view.
pub open spec fn result_view(r: Result<String, ConnectFailure>) -> Result<Seq<char>, ConnectFailure> {
    match r {
        Ok(h) => Ok(h@),
        Err(e) => Err(e),
    }
}

impl ManagerState {
    /// A connection's result arrived (its home directory on success); see
    /// `connection_answered`. Returns whether to keep the session, and the
    /// work to do.
    pub fn connected(
        &mut self,
        sequence: u64,
        profile: Profile,
        fingerprint: String,
        profile_current: bool,
        warnings: Vec<String>,
        result: Result<String, ConnectFailure>,
    ) -> (r: (bool, Vec<Action>))
        ensures
            connection_answered(
                *old(self),
                *final(self),
                sequence,
                profile@,
                fingerprint@,
                profile_current,
                strs_view(warnings@),
                result_view(result),
                r.0,
                r.1@,
            ),
    {
        if sequence != self.connection_sequence {
            return (false, Vec::new());
        }
        self.connecting = false;
        self.sftp_busy = false;
        if !profile_current {
            self.status = "连接期间配置已更新，请重试".to_owned();
            return (false, Vec::new());
        }
        match result {
            Ok(home) => {
                self.remote_connected = true;
                let mut message: String;
                if warnings.len() == 0 {
                    message = "SFTP 已连接：".to_owned();
                    message.append(profile.name.as_str());
                } else {
                    message = "SFTP 已连接；".to_owned();
                    let joined = crate::manager_sftp::join_strings(&warnings, "；");
                    message.append(joined.as_str());
                }
                self.connected_profile = Some(profile);
                self.connected_fingerprint = Some(fingerprint);
                self.status = message;
                let actions = self.read_panel(SftpSide::Remote, home);
                (true, actions)
            },
            Err(ConnectFailure::Credential(role)) => {
                self.status = (if role == ConnectionRole::Jump {
                    "跳板机需要认证信息"
                } else {
                    "目标主机需要认证信息"
                }).to_owned();
                self.modal = Some(
                    Modal::SftpCredentials {
                        profile,
                        password: crate::manager_sftp::empty_secret(),
                        jump_password: crate::manager_sftp::empty_secret(),
                        field: if role == ConnectionRole::Jump { 1 } else { 0 },
                    },
                );
                (false, Vec::new())
            },
            Err(ConnectFailure::Cancelled) => {
                self.status = "SFTP 连接已取消".to_owned();
                self.remote_panel.loading = false;
                (false, Vec::new())
            },
            Err(ConnectFailure::Message(error)) => {
                self.status = error.clone();
                self.remote_panel.loading = false;
                self.remote_panel.error = error;
                (false, Vec::new())
            },
        }
    }

    /// The latest connection was lost: the session closes and the remote
    /// panel shows why.
    pub fn disconnected(&mut self, sequence: u64, detail: String) -> (r: Vec<Action>)
        ensures
            if sequence != old(self).connection_sequence {
                *final(self) == *old(self) && r@.len() == 0
            } else {
                let c = crate::manager_sftp::closed_of(*old(self));
                &&& *final(self) == (ManagerState {
                    status: final(self).status,
                    remote_panel: PanelView {
                        entries: final(self).remote_panel.entries,
                        loading: false,
                        error: final(self).remote_panel.error,
                        ..c.remote_panel
                    },
                    ..c
                })
                &&& final(self).remote_panel.entries@.len() == 0
                &&& final(self).remote_panel.error@ == disconnect_message(detail@)
                &&& final(self).status@ == disconnect_message(detail@)
                &&& r@.len() == 1
                &&& r@[0] is CloseSession
            },
    {
        if sequence != self.connection_sequence {
            return Vec::new();
        }
        let actions = self.close_sftp_session();
        let message = if detail.as_str().is_empty() {
            "SFTP 连接已断开".to_owned()
        } else {
            let mut m = "SFTP 连接已断开：".to_owned();
            m.append(detail.as_str());
            m
        };
        self.remote_panel.entries = Vec::new();
        self.remote_panel.loading = false;
        self.remote_panel.error = message.clone();
        self.status = message;
        actions
    }

    /// A transfer reported progress, as the text to show.
    pub fn transfer_progressed(&mut self, text: String)
        ensures
            *final(self) == (ManagerState {
                transfer_progress: final(self).transfer_progress,
                status: final(self).status,
                ..*old(self)
            }),
            opt_str(final(self).transfer_progress) == Some(text@),
            final(self).status@ == text@,
    {
        self.transfer_progress = Some(text.clone());
        self.status = text;
    }

    /// A transfer ended: a finished one is reported and both panels are
    /// listed again; an existing destination asks whether to overwrite it.
    pub fn transfer_finished(
        &mut self,
        direction: TransferDirection,
        source: String,
        destination: String,
        outcome: TransferOutcome,
    ) -> (r: Vec<Action>)
        ensures
            ({
                let s = ManagerState {
                    operating: false,
                    sftp_busy: false,
                    transfer_progress: None,
                    ..*old(self)
                };
                let s1 = *final(self);
                match outcome {
                    TransferOutcome::Completed => {
                        let msg = direction_word(direction) + "完成："@ + crate::workspace::basename_of(destination@);
                        &&& s1.status@ == msg
                        &&& panel_at(s1.local_panel, s.local_panel.path@, true)
                        &&& r@.len() >= 1
                        &&& lists(r@[0], SftpSide::Local, bumped(s.local_read_sequence), s.local_panel.path@)
                        &&& if s.remote_connected {
                            &&& s1 == (ManagerState {
                                status: s1.status,
                                local_panel: s1.local_panel,
                                remote_panel: s1.remote_panel,
                                local_read_sequence: bumped(s.local_read_sequence),
                                remote_read_sequence: bumped(s.remote_read_sequence),
                                ..s
                            })
                            &&& panel_at(s1.remote_panel, s.remote_panel.path@, true)
                            &&& r@.len() == 2
                            &&& lists(r@[1], SftpSide::Remote, bumped(s.remote_read_sequence), s.remote_panel.path@)
                        } else {
                            &&& s1 == (ManagerState {
                                status: s1.status,
                                local_panel: s1.local_panel,
                                local_read_sequence: bumped(s.local_read_sequence),
                                ..s
                            })
                            &&& r@.len() == 1
                        }
                    },
                    TransferOutcome::DestinationExists => {
                        &&& r@.len() == 0
                        &&& s1 == (ManagerState { status: s1.status, modal: s1.modal, ..s })
                        &&& s1.status@ == "目标已存在，请确认是否覆盖"@
                        &&& s1.modal matches Some(Modal::SftpOverwrite { upload, source: a, destination: b })
                        &&& upload == (direction == TransferDirection::Upload)
                        &&& a == source
                        &&& b == destination
                    },
                    TransferOutcome::Cancelled => refused(s, s1, r@, "传输已取消"@),
                    TransferOutcome::Failed(e) => refused(s, s1, r@, e@),
                }
            }),
    {
        self.operating = false;
        self.sftp_busy = false;
        self.transfer_progress = None;
        match outcome {
            TransferOutcome::Completed => {
                let mut message = (if direction == TransferDirection::Upload {
                    "上传"
                } else {
                    "下载"
                }).to_owned();
                message.append("完成：");
                let name = crate::workspace::path_basename(destination.as_str());
                message.append(name.as_str());
                self.status = message;
                self.refresh_sftp()
            },
            TransferOutcome::DestinationExists => {
                self.modal = Some(
                    Modal::SftpOverwrite {
                        upload: direction == TransferDirection::Upload,
                        source,
                        destination,
                    },
                );
                self.status = "目标已存在，请确认是否覆盖".to_owned();
                Vec::new()
            },
            TransferOutcome::Cancelled => {
                self.status = "传输已取消".to_owned();
                Vec::new()
            },
            TransferOutcome::Failed(error) => {
                self.status = error;
                Vec::new()
            },
        }
    }

    /// A file change ended: on success its message is shown and its panel
    /// listed again.
    pub fn mutation_finished(&mut self, side: SftpSide, success: String, result: Result<(), String>) -> (r: Vec<Action>)
        ensures
            ({
                let s = ManagerState { operating: false, sftp_busy: false, ..*old(self) };
                match result {
                    Ok(_) => {
                        &&& final(self).status@ == success@
                        &&& crate::manager_sftp::panel_read(
                            ManagerState { status: final(self).status, ..s },
                            *final(self),
                            side,
                            panel_of(s, side).path@,
                            r@,
                        )
                    },
                    Err(e) => refused(s, *final(self), r@, e@),
                }
            }),
    {
        self.operating = false;
        self.sftp_busy = false;
        match result {
            Ok(_) => {
                self.status = success;
                let path = self.panel(side).path.clone();
                self.read_panel(side, path)
            },
            Err(error) => {
                self.status = error;
                Vec::new()
            },
        }
    }

    /// The snapshot could not be read.
    pub fn snapshot_failed(&mut self, error: String)
        ensures
            only_status(*old(self), *final(self)),
            final(self).status@ == "snapshot："@ + error@,
    {
        let mut message = "snapshot：".to_owned();
        message.append(error.as_str());
        self.status = message;
    }

    /// A new snapshot arrived. The selection is clamped to it; when the
    /// connected profile changed or left (`connected_current` is false), the
    /// session closes.
    pub fn snapshot_loaded(&mut self, snapshot: Snapshot, connected_current: bool) -> (r: Vec<Action>)
        ensures
            final(self).snapshot == snapshot,
            crate::manager::selection_ok(final(self)),
            final(self).filter == old(self).filter,
            final(self).modal == old(self).modal,
            final(self).page == old(self).page,
            if old(self).connected_profile is Some && !connected_current {
                &&& final(self).connection_sequence == bumped(old(self).connection_sequence)
                &&& !final(self).remote_connected
                &&& !final(self).connecting
                &&& !final(self).operating
                &&& !final(self).sftp_busy
                &&& final(self).connected_profile is None
                &&& final(self).remote_panel.path == old(self).remote_panel.path
                &&& final(self).remote_panel.selected == old(self).remote_panel.selected
                &&& final(self).remote_panel.entries@.len() == 0
                &&& !final(self).remote_panel.loading
                &&& final(self).remote_panel.error@ == "配置已更新，请重新连接"@
                &&& final(self).status@ == "当前 SFTP 配置已更新，旧连接已关闭"@
                &&& r@.len() == 1
                &&& r@[0] is CloseSession
            } else {
                &&& final(self).status@ == "已同步 "@ + crate::text::decimal(snapshot.profiles@.len()) + " 台主机"@
                &&& final(self).connection_sequence == old(self).connection_sequence
                &&& final(self).remote_connected == old(self).remote_connected
                &&& final(self).remote_panel == old(self).remote_panel
                &&& final(self).connected_profile == old(self).connected_profile
                &&& r@.len() == 0
            },
    {
        let count = snapshot.profiles.len();
        let was_connected = self.connected_profile.is_some();
        self.snapshot = snapshot;
        self.clamp_selection();
        let mut message = "已同步 ".to_owned();
        let number = crate::text::u64_to_string(count as u64);
        message.append(number.as_str());
        message.append(" 台主机");
        self.status = message;
        if was_connected && !connected_current {
            let actions = self.close_sftp_session();
            self.remote_panel.entries = Vec::new();
            self.remote_panel.loading = false;
            self.remote_panel.error = "配置已更新，请重新连接".to_owned();
            self.status = "当前 SFTP 配置已更新，旧连接已关闭".to_owned();
            actions
        } else {
            Vec::new()
        }
    }
}

} // verus!
