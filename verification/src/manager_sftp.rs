//! The SFTP workspace's side of the manager state: reading the panels,
//! moving through them, and asking for connections, transfers and file
//! changes, each as an `Action` whose outcome comes back to the methods
//! at the end of this file.
use vstd::prelude::*;

use crate::manager::{Action, EntryKind, EntryView, ManagerState, Mutation, PanelView};
use crate::sftp::profile::{connection_from_profile, distinct_keys, plan_of, PlanView};
use crate::sftp::types::{
    issues_view, pairs_view, CompatibilityIssue, CompatibilityIssueSeverity, CredentialOverrides,
    IssueView, ProfileConnectionOverrides, SftpConnectionOptions, TransferDirection,
};
use crate::editor::TextInput;
use crate::manager::Modal;
use crate::text::{has_prefix, str_starts_with};
use crate::types::{profiles_view, strs_view, Profile};
use crate::text::str_eq;
use crate::workspace::{
    join_path, joined_locally, local_parent_of, parent_path, plain_name, verbatim, SftpSide,
};

verus! {

/// The panel of one side.
pub open spec fn panel_of(s: ManagerState, side: SftpSide) -> PanelView {
    match side {
        SftpSide::Local => s.local_panel,
        SftpSide::Remote => s.remote_panel,
    }
}

/// The state with one side's panel replaced.
pub open spec fn with_panel(s: ManagerState, side: SftpSide, p: PanelView) -> ManagerState {
    match side {
        SftpSide::Local => ManagerState { local_panel: p, ..s },
        SftpSide::Remote => ManagerState { remote_panel: p, ..s },
    }
}

/// The number of the last listing asked for on one side.
pub open spec fn read_sequence_of(s: ManagerState, side: SftpSide) -> u64 {
    match side {
        SftpSide::Local => s.local_read_sequence,
        SftpSide::Remote => s.remote_read_sequence,
    }
}

/// The state with one side's listing number replaced.
pub open spec fn with_read_sequence(s: ManagerState, side: SftpSide, n: u64) -> ManagerState {
    match side {
        SftpSide::Local => ManagerState { local_read_sequence: n, ..s },
        SftpSide::Remote => ManagerState { remote_read_sequence: n, ..s },
    }
}

/// The next number of a counter, wrapping at the top.
pub open spec fn bumped(n: u64) -> u64 {
    if n == u64::MAX {
        0
    } else {
        (n + 1) as u64
    }
}

fn bump(n: u64) -> (r: u64)
    ensures
        r == bumped(n),
{
    if n == u64::MAX {
        0
    } else {
        n + 1
    }
}

/// A panel that shows `path`, empty, with nothing selected and no error.
pub open spec fn panel_at(p: PanelView, path: Seq<char>, loading: bool) -> bool {
    &&& p.path@ == path
    &&& p.entries@.len() == 0
    &&& p.selected == 0
    &&& p.loading == loading
    &&& p.error@.len() == 0
}

/// A single listing request.
pub open spec fn lists(a: Action, side: SftpSide, sequence: u64, path: Seq<char>) -> bool {
    a matches Action::ListPanel { side: sd, sequence: q, path: p } && sd == side && q == sequence
        && p@ == path
}

/// What asking for a listing of `path` on `side` does: without a remote
/// session the remote panel is emptied with an error; otherwise the panel
/// shows `path`, loading, and the listing goes out with the next number.
pub open spec fn panel_read(
    s0: ManagerState,
    s1: ManagerState,
    side: SftpSide,
    path: Seq<char>,
    actions: Seq<Action>,
) -> bool {
    if side == SftpSide::Remote && !s0.remote_connected {
        &&& actions.len() == 0
        &&& s1 == with_panel(s0, side, s1.remote_panel)
        &&& s1.remote_panel.path == s0.remote_panel.path
        &&& s1.remote_panel.selected == s0.remote_panel.selected
        &&& s1.remote_panel.entries@.len() == 0
        &&& !s1.remote_panel.loading
        &&& s1.remote_panel.error@ == "尚未连接 SFTP"@
    } else {
        let n = bumped(read_sequence_of(s0, side));
        &&& s1 == with_panel(with_read_sequence(s0, side, n), side, panel_of(s1, side))
        &&& panel_at(panel_of(s1, side), path, true)
        &&& actions.len() == 1
        &&& lists(actions[0], side, n, path)
    }
}

/// The selected entry of a side, unless it is the `..` row.
pub open spec fn selected_entry_of(s: ManagerState, side: SftpSide) -> Option<EntryView> {
    let p = panel_of(s, side);
    if p.selected < p.entries@.len() && p.entries@[p.selected as int].name@ != ".."@ {
        Some(p.entries@[p.selected as int])
    } else {
        None
    }
}

pub(crate) fn new_panel(path: String, loading: bool) -> (r: PanelView)
    ensures
        panel_at(r, path@, loading),
{
    PanelView { path, entries: Vec::new(), selected: 0, loading, error: String::new() }
}

impl ManagerState {
    /// The panel of one side.
    pub fn panel(&self, side: SftpSide) -> (r: &PanelView)
        ensures
            *r == panel_of(*self, side),
    {
        match side {
            SftpSide::Local => &self.local_panel,
            SftpSide::Remote => &self.remote_panel,
        }
    }

    /// Asks for a listing of `path` on `side`.
    pub fn read_panel(&mut self, side: SftpSide, path: String) -> (r: Vec<Action>)
        ensures
            panel_read(*old(self), *final(self), side, path@, r@),
    {
        let mut actions: Vec<Action> = Vec::new();
        match side {
            SftpSide::Local => {
                let n = bump(self.local_read_sequence);
                self.local_read_sequence = n;
                self.local_panel = new_panel(path.clone(), true);
                actions.push(Action::ListPanel { side, sequence: n, path });
            },
            SftpSide::Remote => {
                if !self.remote_connected {
                    self.remote_panel.entries = Vec::new();
                    self.remote_panel.loading = false;
                    self.remote_panel.error = "尚未连接 SFTP".to_owned();
                    return actions;
                }
                let n = bump(self.remote_read_sequence);
                self.remote_read_sequence = n;
                self.remote_panel = new_panel(path.clone(), true);
                actions.push(Action::ListPanel { side, sequence: n, path });
            },
        }
        actions
    }

    /// Lists both panels again (the remote one only with a session).
    pub fn refresh_sftp(&mut self) -> (r: Vec<Action>)
        ensures
            refreshed(*old(self), *final(self), r@),
    {
        let local = self.local_panel.path.clone();
        let mut actions = self.read_panel(SftpSide::Local, local);
        if self.remote_connected {
            let remote = self.remote_panel.path.clone();
            let mut more = self.read_panel(SftpSide::Remote, remote);
            actions.append(&mut more);
        }
        actions
    }

    /// The selected entry of a side, unless it is the `..` row.
    pub fn selected_sftp_entry_for(&self, side: SftpSide) -> (r: Option<&EntryView>)
        ensures
            match (r, selected_entry_of(*self, side)) {
                (Some(a), Some(b)) => *a == b,
                (None, None) => true,
                _ => false,
            },
    {
        let panel = self.panel(side);
        if panel.selected < panel.entries.len() {
            let entry = &panel.entries[panel.selected];
            if str_eq(entry.name.as_str(), "..") {
                None
            } else {
                Some(entry)
            }
        } else {
            None
        }
    }

    /// The selected entry of the active side, unless it is the `..` row.
    pub fn selected_sftp_entry(&self) -> (r: Option<&EntryView>)
        ensures
            match (r, selected_entry_of(*self, self.sftp_side)) {
                (Some(a), Some(b)) => *a == b,
                (None, None) => true,
                _ => false,
            },
    {
        self.selected_sftp_entry_for(self.sftp_side)
    }

    /// Moves the active panel's selection.
    pub fn move_sftp(&mut self, delta: isize)
        ensures
            sftp_moved(*old(self), *final(self), delta),
    {
        match self.sftp_side {
            SftpSide::Local => {
                let n = self.local_panel.entries.len();
                self.local_panel.selected = crate::workspace::move_index(self.local_panel.selected, delta, n);
            },
            SftpSide::Remote => {
                let n = self.remote_panel.entries.len();
                self.remote_panel.selected = crate::workspace::move_index(self.remote_panel.selected, delta, n);
            },
        }
    }

    /// `name` inside a panel's directory.
    pub fn join_panel_path(&self, side: SftpSide, name: &str) -> (r: String)
        ensures
            side == SftpSide::Remote ==> r@ == crate::workspace::remote_child_of(
                self.remote_panel.path@,
                name@,
            ),
            side == SftpSide::Local && plain_name(name@) && !verbatim(self.local_panel.path@)
                ==> joined_locally(self.local_panel.path@, name@, r@),
    {
        join_path(side, self.panel(side).path.as_str(), name)
    }

    /// Drops the SFTP session: pending connections stop counting, running
    /// work is cancelled, and nothing is connected any more.
    pub fn close_sftp_session(&mut self) -> (r: Vec<Action>)
        ensures
            r@.len() == 1,
            r@[0] is CloseSession,
            *final(self) == (ManagerState {
                connection_sequence: bumped(old(self).connection_sequence),
                connecting: false,
                operating: false,
                remote_connected: false,
                connected_profile: None,
                connected_fingerprint: None,
                sftp_busy: false,
                transfer_progress: None,
                ..*old(self)
            }),
    {
        self.connection_sequence = bump(self.connection_sequence);
        self.connecting = false;
        self.operating = false;
        self.remote_connected = false;
        self.connected_profile = None;
        self.connected_fingerprint = None;
        self.sftp_busy = false;
        self.transfer_progress = None;
        let mut r = Vec::new();
        r.push(Action::CloseSession);
        r
    }
}


/// The state with a new status and nothing else changed.
pub open spec fn only_status(s0: ManagerState, s1: ManagerState) -> bool {
    s1 == (ManagerState { status: s1.status, ..s0 })
}

/// The state after a refusal: only the status changed, to `message`, and
/// nothing was asked for.
pub open spec fn refused(s0: ManagerState, s1: ManagerState, actions: Seq<Action>, message: Seq<char>) -> bool {
    &&& only_status(s0, s1)
    &&& s1.status@ == message
    &&& actions.len() == 0
}

/// The letter that transfers a file from a side.
pub open spec fn transfer_key_of(side: SftpSide) -> Seq<char> {
    if side == SftpSide::Local {
        "u"@
    } else {
        "d"@
    }
}

/// The name of a side in the status line.
pub open spec fn side_label_of(side: SftpSide) -> Seq<char> {
    if side == SftpSide::Local {
        "本地"@
    } else {
        "远端"@
    }
}

/// What Enter on the active panel does: a directory is listed, any other
/// entry tells which key transfers it.
pub open spec fn entry_opened(s0: ManagerState, s1: ManagerState, actions: Seq<Action>) -> bool {
    let side = s0.sftp_side;
    let p = panel_of(s0, side);
    if p.selected >= p.entries@.len() {
        s1 == s0 && actions.len() == 0
    } else {
        let e = p.entries@[p.selected as int];
        if e.kind != EntryKind::Directory {
            refused(s0, s1, actions, e.name@ + "：按 "@ + transfer_key_of(side) + " 传输"@)
        } else {
            &&& s1.status@ == side_label_of(side) + "："@ + e.path@
            &&& panel_read(ManagerState { status: s1.status, ..s0 }, s1, side, e.path@, actions)
        }
    }
}

/// What starting a transfer does: it needs a session and no other work
/// running; then the work is marked running and the copy goes out.
pub open spec fn transfer_started(
    s0: ManagerState,
    s1: ManagerState,
    direction: TransferDirection,
    source: Seq<char>,
    destination: Seq<char>,
    overwrite: bool,
    actions: Seq<Action>,
) -> bool {
    if !s0.remote_connected {
        refused(s0, s1, actions, "请先连接 SFTP"@)
    } else if s0.sftp_busy {
        refused(s0, s1, actions, "已有 SFTP 操作正在进行"@)
    } else {
        &&& s1 == (ManagerState {
            operating: true,
            sftp_busy: true,
            transfer_progress: None,
            ..s0
        })
        &&& actions.len() == 1
        &&& actions[0] matches Action::Transfer { direction: d, source: a, destination: b, overwrite: o }
        &&& d == direction && a@ == source && b@ == destination && o == overwrite
    }
}

/// What starting a file change does: the remote side needs a session, and
/// no other work may be running; then the change goes out.
pub open spec fn mutation_started(
    s0: ManagerState,
    s1: ManagerState,
    side: SftpSide,
    mutation: crate::manager::MutationView,
    success: Seq<char>,
    actions: Seq<Action>,
) -> bool {
    if side == SftpSide::Remote && !s0.remote_connected {
        refused(s0, s1, actions, "请先连接 SFTP"@)
    } else if s0.sftp_busy {
        refused(s0, s1, actions, "已有 SFTP 操作正在进行"@)
    } else {
        &&& s1 == (ManagerState { operating: true, sftp_busy: true, ..s0 })
        &&& actions.len() == 1
        &&& actions[0] matches Action::Mutate { side: sd, mutation: m, success: m2 }
        &&& sd == side && m@ == mutation && m2@ == success
    }
}

/// The message for a selection that is not a plain file.
pub open spec fn not_a_file_message() -> Seq<char> {
    "当前仅传输普通文件，目录和符号链接请先打包"@
}

/// Both panels listed again (the remote one only with a session).
pub open spec fn refreshed(s0: ManagerState, s1: ManagerState, actions: Seq<Action>) -> bool {
    let l = bumped(s0.local_read_sequence);
    let rm = bumped(s0.remote_read_sequence);
    &&& panel_at(s1.local_panel, s0.local_panel.path@, true)
    &&& lists(actions[0], SftpSide::Local, l, s0.local_panel.path@)
    &&& if s0.remote_connected {
        &&& s1 == (ManagerState {
            local_panel: s1.local_panel,
            remote_panel: s1.remote_panel,
            local_read_sequence: l,
            remote_read_sequence: rm,
            ..s0
        })
        &&& panel_at(s1.remote_panel, s0.remote_panel.path@, true)
        &&& actions.len() == 2
        &&& lists(actions[1], SftpSide::Remote, rm, s0.remote_panel.path@)
    } else {
        &&& s1 == (ManagerState { local_panel: s1.local_panel, local_read_sequence: l, ..s0 })
        &&& actions.len() == 1
    }
}

/// The active panel's selection moved by `delta`.
pub open spec fn sftp_moved(s0: ManagerState, s1: ManagerState, delta: isize) -> bool {
    let side = s0.sftp_side;
    let p = panel_of(s0, side);
    s1 == with_panel(
        s0,
        side,
        PanelView { selected: crate::workspace::moved_of(p.selected, delta, p.entries@.len() as usize), ..p },
    )
}

/// Backspace on the active panel: the directory above is listed, if any.
pub open spec fn parent_opened(s0: ManagerState, s1: ManagerState, actions: Seq<Action>) -> bool {
    let side = s0.sftp_side;
    let current = panel_of(s0, side).path@;
    if side == SftpSide::Remote {
        let parent = crate::workspace::remote_parent_of(current);
        if parent == current {
            s1 == s0 && actions.len() == 0
        } else {
            panel_read(s0, s1, side, parent, actions)
        }
    } else {
        (s1 == s0 && actions.len() == 0) || exists|parent: Seq<char>|
            parent != current && local_parent_of(current, parent) && panel_read(
                s0,
                s1,
                side,
                parent,
                actions,
            )
    }
}

/// Uploading the selected local file into the remote panel's directory.
pub open spec fn upload_done(s0: ManagerState, s1: ManagerState, actions: Seq<Action>) -> bool {
    match selected_entry_of(s0, SftpSide::Local) {
        None => refused(s0, s1, actions, "请选择一个本地文件"@),
        Some(e) => if e.kind != EntryKind::File {
            refused(s0, s1, actions, not_a_file_message())
        } else {
            transfer_started(
                s0,
                s1,
                TransferDirection::Upload,
                e.path@,
                crate::workspace::remote_child_of(s0.remote_panel.path@, e.name@),
                false,
                actions,
            )
        },
    }
}

/// Downloading the selected remote file into the local panel's directory.
pub open spec fn download_done(s0: ManagerState, s1: ManagerState, actions: Seq<Action>) -> bool {
    match selected_entry_of(s0, SftpSide::Remote) {
        None => refused(s0, s1, actions, "请选择一个远端文件"@),
        Some(e) => if e.kind != EntryKind::File {
            refused(s0, s1, actions, not_a_file_message())
        } else {
            exists|destination: Seq<char>|
                #![trigger transfer_started(s0, s1, TransferDirection::Download, e.path@, destination, false, actions)]
                {
                    &&& plain_name(e.name@) && !verbatim(s0.local_panel.path@) ==> joined_locally(
                        s0.local_panel.path@,
                        e.name@,
                        destination,
                    )
                    &&& transfer_started(
                        s0,
                        s1,
                        TransferDirection::Download,
                        e.path@,
                        destination,
                        false,
                        actions,
                    )
                }
        },
    }
}

/// Cancelling: the connection being opened first, else the running work.
pub open spec fn cancel_done(s0: ManagerState, s1: ManagerState, actions: Seq<Action>) -> bool {
    if s0.connecting {
        only_status(s0, s1) && s1.status@ == "正在取消…"@ && actions.len() == 1
            && actions[0] is CancelConnection
    } else if s0.operating {
        only_status(s0, s1) && s1.status@ == "正在取消…"@ && actions.len() == 1
            && actions[0] is CancelOperation
    } else {
        refused(s0, s1, actions, "当前没有可取消的操作"@)
    }
}

pub(crate) fn set_status(s: &mut ManagerState, message: &str) -> (r: Vec<Action>)
    ensures
        refused(*old(s), *final(s), r@, message@),
{
    s.status = message.to_owned();
    Vec::new()
}

impl ManagerState {
    /// Enter on the active panel.
    pub fn open_sftp_entry(&mut self) -> (r: Vec<Action>)
        ensures
            entry_opened(*old(self), *final(self), r@),
    {
        let side = self.sftp_side;
        let (kind, name, path) = {
            let panel = self.panel(side);
            if panel.selected >= panel.entries.len() {
                return Vec::new();
            }
            let entry = &panel.entries[panel.selected];
            (entry.kind, entry.name.clone(), entry.path.clone())
        };
        if kind != EntryKind::Directory {
            let mut message = name;
            message.append("：按 ");
            message.append(if side == SftpSide::Local { "u" } else { "d" });
            message.append(" 传输");
            self.status = message;
            return Vec::new();
        }
        let mut message = (if side == SftpSide::Local { "本地" } else { "远端" }).to_owned();
        message.append("：");
        message.append(path.as_str());
        self.status = message;
        self.read_panel(side, path)
    }

    /// Backspace on the active panel: lists the directory above, if any.
    pub fn open_sftp_parent(&mut self) -> (r: Vec<Action>)
        ensures
            parent_opened(*old(self), *final(self), r@),
    {
        let side = self.sftp_side;
        let current = self.panel(side).path.clone();
        let parent = parent_path(side, current.as_str());
        if str_eq(parent.as_str(), current.as_str()) {
            Vec::new()
        } else {
            let ghost p = parent@;
            let r = self.read_panel(side, parent);
            assert(panel_read(*old(self), *self, side, p, r@));
            r
        }
    }

    /// Starts copying `source` to `destination`.
    pub fn perform_transfer(
        &mut self,
        direction: TransferDirection,
        source: String,
        destination: String,
        overwrite: bool,
    ) -> (r: Vec<Action>)
        ensures
            transfer_started(*old(self), *final(self), direction, source@, destination@, overwrite, r@),
    {
        if !self.remote_connected {
            return set_status(self, "请先连接 SFTP");
        }
        if self.sftp_busy {
            return set_status(self, "已有 SFTP 操作正在进行");
        }
        self.operating = true;
        self.sftp_busy = true;
        self.transfer_progress = None;
        let mut r = Vec::new();
        r.push(Action::Transfer { direction, source, destination, overwrite });
        r
    }

    /// Uploads the selected local file into the remote panel's directory.
    pub fn upload_selected(&mut self) -> (r: Vec<Action>)
        ensures
            upload_done(*old(self), *final(self), r@),
    {
        let (kind, name, path) = match self.selected_sftp_entry_for(SftpSide::Local) {
            None => {
                return set_status(self, "请选择一个本地文件");
            },
            Some(e) => (e.kind, e.name.clone(), e.path.clone()),
        };
        if kind != EntryKind::File {
            return set_status(self, "当前仅传输普通文件，目录和符号链接请先打包");
        }
        let destination = join_path(SftpSide::Remote, self.remote_panel.path.as_str(), name.as_str());
        self.perform_transfer(TransferDirection::Upload, path, destination, false)
    }

    /// Downloads the selected remote file into the local panel's directory.
    pub fn download_selected(&mut self) -> (r: Vec<Action>)
        ensures
            download_done(*old(self), *final(self), r@),
    {
        let (kind, name, path) = match self.selected_sftp_entry_for(SftpSide::Remote) {
            None => {
                return set_status(self, "请选择一个远端文件");
            },
            Some(e) => (e.kind, e.name.clone(), e.path.clone()),
        };
        if kind != EntryKind::File {
            return set_status(self, "当前仅传输普通文件，目录和符号链接请先打包");
        }
        let destination = join_path(SftpSide::Local, self.local_panel.path.as_str(), name.as_str());
        let ghost d = destination@;
        let r = self.perform_transfer(TransferDirection::Download, path, destination, false);
        proof {
            let e = old(self).remote_panel.entries@[old(self).remote_panel.selected as int];
            assert(transfer_started(*old(self), *self, TransferDirection::Download, e.path@, d, false, r@));
            assert(plain_name(e.name@) && !verbatim(old(self).local_panel.path@) ==> joined_locally(
                old(self).local_panel.path@,
                e.name@,
                d,
            ));
        }
        r
    }

    /// Starts a change of a panel's files.
    pub fn start_mutation(&mut self, side: SftpSide, mutation: Mutation, success: String) -> (r: Vec<Action>)
        ensures
            mutation_started(*old(self), *final(self), side, mutation@, success@, r@),
    {
        if side == SftpSide::Remote && !self.remote_connected {
            return set_status(self, "请先连接 SFTP");
        }
        if self.sftp_busy {
            return set_status(self, "已有 SFTP 操作正在进行");
        }
        self.operating = true;
        self.sftp_busy = true;
        let mut r = Vec::new();
        r.push(Action::Mutate { side, mutation, success });
        r
    }

    /// Cancels the connection being opened, else the running work.
    pub fn cancel_sftp_operation(&mut self) -> (r: Vec<Action>)
        ensures
            cancel_done(*old(self), *final(self), r@),
    {
        let mut r = Vec::new();
        if self.connecting {
            r.push(Action::CancelConnection);
        } else if self.operating {
            r.push(Action::CancelOperation);
        } else {
            return set_status(self, "当前没有可取消的操作");
        }
        self.status = "正在取消…".to_owned();
        r
    }
}


/// The messages of the issues of one severity, in order.
pub open spec fn messages_with(issues: Seq<IssueView>, severity: CompatibilityIssueSeverity) -> Seq<Seq<char>>
    decreases issues.len(),
{
    if issues.len() == 0 {
        Seq::empty()
    } else {
        let rest = messages_with(issues.drop_last(), severity);
        if issues.last().severity == severity {
            rest.push(issues.last().message)
        } else {
            rest
        }
    }
}

/// The parts with `sep` between each two.
pub open spec fn joined(parts: Seq<Seq<char>>, sep: Seq<char>) -> Seq<char>
    decreases parts.len(),
{
    if parts.len() == 0 {
        Seq::empty()
    } else if parts.len() == 1 {
        parts[0]
    } else {
        joined(parts.drop_last(), sep) + sep + parts.last()
    }
}

fn messages(issues: &Vec<CompatibilityIssue>, severity: CompatibilityIssueSeverity) -> (r: Vec<String>)
    ensures
        strs_view(r@) == messages_with(issues_view(issues@), severity),
{
    let ghost iv = issues_view(issues@);
    let mut r: Vec<String> = Vec::new();
    let mut i: usize = 0;
    assert(iv.take(0) =~= Seq::<IssueView>::empty());
    assert(strs_view(r@) =~= Seq::<Seq<char>>::empty());
    while i < issues.len()
        invariant
            i <= issues.len(),
            iv == issues_view(issues@),
            strs_view(r@) == messages_with(iv.take(i as int), severity),
        decreases issues.len() - i,
    {
        assert(iv.take(i + 1).drop_last() =~= iv.take(i as int));
        assert(iv.take(i + 1).last() == issues@[i as int]@);
        if issues[i].severity == severity {
            r.push(issues[i].message.clone());
            assert(strs_view(r@) =~= messages_with(iv.take(i as int), severity).push(issues@[i as int].message@));
        }
        i += 1;
    }
    assert(iv.take(issues.len() as int) =~= iv);
    r
}

pub(crate) fn join_strings(parts: &Vec<String>, sep: &str) -> (r: String)
    ensures
        r@ == joined(strs_view(parts@), sep@),
{
    let ghost pv = strs_view(parts@);
    let mut r = String::new();
    let mut i: usize = 0;
    while i < parts.len()
        invariant
            i <= parts.len(),
            pv == strs_view(parts@),
            r@ == joined(pv.take(i as int), sep@),
        decreases parts.len() - i,
    {
        assert(pv.take(i + 1).drop_last() =~= pv.take(i as int));
        if i > 0 {
            r.append(sep);
        }
        r.append(parts[i].as_str());
        proof {
            if i == 0 {
                assert(r@ =~= pv.take(1)[0]);
            } else {
                assert(r@ =~= joined(pv.take(i as int), sep@) + sep@ + pv.take(i + 1).last());
            }
        }
        i += 1;
    }
    assert(pv.take(parts.len() as int) =~= pv);
    r
}

/// An issue that asks for input, for the jump host or for the target.
pub open spec fn needs_input(issues: Seq<IssueView>, jump: bool) -> bool {
    exists|i: int|
        0 <= i < issues.len() && (#[trigger] issues[i]).severity == CompatibilityIssueSeverity::NeedsInput
            && has_prefix(issues[i].field, "jump."@) == jump
}

fn any_needs_input(issues: &Vec<CompatibilityIssue>, jump: bool) -> (r: bool)
    ensures
        r == needs_input(issues_view(issues@), jump),
{
    let ghost iv = issues_view(issues@);
    let mut i: usize = 0;
    while i < issues.len()
        invariant
            i <= issues.len(),
            iv == issues_view(issues@),
            forall|j: int|
                0 <= j < i ==> !((#[trigger] iv[j]).severity == CompatibilityIssueSeverity::NeedsInput
                    && has_prefix(iv[j].field, "jump."@) == jump),
        decreases issues.len() - i,
    {
        assert(iv[i as int] == issues@[i as int]@);
        if issues[i].severity == CompatibilityIssueSeverity::NeedsInput
            && str_starts_with(issues[i].field.as_str(), "jump.") == jump {
            return true;
        }
        i += 1;
    }
    false
}

/// Connection settings made as a plan says.
pub open spec fn made_from(c: SftpConnectionOptions, plan: PlanView) -> bool {
    &&& c.hop() == plan.target
    &&& match plan.jump {
        Some(h) => c.jump matches Some(b) && b.hop() == h && b.jump is None,
        None => c.jump is None,
    }
}

/// No credentials given.
pub open spec fn no_credentials() -> crate::sftp::types::CredentialsView {
    crate::sftp::types::CredentialsView { password: None, private_keys: None, agent: None }
}

/// No overrides: the profile's own settings and the process environment.
pub open spec fn no_overrides() -> crate::sftp::types::OverridesView {
    crate::sftp::types::OverridesView {
        credentials: no_credentials(),
        jump: no_credentials(),
        environment: None,
    }
}

pub fn default_overrides() -> (r: ProfileConnectionOverrides)
    ensures
        r@ == no_overrides(),
{
    ProfileConnectionOverrides {
        credentials: CredentialOverrides { password: None, private_keys: None, agent: None },
        jump: CredentialOverrides { password: None, private_keys: None, agent: None },
        environment: None,
    }
}

/// The plan for a profile of the state.
pub open spec fn plan_in(
    s: ManagerState,
    profile: crate::types::ProfileView,
    overrides: crate::sftp::types::OverridesView,
    env: Seq<(String, String)>,
) -> PlanView {
    plan_of(profile, profiles_view(s.snapshot.profiles@), overrides, pairs_view(env))
}

/// The state after `close_sftp_session`.
pub open spec fn closed_of(s: ManagerState) -> ManagerState {
    ManagerState {
        connection_sequence: bumped(s.connection_sequence),
        connecting: false,
        operating: false,
        remote_connected: false,
        connected_profile: None,
        connected_fingerprint: None,
        sftp_busy: false,
        transfer_progress: None,
        ..s
    }
}

/// What asking for a connection does: an unsupported profile only reports
/// why; otherwise the old session closes, the remote panel waits at `/`,
/// and the connection goes out under the new connection number, with the
/// plan's warnings.
pub open spec fn sftp_established(
    s0: ManagerState,
    s1: ManagerState,
    profile: crate::types::ProfileView,
    overrides: crate::sftp::types::OverridesView,
    fingerprint: Seq<char>,
    env: Seq<(String, String)>,
    actions: Seq<Action>,
) -> bool {
    let plan = plan_in(s0, profile, overrides, env);
    if crate::sftp::profile::has_unsupported(plan.issues) {
        refused(
            s0,
            s1,
            actions,
            joined(messages_with(plan.issues, CompatibilityIssueSeverity::Unsupported), "；"@),
        )
    } else {
        let c = closed_of(s0);
        &&& s1 == (ManagerState {
            connecting: true,
            sftp_busy: true,
            status: s1.status,
            remote_panel: s1.remote_panel,
            ..c
        })
        &&& s1.status@ == "正在建立 SFTP："@ + crate::model::target_text(profile) + "…"@
        &&& panel_at(s1.remote_panel, seq!['/'], true)
        &&& actions.len() == 2
        &&& actions[0] is CloseSession
        &&& actions[1] matches Action::Connect { sequence, profile: p, fingerprint: f, connection, warnings }
        &&& sequence == c.connection_sequence
        &&& p@ == profile
        &&& f@ == fingerprint
        &&& made_from(connection, plan)
        &&& strs_view(warnings@) == messages_with(plan.issues, CompatibilityIssueSeverity::Warning)
    }
}

impl ManagerState {
    /// Opens an SFTP connection for `profile` with `overrides`; `env` is the
    /// process environment and `fingerprint` identifies the profile's
    /// settings.
    pub fn establish_sftp(
        &mut self,
        profile: Profile,
        overrides: ProfileConnectionOverrides,
        fingerprint: String,
        env: &Vec<(String, String)>,
    ) -> (r: Vec<Action>)
        requires
            distinct_keys(pairs_view(env@)),
            overrides.environment matches Some(e) ==> distinct_keys(pairs_view(e@)),
        ensures
            sftp_established(*old(self), *final(self), profile@, overrides@, fingerprint@, env@, r@),
    {
        let mapped = connection_from_profile(&profile, &self.snapshot.profiles, &overrides, env);
        if !mapped.supported {
            let unsupported = messages(&mapped.issues, CompatibilityIssueSeverity::Unsupported);
            self.status = join_strings(&unsupported, "；");
            return Vec::new();
        }
        let mut actions = self.close_sftp_session();
        let sequence = self.connection_sequence;
        self.connecting = true;
        self.sftp_busy = true;
        let mut message = "正在建立 SFTP：".to_owned();
        let target = crate::model::profile_target(&profile);
        message.append(target.as_str());
        message.append("…");
        self.status = message;
        let mut root = String::new();
        root.push('/');
        self.remote_panel = new_panel(root, true);
        let warnings = messages(&mapped.issues, CompatibilityIssueSeverity::Warning);
        actions.push(
            Action::Connect { sequence, profile, fingerprint, connection: mapped.connection, warnings },
        );
        actions
    }
}


/// An empty secret input.
pub open spec fn blank_secret(t: TextInput) -> bool {
    &&& t.value@.len() == 0
    &&& t.cursor == 0
    &&& t.secret
}

pub(crate) fn empty_secret() -> (r: TextInput)
    ensures
        blank_secret(r),
        r.wf(),
{
    let r = TextInput::secret(String::new());
    assert(crate::editor::bytes_of(r.value@) =~= Seq::<u8>::empty());
    r
}

/// The credentials dialog for `profile`, on the field of the password asked
/// for first (the jump host's when only it is needed).
pub open spec fn asks_credentials(m: Option<Modal>, profile: crate::types::ProfileView, field: usize) -> bool {
    m matches Some(Modal::SftpCredentials { profile: p, password, jump_password, field: f })
        && p@ == profile && blank_secret(password) && blank_secret(jump_password) && f == field
}

/// What opening the SFTP workspace for the selected host does: the page
/// turns to the workspace; a live session for the same settings is listed
/// again; an unsupported profile reports why; one that needs passwords
/// asks for them; any other is connected.
pub open spec fn workspace_opened(
    s0: ManagerState,
    s1: ManagerState,
    fingerprint: Seq<char>,
    env: Seq<(String, String)>,
    actions: Seq<Action>,
) -> bool {
    match s0.selected_host_spec() {
        None => refused(s0, s1, actions, crate::manager::no_host_message()),
        Some(p) => {
            let s = ManagerState { page: crate::types::MainPage::Sftp, ..s0 };
            if s0.remote_connected && (s0.connected_profile matches Some(cp) && cp.id@ == p.id)
                && crate::types::opt_str(s0.connected_fingerprint) == Some(fingerprint) {
                panel_read(s, s1, SftpSide::Remote, s0.remote_panel.path@, actions)
            } else {
                let plan = plan_in(s0, p, no_overrides(), env);
                if crate::sftp::profile::has_unsupported(plan.issues) {
                    refused(
                        s,
                        s1,
                        actions,
                        joined(messages_with(plan.issues, CompatibilityIssueSeverity::Unsupported), "；"@),
                    )
                } else if needs_input(plan.issues, false) || needs_input(plan.issues, true) {
                    &&& actions.len() == 0
                    &&& s1 == (ManagerState { modal: s1.modal, ..s })
                    &&& asks_credentials(s1.modal, p, if needs_input(plan.issues, false) { 0 } else { 1 })
                } else {
                    sftp_established(s, s1, p, no_overrides(), fingerprint, env, actions)
                }
            }
        },
    }
}

impl ManagerState {
    /// Opens the SFTP workspace for the selected host; `fingerprint`
    /// identifies its settings and `env` is the process environment.
    pub fn open_sftp_workspace(&mut self, fingerprint: String, env: &Vec<(String, String)>) -> (r: Vec<Action>)
        requires
            distinct_keys(pairs_view(env@)),
        ensures
            workspace_opened(*old(self), *final(self), fingerprint@, env@, r@),
    {
        let profile = match self.selected_host() {
            None => {
                return set_status(self, "请先选择一台主机");
            },
            Some(p) => p.clone(),
        };
        self.page = crate::types::MainPage::Sftp;
        let same = match (&self.connected_profile, &self.connected_fingerprint) {
            (Some(cp), Some(f)) => str_eq(cp.id.as_str(), profile.id.as_str()) && str_eq(
                f.as_str(),
                fingerprint.as_str(),
            ),
            _ => false,
        };
        if self.remote_connected && same {
            let path = self.remote_panel.path.clone();
            return self.read_panel(SftpSide::Remote, path);
        }
        let defaults = default_overrides();
        let mapped = connection_from_profile(&profile, &self.snapshot.profiles, &defaults, env);
        if !mapped.supported {
            let unsupported = messages(&mapped.issues, CompatibilityIssueSeverity::Unsupported);
            self.status = join_strings(&unsupported, "；");
            return Vec::new();
        }
        let needs_target = any_needs_input(&mapped.issues, false);
        let needs_jump = any_needs_input(&mapped.issues, true);
        if needs_target || needs_jump {
            self.modal = Some(
                Modal::SftpCredentials {
                    profile,
                    password: empty_secret(),
                    jump_password: empty_secret(),
                    field: if needs_target { 0 } else { 1 },
                },
            );
            return Vec::new();
        }
        self.establish_sftp(profile, default_overrides(), fingerprint, env)
    }
}

} // verus!
