//! The manager's screen state and how it answers keys, pastes, clicks and
//! the results of its background work. Everything that talks to the outside
//! (the request protocol, SFTP sessions, the terminal) is asked for through
//! `Action`s, and its outcome comes back through the methods here.
use vstd::prelude::*;

use crate::editor::{InputKey, InputKeyCode, TextInput};
use crate::model::{
    draft_from_profile, group_summaries, profile_target, raw_from_draft,
    visible_profiles, ALL_GROUPS,
};
use crate::sftp::types::{
    CompatibilityIssueSeverity, CredentialOverrides, ProfileConnectionOverrides,
    SftpConnectionOptions, TransferDirection,
};
use crate::text::{str_eq, trim_string};
use crate::types::{MainPage, ManagerFocus, ManagerRequest, Profile, ProfileDraft, Snapshot};
use crate::workspace::{clamp_index, move_index, SftpSide};

verus! {

/// The number of fields of the edit form.
pub const FORM_FIELDS: usize = 8;

/// What a listing entry is, as the panels show it.
#[derive(Clone, Copy, Debug, PartialEq, Eq, Structural)]
pub enum EntryKind {
    Directory,
    File,
    Link,
    Other,
}

/// One row of a panel.
#[derive(Clone, Debug, PartialEq, Eq)]
pub struct EntryView {
    pub name: String,
    pub path: String,
    pub kind: EntryKind,
    pub size: Option<u64>,
    pub modified: Option<String>,
}

pub fn clone_entry(e: &EntryView) -> (r: EntryView)
    ensures
        r.name@ == e.name@,
        r.path@ == e.path@,
        r.kind == e.kind,
        r.size == e.size,
        crate::types::opt_str(r.modified) == crate::types::opt_str(e.modified),
{
    EntryView {
        name: e.name.clone(),
        path: e.path.clone(),
        kind: e.kind,
        size: e.size,
        modified: crate::types::clone_opt_string(&e.modified),
    }
}

/// One panel of the SFTP workspace.
#[derive(Clone, Debug, PartialEq, Eq)]
pub struct PanelView {
    pub path: String,
    pub entries: Vec<EntryView>,
    pub selected: usize,
    pub loading: bool,
    pub error: String,
}

impl PanelView {
    pub fn at(path: String) -> (r: PanelView)
        ensures
            r.path@ == path@,
            r.entries@.len() == 0,
            r.selected == 0,
            !r.loading,
            r.error@.len() == 0,
    {
        PanelView { path, entries: Vec::new(), selected: 0, loading: false, error: String::new() }
    }

    /// The rows of the listing drawn on a terminal `terminal_height` rows
    /// high, as `start..end`: at most `panel_rows_of(terminal_height)` rows,
    /// keeping the selection near the middle without running past the end.
    pub fn visible_window(&self, terminal_height: u16) -> (r: (usize, usize))
        ensures
            r.0 == panel_window_start(self.selected as int, self.entries@.len() as int, panel_rows_of(terminal_height)),
            r.1 == min_of(r.0 + panel_rows_of(terminal_height), self.entries@.len() as int),
            r.0 <= r.1 <= self.entries@.len(),
    {
        let h: u16 = if terminal_height >= 10 {
            terminal_height - 10
        } else {
            0
        };
        let count: usize = if h > 3 {
            h as usize
        } else {
            3
        };
        let len = self.entries.len();
        let a = if self.selected >= count / 2 {
            self.selected - count / 2
        } else {
            0
        };
        let b = if len >= count {
            len - count
        } else {
            0
        };
        let start = if a < b {
            a
        } else {
            b
        };
        let end = if count < len - start {
            start + count
        } else {
            len
        };
        (start, end)
    }
}

/// The listing rows drawn on a terminal of the given height: ten rows go to
/// the frame, and at least three are shown.
pub open spec fn panel_rows_of(terminal_height: u16) -> int {
    let h = if terminal_height >= 10 {
        terminal_height - 10
    } else {
        0
    };
    if h > 3 {
        h
    } else {
        3
    }
}

/// The first row drawn: `count / 2` rows above the selection, but not past
/// the last full window.
pub open spec fn panel_window_start(selected: int, len: int, count: int) -> int {
    let a = if selected >= count / 2 {
        selected - count / 2
    } else {
        0
    };
    let b = if len >= count {
        len - count
    } else {
        0
    };
    min_of(a, b)
}

/// The smaller of two integers.
pub open spec fn min_of(a: int, b: int) -> int {
    if a < b {
        a
    } else {
        b
    }
}

/// A dialog over the screen.
#[derive(Debug)]
pub enum Modal {
    Filter(TextInput),
    Quick(TextInput),
    Edit { draft: ProfileDraft, field: usize, cursors: Vec<usize> },
    Delete { profile: Profile },
    SftpCredentials { profile: Profile, password: TextInput, jump_password: TextInput, field: usize },
    SftpInput { mkdir: bool, side: SftpSide, input: TextInput, entry: Option<EntryView> },
    SftpDelete { side: SftpSide, entry: EntryView },
    SftpOverwrite { upload: bool, source: String, destination: String },
}

/// A change to a panel's files.
#[derive(Clone, Debug, PartialEq, Eq)]
pub enum Mutation {
    Mkdir(String),
    Rename { from: String, to: String },
    Remove(String),
}

pub enum MutationView {
    Mkdir(Seq<char>),
    Rename { from: Seq<char>, to: Seq<char> },
    Remove(Seq<char>),
}

impl View for Mutation {
    type V = MutationView;

    open spec fn view(&self) -> MutationView {
        match self {
            Mutation::Mkdir(p) => MutationView::Mkdir(p@),
            Mutation::Rename { from, to } => MutationView::Rename { from: from@, to: to@ },
            Mutation::Remove(p) => MutationView::Remove(p@),
        }
    }
}

/// Work for the program to do outside the state.
#[derive(Debug)]
pub enum Action {
    /// Send a request to the Lua side; report `success` or the error.
    Emit { request: ManagerRequest, success: String },
    /// Open the SFTP workspace for the selected host (the program supplies
    /// the host's fingerprint to `open_sftp_workspace`).
    OpenWorkspace,
    /// Connect with the credentials of the dialog (the program supplies the
    /// environment to `establish_sftp`).
    Establish { profile: Profile, overrides: ProfileConnectionOverrides },
    /// List a panel's directory; the answer carries `sequence`.
    ListPanel { side: SftpSide, sequence: u64, path: String },
    /// Cancel pending work and close the SFTP session.
    CloseSession,
    /// Open an SFTP connection; the answer carries `sequence`, and
    /// `fingerprint` identifies the profile's settings it was made from.
    Connect {
        sequence: u64,
        profile: Profile,
        fingerprint: String,
        connection: SftpConnectionOptions,
        warnings: Vec<String>,
    },
    /// Copy a file between the panels.
    Transfer { direction: TransferDirection, source: String, destination: String, overwrite: bool },
    /// Change a panel's files.
    Mutate { side: SftpSide, mutation: Mutation, success: String },
    /// Cancel the connection being opened.
    CancelConnection,
    /// Cancel the running transfer or file change.
    CancelOperation,
    /// Read the edit form's port text as a number; the program hands the
    /// reading to `finish_save`.
    ReadPort { text: String },
}

/// The state of the manager's screen.
pub struct ManagerState {
    pub snapshot: Snapshot,
    pub page: MainPage,
    pub focus: ManagerFocus,
    pub group_index: usize,
    pub host_index: usize,
    pub filter: String,
    pub modal: Option<Modal>,
    pub status: String,
    pub sftp_side: SftpSide,
    pub local_panel: PanelView,
    pub remote_panel: PanelView,
    pub connected_profile: Option<Profile>,
    pub connected_fingerprint: Option<String>,
    pub remote_connected: bool,
    pub sftp_busy: bool,
    pub connecting: bool,
    pub operating: bool,
    pub transfer_progress: Option<String>,
    pub terminal_width: u16,
    pub terminal_height: u16,
    pub connection_sequence: u64,
    pub local_read_sequence: u64,
    pub remote_read_sequence: u64,
    pub should_quit: bool,
    pub last_host_click: Option<(usize, u64)>,
}

/// The number of group entries, the first being every group.
pub open spec fn group_count_of(s: &ManagerState) -> nat {
    crate::model::summaries_of(s.snapshot@).len()
}

/// The selected group's id: every group when the index is past the list.
pub open spec fn selected_group_of(s: &ManagerState) -> Seq<char> {
    let g = crate::model::summaries_of(s.snapshot@);
    if s.group_index < g.len() {
        g[s.group_index as int].id
    } else {
        ALL_GROUPS@
    }
}

/// The hosts the screen lists: the selected group's, matching the filter.
pub open spec fn hosts_of(s: &ManagerState) -> Seq<crate::types::ProfileView> {
    crate::model::visible_of(s.snapshot@.profiles, selected_group_of(s), s.filter@)
}

/// The state with its selection clamped into the lists: the group first,
/// then the host among that group's.
pub open spec fn clamp_state(s: ManagerState) -> ManagerState {
    let g = crate::workspace::clamp_of(s.group_index, group_count_of(&s) as usize);
    let s2 = ManagerState { group_index: g, ..s };
    ManagerState { host_index: crate::workspace::clamp_of(s.host_index, hosts_of(&s2).len() as usize), ..s2 }
}

/// The edit form keeps a cursor for each field, on a character boundary of
/// that field.
pub open spec fn cursors_ok(draft: crate::types::DraftView, cursors: Seq<usize>) -> bool {
    &&& cursors.len() == FORM_FIELDS
    &&& forall|i: int|
        0 <= i < FORM_FIELDS ==> vstd::utf8::is_char_boundary(
            crate::editor::bytes_of(draft_field_of(draft, i as usize)),
            (#[trigger] cursors[i]) as int,
        ) && cursors[i] <= crate::editor::bytes_of(draft_field_of(draft, i as usize)).len()
            && crate::editor::grapheme_boundary(draft_field_of(draft, i as usize), cursors[i] as int)
}

/// An open dialog is usable: its inputs' cursors sit on grapheme (and so
/// character) boundaries, and the edit form's field and cursors are in range.
pub open spec fn modal_ok(m: Option<Modal>) -> bool {
    match m {
        Some(Modal::Filter(t)) => t.wf(),
        Some(Modal::Quick(t)) => t.wf(),
        Some(Modal::Edit { draft, field, cursors }) => field < FORM_FIELDS && cursors_ok(draft@, cursors@),
        Some(Modal::SftpCredentials { password, jump_password, .. }) => password.wf() && jump_password.wf(),
        Some(Modal::SftpInput { input, .. }) => input.wf(),
        _ => true,
    }
}

/// The selection points at a group and, when there are hosts, at a host.
pub open spec fn selection_ok(s: &ManagerState) -> bool {
    &&& s.group_index < group_count_of(s)
    &&& (s.host_index < hosts_of(s).len() || s.host_index == 0)
}

/// Clamping puts the selection inside the lists, and leaves a selection
/// that is already inside them as it is (for lists that fit in memory).
pub proof fn lemma_clamp_selects(s: ManagerState)
    requires
        group_count_of(&s) <= usize::MAX,
        s.snapshot.profiles@.len() <= usize::MAX,
    ensures
        selection_ok(&clamp_state(s)),
        selection_ok(&s) ==> clamp_state(s) == s,
{
    crate::model::lemma_summary_counts(s.snapshot@);
    let g = crate::workspace::clamp_of(s.group_index, group_count_of(&s) as usize);
    let s2 = ManagerState { group_index: g, ..s };
    let f = |p: crate::types::ProfileView| crate::model::shown(p, selected_group_of(&s2), s2.filter@);
    crate::model::lemma_visible_is_filter(s.snapshot@.profiles, selected_group_of(&s2), s2.filter@);
    s.snapshot@.profiles.lemma_filter_len(f);
    assert(hosts_of(&s2).len() <= usize::MAX);
    if selection_ok(&s) {
        assert(g == s.group_index);
        assert(s2 == s);
        assert(clamp_state(s) == s);
    }
}

impl ManagerState {
    /// The screen as it starts: the manager page with the host list in focus.
    pub fn new(snapshot: Snapshot, home: String) -> (r: ManagerState)
        ensures
            r.snapshot@ == snapshot@,
            r.page == MainPage::Manager,
            r.focus == ManagerFocus::Hosts,
            r.group_index == 0,
            r.host_index == 0,
            r.modal is None,
            r.filter@.len() == 0,
            r.status@ == "就绪"@,
            r.sftp_side == SftpSide::Local,
            r.local_panel.path@ == home@,
            r.remote_panel.path@ == seq!['/'],
            r.local_panel.entries@.len() == 0 && r.remote_panel.entries@.len() == 0,
            r.local_panel.selected == 0 && r.remote_panel.selected == 0,
            !r.local_panel.loading && !r.remote_panel.loading,
            r.local_panel.error@.len() == 0 && r.remote_panel.error@.len() == 0,
            r.connected_profile is None && r.connected_fingerprint is None,
            !r.remote_connected && !r.sftp_busy && !r.connecting && !r.operating,
            r.transfer_progress is None,
            r.terminal_width == 80 && r.terminal_height == 24,
            r.connection_sequence == 0 && r.local_read_sequence == 0 && r.remote_read_sequence == 0,
            !r.should_quit,
            r.last_host_click is None,
            selection_ok(&r),
    {
        let mut root = String::new();
        root.push('/');
        let r = ManagerState {
            snapshot,
            page: MainPage::Manager,
            focus: ManagerFocus::Hosts,
            group_index: 0,
            host_index: 0,
            filter: String::new(),
            modal: None,
            status: "就绪".to_owned(),
            sftp_side: SftpSide::Local,
            local_panel: PanelView::at(home),
            remote_panel: PanelView::at(root),
            connected_profile: None,
            connected_fingerprint: None,
            remote_connected: false,
            sftp_busy: false,
            connecting: false,
            operating: false,
            transfer_progress: None,
            terminal_width: 80,
            terminal_height: 24,
            connection_sequence: 0,
            local_read_sequence: 0,
            remote_read_sequence: 0,
            should_quit: false,
            last_host_click: None,
        };
        assert(r.remote_panel.path@ =~= seq!['/']);
        proof {
            reveal_strlit("就绪");
            crate::model::lemma_summary_counts(r.snapshot@);
        }
        r
    }

    /// The group list.
    pub fn groups(&self) -> (r: Vec<crate::model::GroupSummary>)
        ensures
            r@.map_values(|x: crate::model::GroupSummary| x@) == crate::model::summaries_of(
                self.snapshot@,
            ),
    {
        group_summaries(&self.snapshot)
    }

    /// The selected group's id.
    pub fn selected_group(&self) -> (r: String)
        ensures
            r@ == selected_group_of(self),
    {
        let groups = self.groups();
        let ghost gv = groups@.map_values(|x: crate::model::GroupSummary| x@);
        if self.group_index < groups.len() {
            assert(gv[self.group_index as int] == groups@[self.group_index as int]@);
            groups[self.group_index].id.clone()
        } else {
            ALL_GROUPS.to_owned()
        }
    }

    /// The hosts listed.
    pub fn hosts(&self) -> (r: Vec<&Profile>)
        ensures
            r@.len() == hosts_of(self).len(),
            forall|i: int| 0 <= i < r@.len() ==> (#[trigger] r@[i])@ == hosts_of(self)[i],
    {
        let group = self.selected_group();
        visible_profiles(&self.snapshot, group.as_str(), self.filter.as_str())
    }

    /// The selected host, when there is one.
    pub fn selected_host(&self) -> (r: Option<&Profile>)
        ensures
            match r {
                Some(p) => self.host_index < hosts_of(self).len() && p@ == hosts_of(
                    self,
                )[self.host_index as int],
                None => self.host_index >= hosts_of(self).len(),
            },
    {
        let hosts = self.hosts();
        if self.host_index < hosts.len() {
            Some(hosts[self.host_index])
        } else {
            None
        }
    }

    /// The open dialog, if any, is usable.
    pub open spec fn wf(&self) -> bool {
        modal_ok(self.modal)
    }

    /// The details column is shown on terminals at least 102 cells wide.
    pub fn show_details(&self) -> (r: bool)
        ensures
            r == (self.terminal_width >= 102),
    {
        self.terminal_width >= 102
    }

    /// Puts the selection back inside the lists.
    pub fn clamp_selection(&mut self)
        ensures
            final(self).group_index == crate::workspace::clamp_of(
                old(self).group_index,
                group_count_of(old(self)) as usize,
            ),
            *final(self) == clamp_state(*old(self)),
            selection_ok(final(self)),
    {
        let count = self.groups().len();
        self.group_index = clamp_index(self.group_index, count);
        let hosts = self.hosts().len();
        self.host_index = clamp_index(self.host_index, hosts);
        proof {
            crate::model::lemma_summary_counts(self.snapshot@);
        }
    }
}

/// A key of the terminal, as the screen reads it.
#[derive(Clone, Copy, Debug, PartialEq, Eq, Structural)]
pub enum KeyCode {
    Char(char),
    Enter,
    Esc,
    Tab,
    BackTab,
    Up,
    Down,
    Left,
    Right,
    Home,
    End,
    Backspace,
    Delete,
    F(u8),
    Other,
}

/// A key event: the key, its modifiers, and whether it is a press (or a
/// repeat) rather than a release.
#[derive(Clone, Copy, Debug, PartialEq, Eq, Structural)]
pub struct Key {
    pub code: KeyCode,
    pub control: bool,
    pub alt: bool,
    pub shift: bool,
    pub pressed: bool,
}

/// The key as a text input sees it.
pub open spec fn input_key_of(key: Key) -> InputKey {
    InputKey {
        code: match key.code {
            KeyCode::Char(c) => InputKeyCode::Char(c),
            KeyCode::Backspace => InputKeyCode::Backspace,
            KeyCode::Delete => InputKeyCode::Delete,
            KeyCode::Left => InputKeyCode::Left,
            KeyCode::Right => InputKeyCode::Right,
            KeyCode::Home => InputKeyCode::Home,
            KeyCode::End => InputKeyCode::End,
            _ => InputKeyCode::Other,
        },
        control: key.control,
        alt: key.alt,
    }
}

pub fn input_key(key: Key) -> (r: InputKey)
    ensures
        r == input_key_of(key),
{
    InputKey {
        code: match key.code {
            KeyCode::Char(c) => InputKeyCode::Char(c),
            KeyCode::Backspace => InputKeyCode::Backspace,
            KeyCode::Delete => InputKeyCode::Delete,
            KeyCode::Left => InputKeyCode::Left,
            KeyCode::Right => InputKeyCode::Right,
            KeyCode::Home => InputKeyCode::Home,
            KeyCode::End => InputKeyCode::End,
            _ => InputKeyCode::Other,
        },
        control: key.control,
        alt: key.alt,
    }
}

/// The edit form's field `index`: name, group, host, port, user, auth,
/// password, and the jump host for the rest.
pub open spec fn draft_field_of(d: crate::types::DraftView, index: usize) -> Seq<char> {
    if index == 0 {
        d.name
    } else if index == 1 {
        d.group
    } else if index == 2 {
        d.host
    } else if index == 3 {
        d.port
    } else if index == 4 {
        d.user
    } else if index == 5 {
        d.auth
    } else if index == 6 {
        d.password
    } else {
        d.jump_host
    }
}

pub fn draft_field(draft: &ProfileDraft, index: usize) -> (r: &str)
    ensures
        r@ == draft_field_of(draft@, index),
{
    if index == 0 {
        draft.name.as_str()
    } else if index == 1 {
        draft.group.as_str()
    } else if index == 2 {
        draft.host.as_str()
    } else if index == 3 {
        draft.port.as_str()
    } else if index == 4 {
        draft.user.as_str()
    } else if index == 5 {
        draft.auth.as_str()
    } else if index == 6 {
        draft.password.as_str()
    } else {
        draft.jump_host.as_str()
    }
}

/// The form with field `index` replaced by `value`.
pub open spec fn with_draft_field(d: crate::types::DraftView, index: usize, value: Seq<char>) -> crate::types::DraftView {
    if index == 0 {
        crate::types::DraftView { name: value, ..d }
    } else if index == 1 {
        crate::types::DraftView { group: value, ..d }
    } else if index == 2 {
        crate::types::DraftView { host: value, ..d }
    } else if index == 3 {
        crate::types::DraftView { port: value, ..d }
    } else if index == 4 {
        crate::types::DraftView { user: value, ..d }
    } else if index == 5 {
        crate::types::DraftView { auth: value, ..d }
    } else if index == 6 {
        crate::types::DraftView { password: value, ..d }
    } else {
        crate::types::DraftView { jump_host: value, ..d }
    }
}

/// Replaces the edit form's field `index`.
pub fn set_draft_field(draft: &mut ProfileDraft, index: usize, value: String)
    ensures
        final(draft)@ == with_draft_field(old(draft)@, index, value@),
{
    if index == 0 {
        draft.name = value;
    } else if index == 1 {
        draft.group = value;
    } else if index == 2 {
        draft.host = value;
    } else if index == 3 {
        draft.port = value;
    } else if index == 4 {
        draft.user = value;
    } else if index == 5 {
        draft.auth = value;
    } else if index == 6 {
        draft.password = value;
    } else {
        draft.jump_host = value;
    }
}

/// The request that `emit` sends, and the status on success.
pub open spec fn emits(actions: Seq<Action>, request: crate::types::RequestView, success: Seq<char>) -> bool {
    &&& actions.len() == 1
    &&& (actions[0] matches Action::Emit { request: r, success: m } && r@ == request && m@
        == success)
}

fn emit(request: ManagerRequest, success: String) -> (r: Vec<Action>)
    ensures
        emits(r@, request@, success@),
{
    let mut r = Vec::new();
    r.push(Action::Emit { request, success });
    r
}

fn no_actions() -> (r: Vec<Action>)
    ensures
        r@.len() == 0,
{
    Vec::new()
}

/// What connecting to the selected host in `where_` does: the request goes
/// out, or the status says that no host is selected.
pub open spec fn connect_done(s0: ManagerState, s1: ManagerState, where_: Seq<char>, actions: Seq<Action>) -> bool {
    match s0.selected_host_spec() {
        Some(p) => s1 == s0 && emits(
            actions,
            crate::types::RequestView::Connect { id: p.id, where_: where_ },
            "正在连接 "@ + p.name + "…"@,
        ),
        None => crate::manager_sftp::refused(s0, s1, actions, no_host_message()),
    }
}

/// The message when an action needs a host and none is selected.
pub open spec fn no_host_message() -> Seq<char> {
    "请先选择一台主机"@
}

impl ManagerState {
    /// Reports the outcome of a request: its success message or the error.
    pub fn finish_emit(&mut self, outcome: Result<String, String>)
        ensures
            final(self).status@ == match outcome {
                Ok(m) => m@,
                Err(e) => e@,
            },
            crate::manager_sftp::only_status(*old(self), *final(self)),
    {
        match outcome {
            Ok(m) => self.status = m,
            Err(e) => self.status = e,
        }
    }

    /// Connects to the selected host, in `where_`.
    pub fn connect(&mut self, where_: String) -> (r: Vec<Action>)
        ensures
            connect_done(*old(self), *final(self), where_@, r@),
    {
        match self.selected_host() {
            None => {
                self.status = "请先选择一台主机".to_owned();
                no_actions()
            },
            Some(profile) => {
                let mut message = "正在连接 ".to_owned();
                message.append(profile.name.as_str());
                message.append("…");
                let id = profile.id.clone();
                emit(ManagerRequest::Connect { id, where_ }, message)
            },
        }
    }

    /// The selected host, in the view.
    pub open spec fn selected_host_spec(&self) -> Option<crate::types::ProfileView> {
        if self.host_index < hosts_of(self).len() {
            Some(hosts_of(self)[self.host_index as int])
        } else {
            None
        }
    }
}

/// The group a new profile starts in: the selected one, none for every group.
pub open spec fn initial_group_of(s: &ManagerState) -> Seq<char> {
    if selected_group_of(s) == ALL_GROUPS@ {
        Seq::empty()
    } else {
        selected_group_of(s)
    }
}

/// What opening the edit form for `profile` did: a read-only profile is
/// copied into the store instead; otherwise the form opens on its first
/// field with each cursor at the end of its field.
pub open spec fn edit_opened(
    old_s: &ManagerState,
    new_s: &ManagerState,
    profile: Option<crate::types::ProfileView>,
    actions: Seq<Action>,
) -> bool {
    if profile is Some && !profile->0.editable {
        &&& emits(
            actions,
            crate::types::RequestView::CopyIn { id: profile->0.id },
            "已请求复制到可编辑配置"@,
        )
        &&& new_s.modal == old_s.modal
    } else {
        &&& actions.len() == 0
        &&& new_s.modal matches Some(Modal::Edit { draft, field, cursors })
        &&& draft@ == crate::model::draft_of(profile, initial_group_of(old_s))
        &&& field == 0
        &&& cursors@.len() == FORM_FIELDS
        &&& forall|i: int|
            0 <= i < FORM_FIELDS ==> #[trigger] cursors@[i] == crate::editor::bytes_of(
                draft_field_of(draft@, i as usize),
            ).len()
    }
}

/// Saving the edit form: a valid form closes and its profile goes out to
/// be stored; an invalid one stays open and its error is shown.
pub open spec fn draft_saved(s0: ManagerState, s1: ManagerState, actions: Seq<Action>) -> bool {
    &&& s1 == s0
    &&& match s0.modal {
        Some(Modal::Edit { draft, .. }) => actions.len() == 1 && (actions[0] matches Action::ReadPort {
            text,
        } && text@ == draft@.port),
        _ => actions.len() == 0,
    }
}

/// Finishing a save with the port text's `reading`: a valid form is sent
/// as an upsert request and closes; an invalid one reports its error and
/// stays open.
pub open spec fn save_finished(s0: ManagerState, s1: ManagerState, reading: Option<u32>, actions: Seq<Action>) -> bool {
    &&& s1 == (ManagerState { modal: s1.modal, status: s1.status, ..s0 })
    &&& match s0.modal {
        Some(Modal::Edit { draft, .. }) => {
            let res = crate::model::raw_result_of(draft@, reading);
            if res.raw is Some {
                &&& s1.modal is None
                &&& emits(
                    actions,
                    crate::types::RequestView::Upsert { id: draft@.original_id, raw: res.raw->0 },
                    "已请求保存"@,
                )
            } else {
                &&& actions.len() == 0
                &&& s1.modal == s0.modal
                &&& s1.status@ == res.error->0
            }
        },
        _ => actions.len() == 0 && s1.modal == s0.modal && s1.status == s0.status,
    }
}

impl ManagerState {
    /// Opens the edit form for a profile, or for a new one.
    pub fn open_edit(&mut self, profile: Option<Profile>) -> (r: Vec<Action>)
        ensures
            edit_opened(
                old(self),
                final(self),
                match profile {
                    Some(p) => Some(p@),
                    None => None,
                },
                r@,
            ),
            *final(self) == (ManagerState { modal: final(self).modal, ..*old(self) }),
            old(self).wf() ==> final(self).wf(),
    {
        match &profile {
            Some(p) => {
                if !p.editable {
                    return emit(ManagerRequest::CopyIn { id: p.id.clone() }, "已请求复制到可编辑配置".to_owned());
                }
            },
            None => {},
        }
        let selected = self.selected_group();
        let initial: &str = if str_eq(selected.as_str(), ALL_GROUPS) {
            ""
        } else {
            selected.as_str()
        };
        proof {
            reveal_strlit("");
            assert(""@ =~= Seq::<char>::empty());
        }
        let draft = draft_from_profile(
            match &profile {
                Some(p) => Some(p),
                None => None,
            },
            initial,
        );
        let mut cursors: Vec<usize> = Vec::new();
        let mut i: usize = 0;
        while i < FORM_FIELDS
            invariant
                i <= FORM_FIELDS,
                cursors@.len() == i,
                forall|j: int|
                    0 <= j < i ==> #[trigger] cursors@[j] == crate::editor::bytes_of(
                        draft_field_of(draft@, j as usize),
                    ).len() && crate::editor::grapheme_boundary(
                        draft_field_of(draft@, j as usize),
                        cursors@[j] as int,
                    ),
            decreases FORM_FIELDS - i,
        {
            crate::editor::end_boundary(draft_field(&draft, i));
            cursors.push(crate::editor::byte_len(draft_field(&draft, i)));
            i += 1;
        }
        proof {
            assert forall|i: int| 0 <= i < FORM_FIELDS implies vstd::utf8::is_char_boundary(
                crate::editor::bytes_of(draft_field_of(draft@, i as usize)),
                (#[trigger] cursors@[i]) as int,
            ) by {
                crate::editor::lemma_valid(draft_field_of(draft@, i as usize));
            }
        }
        self.modal = Some(Modal::Edit { draft, field: 0, cursors });
        no_actions()
    }

    /// Asks for the reading of the edit form's port text, to save the form
    /// with it (`finish_save`).
    pub fn save_draft(&mut self) -> (r: Vec<Action>)
        ensures
            draft_saved(*old(self), *final(self), r@),
    {
        match &self.modal {
            Some(Modal::Edit { draft, .. }) => {
                let mut r = Vec::new();
                r.push(Action::ReadPort { text: draft.port.clone() });
                r
            },
            _ => no_actions(),
        }
    }

    /// Saves the edit form with the port text's `reading` (the whole number
    /// it reads as under `str::parse::<f64>`, if any): an invalid form
    /// reports its error and stays open.
    pub fn finish_save(&mut self, reading: Option<u32>) -> (r: Vec<Action>)
        ensures
            save_finished(*old(self), *final(self), reading, r@),
    {
        let (result, id) = match &self.modal {
            Some(Modal::Edit { draft, .. }) => (
                raw_from_draft(draft, reading),
                crate::types::clone_opt_string(&draft.original_id),
            ),
            _ => {
                return no_actions();
            },
        };
        match result.raw {
            Some(raw) => {
                self.modal = None;
                emit(ManagerRequest::Upsert { id, raw }, "已请求保存".to_owned())
            },
            None => {
                self.status = match result.error {
                    Some(e) => e,
                    None => "表单无效".to_owned(),
                };
                no_actions()
            },
        }
    }


    /// Moves the group selection and starts at the first host.
    pub fn move_group(&mut self, delta: isize)
        ensures
            final(self).group_index == crate::workspace::moved_of(
                old(self).group_index,
                delta,
                group_count_of(old(self)) as usize,
            ),
            final(self).host_index == 0,
            *final(self) == (ManagerState {
                group_index: final(self).group_index,
                host_index: 0,
                ..*old(self)
            }),
    {
        let count = self.groups().len();
        self.group_index = move_index(self.group_index, delta, count);
        self.host_index = 0;
    }

    /// Moves the host selection.
    pub fn move_host(&mut self, delta: isize)
        ensures
            final(self).host_index == crate::workspace::moved_of(
                old(self).host_index,
                delta,
                hosts_of(old(self)).len() as usize,
            ),
            *final(self) == (ManagerState { host_index: final(self).host_index, ..*old(self) }),
    {
        let count = self.hosts().len();
        self.host_index = move_index(self.host_index, delta, count);
    }
}

} // verus!
