//! How the manager answers the keyboard, pastes, resizes and clicks. Each
//! handler's contract is a spec predicate over the state before and after
//! and the work it asks for.
use vstd::prelude::*;

use crate::editor::{bytes_of, byte_len, key_edit, InputKey, TextInput};
use crate::manager::{
    clamp_state, connect_done, edit_opened, emits, group_count_of, hosts_of, input_key, input_key_of,
    Action, Key, KeyCode, ManagerState, Modal, FORM_FIELDS,
};
use crate::manager::{clone_entry, EntryView};
use crate::manager_sftp::{
    cancel_done, download_done, entry_opened, parent_opened, refreshed, refused, selected_entry_of,
    sftp_moved, upload_done,
};
use crate::workspace::SftpSide;
use crate::types::{MainPage, ManagerFocus, ManagerRequest, RequestView};
use crate::workspace::{move_index, moved_of};
use crate::manager::{draft_field, draft_field_of, draft_saved, set_draft_field, with_draft_field};
use crate::text::{trim, trim_string};
use crate::types::Profile;
use crate::manager::{Mutation, MutationView};
use crate::manager_sftp::{mutation_started, transfer_started};
use crate::sftp::types::{CredentialOverrides, CredentialsView, OverridesView, ProfileConnectionOverrides, TransferDirection};
use crate::workspace::{
    joined_locally, local_parent_of, non_empty_string, plain_name, remote_child_of, remote_parent_of,
    sibling_path, verbatim,
};

verus! {

/// What a key does to a text input, unless its text is already too long to
/// grow by a character (then nothing happens).
pub open spec fn input_edit(t0: TextInput, t1: TextInput, key: InputKey, used: bool) -> bool {
    if bytes_of(t0.value@).len() + 4 > usize::MAX {
        t1 == t0 && !used
    } else {
        key_edit(t0, t1, key, used)
    }
}

pub fn edit_input(t: &mut TextInput, key: InputKey) -> (used: bool)
    requires
        old(t).wf(),
    ensures
        final(t).wf(),
        final(t).secret == old(t).secret,
        input_edit(*old(t), *final(t), key, used),
{
    let n = byte_len(t.value.as_str());
    if n > usize::MAX - 4 {
        return false;
    }
    t.handle_key(key)
}

/// What pasting `text` into an input does: it goes in at the cursor, which
/// moves past it to the end of the grapheme cluster it lands in, unless the
/// result would not fit in memory.
pub open spec fn input_paste(t0: TextInput, t1: TextInput, text: Seq<char>) -> bool {
    let b = bytes_of(t0.value@);
    let c = t0.cursor as int;
    if b.len() + bytes_of(text).len() > usize::MAX {
        t1 == t0
    } else {
        &&& bytes_of(t1.value@) == b.take(c) + bytes_of(text) + b.skip(c)
        &&& crate::editor::boundary_after(t1.value@, c + bytes_of(text).len(), t1.cursor as int)
        &&& t1.secret == t0.secret
    }
}

pub fn paste_input(t: &mut TextInput, text: &str)
    requires
        old(t).wf(),
    ensures
        final(t).wf(),
        input_paste(*old(t), *final(t), text@),
{
    let n = byte_len(t.value.as_str());
    let m = byte_len(text);
    if n > usize::MAX - m {
        return;
    }
    t.insert_text(text);
}

/// A plain input holding `value`, the cursor at its end.
pub open spec fn fresh_input(t: TextInput, value: Seq<char>) -> bool {
    &&& t.value@ == value
    &&& t.cursor == bytes_of(value).len()
    &&& !t.secret
}

/// The focus after Tab on the manager page: groups, hosts, and the details
/// column when it is shown.
pub open spec fn next_focus(s: ManagerState) -> ManagerFocus {
    match s.focus {
        ManagerFocus::Groups => ManagerFocus::Hosts,
        ManagerFocus::Hosts => if s.terminal_width >= 102 {
            ManagerFocus::Details
        } else {
            ManagerFocus::Groups
        },
        ManagerFocus::Details => ManagerFocus::Groups,
    }
}

/// Moving the selection in the focused list by `delta`.
pub open spec fn selection_moved(s0: ManagerState, s1: ManagerState, delta: isize) -> bool {
    if s0.focus == ManagerFocus::Groups {
        s1 == (ManagerState {
            group_index: moved_of(s0.group_index, delta, group_count_of(&s0) as usize),
            host_index: 0,
            ..s0
        })
    } else {
        s1 == (ManagerState { host_index: moved_of(s0.host_index, delta, hosts_of(&s0).len() as usize), ..s0 })
    }
}

/// A key on the manager page, before the selection is clamped.
pub open spec fn manager_key_done(s0: ManagerState, s1: ManagerState, key: Key, actions: Seq<Action>) -> bool {
    let c = key.code;
    if c == KeyCode::Char('2') || c == KeyCode::Char('s') {
        s1 == s0 && actions.len() == 1 && actions[0] is OpenWorkspace
    } else if c == KeyCode::Tab || c == KeyCode::BackTab {
        s1 == (ManagerState { focus: next_focus(s0), ..s0 }) && actions.len() == 0
    } else if c == KeyCode::Up || c == KeyCode::Char('k') {
        selection_moved(s0, s1, -1isize) && actions.len() == 0
    } else if c == KeyCode::Down || c == KeyCode::Char('j') {
        selection_moved(s0, s1, 1isize) && actions.len() == 0
    } else if c == KeyCode::Enter || c == KeyCode::Char(' ') {
        connect_done(
            s0,
            s1,
            if key.control {
                "window"@
            } else {
                s0.snapshot.default_where@
            },
            actions,
        )
    } else if c == KeyCode::Char('/') {
        &&& actions.len() == 0
        &&& s1 == (ManagerState { modal: s1.modal, ..s0 })
        &&& s1.modal matches Some(Modal::Filter(t)) && fresh_input(t, s0.filter@)
    } else if c == KeyCode::Char('p') {
        &&& actions.len() == 0
        &&& s1 == (ManagerState { modal: s1.modal, ..s0 })
        &&& s1.modal matches Some(Modal::Quick(t)) && fresh_input(t, Seq::empty())
    } else if c == KeyCode::Char('n') {
        edit_opened(&s0, &s1, None, actions) && s1 == (ManagerState { modal: s1.modal, ..s0 })
    } else if c == KeyCode::Char('e') {
        edit_opened(&s0, &s1, s0.selected_host_spec(), actions) && s1 == (ManagerState {
            modal: s1.modal,
            ..s0
        })
    } else if c == KeyCode::Char('d') {
        match s0.selected_host_spec() {
            None => refused(s0, s1, actions, crate::manager::no_host_message()),
            Some(p) => if p.editable {
                &&& actions.len() == 0
                &&& s1 == (ManagerState { modal: s1.modal, ..s0 })
                &&& s1.modal matches Some(Modal::Delete { profile }) && profile@ == p
            } else {
                refused(s0, s1, actions, "只读连接不能删除"@)
            },
        }
    } else if c == KeyCode::Char('r') {
        s1 == s0 && emits(actions, RequestView::Reload, "已请求刷新"@)
    } else if c == KeyCode::Char('q') || c == KeyCode::Esc {
        s1 == s0 && emits(actions, RequestView::Hide, "正在返回…"@)
    } else {
        s1 == s0 && actions.len() == 0
    }
}

fn plain_input(value: String) -> (r: TextInput)
    ensures
        fresh_input(r, value@),
        r.wf(),
{
    TextInput::new(value)
}

fn request(req: ManagerRequest, success: &str) -> (r: Vec<Action>)
    ensures
        emits(r@, req@, success@),
{
    let mut r = Vec::new();
    r.push(Action::Emit { request: req, success: success.to_owned() });
    r
}

impl ManagerState {
    /// A key on the manager page.
    pub fn handle_manager_key(&mut self, key: Key) -> (r: Vec<Action>)
        requires
            old(self).wf(),
        ensures
            manager_key_done(*old(self), *final(self), key, r@),
            final(self).wf(),
    {
        match key.code {
            KeyCode::Char('2') | KeyCode::Char('s') => {
                let mut r = Vec::new();
                r.push(Action::OpenWorkspace);
                r
            },
            KeyCode::Tab | KeyCode::BackTab => {
                self.focus = match self.focus {
                    ManagerFocus::Groups => ManagerFocus::Hosts,
                    ManagerFocus::Hosts => if self.show_details() {
                        ManagerFocus::Details
                    } else {
                        ManagerFocus::Groups
                    },
                    ManagerFocus::Details => ManagerFocus::Groups,
                };
                Vec::new()
            },
            KeyCode::Up | KeyCode::Char('k') => {
                if self.focus == ManagerFocus::Groups {
                    self.move_group(-1);
                } else {
                    self.move_host(-1);
                }
                Vec::new()
            },
            KeyCode::Down | KeyCode::Char('j') => {
                if self.focus == ManagerFocus::Groups {
                    self.move_group(1);
                } else {
                    self.move_host(1);
                }
                Vec::new()
            },
            KeyCode::Enter | KeyCode::Char(' ') => {
                let where_ = if key.control {
                    "window".to_owned()
                } else {
                    self.snapshot.default_where.clone()
                };
                self.connect(where_)
            },
            KeyCode::Char('/') => {
                self.modal = Some(Modal::Filter(plain_input(self.filter.clone())));
                Vec::new()
            },
            KeyCode::Char('p') => {
                let r = plain_input(String::new());
                assert(r.value@ =~= Seq::<char>::empty());
                self.modal = Some(Modal::Quick(r));
                Vec::new()
            },
            KeyCode::Char('n') => self.open_edit(None),
            KeyCode::Char('e') => {
                let profile = match self.selected_host() {
                    Some(p) => Some(p.clone()),
                    None => None,
                };
                self.open_edit(profile)
            },
            KeyCode::Char('d') => {
                let profile = match self.selected_host() {
                    Some(p) => p.clone(),
                    None => {
                        return crate::manager_sftp::set_status(self, "请先选择一台主机");
                    },
                };
                if profile.editable {
                    self.modal = Some(Modal::Delete { profile });
                    Vec::new()
                } else {
                    crate::manager_sftp::set_status(self, "只读连接不能删除")
                }
            },
            KeyCode::Char('r') => request(ManagerRequest::Reload, "已请求刷新"),
            KeyCode::Char('q') | KeyCode::Esc => request(ManagerRequest::Hide, "正在返回…"),
            _ => Vec::new(),
        }
    }
}


/// The other side.
pub open spec fn other_side(side: SftpSide) -> SftpSide {
    match side {
        SftpSide::Local => SftpSide::Remote,
        SftpSide::Remote => SftpSide::Local,
    }
}

/// Two rows that show the same.
pub open spec fn same_entry(a: EntryView, b: EntryView) -> bool {
    &&& a.name@ == b.name@
    &&& a.path@ == b.path@
    &&& a.kind == b.kind
    &&& a.size == b.size
    &&& crate::types::opt_str(a.modified) == crate::types::opt_str(b.modified)
}

/// A key on the SFTP page, before the selection is clamped.
pub open spec fn sftp_key_done(s0: ManagerState, s1: ManagerState, key: Key, actions: Seq<Action>) -> bool {
    let c = key.code;
    let side = s0.sftp_side;
    if c == KeyCode::Esc || c == KeyCode::Char('1') {
        s1 == (ManagerState { page: MainPage::Manager, ..s0 }) && actions.len() == 0
    } else if c == KeyCode::Tab {
        s1 == (ManagerState { sftp_side: other_side(side), ..s0 }) && actions.len() == 0
    } else if c == KeyCode::Up || c == KeyCode::Char('k') {
        sftp_moved(s0, s1, -1isize) && actions.len() == 0
    } else if c == KeyCode::Down || c == KeyCode::Char('j') {
        sftp_moved(s0, s1, 1isize) && actions.len() == 0
    } else if c == KeyCode::Enter {
        entry_opened(s0, s1, actions)
    } else if c == KeyCode::Backspace {
        parent_opened(s0, s1, actions)
    } else if c == KeyCode::Char('u') {
        upload_done(s0, s1, actions)
    } else if c == KeyCode::Char('d') {
        download_done(s0, s1, actions)
    } else if c == KeyCode::Char('m') {
        &&& actions.len() == 0
        &&& s1 == (ManagerState { modal: s1.modal, ..s0 })
        &&& s1.modal matches Some(Modal::SftpInput { mkdir, side: sd, input, entry })
        &&& mkdir && sd == side && fresh_input(input, Seq::empty()) && entry is None
    } else if c == KeyCode::Char('r') {
        match selected_entry_of(s0, side) {
            None => refused(s0, s1, actions, "请选择要改名的项目"@),
            Some(e) => {
                &&& actions.len() == 0
                &&& s1 == (ManagerState { modal: s1.modal, ..s0 })
                &&& s1.modal matches Some(Modal::SftpInput { mkdir, side: sd, input, entry })
                &&& !mkdir && sd == side && fresh_input(input, e.name@)
                &&& entry matches Some(x) && same_entry(x, e)
            },
        }
    } else if c == KeyCode::Char('x') || c == KeyCode::Delete {
        match selected_entry_of(s0, side) {
            None => refused(s0, s1, actions, "请选择要删除的项目"@),
            Some(e) => {
                &&& actions.len() == 0
                &&& s1 == (ManagerState { modal: s1.modal, ..s0 })
                &&& s1.modal matches Some(Modal::SftpDelete { side: sd, entry })
                &&& sd == side && same_entry(entry, e)
            },
        }
    } else if c == KeyCode::Char('c') {
        cancel_done(s0, s1, actions)
    } else if c == KeyCode::F(5) {
        refreshed(s0, s1, actions)
    } else {
        s1 == s0 && actions.len() == 0
    }
}

impl ManagerState {
    /// A key on the SFTP page.
    pub fn handle_sftp_key(&mut self, key: Key) -> (r: Vec<Action>)
        requires
            old(self).wf(),
        ensures
            sftp_key_done(*old(self), *final(self), key, r@),
            final(self).wf(),
    {
        match key.code {
            KeyCode::Esc | KeyCode::Char('1') => {
                self.page = MainPage::Manager;
                Vec::new()
            },
            KeyCode::Tab => {
                self.sftp_side = match self.sftp_side {
                    SftpSide::Local => SftpSide::Remote,
                    SftpSide::Remote => SftpSide::Local,
                };
                Vec::new()
            },
            KeyCode::Up | KeyCode::Char('k') => {
                self.move_sftp(-1);
                Vec::new()
            },
            KeyCode::Down | KeyCode::Char('j') => {
                self.move_sftp(1);
                Vec::new()
            },
            KeyCode::Enter => self.open_sftp_entry(),
            KeyCode::Backspace => self.open_sftp_parent(),
            KeyCode::Char('u') => self.upload_selected(),
            KeyCode::Char('d') => self.download_selected(),
            KeyCode::Char('m') => {
                let input = plain_input(String::new());
                assert(input.value@ =~= Seq::<char>::empty());
                self.modal = Some(Modal::SftpInput { mkdir: true, side: self.sftp_side, input, entry: None });
                Vec::new()
            },
            KeyCode::Char('r') => {
                let entry = match self.selected_sftp_entry() {
                    Some(e) => clone_entry(e),
                    None => {
                        return crate::manager_sftp::set_status(self, "请选择要改名的项目");
                    },
                };
                let input = plain_input(entry.name.clone());
                self.modal = Some(Modal::SftpInput { mkdir: false, side: self.sftp_side, input, entry: Some(entry) });
                Vec::new()
            },
            KeyCode::Char('x') | KeyCode::Delete => {
                let entry = match self.selected_sftp_entry() {
                    Some(e) => clone_entry(e),
                    None => {
                        return crate::manager_sftp::set_status(self, "请选择要删除的项目");
                    },
                };
                self.modal = Some(Modal::SftpDelete { side: self.sftp_side, entry });
                Vec::new()
            },
            KeyCode::Char('c') => self.cancel_sftp_operation(),
            KeyCode::F(5) => self.refresh_sftp(),
            _ => Vec::new(),
        }
    }
}


/// The state with the dialog closed.
pub open spec fn without_modal(s: ManagerState) -> ManagerState {
    ManagerState { modal: None, ..s }
}

/// A key in the filter dialog: Enter closes it; other keys edit the text,
/// and an edit that was used becomes the filter at once.
pub open spec fn filter_key(s0: ManagerState, s1: ManagerState, t: TextInput, key: Key, actions: Seq<Action>) -> bool {
    if key.code == KeyCode::Enter {
        s1 == clamp_state(without_modal(s0)) && actions.len() == 0
    } else {
        &&& actions.len() == 0
        &&& exists|t1: TextInput, used: bool|
            {
                &&& input_edit(t, t1, input_key_of(key), used)
                &&& s1 == clamp_state(ManagerState { modal: Some(Modal::Filter(t1)), filter: s1.filter, ..s0 })
                &&& s1.filter@ == if used {
                    t1.value@
                } else {
                    s0.filter@
                }
            }
    }
}

/// A key in the quick-connect dialog: Enter connects to the trimmed target,
/// if any, and closes the dialog; other keys edit the text.
pub open spec fn quick_key(s0: ManagerState, s1: ManagerState, t: TextInput, key: Key, actions: Seq<Action>) -> bool {
    if key.code == KeyCode::Enter {
        let target = trim(t.value@);
        &&& s1 == clamp_state(without_modal(s0))
        &&& if target.len() > 0 {
            emits(
                actions,
                RequestView::Quick { target, where_: s0.snapshot.default_where@ },
                "正在连接 "@ + target + "…"@,
            )
        } else {
            actions.len() == 0
        }
    } else {
        &&& actions.len() == 0
        &&& exists|t1: TextInput, used: bool|
            input_edit(t, t1, input_key_of(key), used) && s1 == clamp_state(
                ManagerState { modal: Some(Modal::Quick(t1)), ..s0 },
            )
    }
}

/// A key in the delete confirmation: Enter or `y` asks to delete the
/// profile, `n` closes the dialog.
pub open spec fn delete_key(s0: ManagerState, s1: ManagerState, profile: Profile, key: Key, actions: Seq<Action>) -> bool {
    if key.code == KeyCode::Enter || key.code == KeyCode::Char('y') {
        s1 == clamp_state(without_modal(s0)) && emits(
            actions,
            RequestView::Delete { id: profile.id@ },
            "已请求删除 "@ + profile.name@,
        )
    } else if key.code == KeyCode::Char('n') {
        s1 == clamp_state(without_modal(s0)) && actions.len() == 0
    } else {
        s1 == clamp_state(s0) && actions.len() == 0
    }
}

/// The cursor an edit of form field `field` starts from: the one kept for
/// the field, at most the field's end.
pub open spec fn field_cursor(draft: crate::types::DraftView, field: usize, cursors: Seq<usize>) -> usize {
    let n = bytes_of(draft_field_of(draft, field)).len();
    if cursors[field as int] < n {
        cursors[field as int]
    } else {
        n as usize
    }
}

/// A key in the edit form: Ctrl-S saves; Tab and BackTab (or Shift-Tab) move
/// between the fields, round at neither end; Enter moves on and saves on the
/// last field; other keys edit the current field from its kept cursor (the
/// password field as a secret input).
pub open spec fn edit_key(
    s0: ManagerState,
    s1: ManagerState,
    draft: crate::types::ProfileDraft,
    field: usize,
    cursors: Vec<usize>,
    key: Key,
    actions: Seq<Action>,
) -> bool {
    let c = key.code;
    if key.control && c == KeyCode::Char('s') {
        draft_saved(s0, s1, actions)
    } else if c == KeyCode::Tab || c == KeyCode::BackTab {
        let delta: isize = if c == KeyCode::BackTab || key.shift {
            -1isize
        } else {
            1isize
        };
        &&& actions.len() == 0
        &&& s1 == clamp_state(
            ManagerState {
                modal: Some(Modal::Edit { draft, field: moved_of(field, delta, FORM_FIELDS), cursors }),
                ..s0
            },
        )
    } else if c == KeyCode::Enter {
        if field + 1 == FORM_FIELDS {
            draft_saved(s0, s1, actions)
        } else {
            &&& actions.len() == 0
            &&& s1 == clamp_state(
                ManagerState { modal: Some(Modal::Edit { draft, field: (field + 1) as usize, cursors }), ..s0 },
            )
        }
    } else {
        &&& actions.len() == 0
        &&& s1 == clamp_state(ManagerState { modal: s1.modal, ..s0 })
        &&& s1.modal matches Some(Modal::Edit { draft: d1, field: f1, cursors: c1 })
        &&& f1 == field
        &&& field_edited(draft@, cursors@, d1@, c1@, field, input_key_of(key))
    }
}

/// Field `field` of the form edited by a key from its kept cursor (the
/// password field as a secret input); its cursor is kept for next time.
pub open spec fn field_edited(
    d0: crate::types::DraftView,
    c0: Seq<usize>,
    d1: crate::types::DraftView,
    c1: Seq<usize>,
    field: usize,
    key: InputKey,
) -> bool {
    exists|t0: TextInput, t1: TextInput, used: bool|
        {
            &&& t0.value@ == draft_field_of(d0, field)
            &&& t0.cursor == field_cursor(d0, field, c0)
            &&& t0.secret == (field == 6)
            &&& input_edit(t0, t1, key, used)
            &&& c1 == c0.update(field as int, t1.cursor)
            &&& d1 == with_draft_field(d0, field, t1.value@)
        }
}

fn edit_field(draft: &mut crate::types::ProfileDraft, field: usize, cursors: &mut Vec<usize>, key: InputKey)
    requires
        field < FORM_FIELDS,
        crate::manager::cursors_ok(old(draft)@, old(cursors)@),
    ensures
        crate::manager::cursors_ok(final(draft)@, final(cursors)@),
        field_edited(old(draft)@, old(cursors)@, final(draft)@, final(cursors)@, field, key),
{
    let ghost d0 = draft@;
    let ghost c0 = cursors@;
    let value = draft_field(draft, field).to_owned();
    let len = byte_len(value.as_str());
    let start = if cursors[field] < len {
        cursors[field]
    } else {
        len
    };
    proof {
        crate::editor::lemma_valid(value@);
    }
    let mut input = TextInput { value, cursor: start, secret: field == 6 };
    let ghost t0 = input;
    let used = edit_input(&mut input, key);
    let ghost t1 = input;
    cursors.set(field, input.cursor);
    set_draft_field(draft, field, input.value);
    proof {
        assert forall|i: int| 0 <= i < FORM_FIELDS implies vstd::utf8::is_char_boundary(
            bytes_of(draft_field_of(draft@, i as usize)),
            (#[trigger] cursors@[i]) as int,
        ) && cursors@[i] <= bytes_of(draft_field_of(draft@, i as usize)).len() by {
            if i == field {
                assert(draft_field_of(draft@, i as usize) == t1.value@);
            } else {
                assert(draft_field_of(draft@, i as usize) == draft_field_of(d0, i as usize));
                assert(cursors@[i] == c0[i]);
            }
        }
        assert(input_edit(t0, t1, key, used));
    }
}

impl ManagerState {
    fn filter_modal_key(&mut self, key: Key) -> (r: Vec<Action>)
        requires
            old(self).wf(),
            old(self).modal matches Some(Modal::Filter(_)),
        ensures
            final(self).wf(),
            match old(self).modal {
                Some(Modal::Filter(t)) => filter_key(*old(self), *final(self), t, key, r@),
                _ => true,
            },
    {
        let ghost s0 = *self;
        let m = self.modal.take();
        let mut input = match m {
            Some(Modal::Filter(t)) => t,
            _ => {
                return Vec::new();
            },
        };
        if key.code == KeyCode::Enter {
            self.clamp_selection();
            return Vec::new();
        }
        let ghost t0 = input;
        let used = edit_input(&mut input, input_key(key));
        if used {
            self.filter = input.value.clone();
        }
        self.modal = Some(Modal::Filter(input));
        let ghost mid = *self;
        self.clamp_selection();
        assert(mid == ManagerState { modal: Some(Modal::Filter(input)), filter: self.filter, ..s0 });
        assert(input_edit(t0, input, input_key_of(key), used));
        Vec::new()
    }

    fn quick_modal_key(&mut self, key: Key) -> (r: Vec<Action>)
        requires
            old(self).wf(),
            old(self).modal matches Some(Modal::Quick(_)),
        ensures
            final(self).wf(),
            match old(self).modal {
                Some(Modal::Quick(t)) => quick_key(*old(self), *final(self), t, key, r@),
                _ => true,
            },
    {
        let ghost s0 = *self;
        let m = self.modal.take();
        let mut input = match m {
            Some(Modal::Quick(t)) => t,
            _ => {
                return Vec::new();
            },
        };
        if key.code == KeyCode::Enter {
            let target = trim_string(input.value.as_str());
            let r = if target.as_str().is_empty() {
                Vec::new()
            } else {
                let mut message = "正在连接 ".to_owned();
                message.append(target.as_str());
                message.append("…");
                let where_ = self.snapshot.default_where.clone();
                let mut r = Vec::new();
                r.push(Action::Emit { request: ManagerRequest::Quick { target, where_ }, success: message });
                r
            };
            self.clamp_selection();
            return r;
        }
        let ghost t0 = input;
        let used = edit_input(&mut input, input_key(key));
        self.modal = Some(Modal::Quick(input));
        self.clamp_selection();
        assert(input_edit(t0, input, input_key_of(key), used));
        Vec::new()
    }

    fn delete_modal_key(&mut self, key: Key) -> (r: Vec<Action>)
        requires
            old(self).wf(),
            old(self).modal matches Some(Modal::Delete { .. }),
        ensures
            final(self).wf(),
            match old(self).modal {
                Some(Modal::Delete { profile }) => delete_key(*old(self), *final(self), profile, key, r@),
                _ => true,
            },
    {
        if key.code == KeyCode::Enter || key.code == KeyCode::Char('y') {
            let m = self.modal.take();
            let r = match m {
                Some(Modal::Delete { profile }) => {
                    let mut message = "已请求删除 ".to_owned();
                    message.append(profile.name.as_str());
                    request(ManagerRequest::Delete { id: profile.id.clone() }, message.as_str())
                },
                _ => Vec::new(),
            };
            self.clamp_selection();
            r
        } else if key.code == KeyCode::Char('n') {
            self.modal = None;
            self.clamp_selection();
            Vec::new()
        } else {
            self.clamp_selection();
            Vec::new()
        }
    }

    fn edit_modal_key(&mut self, key: Key) -> (r: Vec<Action>)
        requires
            old(self).wf(),
            old(self).modal matches Some(Modal::Edit { .. }),
        ensures
            final(self).wf(),
            match old(self).modal {
                Some(Modal::Edit { draft, field, cursors }) => edit_key(*old(self), *final(self), draft, field, cursors, key, r@),
                _ => true,
            },
    {
        let ghost s0 = *self;
        if key.control && key.code == KeyCode::Char('s') {
            return self.save_draft();
        }
        if key.code == KeyCode::Enter {
            let last = match &self.modal {
                Some(Modal::Edit { field, .. }) => *field + 1 == FORM_FIELDS,
                _ => false,
            };
            if last {
                return self.save_draft();
            }
        }
        let m = self.modal.take();
        let (mut draft, mut field, mut cursors) = match m {
            Some(Modal::Edit { draft, field, cursors }) => (draft, field, cursors),
            _ => {
                return Vec::new();
            },
        };
        if key.code == KeyCode::Tab || key.code == KeyCode::BackTab {
            let delta: isize = if key.code == KeyCode::BackTab || key.shift {
                -1
            } else {
                1
            };
            field = move_index(field, delta, FORM_FIELDS);
        } else if key.code == KeyCode::Enter {
            field = field + 1;
        } else {
            edit_field(&mut draft, field, &mut cursors, input_key(key));
        }
        self.modal = Some(Modal::Edit { draft, field, cursors });
        self.clamp_selection();
        Vec::new()
    }
}


/// A password given in the credentials dialog: none when left empty.
pub open spec fn given(password: Seq<char>) -> Option<Seq<char>> {
    if password.len() > 0 {
        Some(password)
    } else {
        None
    }
}

/// The overrides of the credentials dialog: its two passwords.
pub open spec fn dialog_overrides(password: Seq<char>, jump_password: Seq<char>) -> OverridesView {
    OverridesView {
        credentials: CredentialsView { password: given(password), private_keys: None, agent: None },
        jump: CredentialsView { password: given(jump_password), private_keys: None, agent: None },
        environment: None,
    }
}

/// A key in the credentials dialog: Tab switches between the two
/// passwords; Enter on the first moves to the second and on the second
/// connects with them; other keys edit the current password.
pub open spec fn credentials_key(
    s0: ManagerState,
    s1: ManagerState,
    profile: Profile,
    password: TextInput,
    jump_password: TextInput,
    field: usize,
    key: Key,
    actions: Seq<Action>,
) -> bool {
    let c = key.code;
    if c == KeyCode::Tab || c == KeyCode::BackTab {
        &&& actions.len() == 0
        &&& s1 == clamp_state(
            ManagerState {
                modal: Some(
                    Modal::SftpCredentials {
                        profile,
                        password,
                        jump_password,
                        field: if field == 0 {
                            1
                        } else {
                            0
                        },
                    },
                ),
                ..s0
            },
        )
    } else if c == KeyCode::Enter && field == 0 {
        &&& actions.len() == 0
        &&& s1 == clamp_state(
            ManagerState {
                modal: Some(Modal::SftpCredentials { profile, password, jump_password, field: 1 }),
                ..s0
            },
        )
    } else if c == KeyCode::Enter {
        &&& s1 == clamp_state(without_modal(s0))
        &&& actions.len() == 1
        &&& actions[0] matches Action::Establish { profile: p, overrides: o }
        &&& p@ == profile@
        &&& o@ == dialog_overrides(password.value@, jump_password.value@)
    } else if field == 0 {
        &&& actions.len() == 0
        &&& exists|t1: TextInput, used: bool|
            input_edit(password, t1, input_key_of(key), used) && s1 == clamp_state(
                ManagerState {
                    modal: Some(Modal::SftpCredentials { profile, password: t1, jump_password, field }),
                    ..s0
                },
            )
    } else {
        &&& actions.len() == 0
        &&& exists|t1: TextInput, used: bool|
            input_edit(jump_password, t1, input_key_of(key), used) && s1 == clamp_state(
                ManagerState {
                    modal: Some(Modal::SftpCredentials { profile, password, jump_password: t1, field }),
                    ..s0
                },
            )
    }
}

/// A key in the name dialog of the SFTP workspace: Enter creates the
/// directory, or renames the entry, under the trimmed name, refusing an
/// empty one; other keys edit the name. Local paths are joined by the
/// platform's rules, remote ones as stated.
pub open spec fn name_key(
    s0: ManagerState,
    s1: ManagerState,
    mkdir: bool,
    side: SftpSide,
    input: TextInput,
    entry: Option<EntryView>,
    key: Key,
    actions: Seq<Action>,
) -> bool {
    if key.code == KeyCode::Enter {
        let name = trim(input.value@);
        if name.len() == 0 {
            &&& actions.len() == 0
            &&& s1 == clamp_state(ManagerState { status: s1.status, ..s0 })
            &&& s1.status@ == "名称不能为空"@
        } else if mkdir {
            exists|mid: ManagerState, path: Seq<char>|
                {
                    &&& (side == SftpSide::Remote ==> path == remote_child_of(s0.remote_panel.path@, name))
                    &&& (side == SftpSide::Local && plain_name(name) && !verbatim(s0.local_panel.path@)
                        ==> joined_locally(s0.local_panel.path@, name, path))
                    &&& mutation_started(without_modal(s0), mid, side, MutationView::Mkdir(path), "已创建目录 "@ + name, actions)
                    &&& s1 == clamp_state(mid)
                }
        } else {
            match entry {
                None => refused(s0, s1, actions, "请选择要改名的项目"@),
                Some(e) => exists|mid: ManagerState, to: Seq<char>|
                    {
                        &&& (side == SftpSide::Remote ==> to == remote_child_of(remote_parent_of(e.path@), name))
                        &&& (side == SftpSide::Local && plain_name(name) && !verbatim(e.path@) ==> exists|
                            p: Seq<char>,
                        | local_parent_of(e.path@, p) && joined_locally(p, name, to))
                        &&& mutation_started(
                            without_modal(s0),
                            mid,
                            side,
                            MutationView::Rename { from: e.path@, to },
                            "已改名为 "@ + name,
                            actions,
                        )
                        &&& s1 == clamp_state(mid)
                    },
            }
        }
    } else {
        &&& actions.len() == 0
        &&& exists|t1: TextInput, used: bool|
            input_edit(input, t1, input_key_of(key), used) && s1 == clamp_state(
                ManagerState { modal: Some(Modal::SftpInput { mkdir, side, input: t1, entry }), ..s0 },
            )
    }
}

/// A key in the file delete confirmation: Enter or `y` removes the entry,
/// `n` closes the dialog.
pub open spec fn remove_key(
    s0: ManagerState,
    s1: ManagerState,
    side: SftpSide,
    entry: EntryView,
    key: Key,
    actions: Seq<Action>,
) -> bool {
    if key.code == KeyCode::Enter || key.code == KeyCode::Char('y') {
        exists|mid: ManagerState|
            mutation_started(
                without_modal(s0),
                mid,
                side,
                MutationView::Remove(entry.path@),
                "已删除 "@ + entry.name@,
                actions,
            ) && s1 == clamp_state(mid)
    } else if key.code == KeyCode::Char('n') {
        s1 == clamp_state(without_modal(s0)) && actions.len() == 0
    } else {
        s1 == clamp_state(s0) && actions.len() == 0
    }
}

/// A key in the overwrite confirmation: Enter or `y` repeats the transfer,
/// overwriting, `n` closes the dialog.
pub open spec fn overwrite_key(
    s0: ManagerState,
    s1: ManagerState,
    upload: bool,
    source: String,
    destination: String,
    key: Key,
    actions: Seq<Action>,
) -> bool {
    if key.code == KeyCode::Enter || key.code == KeyCode::Char('y') {
        exists|mid: ManagerState|
            transfer_started(
                without_modal(s0),
                mid,
                if upload {
                    TransferDirection::Upload
                } else {
                    TransferDirection::Download
                },
                source@,
                destination@,
                true,
                actions,
            ) && s1 == clamp_state(mid)
    } else if key.code == KeyCode::Char('n') {
        s1 == clamp_state(without_modal(s0)) && actions.len() == 0
    } else {
        s1 == clamp_state(s0) && actions.len() == 0
    }
}

/// A key while a dialog is open: Esc closes it; otherwise the dialog's own
/// rules apply.
pub open spec fn modal_key_done(s0: ManagerState, s1: ManagerState, key: Key, actions: Seq<Action>) -> bool {
    if key.code == KeyCode::Esc {
        s1 == without_modal(s0) && actions.len() == 0
    } else {
        match s0.modal {
            Some(Modal::Filter(t)) => filter_key(s0, s1, t, key, actions),
            Some(Modal::Quick(t)) => quick_key(s0, s1, t, key, actions),
            Some(Modal::Delete { profile }) => delete_key(s0, s1, profile, key, actions),
            Some(Modal::Edit { draft, field, cursors }) => edit_key(s0, s1, draft, field, cursors, key, actions),
            Some(Modal::SftpCredentials { profile, password, jump_password, field }) => credentials_key(
                s0,
                s1,
                profile,
                password,
                jump_password,
                field,
                key,
                actions,
            ),
            Some(Modal::SftpInput { mkdir, side, input, entry }) => name_key(
                s0,
                s1,
                mkdir,
                side,
                input,
                entry,
                key,
                actions,
            ),
            Some(Modal::SftpDelete { side, entry }) => remove_key(s0, s1, side, entry, key, actions),
            Some(Modal::SftpOverwrite { upload, source, destination }) => overwrite_key(
                s0,
                s1,
                upload,
                source,
                destination,
                key,
                actions,
            ),
            None => s1 == clamp_state(s0) && actions.len() == 0,
        }
    }
}

impl ManagerState {
    fn credentials_modal_key(&mut self, key: Key) -> (r: Vec<Action>)
        requires
            old(self).wf(),
            old(self).modal matches Some(Modal::SftpCredentials { .. }),
        ensures
            final(self).wf(),
            match old(self).modal {
                Some(Modal::SftpCredentials { profile, password, jump_password, field }) => credentials_key(
                    *old(self),
                    *final(self),
                    profile,
                    password,
                    jump_password,
                    field,
                    key,
                    r@,
                ),
                _ => true,
            },
    {
        let m = self.modal.take();
        let (profile, mut password, mut jump_password, mut field) = match m {
            Some(Modal::SftpCredentials { profile, password, jump_password, field }) => (
                profile,
                password,
                jump_password,
                field,
            ),
            _ => {
                return Vec::new();
            },
        };
        let ghost p0 = password;
        let ghost j0 = jump_password;
        if key.code == KeyCode::Tab || key.code == KeyCode::BackTab {
            field = if field == 0 {
                1
            } else {
                0
            };
        } else if key.code == KeyCode::Enter && field == 0 {
            field = 1;
        } else if key.code == KeyCode::Enter {
            let overrides = ProfileConnectionOverrides {
                credentials: CredentialOverrides {
                    password: non_empty_string(password.value.as_str()),
                    private_keys: None,
                    agent: None,
                },
                jump: CredentialOverrides {
                    password: non_empty_string(jump_password.value.as_str()),
                    private_keys: None,
                    agent: None,
                },
                environment: None,
            };
            let mut r = Vec::new();
            r.push(Action::Establish { profile, overrides });
            self.clamp_selection();
            return r;
        } else if field == 0 {
            let used = edit_input(&mut password, input_key(key));
            assert(input_edit(p0, password, input_key_of(key), used));
        } else {
            let used = edit_input(&mut jump_password, input_key(key));
            assert(input_edit(j0, jump_password, input_key_of(key), used));
        }
        self.modal = Some(Modal::SftpCredentials { profile, password, jump_password, field });
        self.clamp_selection();
        Vec::new()
    }

    fn name_modal_key(&mut self, key: Key) -> (r: Vec<Action>)
        requires
            old(self).wf(),
            old(self).modal matches Some(Modal::SftpInput { .. }),
        ensures
            final(self).wf(),
            match old(self).modal {
                Some(Modal::SftpInput { mkdir, side, input, entry }) => name_key(
                    *old(self),
                    *final(self),
                    mkdir,
                    side,
                    input,
                    entry,
                    key,
                    r@,
                ),
                _ => true,
            },
    {
        let ghost s0 = *self;
        let m = self.modal.take();
        let (mkdir, side, mut input, entry) = match m {
            Some(Modal::SftpInput { mkdir, side, input, entry }) => (mkdir, side, input, entry),
            _ => {
                return Vec::new();
            },
        };
        if key.code != KeyCode::Enter {
            let ghost t0 = input;
            let used = edit_input(&mut input, input_key(key));
            self.modal = Some(Modal::SftpInput { mkdir, side, input, entry });
            self.clamp_selection();
            assert(input_edit(t0, input, input_key_of(key), used));
            return Vec::new();
        }
        let name = trim_string(input.value.as_str());
        if name.as_str().is_empty() {
            self.status = "名称不能为空".to_owned();
            self.modal = Some(Modal::SftpInput { mkdir, side, input, entry });
            self.clamp_selection();
            return Vec::new();
        }
        if mkdir {
            let path = self.join_panel_path(side, name.as_str());
            let ghost pv = path@;
            let mut success = "已创建目录 ".to_owned();
            success.append(name.as_str());
            let r = self.start_mutation(side, Mutation::Mkdir(path), success);
            let ghost mid = *self;
            self.clamp_selection();
            assert(mutation_started(without_modal(s0), mid, side, MutationView::Mkdir(pv), "已创建目录 "@ + name@, r@));
            return r;
        }
        match entry {
            Some(e) => {
                let to = sibling_path(side, e.path.as_str(), name.as_str());
                let ghost tv = to@;
                let mut success = "已改名为 ".to_owned();
                success.append(name.as_str());
                let r = self.start_mutation(side, Mutation::Rename { from: e.path.clone(), to }, success);
                let ghost mid = *self;
                self.clamp_selection();
                assert(mutation_started(
                    without_modal(s0),
                    mid,
                    side,
                    MutationView::Rename { from: e.path@, to: tv },
                    "已改名为 "@ + name@,
                    r@,
                ));
                r
            },
            None => {
                self.status = "请选择要改名的项目".to_owned();
                self.modal = Some(Modal::SftpInput { mkdir, side, input, entry: None });
                Vec::new()
            },
        }
    }

    fn remove_modal_key(&mut self, key: Key) -> (r: Vec<Action>)
        requires
            old(self).wf(),
            old(self).modal matches Some(Modal::SftpDelete { .. }),
        ensures
            final(self).wf(),
            match old(self).modal {
                Some(Modal::SftpDelete { side, entry }) => remove_key(*old(self), *final(self), side, entry, key, r@),
                _ => true,
            },
    {
        let ghost s0 = *self;
        if key.code == KeyCode::Enter || key.code == KeyCode::Char('y') {
            let m = self.modal.take();
            let (side, entry) = match m {
                Some(Modal::SftpDelete { side, entry }) => (side, entry),
                _ => {
                    return Vec::new();
                },
            };
            let mut success = "已删除 ".to_owned();
            success.append(entry.name.as_str());
            let r = self.start_mutation(side, Mutation::Remove(entry.path.clone()), success);
            let ghost mid = *self;
            self.clamp_selection();
            assert(mutation_started(
                without_modal(s0),
                mid,
                side,
                MutationView::Remove(entry.path@),
                "已删除 "@ + entry.name@,
                r@,
            ));
            r
        } else if key.code == KeyCode::Char('n') {
            self.modal = None;
            self.clamp_selection();
            Vec::new()
        } else {
            self.clamp_selection();
            Vec::new()
        }
    }

    fn overwrite_modal_key(&mut self, key: Key) -> (r: Vec<Action>)
        requires
            old(self).wf(),
            old(self).modal matches Some(Modal::SftpOverwrite { .. }),
        ensures
            final(self).wf(),
            match old(self).modal {
                Some(Modal::SftpOverwrite { upload, source, destination }) => overwrite_key(
                    *old(self),
                    *final(self),
                    upload,
                    source,
                    destination,
                    key,
                    r@,
                ),
                _ => true,
            },
    {
        let ghost s0 = *self;
        if key.code == KeyCode::Enter || key.code == KeyCode::Char('y') {
            let m = self.modal.take();
            let (upload, source, destination) = match m {
                Some(Modal::SftpOverwrite { upload, source, destination }) => (upload, source, destination),
                _ => {
                    return Vec::new();
                },
            };
            let direction = if upload {
                TransferDirection::Upload
            } else {
                TransferDirection::Download
            };
            let ghost sv = source@;
            let ghost dv = destination@;
            let r = self.perform_transfer(direction, source, destination, true);
            let ghost mid = *self;
            self.clamp_selection();
            assert(transfer_started(without_modal(s0), mid, direction, sv, dv, true, r@));
            r
        } else if key.code == KeyCode::Char('n') {
            self.modal = None;
            self.clamp_selection();
            Vec::new()
        } else {
            self.clamp_selection();
            Vec::new()
        }
    }

    /// A key while a dialog is open.
    pub fn handle_modal_key(&mut self, key: Key) -> (r: Vec<Action>)
        requires
            old(self).wf(),
        ensures
            modal_key_done(*old(self), *final(self), key, r@),
            final(self).wf(),
    {
        if key.code == KeyCode::Esc {
            self.modal = None;
            return Vec::new();
        }
        match &self.modal {
            Some(Modal::Filter(_)) => self.filter_modal_key(key),
            Some(Modal::Quick(_)) => self.quick_modal_key(key),
            Some(Modal::Delete { .. }) => self.delete_modal_key(key),
            Some(Modal::Edit { .. }) => self.edit_modal_key(key),
            Some(Modal::SftpCredentials { .. }) => self.credentials_modal_key(key),
            Some(Modal::SftpInput { .. }) => self.name_modal_key(key),
            Some(Modal::SftpDelete { .. }) => self.remove_modal_key(key),
            Some(Modal::SftpOverwrite { .. }) => self.overwrite_modal_key(key),
            None => {
                self.clamp_selection();
                Vec::new()
            },
        }
    }
}


/// What a key does. Releases are ignored and Ctrl-C quits; an open dialog
/// takes the key; otherwise the page does, and the selection is clamped.
pub open spec fn key_done(s0: ManagerState, s1: ManagerState, key: Key, actions: Seq<Action>) -> bool {
    if !key.pressed {
        s1 == s0 && actions.len() == 0
    } else if key.control && key.code == KeyCode::Char('c') {
        s1 == (ManagerState { should_quit: true, ..s0 }) && actions.len() == 0
    } else if s0.modal is Some {
        modal_key_done(s0, s1, key, actions)
    } else if s0.page == MainPage::Manager {
        exists|mid: ManagerState| manager_key_done(s0, mid, key, actions) && s1 == clamp_state(mid)
    } else {
        exists|mid: ManagerState| sftp_key_done(s0, mid, key, actions) && s1 == clamp_state(mid)
    }
}

/// Field `field` of the form with `text` pasted at its kept cursor.
pub open spec fn field_pasted(
    d0: crate::types::DraftView,
    c0: Seq<usize>,
    d1: crate::types::DraftView,
    c1: Seq<usize>,
    field: usize,
    text: Seq<char>,
) -> bool {
    exists|t0: TextInput, t1: TextInput|
        {
            &&& t0.value@ == draft_field_of(d0, field)
            &&& t0.cursor == field_cursor(d0, field, c0)
            &&& t0.secret == (field == 6)
            &&& input_paste(t0, t1, text)
            &&& c1 == c0.update(field as int, t1.cursor)
            &&& d1 == with_draft_field(d0, field, t1.value@)
        }
}

/// What a paste does: it goes into the open dialog's current input (the
/// filter applies at once), and the selection is clamped.
pub open spec fn paste_done(s0: ManagerState, s1: ManagerState, text: Seq<char>) -> bool {
    match s0.modal {
        Some(Modal::Filter(t)) => exists|t1: TextInput|
            {
                &&& input_paste(t, t1, text)
                &&& s1 == clamp_state(ManagerState { modal: Some(Modal::Filter(t1)), filter: s1.filter, ..s0 })
                &&& s1.filter@ == t1.value@
            },
        Some(Modal::Quick(t)) => exists|t1: TextInput|
            input_paste(t, t1, text) && s1 == clamp_state(ManagerState { modal: Some(Modal::Quick(t1)), ..s0 }),
        Some(Modal::SftpInput { mkdir, side, input, entry }) => exists|t1: TextInput|
            input_paste(input, t1, text) && s1 == clamp_state(
                ManagerState { modal: Some(Modal::SftpInput { mkdir, side, input: t1, entry }), ..s0 },
            ),
        Some(Modal::SftpCredentials { profile, password, jump_password, field }) => if field == 0 {
            exists|t1: TextInput|
                input_paste(password, t1, text) && s1 == clamp_state(
                    ManagerState {
                        modal: Some(Modal::SftpCredentials { profile, password: t1, jump_password, field }),
                        ..s0
                    },
                )
        } else {
            exists|t1: TextInput|
                input_paste(jump_password, t1, text) && s1 == clamp_state(
                    ManagerState {
                        modal: Some(Modal::SftpCredentials { profile, password, jump_password: t1, field }),
                        ..s0
                    },
                )
        },
        Some(Modal::Edit { draft, field, cursors }) => {
            &&& s1 == clamp_state(ManagerState { modal: s1.modal, ..s0 })
            &&& s1.modal matches Some(Modal::Edit { draft: d1, field: f1, cursors: c1 })
            &&& f1 == field
            &&& field_pasted(draft@, cursors@, d1@, c1@, field, text)
        },
        _ => s1 == clamp_state(s0),
    }
}

fn paste_field(draft: &mut crate::types::ProfileDraft, field: usize, cursors: &mut Vec<usize>, text: &str)
    requires
        field < FORM_FIELDS,
        crate::manager::cursors_ok(old(draft)@, old(cursors)@),
    ensures
        crate::manager::cursors_ok(final(draft)@, final(cursors)@),
        field_pasted(old(draft)@, old(cursors)@, final(draft)@, final(cursors)@, field, text@),
{
    let ghost d0 = draft@;
    let ghost c0 = cursors@;
    let value = draft_field(draft, field).to_owned();
    let len = byte_len(value.as_str());
    let start = if cursors[field] < len {
        cursors[field]
    } else {
        len
    };
    proof {
        crate::editor::lemma_valid(value@);
    }
    let mut input = TextInput { value, cursor: start, secret: field == 6 };
    let ghost t0 = input;
    paste_input(&mut input, text);
    let ghost t1 = input;
    cursors.set(field, input.cursor);
    set_draft_field(draft, field, input.value);
    proof {
        assert forall|i: int| 0 <= i < FORM_FIELDS implies vstd::utf8::is_char_boundary(
            bytes_of(draft_field_of(draft@, i as usize)),
            (#[trigger] cursors@[i]) as int,
        ) && cursors@[i] <= bytes_of(draft_field_of(draft@, i as usize)).len() by {
            if i == field {
                assert(draft_field_of(draft@, i as usize) == t1.value@);
            } else {
                assert(draft_field_of(draft@, i as usize) == draft_field_of(d0, i as usize));
                assert(cursors@[i] == c0[i]);
            }
        }
        assert(input_paste(t0, t1, text@));
    }
}

/// The number of host rows shown for a terminal height: ten lines go to
/// the frame, at least four rows remain.
pub open spec fn window_rows(height: u16) -> int {
    let h = if height >= 10 {
        height - 10
    } else {
        0
    };
    if h > 4 {
        h
    } else {
        4
    }
}

/// The first host row shown: the selection is kept near the middle, and the
/// window does not run past the end of the list.
pub open spec fn window_start(s: ManagerState) -> int {
    let count = window_rows(s.terminal_height);
    let len = hosts_of(&s).len() as int;
    let a = if s.host_index >= count / 2 {
        s.host_index - count / 2
    } else {
        0
    };
    let b = if len >= count {
        len - count
    } else {
        0
    };
    if a < b {
        a
    } else {
        b
    }
}

/// A click on row `row` of the group list: that group is selected, if it
/// exists.
pub open spec fn group_clicked(s0: ManagerState, s1: ManagerState, row: usize) -> bool {
    if row < group_count_of(&s0) {
        s1 == (ManagerState { focus: ManagerFocus::Groups, group_index: row, host_index: 0, ..s0 })
    } else {
        s1 == s0
    }
}

/// A click on a panel: it becomes active, and row `row` is selected when
/// there is one.
pub open spec fn sftp_row_clicked(s0: ManagerState, s1: ManagerState, side: SftpSide, row: usize) -> bool {
    let s = ManagerState { sftp_side: side, ..s0 };
    let p = crate::manager_sftp::panel_of(s, side);
    if row < p.entries@.len() {
        s1 == crate::manager_sftp::with_panel(s, side, crate::manager::PanelView { selected: row, ..p })
    } else {
        s1 == s
    }
}

/// A click on row `row` of the host list at `now_ms`: the host shown there
/// is selected, and a second click on it within 450 ms connects to it.
pub open spec fn host_clicked(s0: ManagerState, s1: ManagerState, row: usize, now_ms: u64, actions: Seq<Action>) -> bool {
    let start = window_start(s0);
    let end = if start + window_rows(s0.terminal_height) < hosts_of(&s0).len() {
        start + window_rows(s0.terminal_height)
    } else {
        hosts_of(&s0).len() as int
    };
    if start + row >= end {
        s1 == s0 && actions.len() == 0
    } else {
        let index = (start + row) as usize;
        let s = ManagerState { focus: ManagerFocus::Hosts, host_index: index, ..s0 };
        let double = match s0.last_host_click {
            Some((previous, at)) => previous == index && (if now_ms >= at {
                now_ms - at
            } else {
                0
            }) <= 450,
            None => false,
        };
        if double {
            connect_done(
                ManagerState { last_host_click: None, ..s },
                s1,
                s0.snapshot.default_where@,
                actions,
            )
        } else {
            s1 == (ManagerState { last_host_click: Some((index, now_ms)), ..s }) && actions.len() == 0
        }
    }
}

/// The title of a dialog.
pub open spec fn title_of(m: Modal) -> Seq<char> {
    match m {
        Modal::Filter(_) => "过滤"@,
        Modal::Quick(_) => "快捷连接"@,
        Modal::Edit { .. } => "编辑连接"@,
        Modal::Delete { .. } => "确认删除"@,
        Modal::SftpCredentials { profile, .. } => "SFTP 认证 · "@ + profile.name@,
        Modal::SftpInput { mkdir, .. } => if mkdir {
            "新建目录"@
        } else {
            "改名"@
        },
        Modal::SftpDelete { .. } => "确认删除文件"@,
        Modal::SftpOverwrite { .. } => "确认覆盖"@,
    }
}

impl Modal {
    /// The dialog's title.
    pub fn title(&self) -> (r: String)
        ensures
            r@ == title_of(*self),
    {
        match self {
            Modal::Filter(_) => "过滤".to_owned(),
            Modal::Quick(_) => "快捷连接".to_owned(),
            Modal::Edit { .. } => "编辑连接".to_owned(),
            Modal::Delete { .. } => "确认删除".to_owned(),
            Modal::SftpCredentials { profile, .. } => {
                let mut t = "SFTP 认证 · ".to_owned();
                t.append(profile.name.as_str());
                t
            },
            Modal::SftpInput { mkdir, .. } => if *mkdir {
                "新建目录".to_owned()
            } else {
                "改名".to_owned()
            },
            Modal::SftpDelete { .. } => "确认删除文件".to_owned(),
            Modal::SftpOverwrite { .. } => "确认覆盖".to_owned(),
        }
    }

    /// Whether the dialog confirms something that cannot be undone.
    pub fn is_dangerous(&self) -> (r: bool)
        ensures
            r == (self is Delete || self is SftpDelete || self is SftpOverwrite),
    {
        match self {
            Modal::Delete { .. } | Modal::SftpDelete { .. } | Modal::SftpOverwrite { .. } => true,
            _ => false,
        }
    }
}

impl ManagerState {
    /// A key event.
    pub fn handle_key(&mut self, key: Key) -> (r: Vec<Action>)
        requires
            old(self).wf(),
        ensures
            key_done(*old(self), *final(self), key, r@),
            final(self).wf(),
    {
        if !key.pressed {
            return Vec::new();
        }
        if key.control && key.code == KeyCode::Char('c') {
            self.should_quit = true;
            return Vec::new();
        }
        if self.modal.is_some() {
            return self.handle_modal_key(key);
        }
        let r = match self.page {
            MainPage::Manager => self.handle_manager_key(key),
            MainPage::Sftp => self.handle_sftp_key(key),
        };
        self.clamp_selection();
        r
    }

    /// Pasted text.
    pub fn handle_paste(&mut self, text: &str)
        requires
            old(self).wf(),
        ensures
            paste_done(*old(self), *final(self), text@),
            final(self).wf(),
    {
        let m = self.modal.take();
        match m {
            Some(Modal::Filter(mut input)) => {
                let ghost t0 = input;
                paste_input(&mut input, text);
                self.filter = input.value.clone();
                self.modal = Some(Modal::Filter(input));
                assert(input_paste(t0, input, text@));
            },
            Some(Modal::Quick(mut input)) => {
                let ghost t0 = input;
                paste_input(&mut input, text);
                self.modal = Some(Modal::Quick(input));
                assert(input_paste(t0, input, text@));
            },
            Some(Modal::SftpInput { mkdir, side, mut input, entry }) => {
                let ghost t0 = input;
                paste_input(&mut input, text);
                self.modal = Some(Modal::SftpInput { mkdir, side, input, entry });
                assert(input_paste(t0, input, text@));
            },
            Some(Modal::SftpCredentials { profile, mut password, mut jump_password, field }) => {
                if field == 0 {
                    let ghost t0 = password;
                    paste_input(&mut password, text);
                    assert(input_paste(t0, password, text@));
                } else {
                    let ghost t0 = jump_password;
                    paste_input(&mut jump_password, text);
                    assert(input_paste(t0, jump_password, text@));
                }
                self.modal = Some(Modal::SftpCredentials { profile, password, jump_password, field });
            },
            Some(Modal::Edit { mut draft, field, mut cursors }) => {
                paste_field(&mut draft, field, &mut cursors, text);
                self.modal = Some(Modal::Edit { draft, field, cursors });
            },
            other => {
                self.modal = other;
            },
        }
        self.clamp_selection();
    }

    /// The terminal was resized: the details column leaves the focus when it
    /// is no longer shown.
    pub fn handle_resize(&mut self, width: u16, height: u16)
        ensures
            *final(self) == clamp_state(
                ManagerState {
                    terminal_width: width,
                    terminal_height: height,
                    focus: if width < 102 && old(self).focus == ManagerFocus::Details {
                        ManagerFocus::Hosts
                    } else {
                        old(self).focus
                    },
                    ..*old(self)
                },
            ),
    {
        self.terminal_width = width;
        self.terminal_height = height;
        if !self.show_details() && self.focus == ManagerFocus::Details {
            self.focus = ManagerFocus::Hosts;
        }
        self.clamp_selection();
    }

    /// A click on field `field` of the edit form selects it.
    pub fn click_form_field(&mut self, field: usize)
        ensures
            match old(self).modal {
                Some(Modal::Edit { draft, field: _, cursors }) if field < FORM_FIELDS => *final(self) == (
                ManagerState { modal: Some(Modal::Edit { draft, field, cursors }), ..*old(self) }),
                _ => *final(self) == *old(self),
            },
            old(self).wf() ==> final(self).wf(),
    {
        if field >= FORM_FIELDS {
            return;
        }
        let m = self.modal.take();
        match m {
            Some(Modal::Edit { draft, field: _, cursors }) => {
                self.modal = Some(Modal::Edit { draft, field, cursors });
            },
            other => {
                self.modal = other;
            },
        }
    }

    /// A click on row `row` of the group list selects that group.
    pub fn click_group_row(&mut self, row: usize)
        ensures
            group_clicked(*old(self), *final(self), row),
    {
        if row < self.groups().len() {
            self.focus = ManagerFocus::Groups;
            self.group_index = row;
            self.host_index = 0;
        }
    }

    /// A click on the details column focuses it.
    pub fn click_details(&mut self)
        ensures
            *final(self) == (ManagerState { focus: ManagerFocus::Details, ..*old(self) }),
    {
        self.focus = ManagerFocus::Details;
    }

    /// A click on a panel of the SFTP workspace activates it and selects row
    /// `row`, when there is one.
    pub fn click_sftp_row(&mut self, side: SftpSide, row: usize)
        ensures
            sftp_row_clicked(*old(self), *final(self), side, row),
    {
        self.sftp_side = side;
        match side {
            SftpSide::Local => {
                if row < self.local_panel.entries.len() {
                    self.local_panel.selected = row;
                }
            },
            SftpSide::Remote => {
                if row < self.remote_panel.entries.len() {
                    self.remote_panel.selected = row;
                }
            },
        }
    }

    /// The hosts shown in the list, with their indices: a window of
    /// `window_rows` rows from `window_start`.
    pub fn visible_host_window(&self) -> (r: Vec<(usize, &Profile)>)
        ensures
            ({
                let hosts = hosts_of(self);
                let start = window_start(*self);
                let end = if start + window_rows(self.terminal_height) < hosts.len() {
                    start + window_rows(self.terminal_height)
                } else {
                    hosts.len() as int
                };
                &&& 0 <= start <= end <= hosts.len()
                &&& r@.len() == end - start
                &&& forall|i: int|
                    0 <= i < r@.len() ==> (#[trigger] r@[i]).0 == start + i && r@[i].1@ == hosts[start + i]
            }),
    {
        let hosts = self.hosts();
        let h: u16 = if self.terminal_height >= 10 {
            self.terminal_height - 10
        } else {
            0
        };
        let count: usize = if h > 4 {
            h as usize
        } else {
            4
        };
        let a = if self.host_index >= count / 2 {
            self.host_index - count / 2
        } else {
            0
        };
        let b = if hosts.len() >= count {
            hosts.len() - count
        } else {
            0
        };
        let start = if a < b {
            a
        } else {
            b
        };
        let end = if count < hosts.len() - start {
            start + count
        } else {
            hosts.len()
        };
        let mut r: Vec<(usize, &Profile)> = Vec::new();
        let mut i = start;
        while i < end
            invariant
                start <= i <= end <= hosts@.len(),
                r@.len() == i - start,
                forall|j: int| 0 <= j < r@.len() ==> (#[trigger] r@[j]).0 == start + j && r@[j].1 == hosts@[start + j],
            decreases end - i,
        {
            r.push((i, hosts[i]));
            i += 1;
        }
        r
    }

    /// A click on row `row` of the host list, at `now_ms` milliseconds of a
    /// monotonic clock: the host shown there is selected, and a second click
    /// on it within 450 ms connects to it.
    pub fn click_host_row(&mut self, row: usize, now_ms: u64) -> (r: Vec<Action>)
        ensures
            host_clicked(*old(self), *final(self), row, now_ms, r@),
    {
        let clicked = {
            let visible = self.visible_host_window();
            if row < visible.len() {
                Some(visible[row].0)
            } else {
                None
            }
        };
        let index = match clicked {
            Some(i) => i,
            None => {
                return Vec::new();
            },
        };
        self.focus = ManagerFocus::Hosts;
        self.host_index = index;
        let double = match self.last_host_click {
            Some((previous, at)) => {
                let elapsed = if now_ms >= at {
                    now_ms - at
                } else {
                    0
                };
                previous == index && elapsed <= 450
            },
            None => false,
        };
        if double {
            self.last_host_click = None;
            let where_ = self.snapshot.default_where.clone();
            self.connect(where_)
        } else {
            self.last_host_click = Some((index, now_ms));
            Vec::new()
        }
    }
}


/// What a left click at cell `(px, py)` does, at `now_ms`: with a dialog
/// open, only the edit form's fields take clicks; on the manager page a
/// group row, a host row or the details column; on the SFTP page a panel
/// and its row (rows start three cells below the panel's top).
pub open spec fn click_done(s0: ManagerState, s1: ManagerState, px: u16, py: u16, now_ms: u64, actions: Seq<Action>) -> bool {
    let w = s0.terminal_width;
    let h = s0.terminal_height;
    if s0.modal is Some {
        &&& actions.len() == 0
        &&& exists|hit: Option<usize>|
            #![trigger crate::layout::form_field_ok(w, h, px, py, hit)]
            crate::layout::form_field_ok(w, h, px, py, hit) && match (s0.modal, hit) {
                (Some(Modal::Edit { draft, field: _, cursors }), Some(f)) => s1 == (ManagerState {
                    modal: Some(Modal::Edit { draft, field: f, cursors }),
                    ..s0
                }),
                _ => s1 == s0,
            }
    } else if s0.page == MainPage::Manager {
        exists|regions: crate::layout::ManagerRegions|
            #![trigger crate::layout::manager_regions_ok(w, h, regions)]
            crate::layout::manager_regions_ok(w, h, regions) && manager_click(s0, s1, regions, px, py, now_ms, actions)
    } else {
        exists|regions: crate::layout::SftpRegions|
            #![trigger crate::layout::sftp_regions_ok(w, h, regions)]
            crate::layout::sftp_regions_ok(w, h, regions) && sftp_click(s0, s1, regions, px, py, actions)
    }
}

/// A click on the manager page whose columns are `regions`: a group row, a
/// host row or the details column.
pub open spec fn manager_click(
    s0: ManagerState,
    s1: ManagerState,
    regions: crate::layout::ManagerRegions,
    px: u16,
    py: u16,
    now_ms: u64,
    actions: Seq<Action>,
) -> bool {
        match crate::layout::group_row_of(regions.groups, px, py) {
            Some(row) => group_clicked(s0, s1, row) && actions.len() == 0,
            None => match crate::layout::host_row_of(regions.hosts, px, py) {
                Some(row) => host_clicked(s0, s1, row, now_ms, actions),
                None => {
                    &&& actions.len() == 0
                    &&& if regions.details matches Some(d) && crate::layout::contains_of(d, px, py) {
                        s1 == (ManagerState { focus: ManagerFocus::Details, ..s0 })
                    } else {
                        s1 == s0
                    }
                },
            },
        }
}

/// A click on the SFTP page whose panels are `regions`: a panel and its row
/// (rows start three cells below the panel's top).
pub open spec fn sftp_click(
    s0: ManagerState,
    s1: ManagerState,
    regions: crate::layout::SftpRegions,
    px: u16,
    py: u16,
    actions: Seq<Action>,
) -> bool {
        &&& actions.len() == 0
        &&& if crate::layout::contains_of(regions.local, px, py) {
            sftp_row_clicked(
                s0,
                s1,
                SftpSide::Local,
                crate::layout::sat_sub(py, crate::layout::sat_add(regions.local.y, 3)) as usize,
            )
        } else if crate::layout::contains_of(regions.remote, px, py) {
            sftp_row_clicked(
                s0,
                s1,
                SftpSide::Remote,
                crate::layout::sat_sub(py, crate::layout::sat_add(regions.remote.y, 3)) as usize,
            )
        } else {
            s1 == s0
        }
}

impl ManagerState {
    /// A left click at cell `(column, row)`, at `now_ms` milliseconds of a
    /// monotonic clock.
    pub fn handle_click(&mut self, column: u16, row: u16, now_ms: u64) -> (r: Vec<Action>)
        ensures
            click_done(*old(self), *final(self), column, row, now_ms, r@),
            old(self).wf() ==> final(self).wf(),
    {
        let w = self.terminal_width;
        let h = self.terminal_height;
        if self.modal.is_some() {
            if let Some(field) = crate::layout::edit_modal_field_at(w, h, column, row) {
                self.click_form_field(field);
            }
            return Vec::new();
        }
        match self.page {
            MainPage::Manager => {
                let regions = crate::layout::manager_regions(w, h);
                self.click_manager_page(regions, column, row, now_ms)
            },
            MainPage::Sftp => {
                let regions = crate::layout::sftp_regions(w, h);
                self.click_sftp_page(regions, column, row);
                Vec::new()
            },
        }
    }

    /// A left click at `(column, row)` on the manager page whose columns
    /// are `regions`: a group row, a host row or the details column.
    pub fn click_manager_page(
        &mut self,
        regions: crate::layout::ManagerRegions,
        column: u16,
        row: u16,
        now_ms: u64,
    ) -> (r: Vec<Action>)
        requires
            old(self).modal is None,
            old(self).page == MainPage::Manager,
        ensures
            manager_click(*old(self), *final(self), regions, column, row, now_ms, r@),
            old(self).wf() ==> final(self).wf(),
    {
        if let Some(r) = crate::layout::manager_group_row_at(regions.groups, column, row) {
            self.click_group_row(r);
            Vec::new()
        } else if let Some(r) = crate::layout::manager_host_row_at(regions.hosts, column, row) {
            self.click_host_row(r, now_ms)
        } else {
            let hit = match regions.details {
                Some(d) => d.contains(column, row),
                None => false,
            };
            if hit {
                self.click_details();
            }
            Vec::new()
        }
    }

    /// A left click at `(column, row)` on the SFTP page whose panels are
    /// `regions`: a panel and its row.
    pub fn click_sftp_page(&mut self, regions: crate::layout::SftpRegions, column: u16, row: u16)
        requires
            old(self).modal is None,
            old(self).page == MainPage::Sftp,
        ensures
            sftp_click(*old(self), *final(self), regions, column, row, Seq::empty()),
            old(self).wf() ==> final(self).wf(),
    {
        let (side, area) = if regions.local.contains(column, row) {
            (SftpSide::Local, regions.local)
        } else if regions.remote.contains(column, row) {
            (SftpSide::Remote, regions.remote)
        } else {
            return;
        };
        let top: u16 = if area.y > u16::MAX - 3 {
            u16::MAX
        } else {
            area.y + 3
        };
        let offset: u16 = if row >= top {
            row - top
        } else {
            0
        };
        self.click_sftp_row(side, offset as usize);
    }

}

} // verus!
