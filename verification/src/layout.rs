//! Where the screen's regions lie, and which row or field a click at a
//! cell hits. Areas are split by ratatui's layout solver; the rest is
//! rectangle arithmetic on terminal cells.
use vstd::prelude::*;

use ratatui::layout::Constraint as Part;
use ratatui::layout::Direction as Axis;
use ratatui::layout::Layout;

verus! {

/// A rectangle of terminal cells.
#[derive(Clone, Copy, Debug, PartialEq, Eq, Structural)]
pub struct Rect {
    pub x: u16,
    pub y: u16,
    pub width: u16,
    pub height: u16,
}

/// `a + b`, stopping at `u16::MAX`.
pub open spec fn sat_add(a: u16, b: u16) -> u16 {
    if a + b > u16::MAX {
        u16::MAX
    } else {
        (a + b) as u16
    }
}

/// `a - b`, stopping at 0.
pub open spec fn sat_sub(a: u16, b: u16) -> u16 {
    if a >= b {
        (a - b) as u16
    } else {
        0
    }
}

/// `2 * a`, stopping at `u16::MAX`.
pub open spec fn sat_double(a: u16) -> u16 {
    sat_add(a, a)
}

fn add_sat(a: u16, b: u16) -> (r: u16)
    ensures
        r == sat_add(a, b),
{
    if a > u16::MAX - b {
        u16::MAX
    } else {
        a + b
    }
}

fn sub_sat(a: u16, b: u16) -> (r: u16)
    ensures
        r == sat_sub(a, b),
{
    if a >= b {
        a - b
    } else {
        0
    }
}

/// The rectangle inside `r` with `h` cells off each side and `v` off the top
/// and bottom; the empty rectangle at the origin when the margins do not fit.
pub open spec fn inner_of(r: Rect, h: u16, v: u16) -> Rect {
    if r.width < sat_double(h) || r.height < sat_double(v) {
        Rect { x: 0, y: 0, width: 0, height: 0 }
    } else {
        Rect {
            x: sat_add(r.x, h),
            y: sat_add(r.y, v),
            width: sat_sub(r.width, sat_double(h)),
            height: sat_sub(r.height, sat_double(v)),
        }
    }
}

/// The cell `(px, py)` lies in `r`.
pub open spec fn contains_of(r: Rect, px: u16, py: u16) -> bool {
    px >= r.x && px < sat_add(r.x, r.width) && py >= r.y && py < sat_add(r.y, r.height)
}

impl Rect {
    /// A rectangle at `(x, y)`, its size cut so that it ends inside the
    /// `u16` range.
    pub fn new(x: u16, y: u16, width: u16, height: u16) -> (r: Rect)
        ensures
            r == (Rect { x, y, width: (sat_add(x, width) - x) as u16, height: (sat_add(y, height) - y) as u16 }),
    {
        Rect { x, y, width: add_sat(x, width) - x, height: add_sat(y, height) - y }
    }

    /// The first column right of the rectangle.
    pub fn right(self) -> (r: u16)
        ensures
            r == sat_add(self.x, self.width),
    {
        add_sat(self.x, self.width)
    }

    /// The first row below the rectangle.
    pub fn bottom(self) -> (r: u16)
        ensures
            r == sat_add(self.y, self.height),
    {
        add_sat(self.y, self.height)
    }

    /// The rectangle with margins `horizontal` and `vertical` taken off.
    pub fn inner(self, horizontal: u16, vertical: u16) -> (r: Rect)
        ensures
            r == inner_of(self, horizontal, vertical),
    {
        let dh = add_sat(horizontal, horizontal);
        let dv = add_sat(vertical, vertical);
        if self.width < dh || self.height < dv {
            Rect { x: 0, y: 0, width: 0, height: 0 }
        } else {
            Rect {
                x: add_sat(self.x, horizontal),
                y: add_sat(self.y, vertical),
                width: sub_sat(self.width, dh),
                height: sub_sat(self.height, dv),
            }
        }
    }

    /// Whether the cell `(px, py)` lies in the rectangle.
    pub fn contains(self, px: u16, py: u16) -> (r: bool)
        ensures
            r == contains_of(self, px, py),
    {
        px >= self.x && px < self.right() && py >= self.y && py < self.bottom()
    }
}

/// How a layout sizes one of its parts.
#[derive(Clone, Copy, Debug, PartialEq, Eq, Structural)]
pub enum Constraint {
    Length(u16),
    Min(u16),
    Percentage(u16),
}

/// `parts` may be ratatui's split of `area` for `constraints`, stacked
/// (`vertical`) or side by side: one part per constraint, each spanning the
/// area across the direction of the split and lying inside it along the
/// split. Where each part starts and ends inside the area is the solver's.
pub open spec fn split_shaped(vertical: bool, constraints: Seq<Constraint>, area: Rect, parts: Seq<Rect>) -> bool {
    &&& parts.len() == constraints.len()
    &&& forall|i: int|
        0 <= i < parts.len() ==> if vertical {
            &&& (#[trigger] parts[i]).x == area.x
            &&& parts[i].width == area.width
            &&& area.y <= parts[i].y
            &&& parts[i].y + parts[i].height <= sat_add(area.y, area.height)
        } else {
            &&& parts[i].y == area.y
            &&& parts[i].height == area.height
            &&& area.x <= parts[i].x
            &&& parts[i].x + parts[i].width <= sat_add(area.x, area.width)
        }
}

/// Which way a layout splits its area.
#[derive(Clone, Copy, Debug, PartialEq, Eq, Structural)]
pub enum Direction {
    Vertical,
    Horizontal,
}

/// Calls `Layout::default()` with the direction, constraints and spacing,
/// then `split`. What its source fixes for every outcome is stated: one part
/// per constraint (`changes_to_rects` maps each segment), each spanning the
/// area across the split, and each inside the area along it (every solver
/// variable is held inside the area by a required constraint, and a
/// segment's start by one not to pass its end). Where the parts fall inside
/// the area, and in which order, is left unstated: the size and spacing
/// constraints are not required ones, and the solver, which walks hash maps
/// that each process seeds, may settle ties between them either way.
#[verifier::external_body]
fn split(direction: Direction, constraints: &Vec<Constraint>, spacing: u16, area: Rect) -> (r: Vec<Rect>)
    ensures
        split_shaped(direction == Direction::Vertical, constraints@, area, r@),
{
    let parts = constraints.iter().map(|c| match *c {
        Constraint::Length(n) => Part::Length(n),
        Constraint::Min(n) => Part::Min(n),
        Constraint::Percentage(n) => Part::Percentage(n),
    });
    let axis = match direction {
        Direction::Vertical => Axis::Vertical,
        Direction::Horizontal => Axis::Horizontal,
    };
    let outer = ratatui::layout::Rect { x: area.x, y: area.y, width: area.width, height: area.height };
    let parts = Layout::default().direction(axis).constraints(parts).spacing(spacing).split(outer);
    parts.iter().map(|r| Rect { x: r.x, y: r.y, width: r.width, height: r.height }).collect()
}

fn three(a: Constraint, b: Constraint, c: Constraint) -> (r: Vec<Constraint>)
    ensures
        r@ == seq![a, b, c],
{
    let mut r = Vec::new();
    r.push(a);
    r.push(b);
    r.push(c);
    r
}

fn two(a: Constraint, b: Constraint) -> (r: Vec<Constraint>)
    ensures
        r@ == seq![a, b],
{
    let mut r = Vec::new();
    r.push(a);
    r.push(b);
    r
}

/// The rows of a centred rectangle `height` rows high: free, `height`, free.
pub open spec fn centered_rows(height: u16) -> Seq<Constraint> {
    seq![Constraint::Min(0), Constraint::Length(height), Constraint::Min(0)]
}

/// The columns of a centred rectangle `percent_x` percent wide: the rest
/// shared equally on both sides.
pub open spec fn centered_columns(percent_x: u16) -> Seq<Constraint> {
    let side = ((100 - percent_x) / 2) as u16;
    seq![Constraint::Percentage(side), Constraint::Percentage(percent_x), Constraint::Percentage(side)]
}

/// `r` may be the rectangle `height` rows high and `percent_x` percent wide
/// centred in `area`: the middle part of the split of `area` by
/// `centered_rows(height)`, split across by `centered_columns(percent_x)`.
/// It lies inside `area`.
pub open spec fn centered_ok(percent_x: u16, height: u16, area: Rect, r: Rect) -> bool {
    exists|v: Seq<Rect>, c: Seq<Rect>|
        #![trigger split_shaped(true, centered_rows(height), area, v), split_shaped(false, centered_columns(percent_x), v[1], c)]
        split_shaped(true, centered_rows(height), area, v) && split_shaped(
            false,
            centered_columns(percent_x),
            v[1],
            c,
        ) && r == c[1]
}

/// `inner` lies inside `outer`.
pub open spec fn inside(inner: Rect, outer: Rect) -> bool {
    &&& outer.x <= inner.x
    &&& inner.x + inner.width <= sat_add(outer.x, outer.width)
    &&& outer.y <= inner.y
    &&& inner.y + inner.height <= sat_add(outer.y, outer.height)
}

pub fn centered_rect(percent_x: u16, height: u16, area: Rect) -> (r: Rect)
    requires
        percent_x <= 100,
    ensures
        centered_ok(percent_x, height, area, r),
        inside(r, area),
{
    let side = (100 - percent_x) / 2;
    let rows = three(Constraint::Min(0), Constraint::Length(height), Constraint::Min(0));
    let columns = three(Constraint::Percentage(side), Constraint::Percentage(percent_x), Constraint::Percentage(side));
    assert(rows@ == centered_rows(height));
    assert(columns@ == centered_columns(percent_x));
    let vertical = split(Direction::Vertical, &rows, 0, area);
    let horizontal = split(Direction::Horizontal, &columns, 0, vertical[1]);
    assert(split_shaped(true, centered_rows(height), area, vertical@) && split_shaped(
        false,
        centered_columns(percent_x),
        vertical@[1],
        horizontal@,
    ));
    let r = horizontal[1];
    assert(r == horizontal@[1]);
    assert(vertical@[1] == vertical[1]);
    r
}

/// The area of a dialog `height` rows high.
pub fn modal_rect(outer: Rect, height: u16) -> (r: Rect)
    ensures
        centered_ok(64, height, outer, r),
        inside(r, outer),
{
    centered_rect(64, height, outer)
}

/// The columns of the manager page.
#[derive(Clone, Copy, Debug, PartialEq, Eq)]
pub struct ManagerRegions {
    pub groups: Rect,
    pub hosts: Rect,
    pub details: Option<Rect>,
}

/// The manager page's columns: 24 cells for the groups, at least 20 for the
/// hosts and, with details, 34 for them.
pub open spec fn manager_columns(show_details: bool) -> Seq<Constraint> {
    if show_details {
        seq![Constraint::Length(24), Constraint::Min(20), Constraint::Length(34)]
    } else {
        seq![Constraint::Length(24), Constraint::Min(20)]
    }
}

/// The manager page's rows: a three-row header, the body, a two-row footer.
pub open spec fn manager_rows() -> Seq<Constraint> {
    seq![Constraint::Length(3), Constraint::Min(1), Constraint::Length(2)]
}

/// `r` may be the columns inside the manager's frame `area`: the split of
/// its inside by `manager_columns`, one cell apart: groups, hosts and, when
/// shown, details.
pub open spec fn manager_columns_ok(area: Rect, show_details: bool, r: ManagerRegions) -> bool {
    let inner = inner_of(area, 1, 1);
    exists|c: Seq<Rect>|
        #![trigger split_shaped(false, manager_columns(show_details), inner, c)]
        split_shaped(false, manager_columns(show_details), inner, c) && r.groups == c[0]
            && r.hosts == c[1] && r.details == (if show_details {
            Some(c[2])
        } else {
            None
        })
}

/// `r` may be the manager page's columns on a `width` by `height`
/// terminal: those of the body row of `manager_rows`, with details from 102
/// columns on.
pub open spec fn manager_regions_ok(width: u16, height: u16, r: ManagerRegions) -> bool {
    exists|outer: Seq<Rect>|
        #![trigger split_shaped(true, manager_rows(), Rect { x: 0, y: 0, width, height }, outer)]
        split_shaped(true, manager_rows(), Rect { x: 0, y: 0, width, height }, outer)
            && manager_columns_ok(outer[1], width >= 102, r)
}

pub fn manager_regions_from_area(area: Rect, show_details: bool) -> (r: ManagerRegions)
    ensures
        manager_columns_ok(area, show_details, r),
{
    let inner = area.inner(1, 1);
    if show_details {
        let columns = three(Constraint::Length(24), Constraint::Min(20), Constraint::Length(34));
        assert(columns@ == manager_columns(show_details));
        let c = split(Direction::Horizontal, &columns, 1, inner);
        let r = ManagerRegions { groups: c[0], hosts: c[1], details: Some(c[2]) };
        assert(split_shaped(false, manager_columns(show_details), inner_of(area, 1, 1), c@));
        r
    } else {
        let columns = two(Constraint::Length(24), Constraint::Min(20));
        assert(columns@ == manager_columns(show_details));
        let c = split(Direction::Horizontal, &columns, 1, inner);
        let r = ManagerRegions { groups: c[0], hosts: c[1], details: None };
        assert(split_shaped(false, manager_columns(show_details), inner_of(area, 1, 1), c@));
        r
    }
}

pub fn manager_regions(width: u16, height: u16) -> (r: ManagerRegions)
    ensures
        manager_regions_ok(width, height, r),
{
    let screen = Rect::new(0, 0, width, height);
    let rows = three(Constraint::Length(3), Constraint::Min(1), Constraint::Length(2));
    assert(rows@ == manager_rows());
    let outer = split(Direction::Vertical, &rows, 0, screen);
    let r = manager_regions_from_area(outer[1], width >= 102);
    assert(split_shaped(true, manager_rows(), Rect { x: 0, y: 0, width, height }, outer@));
    r
}

/// The group row at a cell: rows start inside the border.
pub open spec fn group_row_of(area: Rect, px: u16, py: u16) -> Option<usize> {
    let rows = inner_of(area, 1, 1);
    if contains_of(rows, px, py) {
        Some(sat_sub(py, rows.y) as usize)
    } else {
        None
    }
}

pub fn manager_group_row_at(area: Rect, px: u16, py: u16) -> (r: Option<usize>)
    ensures
        r == group_row_of(area, px, py),
{
    let rows = area.inner(1, 1);
    if rows.contains(px, py) {
        Some(sub_sat(py, rows.y) as usize)
    } else {
        None
    }
}

/// The host row at a cell: rows start inside the border, below the header
/// row.
pub open spec fn host_row_of(area: Rect, px: u16, py: u16) -> Option<usize> {
    let inner = inner_of(area, 1, 1);
    let rows = Rect {
        x: inner.x,
        y: sat_add(inner.y, 1),
        width: (sat_add(inner.x, inner.width) - inner.x) as u16,
        height: (sat_add(sat_add(inner.y, 1), sat_sub(inner.height, 1)) - sat_add(inner.y, 1)) as u16,
    };
    if contains_of(rows, px, py) {
        Some(sat_sub(py, rows.y) as usize)
    } else {
        None
    }
}

pub fn manager_host_row_at(area: Rect, px: u16, py: u16) -> (r: Option<usize>)
    ensures
        r == host_row_of(area, px, py),
{
    let inner = area.inner(1, 1);
    let rows = Rect::new(inner.x, add_sat(inner.y, 1), inner.width, sub_sat(inner.height, 1));
    if rows.contains(px, py) {
        Some(sub_sat(py, rows.y) as usize)
    } else {
        None
    }
}

/// The height of the edit form's dialog on a terminal `height` rows high:
/// up to 22 rows, two less than the terminal.
pub open spec fn form_height_of(height: u16) -> u16 {
    let h = sat_sub(height, 2);
    if h < 22 {
        h
    } else {
        22
    }
}

/// The field of the edit form at a cell, for the form's dialog `modal`:
/// inside a border and a padding cell, each field takes two rows and its
/// input starts 12 columns in.
pub open spec fn field_in(modal: Rect, px: u16, py: u16) -> Option<usize> {
    let inner = inner_of(modal, 2, 2);
    if px < sat_add(inner.x, 12) || px >= sat_add(inner.x, inner.width) || py < inner.y {
        None
    } else {
        let relative = (py - inner.y) as u16;
        let field = (relative / 2) as usize;
        if field < 8 && relative < inner.height {
            Some(field)
        } else {
            None
        }
    }
}

/// `r` may be the field of the edit form at a cell of a `width` by `height`
/// terminal: the field at that cell of a dialog placed as `modal_rect`
/// places it.
pub open spec fn form_field_ok(width: u16, height: u16, px: u16, py: u16, r: Option<usize>) -> bool {
    exists|modal: Rect|
        #![trigger centered_ok(64, form_height_of(height), Rect { x: 0, y: 0, width, height }, modal)]
        centered_ok(64, form_height_of(height), Rect { x: 0, y: 0, width, height }, modal) && r
            == field_in(modal, px, py)
}

pub fn edit_modal_field_at(width: u16, height: u16, px: u16, py: u16) -> (r: Option<usize>)
    ensures
        form_field_ok(width, height, px, py, r),
{
    let outer = Rect::new(0, 0, width, height);
    let h = sub_sat(height, 2);
    let modal = modal_rect(outer, if h < 22 { h } else { 22 });
    let inner = modal.inner(2, 2);
    let r = if px < add_sat(inner.x, 12) || px >= inner.right() {
        None
    } else if py < inner.y {
        None
    } else {
        let relative = py - inner.y;
        let field = (relative / 2) as usize;
        if field < 8 && relative < inner.height {
            Some(field)
        } else {
            None
        }
    };
    assert(r == field_in(modal, px, py));
    assert(centered_ok(64, form_height_of(height), Rect { x: 0, y: 0, width, height }, modal));
    r
}

/// The two panels of the SFTP workspace.
#[derive(Clone, Copy, Debug, PartialEq, Eq)]
pub struct SftpRegions {
    pub local: Rect,
    pub remote: Rect,
}

/// The body of the SFTP page on a `width` by `height` terminal: below the
/// three-row header.
pub open spec fn sftp_body_of(width: u16, height: u16) -> Rect {
    Rect { x: 0, y: 3, width, height: (sat_add(3, sat_sub(height, 3)) - 3) as u16 }
}

/// The SFTP page's rows: a two-row bar above and below the panels.
pub open spec fn sftp_rows() -> Seq<Constraint> {
    seq![Constraint::Length(2), Constraint::Min(3), Constraint::Length(2)]
}

/// The SFTP page's columns: half the width each.
pub open spec fn sftp_columns() -> Seq<Constraint> {
    seq![Constraint::Percentage(50), Constraint::Percentage(50)]
}

/// `r` may be the panels on a `width` by `height` terminal: the middle row
/// of the body's split by `sftp_rows`, a cell in from each edge, split by
/// `sftp_columns` one cell apart: local, then remote.
pub open spec fn sftp_regions_ok(width: u16, height: u16, r: SftpRegions) -> bool {
    exists|v: Seq<Rect>, p: Seq<Rect>|
        #![trigger split_shaped(true, sftp_rows(), sftp_body_of(width, height), v), split_shaped(false, sftp_columns(), inner_of(v[1], 1, 0), p)]
        split_shaped(true, sftp_rows(), sftp_body_of(width, height), v) && split_shaped(
            false,
            sftp_columns(),
            inner_of(v[1], 1, 0),
            p,
        ) && r == (SftpRegions { local: p[0], remote: p[1] })
}

pub fn sftp_regions(width: u16, height: u16) -> (r: SftpRegions)
    ensures
        sftp_regions_ok(width, height, r),
{
    let body = Rect::new(0, 3, width, sub_sat(height, 3));
    let rows = three(Constraint::Length(2), Constraint::Min(3), Constraint::Length(2));
    let columns = two(Constraint::Percentage(50), Constraint::Percentage(50));
    assert(rows@ == sftp_rows() && columns@ == sftp_columns());
    let vertical = split(Direction::Vertical, &rows, 0, body);
    let panels = split(Direction::Horizontal, &columns, 1, vertical[1].inner(1, 0));
    assert(split_shaped(true, sftp_rows(), sftp_body_of(width, height), vertical@));
    assert(split_shaped(false, sftp_columns(), inner_of(vertical@[1], 1, 0), panels@));
    SftpRegions { local: panels[0], remote: panels[1] }
}

} // verus!
