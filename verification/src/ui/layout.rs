//! The screen's zones: help, status line, ruler, the outline, editing and
//! project panes, and the tab bar.
use vstd::prelude::*;
use crate::app::App;
use crate::ui::dialogs::geometry::Rect;
use ratatui::layout::{Constraint, Direction, Layout};

verus! {

/// The direction in which an area is cut.
#[derive(Debug, Clone, Copy, PartialEq, Eq, Structural)]
pub enum Axis {
    /// Into rows, top to bottom.
    Vertical,
    /// Into columns, left to right.
    Horizontal,
}

/// How big a zone asks to be along the cut.
#[derive(Debug, Clone, Copy, PartialEq, Eq, Structural)]
pub enum Size {
    /// Exactly this many cells.
    Length(u16),
    /// At least this many cells, and all that the others leave.
    Min(u16),
}

/// Where `r` starts along the axis.
pub open spec fn start_on(r: Rect, axis: Axis) -> int {
    if axis == Axis::Vertical { r.y as int } else { r.x as int }
}

/// How long `r` is along the axis.
pub open spec fn extent_on(r: Rect, axis: Axis) -> int {
    if axis == Axis::Vertical { r.height as int } else { r.width as int }
}

/// `r` covers `area` across the axis: as wide as it for rows, as high as
/// it for columns.
pub open spec fn spans_across(r: Rect, area: Rect, axis: Axis) -> bool {
    if axis == Axis::Vertical {
        r.x == area.x && r.width == area.width
    } else {
        r.y == area.y && r.height == area.height
    }
}

/// The cells the sizes need at least: each length, and each minimum.
pub open spec fn needed(sizes: Seq<Size>) -> int
    decreases sizes.len(),
{
    if sizes.len() == 0 {
        0
    } else {
        needed(sizes.drop_last()) + match sizes.last() {
            Size::Length(n) => n as int,
            Size::Min(n) => n as int,
        }
    }
}

/// Exactly one zone stretches; the others have fixed lengths.
pub open spec fn one_stretching(sizes: Seq<Size>) -> bool {
    exists|m: int| 0 <= m < sizes.len() && sizes[m] is Min
        && forall|k: int| 0 <= k < sizes.len() && k != m ==> (#[trigger] sizes[k]) is Length
}

/// `area` lies within the coordinate range.
pub open spec fn fits_screen(area: Rect) -> bool {
    area.x + area.width <= u16::MAX && area.y + area.height <= u16::MAX
}

/// `ratatui::layout::Layout::split` of `area` along `axis` with one
/// `Constraint::Length` or `Constraint::Min` per size (the default
/// layout: no margin, no spacing, `Flex::Start`).  What the source fixes
/// for every outcome of its solver: one zone per size, each covering the
/// area across the axis (the area is passed as it is, so nothing is
/// clipped), each inside the area and after the one before it (the
/// solver's required constraints keep every edge within the area and in
/// order).  When the sizes fit, the constraints can all be met and the
/// solver's weighting has one optimum: the zones follow each other from
/// the area's start without gaps, each length is met exactly, and the
/// stretching zone takes the rest, up to the area's end.  Where they do
/// not fit, which edges give way is the solver's choice and not stated.
#[verifier::external_body]
fn split_area(area: Rect, axis: Axis, sizes: &Vec<Size>) -> (r: Vec<Rect>)
    requires
        fits_screen(area),
        one_stretching(sizes@),
    ensures
        r@.len() == sizes@.len(),
        forall|k: int| 0 <= k < r@.len() ==> {
            &&& spans_across(#[trigger] r@[k], area, axis)
            &&& start_on(area, axis) <= start_on(r@[k], axis)
            &&& start_on(r@[k], axis) + extent_on(r@[k], axis) <= start_on(area, axis) + extent_on(area, axis)
        },
        forall|j: int, k: int| 0 <= j < k < r@.len()
            ==> start_on(#[trigger] r@[j], axis) + extent_on(r@[j], axis) <= start_on(#[trigger] r@[k], axis),
        needed(sizes@) <= extent_on(area, axis) ==> {
            &&& start_on(r@[0], axis) == start_on(area, axis)
            &&& forall|j: int, k: int| 0 <= j && k == j + 1 && k < r@.len()
                ==> start_on(#[trigger] r@[k], axis) == start_on(#[trigger] r@[j], axis) + extent_on(r@[j], axis)
            &&& start_on(r@.last(), axis) + extent_on(r@.last(), axis) == start_on(area, axis) + extent_on(area, axis)
            &&& forall|k: int| 0 <= k < r@.len() && (#[trigger] sizes@[k]) is Length
                ==> extent_on(r@[k], axis) == sizes@[k]->Length_0
        },
{
    let constraints: Vec<Constraint> = sizes.iter().map(|s| match s {
        Size::Length(n) => Constraint::Length(*n),
        Size::Min(n) => Constraint::Min(*n),
    }).collect();
    let direction = match axis {
        Axis::Vertical => Direction::Vertical,
        Axis::Horizontal => Direction::Horizontal,
    };
    let outer = ratatui::layout::Rect { x: area.x, y: area.y, width: area.width, height: area.height };
    let zones = Layout::default().direction(direction).constraints(constraints).split(outer);
    zones.iter().map(|z| Rect { x: z.x, y: z.y, width: z.width, height: z.height }).collect()
}

/// Where each zone of the screen is; the panes and the tab bar only when
/// shown.
#[derive(Debug, Clone, Copy)]
pub struct LayoutAreas {
    pub help: Rect,
    pub status: Rect,
    pub ruler: Rect,
    pub outline: Option<Rect>,
    pub editor: Rect,
    pub project: Option<Rect>,
    pub tab_bar: Option<Rect>,
}

/// `r` spans the full width of `area`.
pub open spec fn spans_width(r: Rect, area: Rect) -> bool {
    r.x == area.x && r.width == area.width
}

/// The rows asked for: four help rows when help is shown.
pub open spec fn help_rows(a: App) -> int {
    if a.show_help { 4 } else { 0 }
}

/// One ruler row when the ruler is shown.
pub open spec fn ruler_rows(a: App) -> int {
    if a.show_ruler { 1 } else { 0 }
}

/// One tab bar row in a project.
pub open spec fn tab_rows(a: App) -> int {
    if a.project_name is Some { 1 } else { 0 }
}

/// 22 columns for the outline when it is shown.
pub open spec fn outline_cols(a: App) -> int {
    if a.show_outline { 22 } else { 0 }
}

/// 22 columns for the project pane when it is shown.
pub open spec fn project_cols(a: App) -> int {
    if a.show_project { 22 } else { 0 }
}

/// The rows of the screen lie inside it, top to bottom: help, status
/// line, ruler, the main row (where the editor is) and the tab bar; the
/// rows are as wide as the screen.  When the rows asked for fit (the main
/// row needs one), they follow each other from the top without gaps, with
/// the heights asked for, and the main row takes the rest.
pub open spec fn rows_laid_out(area: Rect, a: App, r: LayoutAreas) -> bool {
    let bottom = area.y + area.height;
    &&& spans_width(r.help, area) && spans_width(r.status, area) && spans_width(r.ruler, area)
    &&& area.y <= r.help.y
    &&& r.help.y + r.help.height <= r.status.y
    &&& r.status.y + r.status.height <= r.ruler.y
    &&& r.ruler.y + r.ruler.height <= r.editor.y
    &&& r.editor.y + r.editor.height <= bottom
    &&& r.tab_bar matches Some(t) ==> spans_width(t, area) && r.editor.y + r.editor.height <= t.y && t.y + t.height <= bottom
    &&& help_rows(a) + 1 + ruler_rows(a) + 1 + tab_rows(a) <= area.height ==> {
        &&& r.help.y == area.y && r.help.height == help_rows(a)
        &&& r.status.y == area.y + help_rows(a) && r.status.height == 1
        &&& r.ruler.y == r.status.y + 1 && r.ruler.height == ruler_rows(a)
        &&& r.editor.y == r.ruler.y + ruler_rows(a)
        &&& r.editor.height == area.height - help_rows(a) - 1 - ruler_rows(a) - tab_rows(a)
        &&& r.tab_bar matches Some(t) ==> t.y == r.editor.y + r.editor.height && t.height == 1
    }
}

/// The columns of the main row lie inside the screen, left to right: the
/// outline, the editor and the project pane, all as high as the editor.
/// When the columns asked for fit (the editor needs one), they follow each
/// other from the left without gaps, the panes 22 columns wide, and the
/// editor takes the rest.
pub open spec fn columns_laid_out(area: Rect, a: App, r: LayoutAreas) -> bool {
    let right = area.x + area.width;
    &&& area.x <= r.editor.x && r.editor.x + r.editor.width <= right
    &&& r.outline matches Some(o) ==> o.y == r.editor.y && o.height == r.editor.height && area.x <= o.x
        && o.x + o.width <= r.editor.x
    &&& r.project matches Some(p) ==> p.y == r.editor.y && p.height == r.editor.height
        && r.editor.x + r.editor.width <= p.x && p.x + p.width <= right
    &&& outline_cols(a) + 1 + project_cols(a) <= area.width ==> {
        &&& r.editor.x == area.x + outline_cols(a)
        &&& r.editor.width == area.width - outline_cols(a) - project_cols(a)
        &&& r.outline matches Some(o) ==> o.x == area.x && o.width == 22
        &&& r.project matches Some(p) ==> p.x == r.editor.x + r.editor.width && p.width == 22
    }
}

/// The zones of the screen: the rows and the main row's columns laid out
/// as [`rows_laid_out`] and [`columns_laid_out`] say; the panes are there
/// when shown, the tab bar in a project.
pub fn compute_layout(area: Rect, app: &App) -> (r: LayoutAreas)
    requires
        fits_screen(area),
    ensures
        r.tab_bar is Some <==> app.project_name is Some,
        r.outline is Some <==> app.show_outline,
        r.project is Some <==> app.show_project,
        rows_laid_out(area, *app, r),
        columns_laid_out(area, *app, r),
{
    let help_height: u16 = if app.show_help { 4 } else { 0 };
    let ruler_height: u16 = if app.show_ruler { 1 } else { 0 };
    let tab_bar_height: u16 = if app.project_name.is_some() { 1 } else { 0 };
    let row_sizes = vec![
        Size::Length(help_height),
        Size::Length(1),
        Size::Length(ruler_height),
        Size::Min(1),
        Size::Length(tab_bar_height),
    ];
    proof {
        assert(forall|k: int| 0 <= k < 5 && k != 3 ==> (#[trigger] row_sizes@[k]) is Length);
        assert(row_sizes@[3] is Min);
        reveal_with_fuel(needed, 6);
        assert(row_sizes@.drop_last().drop_last().drop_last().drop_last().drop_last() =~= Seq::<Size>::empty());
        assert(needed(row_sizes@) == help_height + 1 + ruler_height + 1 + tab_bar_height);
    }
    let rows = split_area(area, Axis::Vertical, &row_sizes);
    proof {
        assert(spans_across(rows@[3], area, Axis::Vertical));
        assert(start_on(rows@[3], Axis::Vertical) + extent_on(rows@[3], Axis::Vertical) <= area.y + area.height);
    }
    let outline_width: u16 = if app.show_outline { 22 } else { 0 };
    let project_width: u16 = if app.show_project { 22 } else { 0 };
    let col_sizes = vec![Size::Length(outline_width), Size::Min(1), Size::Length(project_width)];
    proof {
        assert(forall|k: int| 0 <= k < 3 && k != 1 ==> (#[trigger] col_sizes@[k]) is Length);
        assert(col_sizes@[1] is Min);
        reveal_with_fuel(needed, 4);
        assert(col_sizes@.drop_last().drop_last().drop_last() =~= Seq::<Size>::empty());
        assert(needed(col_sizes@) == outline_width + 1 + project_width);
    }
    let cols = split_area(rows[3], Axis::Horizontal, &col_sizes);
    proof {
        let v = Axis::Vertical;
        let h = Axis::Horizontal;
        assert(spans_across(rows@[0], area, v) && spans_across(rows@[1], area, v));
        assert(spans_across(rows@[2], area, v) && spans_across(rows@[4], area, v));
        assert(spans_across(cols@[0], rows@[3], h) && spans_across(cols@[1], rows@[3], h));
        assert(spans_across(cols@[2], rows@[3], h));
        assert(start_on(area, v) <= start_on(rows@[0], v));
        assert(start_on(rows@[0], v) + extent_on(rows@[0], v) <= start_on(rows@[1], v));
        assert(start_on(rows@[1], v) + extent_on(rows@[1], v) <= start_on(rows@[2], v));
        assert(start_on(rows@[2], v) + extent_on(rows@[2], v) <= start_on(rows@[3], v));
        assert(start_on(rows@[3], v) + extent_on(rows@[3], v) <= start_on(rows@[4], v));
        assert(start_on(rows@[4], v) + extent_on(rows@[4], v) <= start_on(area, v) + extent_on(area, v));
        assert(start_on(rows@[3], h) <= start_on(cols@[0], h));
        assert(start_on(cols@[0], h) + extent_on(cols@[0], h) <= start_on(cols@[1], h));
        assert(start_on(cols@[1], h) + extent_on(cols@[1], h) <= start_on(cols@[2], h));
        assert(start_on(cols@[2], h) + extent_on(cols@[2], h) <= start_on(rows@[3], h) + extent_on(rows@[3], h));
        if needed(row_sizes@) <= extent_on(area, v) {
            assert(start_on(rows@[1], v) == start_on(rows@[0], v) + extent_on(rows@[0], v));
            assert(start_on(rows@[2], v) == start_on(rows@[1], v) + extent_on(rows@[1], v));
            assert(start_on(rows@[3], v) == start_on(rows@[2], v) + extent_on(rows@[2], v));
            assert(start_on(rows@[4], v) == start_on(rows@[3], v) + extent_on(rows@[3], v));
            assert(row_sizes@[0] is Length && row_sizes@[1] is Length && row_sizes@[2] is Length);
            assert(row_sizes@[4] is Length);
            assert(rows@.last() == rows@[4]);
        }
        if needed(col_sizes@) <= extent_on(rows@[3], h) {
            assert(start_on(cols@[1], h) == start_on(cols@[0], h) + extent_on(cols@[0], h));
            assert(start_on(cols@[2], h) == start_on(cols@[1], h) + extent_on(cols@[1], h));
            assert(col_sizes@[0] is Length && col_sizes@[2] is Length);
            assert(cols@.last() == cols@[2]);
        }
    }
    assemble_layout(&rows, &cols, app.show_outline, app.show_project, app.project_name.is_some())
}

/// The zones from the rows and the main area's columns: the panes and the
/// tab bar only when shown.
pub fn assemble_layout(rows: &Vec<Rect>, cols: &Vec<Rect>, show_outline: bool, show_project: bool, has_project: bool) -> (r: LayoutAreas)
    requires
        rows@.len() == 5,
        cols@.len() == 3,
    ensures
        r.help == rows@[0],
        r.status == rows@[1],
        r.ruler == rows@[2],
        r.editor == cols@[1],
        r.outline == if show_outline { Some(cols@[0]) } else { None },
        r.project == if show_project { Some(cols@[2]) } else { None },
        r.tab_bar == if has_project { Some(rows@[4]) } else { None },
{
    LayoutAreas {
        help: rows[0],
        status: rows[1],
        ruler: rows[2],
        outline: if show_outline { Some(cols[0]) } else { None },
        editor: cols[1],
        project: if show_project { Some(cols[2]) } else { None },
        tab_bar: if has_project { Some(rows[4]) } else { None },
    }
}

} // verus!
