//! The decisions of drawing the screen: where the search box stands (a
//! band across the middle of the screen, cut out by `tui`'s constraint
//! layout), the border of each pane, and where the cursor is shown.

use vstd::prelude::*;
use tui::layout::{Constraint, Direction, Layout, Rect};

verus! {

/// A rectangle of terminal cells: its top left corner and its size.
#[derive(Debug, Clone, Copy, PartialEq, Eq, Structural)]
pub struct Area {
    pub x: u16,
    pub y: u16,
    pub width: u16,
    pub height: u16,
}

/// The direction an area is cut in: into rows one above the other, or
/// into columns side by side.
#[derive(Debug, Clone, Copy, PartialEq, Eq, Structural)]
pub enum Axis {
    Vertical,
    Horizontal,
}

/// The length of `area` along `axis`.
pub open spec fn extent(axis: Axis, area: Area) -> u16 {
    match axis {
        Axis::Vertical => area.height,
        Axis::Horizontal => area.width,
    }
}

/// Whether `area` can be cut along `axis` into parts of the percentages
/// `percents` without the layout failing: across the cut, the area ends
/// within the coordinate range, and each percentage times the length along
/// the cut fits in a `u16`.
pub open spec fn fits(axis: Axis, percents: Seq<u16>, area: Area) -> bool {
    &&& match axis {
        Axis::Vertical => area.x + area.width <= u16::MAX,
        Axis::Horizontal => area.y + area.height <= u16::MAX,
    }
    &&& forall|i: int| 0 <= i < percents.len() ==> #[trigger] percents[i] * extent(axis, area) <= u16::MAX
}

/// Cuts `area` along `axis` into parts of the percentages `percents`.
///
/// Trusted: calls `tui::layout::Layout::split` on a layout with that
/// direction, no margin and one `Constraint::Percentage` per entry of
/// `percents`. The contract claims only that there is one part per
/// constraint (the crate's source builds one result per constraint). Where
/// the parts lie is left unsaid: the crate solves the constraints with
/// floating-point numbers and truncates the solution to cells, and where
/// the percentages do not fill the area the solution it picks depends on
/// the order of hash maps, so two calls with the same arguments may cut
/// differently. Where the area ends past the coordinate range across the
/// cut, the crate's required constraints cannot be met and it panics, and
/// a percentage times the length is computed in `u16`: `requires` leaves
/// both out.
#[verifier::external_body]
fn split_area(axis: Axis, percents: Vec<u16>, area: Area) -> (parts: Vec<Area>)
    requires
        fits(axis, percents@, area),
    ensures
        parts@.len() == percents@.len(),
{
    let direction = match axis {
        Axis::Vertical => Direction::Vertical,
        Axis::Horizontal => Direction::Horizontal,
    };
    let constraints: Vec<Constraint> = percents.iter().map(|p| Constraint::Percentage(*p)).collect();
    let rect = Rect { x: area.x, y: area.y, width: area.width, height: area.height };
    let parts = Layout::default().direction(direction).constraints(constraints).split(rect);
    parts.iter().map(|p| Area { x: p.x, y: p.y, width: p.width, height: p.height }).collect()
}

/// The percentages of the rows of the search box's band: the band itself
/// (`percent`) between two margins of half the rest each, so that the box
/// stands in the middle.
pub open spec fn band_rows(percent: u16) -> Seq<u16> {
    let m = ((100 - percent) / 2) as u16;
    seq![m, percent, m]
}

/// The percentages of the columns of the search box: the box itself
/// (`percent`) between two margins of half the rest each.
pub open spec fn box_columns(percent: u16) -> Seq<u16> {
    let m = ((100 - percent) / 2) as u16;
    seq![m, percent, m]
}

/// Whether the area `a` lies within the area `r`.
pub open spec fn within(a: Area, r: Area) -> bool {
    &&& r.x <= a.x
    &&& r.y <= a.y
    &&& a.x + a.width <= r.x + r.width
    &&& a.y + a.height <= r.y + r.height
}

/// Whether the band `band` can be cut into the columns of a search box
/// `percent_x` of its width (see `fits`).
pub fn band_can_be_cut(percent_x: u16, band: Area) -> (b: bool)
    requires
        percent_x <= 100,
    ensures
        b == fits(Axis::Horizontal, box_columns(percent_x), band),
{
    let n = (100 - percent_x) / 2;
    let w = band.width as u32;
    assert(n * w <= 100 * 65535 && percent_x * w <= 100 * 65535) by (nonlinear_arith)
        requires
            n <= 100,
            percent_x <= 100,
            w <= 65535,
    ;
    let ghost c = box_columns(percent_x);
    assert(c[0] == n && c[1] == percent_x && c[2] == n);
    let ok = band.y as u32 + band.height as u32 <= 65535 && n as u32 * w <= 65535 && percent_x as u32
        * w <= 65535;
    proof {
        if ok {
            assert forall|i: int| 0 <= i < c.len() implies #[trigger] c[i] * extent(
                Axis::Horizontal,
                band,
            ) <= u16::MAX by {
                assert(i == 0 || i == 1 || i == 2);
            }
        } else {
            assert(c[0] * extent(Axis::Horizontal, band) == n * w);
            assert(c[1] * extent(Axis::Horizontal, band) == percent_x * w);
        }
    }
    ok
}

/// Whether the area `a` lies within the area `r` (see `within`).
pub fn lies_within(a: Area, r: Area) -> (b: bool)
    ensures
        b == within(a, r),
{
    r.x <= a.x && r.y <= a.y && a.x as u32 + a.width as u32 <= r.x as u32 + r.width as u32 && a.y as u32
        + a.height as u32 <= r.y as u32 + r.height as u32
}

/// Whether `r` can be cut into the rows of a search band `percent_y` of
/// its height (see `fits`).
pub fn rows_can_be_cut(percent_y: u16, r: Area) -> (b: bool)
    requires
        percent_y <= 100,
    ensures
        b == fits(Axis::Vertical, band_rows(percent_y), r),
{
    let m = (100 - percent_y) / 2;
    let h = r.height as u32;
    assert(m * h <= 100 * 65535 && percent_y * h <= 100 * 65535) by (nonlinear_arith)
        requires
            m <= 100,
            percent_y <= 100,
            h <= 65535,
    ;
    let ghost c = band_rows(percent_y);
    assert(c[0] == m && c[1] == percent_y && c[2] == m);
    let ok = r.x as u32 + r.width as u32 <= 65535 && m as u32 * h <= 65535 && percent_y as u32 * h
        <= 65535;
    proof {
        if ok {
            assert forall|i: int| 0 <= i < c.len() implies #[trigger] c[i] * extent(Axis::Vertical, r)
                <= u16::MAX by {
                assert(i == 0 || i == 1 || i == 2);
            }
        } else {
            assert(c[0] * extent(Axis::Vertical, r) == m * h);
            assert(c[1] * extent(Axis::Vertical, r) == percent_y * h);
        }
    }
    ok
}

/// The percentages of the rows of the search box's band (see
/// `band_rows`).
pub fn band_percents(percent_y: u16) -> (v: Vec<u16>)
    requires
        percent_y <= 100,
    ensures
        v@ == band_rows(percent_y),
{
    let m = (100 - percent_y) / 2;
    let v = vec![m, percent_y, m];
    assert(v@ =~= band_rows(percent_y));
    v
}

/// The percentages of the columns of the search box (see `box_columns`).
pub fn box_percents(percent_x: u16) -> (v: Vec<u16>)
    requires
        percent_x <= 100,
    ensures
        v@ == box_columns(percent_x),
{
    let n = (100 - percent_x) / 2;
    let v = vec![n, percent_x, n];
    assert(v@ =~= box_columns(percent_x));
    v
}

/// The middle of three parts: the band between its two margins.
pub fn middle_part(parts: &Vec<Area>) -> (a: Area)
    requires
        parts@.len() == 3,
    ensures
        a == parts@[1],
{
    parts[1]
}

/// The search box from the three columns its band is cut into: the middle
/// one, where it lies within `r`; `None` where it does not.
pub fn box_from_columns(parts: &Vec<Area>, r: Area) -> (out: Option<Area>)
    requires
        parts@.len() == 3,
    ensures
        out == (if within(parts@[1], r) {
            Some(parts@[1])
        } else {
            None
        }),
{
    let a = middle_part(parts);
    if lies_within(a, r) {
        Some(a)
    } else {
        None
    }
}

/// The search box in `r`: `r` is cut into rows of the percentages
/// `band_percents(percent_y)`, the middle row (`middle_part`) into columns
/// of the percentages `box_percents(percent_x)` where it can be
/// (`band_can_be_cut`), and the box is the middle column where it lies
/// within `r` (`box_from_columns`). `None` where the band cannot be cut or
/// the middle column does not lie within `r`.
///
/// Where the layout puts the rows and columns is its own to decide (see
/// `split_area`); what is promised of every outcome is that a box returned
/// lies within `r`.
pub fn search_rect(percent_x: u16, percent_y: u16, r: Area) -> (out: Option<Area>)
    requires
        percent_x <= 100,
        percent_y <= 100,
        fits(Axis::Vertical, band_rows(percent_y), r),
    ensures
        out matches Some(a) ==> within(a, r),
{
    let rows = split_area(Axis::Vertical, band_percents(percent_y), r);
    let band = middle_part(&rows);
    if !band_can_be_cut(percent_x, band) {
        return None;
    }
    let columns = split_area(Axis::Horizontal, box_percents(percent_x), band);
    box_from_columns(&columns, r)
}

/// The border drawn on a pane: on its top edge where it is below another
/// pane, else on its left edge where it is right of another, else none.
#[derive(Debug, Clone, Copy, PartialEq, Eq, Structural)]
pub enum PaneBorder {
    Plain,
    Left,
    Top,
}

/// The border of the pane at column `x`, row `y` (see `PaneBorder`).
pub fn pane_border(x: u16, y: u16) -> (b: PaneBorder)
    ensures
        b == (if y > 0 {
            PaneBorder::Top
        } else if x > 0 {
            PaneBorder::Left
        } else {
            PaneBorder::Plain
        }),
{
    let mut b = PaneBorder::Plain;
    if x > 0 {
        b = PaneBorder::Left;
    }
    if y > 0 {
        b = PaneBorder::Top;
    }
    b
}

/// The cursor in the search box `area` after `typed` bytes of search
/// text: past the text, inside the box's frame (the count taken as a
/// `u16`).
pub fn search_cursor(area: Area, typed: usize) -> (c: (u16, u16))
    requires
        area.x + (typed as u16) + 1 <= u16::MAX,
        area.y + 1 <= u16::MAX,
    ensures
        c == ((area.x + (typed as u16) + 1) as u16, (area.y + 1) as u16),
{
    let t = #[verifier::truncate] (typed as u16);
    (area.x + t + 1, area.y + 1)
}

/// The cursor of the pane at `pos` whose own cursor is at `vc`: shown, at
/// the pane's cursor, only where the pane is scrolled to its furthest
/// (`scroll` equals `max_scroll`).
pub fn pane_cursor(pos: (u16, u16), vc: (u16, u16), scroll: u16, max_scroll: u16) -> (c: Option<(u16, u16)>)
    requires
        scroll == max_scroll ==> pos.0 + vc.0 <= u16::MAX && pos.1 + vc.1 <= u16::MAX,
    ensures
        c == (if scroll == max_scroll {
            Some(((pos.0 + vc.0) as u16, (pos.1 + vc.1) as u16))
        } else {
            None
        }),
{
    if scroll == max_scroll {
        Some((pos.0 + vc.0, pos.1 + vc.1))
    } else {
        None
    }
}

} // verus!
