//! Sizes and scales that the file list is drawn with.
use vstd::prelude::*;
use crate::tree::DirNode;
use ratatui::layout::{Constraint, Direction, Layout, Rect};

verus! {

/// The widest the path in the panel title may be for a panel `area_width`
/// columns wide: eight columns go to the frame and the icon, but at least 34
/// are allowed.
pub fn title_width(area_width: u16) -> (w: usize)
    ensures
        w == if area_width >= 42 { area_width - 8 } else { 34 },
{
    let w = (area_width as usize).saturating_sub(8);
    if w > 34 { w } else { 34 }
}

/// The width of the name column for a panel `area_width` columns wide: the
/// borders, size, bar, icon and highlight take 29 columns, but at least 10
/// are left for the name.
pub fn name_width(area_width: u16) -> (w: usize)
    ensures
        w == if area_width >= 39 { area_width - 29 } else { 10 },
{
    let w = (area_width as usize).saturating_sub(29);
    if w > 10 { w } else { 10 }
}

/// The size that fills a whole bar: that of the first row when it is not
/// empty, else 1.
pub fn bar_scale(rows: &Vec<&DirNode>) -> (scale: u64)
    ensures
        scale == if rows@.len() > 0 && rows@[0].size > 0 { rows@[0].size } else { 1 },
        scale > 0,
{
    if rows.len() > 0 && rows[0].size > 0 {
        rows[0].size
    } else {
        1
    }
}

/// A rectangle of terminal cells.
#[derive(Debug, Clone, Copy, PartialEq, Eq, Structural)]
pub struct Area {
    pub x: u16,
    pub y: u16,
    pub width: u16,
    pub height: u16,
}

/// The sum of a sequence of percentages.
pub open spec fn percent_total(percents: Seq<u16>) -> int
    decreases percents.len(),
{
    if percents.len() == 0 {
        0
    } else {
        percent_total(percents.drop_last()) + percents.last()
    }
}

/// `part` lies inside `area` along the direction of a split (top to bottom
/// when `vertical`, else left to right) and spans all of `area` across it.
pub open spec fn lies_within(part: Area, area: Area, vertical: bool) -> bool {
    if vertical {
        &&& part.x == area.x
        &&& part.width == area.width
        &&& area.y <= part.y
        &&& part.y + part.height <= area.y + area.height
    } else {
        &&& part.y == area.y
        &&& part.height == area.height
        &&& area.x <= part.x
        &&& part.x + part.width <= area.x + area.width
    }
}

/// The parts that `ratatui` gives when it splits `area` (top to bottom when
/// `vertical`, else left to right) by the percentages `percents`, these adding
/// up to at most 100.
pub uninterp spec fn split_parts(area: Area, vertical: bool, percents: Seq<u16>) -> Seq<Area>;

/// Calls `ratatui::layout::Layout::split` with the direction and one
/// percentage constraint per entry of `percents`, and hands back the parts.
/// The parts are whatever that constraint solver computes for these
/// arguments; the contract says only that there is one part per constraint
/// and that each lies inside `area` (the solver's required constraints keep
/// every boundary between the area's two ends, and the rounding to cells
/// keeps them there), with the cross axis copied from `area`. The
/// percentages must add up to at most 100: then each is met exactly and the
/// layout is unique, whereas for larger sums the solver's choice among
/// equally good layouts depends on the order in which it walks randomly
/// seeded hash maps.
#[verifier::external_body]
fn split_by_percent(area: Area, vertical: bool, percents: &Vec<u16>) -> (parts: Vec<Area>)
    requires
        percent_total(percents@) <= 100,
    ensures
        parts@ == split_parts(area, vertical, percents@),
        parts@.len() == percents@.len(),
        forall|i: int| 0 <= i < parts@.len() ==> lies_within(#[trigger] parts@[i], area, vertical),
{
    let rect = Rect { x: area.x, y: area.y, width: area.width, height: area.height };
    let direction = if vertical { Direction::Vertical } else { Direction::Horizontal };
    let constraints: Vec<Constraint> = percents.iter().map(|p| Constraint::Percentage(*p)).collect();
    let parts = Layout::default().direction(direction).constraints(constraints).split(rect);
    parts.iter().map(|r| Area { x: r.x, y: r.y, width: r.width, height: r.height }).collect()
}

/// The rectangle `percent_x` wide and `percent_y` high (in percent of `r`)
/// centred in `r`: the middle row of a vertical split, then the middle
/// column of that. It lies inside `r`.
pub fn centered_rect(percent_x: u16, percent_y: u16, r: Area) -> (c: Area)
    requires
        percent_x <= 100,
        percent_y <= 100,
    ensures
        c == split_parts(
            split_parts(
                r,
                true,
                seq![((100 - percent_y) / 2) as u16, percent_y, ((100 - percent_y) / 2) as u16],
            )[1],
            false,
            seq![((100 - percent_x) / 2) as u16, percent_x, ((100 - percent_x) / 2) as u16],
        )[1],
        r.x <= c.x,
        c.x + c.width <= r.x + r.width,
        r.y <= c.y,
        c.y + c.height <= r.y + r.height,
{
    let outer_y = (100 - percent_y) / 2;
    let rows_percents = vec![outer_y, percent_y, outer_y];
    assert(rows_percents@ =~= seq![outer_y, percent_y, outer_y]);
    assert(percent_total(rows_percents@) == 2 * outer_y + percent_y) by {
        reveal_with_fuel(percent_total, 4);
        assert(rows_percents@.drop_last() =~= seq![outer_y, percent_y]);
        assert(rows_percents@.drop_last().drop_last() =~= seq![outer_y]);
        assert(rows_percents@.drop_last().drop_last().drop_last() =~= Seq::<u16>::empty());
    }
    let rows = split_by_percent(r, true, &rows_percents);
    let row = rows[1];
    let outer_x = (100 - percent_x) / 2;
    let cols_percents = vec![outer_x, percent_x, outer_x];
    assert(cols_percents@ =~= seq![outer_x, percent_x, outer_x]);
    assert(percent_total(cols_percents@) == 2 * outer_x + percent_x) by {
        reveal_with_fuel(percent_total, 4);
        assert(cols_percents@.drop_last() =~= seq![outer_x, percent_x]);
        assert(cols_percents@.drop_last().drop_last() =~= seq![outer_x]);
        assert(cols_percents@.drop_last().drop_last().drop_last() =~= Seq::<u16>::empty());
    }
    let cols = split_by_percent(row, false, &cols_percents);
    assert(lies_within(rows@[1], r, true));
    assert(lies_within(cols@[1], row, false));
    cols[1]
}

/// The file list and the sidebar of marked entries side by side in `area`,
/// seven tenths and three tenths of its width. They are laid out above the
/// status line; the list keeps the full height, as it leaves that line free
/// itself.
pub fn sidebar_split(area: Area) -> (split: (Area, Area))
    ensures
        ({
            let above = Area { height: if area.height >= 1 { (area.height - 1) as u16 } else { 0 }, ..area };
            let parts = split_parts(above, false, seq![70u16, 30u16]);
            split.0 == Area { height: area.height, ..parts[0] } && split.1 == parts[1]
        }),
        area.x <= split.0.x,
        split.1.x + split.1.width <= area.x + area.width,
        split.0.y == area.y && split.1.y == area.y,
{
    let above = Area { height: area.height.saturating_sub(1), ..area };
    let percents = vec![70u16, 30u16];
    assert(percents@ =~= seq![70u16, 30u16]);
    assert(percent_total(percents@) == 100) by {
        reveal_with_fuel(percent_total, 3);
        assert(percents@.drop_last() =~= seq![70u16]);
        assert(percents@.drop_last().drop_last() =~= Seq::<u16>::empty());
    }
    let parts = split_by_percent(above, false, &percents);
    assert(lies_within(parts@[0], above, false));
    assert(lies_within(parts@[1], above, false));
    (Area { height: area.height, ..parts[0] }, parts[1])
}

} // verus!
