//! How an area of the screen is divided.

use vstd::prelude::*;

use crate::style::Rect;

verus! {

/// How much of an area a part takes.
#[derive(Clone, Copy, Debug, PartialEq, Eq, Structural)]
pub enum Part {
    Percent(u16),
    Length(u16),
    Min(u16),
}

/// How long an area is in the direction of a division.
pub open spec fn extent(area: Rect, down: bool) -> int {
    if down {
        area.height as int
    } else {
        area.width as int
    }
}

/// Whether an area ends where there still are coordinates.
pub open spec fn fits(area: Rect, down: bool) -> bool {
    if down {
        area.y + area.height <= u16::MAX
    } else {
        area.x + area.width <= u16::MAX
    }
}

/// The part of an area from one place to another, counted from where it begins.
pub open spec fn piece(area: Rect, down: bool, from: int, to: int) -> Rect {
    if down {
        Rect {
            x: area.x,
            y: (area.y + from) as u16,
            width: area.width,
            height: (to - from) as u16,
        }
    } else {
        Rect {
            x: (area.x + from) as u16,
            y: area.y,
            width: (to - from) as u16,
            height: area.height,
        }
    }
}

/// Whether an area lies across another, from side to side of the direction of a
/// division.
pub open spec fn across(area: Rect, down: bool, part: Rect) -> bool {
    if down {
        part.x == area.x && part.width == area.width
    } else {
        part.y == area.y && part.height == area.height
    }
}

/// Whether an area begins and ends within another, in the direction of a
/// division.
pub open spec fn within(area: Rect, down: bool, part: Rect) -> bool {
    if down {
        area.y <= part.y && part.y + part.height <= area.y + area.height
    } else {
        area.x <= part.x && part.x + part.width <= area.x + area.width
    }
}

/// So many percent of a size, rounded, a half upwards.
pub open spec fn share(size: int, percent: int) -> int {
    (size * percent + 50) / 100
}

/// What the first `n` parts take, in percent, where all are given in percent.
pub open spec fn percent_of(parts: Seq<Part>, n: int) -> int
    decreases n,
{
    if n <= 0 {
        0
    } else {
        percent_of(parts, n - 1) + parts[n - 1]->Percent_0
    }
}

/// Whether all parts are given in percent, and are no more than the whole.
pub open spec fn in_percent(parts: Seq<Part>) -> bool {
    &&& forall|i: int| 0 <= i < parts.len() ==> (#[trigger] parts[i]) is Percent
    &&& percent_of(parts, parts.len() as int) <= 100
}

/// Whether the parts are two of a length with one between them of a least
/// length.
pub open spec fn framed(parts: Seq<Part>) -> bool {
    &&& parts.len() == 3
    &&& parts[0] is Length
    &&& parts[1] is Min
    &&& parts[2] is Length
    &&& parts[1]->Min_0 <= i16::MAX
}

/// How much all the parts of such a frame ask for.
pub open spec fn frame_size(parts: Seq<Part>) -> int {
    parts[0]->Length_0 + parts[1]->Min_0 + parts[2]->Length_0
}

/// Whether all areas lie across another.
pub open spec fn all_across(area: Rect, down: bool, r: Seq<Rect>) -> bool {
    forall|i: int| 0 <= i < r.len() ==> across(area, down, #[trigger] r[i])
}

/// Whether all areas begin and end within another.
pub open spec fn all_within(area: Rect, down: bool, r: Seq<Rect>) -> bool {
    forall|i: int| 0 <= i < r.len() ==> within(area, down, #[trigger] r[i])
}

/// Whether the areas are those of parts in percent, one after the other.
pub open spec fn follow_on(area: Rect, down: bool, parts: Seq<Part>, r: Seq<Rect>) -> bool {
    forall|i: int|
        0 <= i < r.len() ==> #[trigger] r[i] == piece(
            area,
            down,
            share(extent(area, down), percent_of(parts, i)),
            share(extent(area, down), percent_of(parts, i + 1)),
        )
}

/// Whether the areas are those of two parts of a length and of one between them
/// that takes the rest.
pub open spec fn frame(area: Rect, down: bool, parts: Seq<Part>, r: Seq<Rect>) -> bool {
    let first = parts[0]->Length_0 as int;
    let last = extent(area, down) - parts[2]->Length_0;
    &&& r[0] == piece(area, down, 0, first)
    &&& r[1] == piece(area, down, first, last)
    &&& r[2] == piece(area, down, last, extent(area, down))
}

/// Whether the areas are those of two parts of a length and of one between them,
/// where there is no room for all: the one between them gets what it asks for, as
/// far as there is room at all, and what is left is divided between the others.
pub open spec fn crowded(area: Rect, down: bool, parts: Seq<Part>, r: Seq<Rect>) -> bool {
    let size = extent(area, down);
    let least = if parts[1]->Min_0 <= size {
        parts[1]->Min_0 as int
    } else {
        size
    };
    exists|first: int|
        #![trigger piece(area, down, 0, first)]
        {
            &&& 0 <= first <= parts[0]->Length_0
            &&& 0 <= size - least - first <= parts[2]->Length_0
            &&& r[0] == piece(area, down, 0, first)
            &&& r[1] == piece(area, down, first, first + least)
            &&& r[2] == piece(area, down, first + least, size)
        }
}

/// `ratatui::layout::Layout::split`: divides an area into parts, one below the
/// other or side by side. There are as many areas as parts, each lies across
/// the whole, and none leaves it. Parts in percent of the whole that are no
/// more than the whole follow on one another, and where one ends is rounded.
/// Of two parts of a length with a least length between them, each gets its
/// length where there is room, and the one between them gets the rest. Where
/// there is no room, the least length comes first, and the two lengths share
/// what is left.
///
/// How they share it, a solver of weighted constraints decides. It goes through
/// hash maps that are seeded anew in each process, so that its choice between
/// equals is no function of the arguments, and is left unsaid. So are other
/// parts for which there is no room, and an area that ends beyond the largest
/// coordinate.
#[verifier::external_body]
fn split(area: Rect, down: bool, parts: &Vec<Part>) -> (r: Vec<Rect>)
    ensures
        r@.len() == parts@.len(),
        all_across(area, down, r@),
        fits(area, down) ==> all_within(area, down, r@),
        fits(area, down) && in_percent(parts@) ==> follow_on(area, down, parts@, r@),
        fits(area, down) && framed(parts@) && frame_size(parts@) <= extent(area, down) ==> frame(
            area,
            down,
            parts@,
            r@,
        ),
        fits(area, down) && framed(parts@) && frame_size(parts@) > extent(area, down) ==> crowded(
            area,
            down,
            parts@,
            r@,
        ),
{
    let constraints = parts.iter().map(|p| match p {
        Part::Percent(n) => ratatui::layout::Constraint::Percentage(*n),
        Part::Length(n) => ratatui::layout::Constraint::Length(*n),
        Part::Min(n) => ratatui::layout::Constraint::Min(*n),
    });
    let layout = if down {
        ratatui::layout::Layout::vertical(constraints)
    } else {
        ratatui::layout::Layout::horizontal(constraints)
    };
    let whole = ratatui::layout::Rect { x: area.x, y: area.y, width: area.width, height: area.height };
    let areas = layout.split(whole);
    areas.iter().map(|a| Rect { x: a.x, y: a.y, width: a.width, height: a.height }).collect()
}

/// The areas of the screen: the path of the root, the tree, the status.
#[derive(Clone, Copy, Debug, PartialEq, Eq, Structural)]
pub struct Areas {
    pub header: Rect,
    pub list: Rect,
    pub status: Rect,
}

/// Divides the screen: one line at the top, one at the bottom, and the tree
/// between them. On a screen of two lines one of the other two is missing, and
/// which one is left open; a single line is the tree's.
pub fn frame_areas(area: Rect) -> (r: Areas)
    ensures
        across(area, true, r.header) && across(area, true, r.list) && across(area, true, r.status),
        fits(area, true) && area.height >= 3 ==> {
            &&& r.header == piece(area, true, 0, 1)
            &&& r.list == piece(area, true, 1, area.height - 1)
            &&& r.status == piece(area, true, area.height - 1, area.height as int)
        },
        fits(area, true) && area.height == 2 ==> {
            ||| r.header == piece(area, true, 0, 1) && r.list == piece(area, true, 1, 2)
                && r.status == piece(area, true, 2, 2)
            ||| r.header == piece(area, true, 0, 0) && r.list == piece(area, true, 0, 1)
                && r.status == piece(area, true, 1, 2)
        },
        fits(area, true) && area.height <= 1 ==> {
            &&& r.header == piece(area, true, 0, 0)
            &&& r.list == area
            &&& r.status == piece(area, true, area.height as int, area.height as int)
        },
{
    let mut parts: Vec<Part> = Vec::new();
    parts.push(Part::Length(1));
    parts.push(Part::Min(1));
    parts.push(Part::Length(1));
    let v = split(area, true, &parts);
    Areas { header: v[0], list: v[1], status: v[2] }
}

/// What is left of a whole around its middle, on one side, in percent.
pub open spec fn margin(percent: u16) -> int {
    (100 - percent) / 2
}

/// The middle of an area in one direction, so many percent of it.
pub open spec fn middle(area: Rect, down: bool, percent: u16) -> Rect {
    piece(
        area,
        down,
        share(extent(area, down), margin(percent)),
        share(extent(area, down), margin(percent) + percent),
    )
}

/// The middle of an area in one direction.
fn middle_part(area: Rect, down: bool, percent: u16) -> (r: Rect)
    requires
        percent <= 100,
    ensures
        across(area, down, r),
        fits(area, down) ==> within(area, down, r) && r == middle(area, down, percent),
{
    let side: u16 = (100 - percent) / 2;
    let mut parts: Vec<Part> = Vec::new();
    parts.push(Part::Percent(side));
    parts.push(Part::Percent(percent));
    parts.push(Part::Percent(side));
    proof {
        reveal_with_fuel(percent_of, 4);
    }
    assert(in_percent(parts@));
    let v = split(area, down, &parts);
    v[1]
}

/// The middle of an area: so much of its width, and so much of its height, in
/// percent.
pub fn centered_rect(area: Rect, percent_x: u16, percent_y: u16) -> (r: Rect)
    requires
        percent_x <= 100,
        percent_y <= 100,
    ensures
        fits(area, true) ==> within(area, true, r),
        fits(area, false) ==> within(area, false, r),
        fits(area, true) && fits(area, false) ==> r == middle(
            middle(area, true, percent_y),
            false,
            percent_x,
        ),
{
    let band = middle_part(area, true, percent_y);
    middle_part(band, false, percent_x)
}

} // verus!
