//! Where the panels stand on the screen, and the list of recent directories
//! above them.

use vstd::prelude::*;
use vstd::string::*;

use crate::ipc::RecentDirEntry;
use crate::text::{chars_of, concat2, concat3, string_of, sub_chars};
use crate::tui::app::{App, ModalView};
use crate::tui::detail::{desired_height, wanted_height};
use crate::tui::view::{
    bold, bold_span, lines_view, plain, plain_span, spans_of, styled, Color, Span, SpanView,
};

verus! {

/// A part of the screen.
#[derive(Clone, Copy, Debug, PartialEq, Eq, Structural)]
pub struct Rect {
    pub x: u16,
    pub y: u16,
    pub width: u16,
    pub height: u16,
}

/// How much of an area a part of it gets.
#[derive(Clone, Copy, Debug, PartialEq, Eq, Structural)]
pub enum Part {
    /// That much.
    Length(u16),
    /// At least that much.
    Min(u16),
}

/// How much parts ask for at least.
pub open spec fn asked(parts: Seq<Part>) -> int
    decreases parts.len(),
{
    if parts.len() == 0 {
        0
    } else {
        asked(parts.drop_last()) + (match parts.last() {
            Part::Length(n) => n as int,
            Part::Min(n) => n as int,
        })
    }
}

/// Where an area begins, from top to bottom or from left to right.
pub open spec fn start_in(vertical: bool, area: Rect) -> int {
    if vertical {
        area.y as int
    } else {
        area.x as int
    }
}

/// How far an area goes, from top to bottom or from left to right.
pub open spec fn extent_in(vertical: bool, area: Rect) -> int {
    if vertical {
        area.height as int
    } else {
        area.width as int
    }
}

/// How much of an area there is to divide: all of it, up to the last coordinate.
pub open spec fn room_in(vertical: bool, area: Rect) -> int {
    let start = start_in(vertical, area);
    least(start + extent_in(vertical, area), u16::MAX as int) - start
}

/// Whether one of the parts, and no other, takes what is left.
pub open spec fn one_grows(parts: Seq<Part>) -> bool {
    exists|k: int|
        0 <= k < parts.len() && #[trigger] parts[k] is Min && forall|j: int|
            0 <= j < parts.len() && j != k ==> #[trigger] parts[j] is Length
}

/// Whether parts can be had from an area: one of them, and no other, takes what
/// is left, and there is enough for all.
pub open spec fn fits(vertical: bool, parts: Seq<Part>, area: Rect) -> bool {
    one_grows(parts) && asked(parts) <= room_in(vertical, area)
}

/// Whether areas follow each other from the beginning of an area to its end.
pub open spec fn tiled(vertical: bool, areas: Seq<Rect>, area: Rect) -> bool {
    &&& areas.len() > 0
    &&& start_in(vertical, areas[0]) == start_in(vertical, area)
    &&& forall|k: int, j: int|
        0 <= k && j == k + 1 && j < areas.len() ==> start_in(vertical, #[trigger] areas[k])
            + extent_in(vertical, areas[k]) == start_in(vertical, #[trigger] areas[j])
    &&& start_in(vertical, areas.last()) + extent_in(vertical, areas.last()) == start_in(
        vertical,
        area,
    ) + room_in(vertical, area)
}

/// Whether a part got what is due to it where there is not enough for all: the
/// one that takes what is left has its least extent first, unless that is more
/// than the division can hold, and none of the others has more than its length.
pub open spec fn rationed(vertical: bool, part: Part, got: Rect, area: Rect) -> bool {
    match part {
        Part::Length(n) => extent_in(vertical, got) <= n,
        Part::Min(n) => n <= i16::MAX ==> extent_in(vertical, got) == least(
            n as int,
            room_in(vertical, area),
        ),
    }
}

/// The extent of a part where `spare` is left.
pub open spec fn extent_of(part: Part, spare: int) -> int {
    match part {
        Part::Length(n) => n as int,
        Part::Min(n) => n + spare,
    }
}

/// Where a part begins, seen from the beginning of the area.
pub open spec fn offset_of(parts: Seq<Part>, spare: int, k: int) -> int
    decreases k,
{
    if k <= 0 {
        0
    } else {
        offset_of(parts, spare, k - 1) + extent_of(parts[k - 1], spare)
    }
}

/// A part of an area that fits: the parts follow each other, each has its length,
/// and the one that takes what is left has the rest.
pub open spec fn divided(vertical: bool, parts: Seq<Part>, area: Rect, k: int) -> Rect {
    let spare = room_in(vertical, area) - asked(parts);
    let offset = offset_of(parts, spare, k);
    let size = extent_of(parts[k], spare);
    if vertical {
        Rect { y: (area.y + offset) as u16, height: size as u16, ..area }
    } else {
        Rect { x: (area.x + offset) as u16, width: size as u16, ..area }
    }
}

/// Divides an area from top to bottom or from left to right by
/// `ratatui::layout::Layout::split`. There is one area for each part, in their
/// order, and each has the whole extent of the divided area across the direction
/// of the division. Where the parts fit, one of them takes what is left and the
/// others have their lengths, without gaps. Of up to three parts, where they do
/// not fit, the areas still fill the whole one without gaps; the part that takes
/// what is left comes first, with its least extent, and none of the others has
/// more than its length. How the others share is left open: a solver decides.
#[verifier::external_body]
fn split_area(vertical: bool, parts: &Vec<Part>, area: Rect) -> (r: Vec<Rect>)
    ensures
        r@.len() == parts@.len(),
        forall|k: int|
            0 <= k < r@.len() ==> if vertical {
                (#[trigger] r@[k]).x == area.x && r@[k].width == area.width
            } else {
                r@[k].y == area.y && r@[k].height == area.height
            },
        fits(vertical, parts@, area) ==> forall|k: int|
            0 <= k < r@.len() ==> #[trigger] r@[k] == divided(vertical, parts@, area, k),
        one_grows(parts@) && parts@.len() <= 3 ==> tiled(vertical, r@, area),
        one_grows(parts@) && parts@.len() <= 3 && !fits(vertical, parts@, area) ==> forall|k: int|
            0 <= k < r@.len() ==> rationed(vertical, parts@[k], #[trigger] r@[k], area),
{
    let limits = parts.iter().map(|part| match part {
        Part::Length(n) => ratatui::layout::Constraint::Length(*n),
        Part::Min(n) => ratatui::layout::Constraint::Min(*n),
    });
    let direction = match vertical {
        true => ratatui::layout::Direction::Vertical,
        false => ratatui::layout::Direction::Horizontal,
    };
    let Rect { x, y, width, height } = area;
    let whole = ratatui::layout::Rect { x, y, width, height };
    let areas = ratatui::layout::Layout::new(direction, limits).split(whole);
    areas.iter().map(|a| Rect { x: a.x, y: a.y, width: a.width, height: a.height }).collect()
}

/// A number less another, at least none.
pub open spec fn less(a: int, b: int) -> int {
    if a > b {
        a - b
    } else {
        0
    }
}

/// The smaller of two numbers.
pub open spec fn least(a: int, b: int) -> int {
    if a < b {
        a
    } else {
        b
    }
}

/// What is inside the border of an area.
pub open spec fn inside(area: Rect) -> Rect {
    Rect {
        x: least(least(area.x + 1, u16::MAX as int), least(area.x + area.width, u16::MAX as int)) as u16,
        y: least(least(area.y + 1, u16::MAX as int), least(area.y + area.height, u16::MAX as int)) as u16,
        width: less(area.width as int, 2) as u16,
        height: less(area.height as int, 2) as u16,
    }
}

/// What is inside the border of an area, by `ratatui::widgets::Block::inner` of a
/// block with borders on all sides: one row or column less on each side, as far
/// as there are any.
#[verifier::external_body]
fn inner_of_border(area: Rect) -> (r: Rect)
    ensures
        r == inside(area),
{
    let Rect { x, y, width, height } = area;
    let whole = ratatui::layout::Rect { x, y, width, height };
    let a = ratatui::widgets::Block::bordered().inner(whole);
    Rect { x: a.x, y: a.y, width: a.width, height: a.height }
}

/// Whether the screen is large enough for the panels.
pub open spec fn large_enough(area: Rect) -> bool {
    area.width >= 40 && area.height >= 10
}

/// The height of the detail panel in an area: what it would like to have, as
/// long as the list keeps four rows.
pub open spec fn detail_height_in(wanted: nat, area: Rect) -> nat {
    let room = if area.height > 5 {
        (area.height - 4) as nat
    } else {
        1
    };
    if wanted < room {
        wanted
    } else {
        room
    }
}

/// The height of the detail panel in the area of the panels.
pub fn detail_height(app: &App, main_area: Rect) -> (r: u16)
    ensures
        r == detail_height_in(wanted_height(app@, main_area.width), main_area),
{
    let room: u16 = if main_area.height > 5 {
        main_area.height - 4
    } else {
        1
    };
    let wanted: u16 = desired_height(app, main_area.width);
    if wanted < room {
        wanted
    } else {
        room
    }
}

/// Where the panels stand.
pub struct ScreenAreas {
    pub list: Rect,
    pub detail: Rect,
    pub status: Rect,
}

/// The parts of the screen from top to bottom: at least one row for the panels,
/// and one row for the status bar.
pub fn screen_parts() -> (r: Vec<Part>)
    ensures
        r@ == seq![Part::Min(1), Part::Length(1)],
{
    let mut parts: Vec<Part> = Vec::new();
    parts.push(Part::Min(1));
    parts.push(Part::Length(1));
    assert(parts@ =~= seq![Part::Min(1), Part::Length(1)]);
    parts
}

/// The parts of the area of the panels from top to bottom: at least one row for
/// the list, and the height of the details.
pub fn panel_parts(app: &App, main_area: Rect) -> (r: Vec<Part>)
    ensures
        r@ == seq![
            Part::Min(1),
            Part::Length(
                detail_height_in(wanted_height(app@, main_area.width), main_area) as u16,
            ),
        ],
{
    let mut parts: Vec<Part> = Vec::new();
    parts.push(Part::Min(1));
    parts.push(Part::Length(detail_height(app, main_area)));
    assert(parts@ =~= seq![
        Part::Min(1),
        Part::Length(detail_height_in(wanted_height(app@, main_area.width), main_area) as u16),
    ]);
    parts
}

/// The parts of the list of recent directories from top to bottom: two rows above
/// the lines, at least one row for them, and one row below.
pub fn modal_parts() -> (r: Vec<Part>)
    ensures
        r@ == seq![Part::Length(2), Part::Min(1), Part::Length(1)],
{
    let mut parts: Vec<Part> = Vec::new();
    parts.push(Part::Length(2));
    parts.push(Part::Min(1));
    parts.push(Part::Length(1));
    assert(parts@ =~= seq![Part::Length(2), Part::Min(1), Part::Length(1)]);
    parts
}

/// The height of the status bar on a screen: one row, where there are two.
pub open spec fn bar_height(area: Rect) -> int {
    if room_in(true, area) >= 2 {
        1
    } else {
        0
    }
}

/// The part of a screen above the status bar.
pub open spec fn panel_area(area: Rect) -> Rect {
    Rect { height: (room_in(true, area) - bar_height(area)) as u16, ..area }
}

/// The height of the details above the status bar: what is due to them, as long
/// as the list keeps a row.
pub open spec fn shown_height(due: nat, panels: Rect) -> int {
    least(due as int, less(panels.height as int, 1))
}

/// Where the panels stand on a screen, if it is large enough: the list above the
/// details, both above one row for the status bar, each over the whole width. The
/// details have the height that is due to them, and the list has the rest.
pub fn screen_areas(app: &App, area: Rect) -> (r: Option<ScreenAreas>)
    ensures
        r is Some <==> large_enough(area),
        r matches Some(a) ==> {
            let panels = panel_area(area);
            let due = detail_height_in(wanted_height(app@, area.width), panels);
            let detail = shown_height(due, panels);
            let list = panels.height - detail;
            &&& a.list == (Rect { height: list as u16, ..area })
            &&& a.detail == (Rect { y: (area.y + list) as u16, height: detail as u16, ..area })
            &&& a.status == (Rect {
                y: (area.y + panels.height) as u16,
                height: bar_height(area) as u16,
                ..area
            })
        },
{
    if area.width < 40 || area.height < 10 {
        return None;
    }
    let parts = screen_parts();
    let chunks = split_area(true, &parts, area);
    let main_area = chunks[0];
    let panels = panel_parts(app, main_area);
    let main_chunks = split_area(true, &panels, main_area);
    proof {
        lemma_two_parts(1, area, chunks@);
        assert(main_area == panel_area(area));
        let due = detail_height_in(wanted_height(app@, area.width), main_area);
        lemma_two_parts(due as u16, main_area, main_chunks@);
    }
    Some(ScreenAreas { list: main_chunks[0], detail: main_chunks[1], status: chunks[1] })
}

/// Two parts from top to bottom, the first of which takes what is left, at least
/// one row.
proof fn lemma_two_parts(length: u16, area: Rect, areas: Seq<Rect>)
    requires
        ({
            let parts = seq![Part::Min(1), Part::Length(length)];
            &&& areas.len() == 2
            &&& areas[0].x == area.x && areas[0].width == area.width
            &&& areas[1].x == area.x && areas[1].width == area.width
            &&& tiled(true, areas, area)
            &&& fits(true, parts, area) ==> areas[1] == divided(true, parts, area, 1)
            &&& !fits(true, parts, area) ==> rationed(true, parts[0], areas[0], area)
        }),
    ensures
        ({
            let room = room_in(true, area);
            let last = least(length as int, less(room, 1));
            &&& areas[0] == (Rect { height: (room - last) as u16, ..area })
            &&& areas[1] == (Rect {
                y: (area.y + room - last) as u16,
                height: last as u16,
                ..area
            })
        }),
{
    let parts = seq![Part::Min(1), Part::Length(length)];
    reveal_with_fuel(asked, 3);
    reveal_with_fuel(offset_of, 2);
    assert(parts.drop_last().drop_last() =~= Seq::<Part>::empty());
    assert(parts.drop_last().last() == parts[0]);
    assert(asked(parts) == 1 + length);
    assert(parts[0] is Min);
    assert(areas.last() == areas[1]);
    assert(start_in(true, areas[0]) + extent_in(true, areas[0]) == start_in(true, areas[1]));
}

/// Whether three areas are what three parts get, the middle one of which takes
/// what is left: they follow each other and fill the whole area. The first and the
/// last have their lengths where there is enough for all; else the middle one has
/// its least extent, and the others have no more than their lengths.
pub open spec fn three_parts(
    vertical: bool,
    lengths: (int, int, int),
    area: Rect,
    areas: (Rect, Rect, Rect),
) -> bool {
    let start = start_in(vertical, area);
    let room = room_in(vertical, area);
    let (first, min, last) = lengths;
    let (a, b, c) = areas;
    &&& start_in(vertical, a) == start
    &&& start_in(vertical, b) == start + extent_in(vertical, a)
    &&& start_in(vertical, c) == start_in(vertical, b) + extent_in(vertical, b)
    &&& start_in(vertical, c) + extent_in(vertical, c) == start + room
    &&& if first + min + last <= room {
        extent_in(vertical, a) == first && extent_in(vertical, c) == last
    } else {
        &&& extent_in(vertical, b) == least(min, room)
        &&& extent_in(vertical, a) <= first
        &&& extent_in(vertical, c) <= last
    }
}

/// Three parts, the middle one of which takes what is left.
proof fn lemma_three_parts(
    vertical: bool,
    first: u16,
    min: u16,
    last: u16,
    area: Rect,
    areas: Seq<Rect>,
)
    requires
        ({
            let parts = seq![Part::Length(first), Part::Min(min), Part::Length(last)];
            &&& min <= i16::MAX
            &&& areas.len() == 3
            &&& tiled(vertical, areas, area)
            &&& fits(vertical, parts, area) ==> forall|k: int|
                0 <= k < 3 ==> #[trigger] areas[k] == divided(vertical, parts, area, k)
            &&& !fits(vertical, parts, area) ==> forall|k: int|
                0 <= k < 3 ==> rationed(vertical, parts[k], #[trigger] areas[k], area)
        }),
    ensures
        three_parts(
            vertical,
            (first as int, min as int, last as int),
            area,
            (areas[0], areas[1], areas[2]),
        ),
{
    let parts = seq![Part::Length(first), Part::Min(min), Part::Length(last)];
    reveal_with_fuel(asked, 4);
    reveal_with_fuel(offset_of, 3);
    let two = parts.drop_last();
    let one = two.drop_last();
    assert(two.last() == parts[1]);
    assert(one.last() == parts[0]);
    assert(one.drop_last() =~= Seq::<Part>::empty());
    assert(asked(parts) == first + min + last);
    assert(parts[1] is Min);
    assert(areas.last() == areas[2]);
    assert(start_in(vertical, areas[0]) + extent_in(vertical, areas[0]) == start_in(
        vertical,
        areas[1],
    ));
    assert(start_in(vertical, areas[1]) + extent_in(vertical, areas[1]) == start_in(
        vertical,
        areas[2],
    ));
    assert(parts[0] == Part::Length(first));
    assert(parts[2] == Part::Length(last));
    if fits(vertical, parts, area) {
        assert(areas[0] == divided(vertical, parts, area, 0));
        assert(areas[2] == divided(vertical, parts, area, 2));
    } else {
        assert(rationed(vertical, parts[0], areas[0], area));
        assert(rationed(vertical, parts[1], areas[1], area));
        assert(rationed(vertical, parts[2], areas[2], area));
    }
}

/// The number of bytes of a text, as far as a number of columns goes.
pub open spec fn byte_columns(s: Seq<char>, more: int) -> int {
    least((vstd::utf8::encode_utf8(s).len() as usize) + more, u16::MAX as int)
}

/// The number of bytes of a text and some more.
fn columns_for(s: &str, more: u16) -> (r: u16)
    ensures
        r == byte_columns(s@, more as int),
{
    let n: usize = s.len();
    if n >= 65535 || n as u64 + more as u64 >= 65535 {
        65535
    } else {
        (n + more as usize) as u16
    }
}

/// The parts of the status bar: room for the left text and two columns, at least
/// one column for the message, and room for the right text.
pub fn status_parts(left: &str, right: &str) -> (r: Vec<Part>)
    ensures
        r@ == seq![
            Part::Length(byte_columns(left@, 2) as u16),
            Part::Min(1),
            Part::Length(byte_columns(right@, 0) as u16),
        ],
{
    let mut parts: Vec<Part> = Vec::new();
    parts.push(Part::Length(columns_for(left, 2)));
    parts.push(Part::Min(1));
    parts.push(Part::Length(columns_for(right, 0)));
    assert(parts@ =~= seq![
        Part::Length(byte_columns(left@, 2) as u16),
        Part::Min(1),
        Part::Length(byte_columns(right@, 0) as u16),
    ]);
    parts
}

/// Where the parts of the status bar stand: one after the other from its left end
/// to its right end, and as high as the bar. Where there is room for all of them,
/// each text has its columns and the message has the rest. Else the message has
/// one column, and how the texts share the others is up to the division.
pub fn status_areas(left: &str, right: &str, area: Rect) -> (r: (Rect, Rect, Rect))
    ensures
        r.0.y == area.y && r.0.height == area.height,
        r.1.y == area.y && r.1.height == area.height,
        r.2.y == area.y && r.2.height == area.height,
        three_parts(false, (byte_columns(left@, 2), 1, byte_columns(right@, 0)), area, r),
{
    let parts = status_parts(left, right);
    let areas = split_area(false, &parts, area);
    proof {
        assert(areas@[0].y == area.y);
        assert(areas@[1].y == area.y);
        assert(areas@[2].y == area.y);
        assert(parts@[1] is Min);
        lemma_three_parts(
            false,
            byte_columns(left@, 2) as u16,
            1,
            byte_columns(right@, 0) as u16,
            area,
            areas@,
        );
    }
    (areas[0], areas[1], areas[2])
}

// ---------------------------------------------------------------------------
// Recent directories
// ---------------------------------------------------------------------------

/// The part of an area in its middle with a size, where it fits.
pub open spec fn centered(width: u16, height: u16, area: Rect) -> Rect {
    Rect {
        x: (area.x + less(area.width as int, width as int) / 2) as u16,
        y: (area.y + less(area.height as int, height as int) / 2) as u16,
        width: least(width as int, area.width as int) as u16,
        height: least(height as int, area.height as int) as u16,
    }
}

/// Whether the corner of the middle of an area can be written down.
pub open spec fn center_exists(width: u16, height: u16, area: Rect) -> bool {
    &&& area.x + less(area.width as int, width as int) / 2 <= u16::MAX
    &&& area.y + less(area.height as int, height as int) / 2 <= u16::MAX
}

/// The part of an area in its middle with a size, where it fits.
pub fn centered_rect(width: u16, height: u16, area: Rect) -> (r: Rect)
    requires
        center_exists(width, height, area),
    ensures
        r == centered(width, height, area),
{
    let dx: u16 = if area.width > width {
        (area.width - width) / 2
    } else {
        0
    };
    let dy: u16 = if area.height > height {
        (area.height - height) / 2
    } else {
        0
    };
    Rect {
        x: area.x + dx,
        y: area.y + dy,
        width: if width < area.width {
            width
        } else {
            area.width
        },
        height: if height < area.height {
            height
        } else {
            area.height
        },
    }
}

/// The width of the list of recent directories in an area.
pub open spec fn popup_width(area: Rect) -> u16 {
    if area.width > 90 {
        90
    } else if area.width < 40 {
        40
    } else {
        area.width
    }
}

/// The height of the list of recent directories in an area.
pub open spec fn popup_height(area: Rect) -> u16 {
    if area.height > 16 {
        16
    } else if area.height < 8 {
        8
    } else {
        area.height
    }
}

/// The part of a screen for the list of recent directories.
pub open spec fn popup_of(area: Rect) -> Rect {
    centered(popup_width(area), popup_height(area), area)
}

/// A path cut to at most `max` characters from its end, the first of which then
/// is an ellipsis; uncut where there is no room at all.
pub open spec fn path_tail(path: Seq<char>, max: nat) -> Seq<char> {
    if max == 0 || path.len() <= max {
        path
    } else {
        "…"@ + path.skip(path.len() - (max - 1))
    }
}

/// Cuts a path to at most `max` characters from its end.
pub fn truncate_path(path: &str, max: usize) -> (r: String)
    ensures
        r@ == path_tail(path@, max as nat),
{
    let chars = chars_of(path);
    let n: usize = chars.len();
    if max == 0 || n <= max {
        return path.to_string();
    }
    let start: usize = n - (max - 1);
    let tail = sub_chars(&chars, start, n);
    assert(chars@.subrange(start as int, n as int) =~= chars@.skip(start as int));
    concat2("…", string_of(&tail).as_str())
}

/// A cut path is no longer than asked for and ends as the path does.
pub proof fn law_path_tail_fits(path: Seq<char>, max: nat)
    requires
        max > 0,
    ensures
        path_tail(path, max).len() <= max,
        path.len() > max ==> path_tail(path, max).skip(1) == path.skip(path.len() - (max - 1)),
{
    reveal_strlit("…");
    if path.len() > max {
        assert(path_tail(path, max).skip(1) =~= path.skip(path.len() - (max - 1)));
    }
}

/// The line of a recent directory in an area of a width.
pub open spec fn dir_line(entry: RecentDirEntry, width: u16) -> Seq<SpanView> {
    seq![
        styled("["@ + entry.host@ + "] "@, bold(Color::Cyan)),
        styled(path_tail(entry.directory@, less(width as int, 10) as nat), plain()),
    ]
}

/// The lines of recent directories in an area of a width.
pub open spec fn dir_lines(entries: Seq<RecentDirEntry>, width: u16) -> Seq<Seq<SpanView>> {
    Seq::new(entries.len(), |k: int| dir_line(entries[k], width))
}

/// The lines of recent directories in an area of a width.
pub fn recent_dir_lines(entries: &Vec<RecentDirEntry>, width: u16) -> (r: Vec<Vec<Span>>)
    ensures
        lines_view(r@) == dir_lines(entries@, width),
{
    let room: usize = if width > 10 {
        (width - 10) as usize
    } else {
        0
    };
    let mut lines: Vec<Vec<Span>> = Vec::new();
    for k in 0..entries.len()
        invariant
            room == less(width as int, 10),
            lines@.len() == k,
            forall|j: int|
                0 <= j < k ==> spans_of((#[trigger] lines@[j])@) == dir_line(entries@[j], width),
    {
        let mut spans: Vec<Span> = Vec::new();
        spans.push(bold_span(concat3("[", entries[k].host.as_str(), "] "), Color::Cyan));
        spans.push(plain_span(truncate_path(entries[k].directory.as_str(), room)));
        assert(spans_of(spans@) =~= dir_line(entries@[k as int], width));
        lines.push(spans);
    }
    assert(lines_view(lines@) =~= dir_lines(entries@, width));
    lines
}

/// What stands above the list of recent directories.
pub open spec fn subtitle_text(is_complete: bool) -> Seq<char> {
    if is_complete {
        "Select a recent directory and press Enter"@
    } else {
        "Loading recent directories..."@
    }
}

/// The highlighted line of the list of recent directories.
pub open spec fn highlighted_dir(m: ModalView) -> usize {
    if m.selected < m.entries.len() {
        m.selected
    } else {
        less(m.entries.len() as int, 1) as usize
    }
}

/// The list of recent directories on the screen.
pub struct ModalPanel {
    pub popup: Rect,
    pub heading: Rect,
    pub body: Rect,
    pub footer: Rect,
    pub subtitle: String,
    /// No lines where no directory is known.
    pub lines: Vec<Vec<Span>>,
    pub highlighted: usize,
}

/// The list of recent directories on the screen, while it is open: inside its
/// border two rows for the heading, one for the footer, and the rest for the
/// lines. Of fewer than four rows one is for the lines, and how the others are
/// shared is up to the division.
pub fn render_recent_dirs_modal(app: &App, area: Rect) -> (r: Option<ModalPanel>)
    requires
        center_exists(popup_width(area), popup_height(area), area),
    ensures
        match app@.modal {
            Some(m) => r matches Some(p) && {
                &&& p.popup == popup_of(area)
                &&& p.heading.x == inside(p.popup).x && p.heading.width == inside(p.popup).width
                &&& p.body.x == inside(p.popup).x && p.body.width == inside(p.popup).width
                &&& p.footer.x == inside(p.popup).x && p.footer.width == inside(p.popup).width
                &&& three_parts(
                    true,
                    (2, 1, 1),
                    inside(p.popup),
                    (p.heading, p.body, p.footer),
                )
                &&& p.subtitle@ == subtitle_text(m.is_complete)
                &&& lines_view(p.lines@) == dir_lines(m.entries, p.body.width)
                &&& p.highlighted == highlighted_dir(m)
            },
            None => r is None,
        },
{
    match &app.recent_dirs_modal {
        Some(modal) => {
            let width: u16 = if area.width > 90 {
                90
            } else if area.width < 40 {
                40
            } else {
                area.width
            };
            let height: u16 = if area.height > 16 {
                16
            } else if area.height < 8 {
                8
            } else {
                area.height
            };
            let popup = centered_rect(width, height, area);
            let inner = inner_of_border(popup);
            let parts = modal_parts();
            let sections = split_area(true, &parts, inner);
            proof {
                assert(sections@[0].width == inner.width);
                assert(sections@[1].width == inner.width);
                assert(sections@[2].width == inner.width);
                assert(parts@[1] is Min);
                lemma_three_parts(true, 2, 1, 1, inner, sections@);
            }
            let subtitle = if modal.is_complete {
                "Select a recent directory and press Enter"
            } else {
                "Loading recent directories..."
            };
            let lines = recent_dir_lines(&modal.entries, sections[1].width);
            let n: usize = modal.entries.len();
            let highlighted: usize = if modal.selected_index < n {
                modal.selected_index
            } else if n > 1 {
                n - 1
            } else {
                0
            };
            Some(
                ModalPanel {
                    popup,
                    heading: sections[0],
                    body: sections[1],
                    footer: sections[2],
                    subtitle: subtitle.to_string(),
                    lines,
                    highlighted,
                },
            )
        },
        None => None,
    }
}

/// What is centred is no larger than asked for and lies within the area, and the
/// margins on two opposite sides differ by at most one.
pub proof fn law_centered_between_equal_margins(width: u16, height: u16, area: Rect)
    requires
        center_exists(width, height, area),
    ensures
        ({
            let r = centered(width, height, area);
            let left = r.x - area.x;
            let right = area.width - r.width - left;
            let above = r.y - area.y;
            let beneath = area.height - r.height - above;
            &&& r.width <= width && r.height <= height
            &&& r.width == width || r.width == area.width
            &&& r.height == height || r.height == area.height
            &&& 0 <= left <= right <= left + 1
            &&& 0 <= above <= beneath <= above + 1
        }),
{
}

/// The popup is as large as the area, within 40 and 90 columns and within 8 and 16
/// rows, and never larger than the area.
pub proof fn law_popup_within_bounds(area: Rect)
    ensures
        ({
            let w = popup_width(area);
            let h = popup_height(area);
            &&& 40 <= w <= 90 && 8 <= h <= 16
            &&& 40 <= area.width <= 90 ==> w == area.width
            &&& 8 <= area.height <= 16 ==> h == area.height
            &&& area.width < 40 ==> w == 40
            &&& area.width > 90 ==> w == 90
            &&& area.height < 8 ==> h == 8
            &&& area.height > 16 ==> h == 16
        }),
{
}

/// A border takes one row or column on each side.
pub proof fn law_border_takes_each_side(area: Rect)
    requires
        area.width >= 2,
        area.height >= 2,
        area.x + area.width <= u16::MAX,
        area.y + area.height <= u16::MAX,
    ensures
        ({
            let i = inside(area);
            &&& i.x == area.x + 1
            &&& i.y == area.y + 1
            &&& i.x + i.width + 1 == area.x + area.width
            &&& i.y + i.height + 1 == area.y + area.height
        }),
{
}

/// A screen is large enough from forty columns and ten rows on.
pub proof fn law_least_screen(area: Rect)
    ensures
        large_enough(area) <==> 40 <= area.width && 10 <= area.height,
{
}

/// The details get the height they want, but leave four rows where there are more
/// than five.
pub proof fn law_details_leave_room(wanted: nat, area: Rect)
    ensures
        detail_height_in(wanted, area) <= wanted,
        area.height > 5 ==> detail_height_in(wanted, area) + 4 <= area.height,
        area.height > 5 && wanted + 4 <= area.height ==> detail_height_in(wanted, area) == wanted,
        area.height > 5 && wanted + 4 > area.height ==> detail_height_in(wanted, area) + 4
            == area.height,
        area.height <= 5 && wanted >= 1 ==> detail_height_in(wanted, area) == 1,
{
}

/// Of a path that is too long its end is shown behind an ellipsis.
pub proof fn law_end_of_path_is_shown(path: Seq<char>, max: nat)
    ensures
        max == 0 || path.len() <= max ==> path_tail(path, max) == path,
        0 < max < path.len() ==> path_tail(path, max).len() == max && path_tail(path, max)[0] == '…'
            && path_tail(path, max).skip(1) == path.skip(path.len() - max + 1),
{
    reveal_strlit("…");
    if 0 < max < path.len() {
        assert(path_tail(path, max).skip(1) =~= path.skip(path.len() - max + 1));
    }
}

/// The line of a directory tells its host in brackets and then its path.
pub proof fn law_directory_line_tells_host_and_path(entry: RecentDirEntry, width: u16)
    ensures
        dir_line(entry, width).len() == 2,
        dir_line(entry, width)[0].text == "["@ + entry.host@ + "] "@,
        width > 10 && entry.directory@.len() <= width - 10 ==> dir_line(entry, width)[1].text
            == entry.directory@,
        width > 10 && entry.directory@.len() > width - 10 ==> dir_line(entry, width)[1].text.len()
            == width - 10,
{
    reveal_strlit("…");
}

/// The directory that is highlighted is the chosen one where that is there, else
/// the last.
pub proof fn law_highlighted_directory_exists(m: ModalView)
    requires
        m.entries.len() <= usize::MAX,
    ensures
        m.entries.len() > 0 ==> highlighted_dir(m) < m.entries.len(),
        m.selected < m.entries.len() ==> highlighted_dir(m) == m.selected,
        0 < m.entries.len() <= m.selected ==> highlighted_dir(m) == m.entries.len() - 1,
        subtitle_text(true) == "Select a recent directory and press Enter"@,
        subtitle_text(false) == "Loading recent directories..."@,
{
}

/// The bar takes the last row where there are two or more, and the panels the rest.
pub proof fn law_bar_below_the_panels(area: Rect)
    ensures
        panel_area(area).x == area.x && panel_area(area).y == area.y && panel_area(area).width
            == area.width,
        area.y + area.height <= u16::MAX && area.height >= 2 ==> panel_area(area).height
            == area.height - 1 && bar_height(area) == 1,
        area.y + area.height <= u16::MAX && area.height < 2 ==> panel_area(area).height
            == area.height && bar_height(area) == 0,
{
}

/// The details are shown in the height due to them, but leave the list a row.
pub proof fn law_list_keeps_a_row(due: nat, panels: Rect)
    ensures
        shown_height(due, panels) <= due,
        panels.height > 0 ==> shown_height(due, panels) < panels.height,
        due < panels.height ==> shown_height(due, panels) == due,
        panels.height > 0 && due >= panels.height ==> shown_height(due, panels) == panels.height
            - 1,
{
}

} // verus!
