use crate::config::WidgetKind;
use crate::layout::{sat_add, spec_rect_new, Rect};
use vstd::prelude::*;

verus! {

/// How many border segments meet a cell from each side.
#[derive(Debug, Clone, Copy, PartialEq, Eq, Structural)]
pub struct Connections {
    pub north: u8,
    pub south: u8,
    pub west: u8,
    pub east: u8,
}

/// Which sides of a cell one border segment reaches.
#[derive(Debug, Clone, Copy, PartialEq, Eq, Structural)]
pub struct Directions {
    pub north: bool,
    pub south: bool,
    pub west: bool,
    pub east: bool,
}

pub open spec fn count(b: bool) -> int {
    if b {
        1
    } else {
        0
    }
}

impl Connections {
    pub fn new() -> (c: Connections)
        ensures
            c == (Connections { north: 0, south: 0, west: 0, east: 0 }),
    {
        Connections { north: 0, south: 0, west: 0, east: 0 }
    }

    #[verifier::allow_in_spec]
    pub fn is_empty(self) -> bool
        returns
            self.north == 0 && self.south == 0 && self.west == 0 && self.east == 0,
    {
        self.north == 0 && self.south == 0 && self.west == 0 && self.east == 0
    }

    /// Count one more segment on each side that `directions` reaches.
    pub fn add(&mut self, directions: Directions)
        requires
            old(self).north + count(directions.north) <= 255,
            old(self).south + count(directions.south) <= 255,
            old(self).west + count(directions.west) <= 255,
            old(self).east + count(directions.east) <= 255,
        ensures
            final(self).north == old(self).north + count(directions.north),
            final(self).south == old(self).south + count(directions.south),
            final(self).west == old(self).west + count(directions.west),
            final(self).east == old(self).east + count(directions.east),
    {
        self.north += if directions.north { 1 } else { 0 };
        self.south += if directions.south { 1 } else { 0 };
        self.west += if directions.west { 1 } else { 0 };
        self.east += if directions.east { 1 } else { 0 };
    }
}

impl Default for Connections {
    fn default() -> (c: Connections)
        ensures
            c == (Connections { north: 0, south: 0, west: 0, east: 0 }),
    {
        Connections::new()
    }
}

impl Directions {
    pub fn none() -> (d: Directions)
        ensures
            d == (Directions { north: false, south: false, west: false, east: false }),
    {
        Directions { north: false, south: false, west: false, east: false }
    }

    #[verifier::allow_in_spec]
    pub fn is_empty(self) -> bool
        returns
            !self.north && !self.south && !self.west && !self.east,
    {
        !self.north && !self.south && !self.west && !self.east
    }
}

/// A widget placed in the layout, with the frame drawn round it and the area
/// left inside the frame.
#[derive(Debug, Clone, Copy)]
pub struct FramedPlacement {
    pub kind: WidgetKind,
    pub frame: Rect,
    pub inner: Rect,
}

/// A frame drawn without a widget inside.
#[derive(Debug, Clone, Copy)]
pub struct FramedBox {
    pub frame: Rect,
}

/// The frame of a placement: a rectangle that does not start at the area's
/// left (top) edge is widened by one column (row) to the left (top), so that
/// it shares its border with its neighbour.
pub open spec fn spec_shared_frame_rect(area: Rect, rect: Rect) -> Rect {
    let r1 = if rect.x > area.x {
        Rect { x: (rect.x - 1) as u16, width: sat_add(rect.width, 1), ..rect }
    } else {
        rect
    };
    if r1.y > area.y {
        Rect { y: (r1.y - 1) as u16, height: sat_add(r1.height, 1), ..r1 }
    } else {
        r1
    }
}

pub fn shared_frame_rect(area: Rect, rect: Rect) -> (frame: Rect)
    ensures
        frame == spec_shared_frame_rect(area, rect),
{
    let mut frame = rect;
    if frame.x > area.x {
        frame.x = frame.x - 1;
        frame.width = frame.width.saturating_add(1);
    }
    if frame.y > area.y {
        frame.y = frame.y - 1;
        frame.height = frame.height.saturating_add(1);
    }
    frame
}

/// The area inside a one-cell border; empty where no cell is left inside.
pub open spec fn spec_inset(rect: Rect) -> Rect {
    if rect.width <= 2 || rect.height <= 2 {
        Rect { x: rect.x, y: rect.y, width: 0, height: 0 }
    } else {
        spec_rect_new(
            (rect.x + 1) as u16,
            (rect.y + 1) as u16,
            (rect.width - 2) as u16,
            (rect.height - 2) as u16,
        )
    }
}

/// A frame can be inset unless it has room inside but starts in the last
/// column or row.
pub open spec fn inset_ok(rect: Rect) -> bool {
    rect.width > 2 && rect.height > 2 ==> rect.x < u16::MAX && rect.y < u16::MAX
}

pub fn inset(rect: Rect) -> (r: Rect)
    requires
        inset_ok(rect),
    ensures
        r == spec_inset(rect),
{
    if rect.width <= 2 || rect.height <= 2 {
        return Rect::new(rect.x, rect.y, 0, 0);
    }
    Rect::new(rect.x + 1, rect.y + 1, rect.width - 2, rect.height - 2)
}


/// The framed placements of `placements` in `area`: each frame shares its
/// border with its neighbours, and the widget gets the inside of the frame.
pub fn frame_placements(area: Rect, placements: &Vec<(WidgetKind, Rect)>) -> (out: Vec<
    FramedPlacement,
>)
    requires
        forall|i: int|
            0 <= i < placements@.len() ==> inset_ok(
                #[trigger] spec_shared_frame_rect(area, placements@[i].1),
            ),
    ensures
        out@.len() == placements@.len(),
        forall|i: int|
            0 <= i < out@.len() ==> {
                let frame = spec_shared_frame_rect(area, placements@[i].1);
                &&& (#[trigger] out@[i]).kind == placements@[i].0
                &&& out@[i].frame == frame
                &&& out@[i].inner == spec_inset(frame)
            },
{
    let mut out: Vec<FramedPlacement> = Vec::new();
    let mut i: usize = 0;
    while i < placements.len()
        invariant
            i <= placements@.len(),
            out@.len() == i,
            forall|i: int|
                0 <= i < placements@.len() ==> inset_ok(
                    #[trigger] spec_shared_frame_rect(area, placements@[i].1),
                ),
            forall|j: int|
                0 <= j < i ==> {
                    let frame = spec_shared_frame_rect(area, placements@[j].1);
                    &&& (#[trigger] out@[j]).kind == placements@[j].0
                    &&& out@[j].frame == frame
                    &&& out@[j].inner == spec_inset(frame)
                },
        decreases placements.len() - i,
    {
        let (kind, rect) = placements[i];
        let frame = shared_frame_rect(area, rect);
        out.push(FramedPlacement { kind, frame, inner: inset(frame) });
        i = i + 1;
    }
    out
}

/// The panel title of a widget kind.
pub open spec fn spec_title(kind: WidgetKind) -> &'static str {
    match kind {
        WidgetKind::Cpu => "CPU",
        WidgetKind::Memory => "Memory",
        WidgetKind::Gpu => "GPU Utilization",
        WidgetKind::GpuUtil => "GPU Utilization",
        WidgetKind::GpuMemory => "GPU Memory",
        WidgetKind::GpuPcie => "GPU PCIe",
        WidgetKind::GpuNvlink => "GPU NVLink",
        WidgetKind::Disk => "Disk IO",
        WidgetKind::Network => "Network IO",
    }
}

pub fn title(kind: WidgetKind) -> (t: &'static str)
    ensures
        t == spec_title(kind),
{
    match kind {
        WidgetKind::Cpu => "CPU",
        WidgetKind::Memory => "Memory",
        WidgetKind::Gpu => "GPU Utilization",
        WidgetKind::GpuUtil => "GPU Utilization",
        WidgetKind::GpuMemory => "GPU Memory",
        WidgetKind::GpuPcie => "GPU PCIe",
        WidgetKind::GpuNvlink => "GPU NVLink",
        WidgetKind::Disk => "Disk IO",
        WidgetKind::Network => "Network IO",
    }
}

/// 1 when any segment reaches the side, 0 otherwise.
pub fn weight(count: u8) -> (w: u8)
    ensures
        w == (if count > 0 { 1u8 } else { 0u8 }),
{
    if count > 0 {
        1
    } else {
        0
    }
}

/// The single-line box-drawing symbol joining the sides that are reached.
pub open spec fn spec_box_symbol(n: bool, s: bool, w: bool, e: bool) -> &'static str {
    if !n && !s && w && e {
        "─"
    } else if n && s && !w && !e {
        "│"
    } else if !n && s && !w && e {
        "┌"
    } else if !n && s && w && !e {
        "┐"
    } else if n && !s && !w && e {
        "└"
    } else if n && !s && w && !e {
        "┘"
    } else if !n && s && w && e {
        "┬"
    } else if n && !s && w && e {
        "┴"
    } else if n && s && !w && e {
        "├"
    } else if n && s && w && !e {
        "┤"
    } else if n && s && w && e {
        "┼"
    } else if n || s {
        "│"
    } else {
        "─"
    }
}

/// The border symbol of a cell. Only which sides are reached counts, not how
/// many segments reach them, so every border is drawn with single lines.
pub fn box_symbol(connections: Connections) -> (sym: &'static str)
    ensures
        sym == spec_box_symbol(
            connections.north > 0,
            connections.south > 0,
            connections.west > 0,
            connections.east > 0,
        ),
{
    let n = weight(connections.north);
    let s = weight(connections.south);
    let w = weight(connections.west);
    let e = weight(connections.east);

    match (n, s, w, e) {
        (0, 0, 1, 1) => "─",
        (1, 1, 0, 0) => "│",
        (0, 1, 0, 1) => "┌",
        (0, 1, 1, 0) => "┐",
        (1, 0, 0, 1) => "└",
        (1, 0, 1, 0) => "┘",
        (0, 1, 1, 1) => "┬",
        (1, 0, 1, 1) => "┴",
        (1, 1, 0, 1) => "├",
        (1, 1, 1, 0) => "┤",
        (1, 1, 1, 1) => "┼",
        (0, 0, 2, 2) => "═",
        (2, 2, 0, 0) => "║",
        (0, 2, 0, 2) => "╔",
        (0, 2, 2, 0) => "╗",
        (2, 0, 0, 2) => "╚",
        (2, 0, 2, 0) => "╝",
        (0, 2, 2, 2) => "╦",
        (2, 0, 2, 2) => "╩",
        (2, 2, 0, 2) => "╠",
        (2, 2, 2, 0) => "╣",
        (2, 2, 2, 2) => "╬",
        (0, 1, 0, 2) => "╒",
        (0, 2, 0, 1) => "╓",
        (0, 1, 2, 0) => "╕",
        (0, 2, 1, 0) => "╖",
        (1, 0, 0, 2) => "╘",
        (2, 0, 0, 1) => "╙",
        (1, 0, 2, 0) => "╛",
        (2, 0, 1, 0) => "╜",
        (1, 1, 0, 2) => "╞",
        (2, 2, 0, 1) => "╟",
        (1, 1, 2, 0) => "╡",
        (2, 2, 1, 0) => "╢",
        (0, 1, 2, 2) => "╤",
        (0, 2, 1, 1) => "╥",
        (1, 0, 2, 2) => "╧",
        (2, 0, 1, 1) => "╨",
        (1, 1, 2, 2) => "╪",
        (2, 2, 1, 1) => "╫",
        _ => {
            if n > 0 || s > 0 {
                if n == 2 || s == 2 {
                    "║"
                } else {
                    "│"
                }
            } else if w == 2 || e == 2 {
                "═"
            } else {
                "─"
            }
        },
    }
}


/// The cell `(x, y)` lies on the screen.
pub open spec fn in_screen(screen: Rect, x: int, y: int) -> bool {
    &&& screen.left() <= x < screen.right()
    &&& screen.top() <= y < screen.bottom()
}

/// The position of cell `(x, y)` in a row-major grid of the screen.
pub open spec fn spec_index(screen: Rect, x: int, y: int) -> int {
    (y - screen.y) * screen.width + (x - screen.x)
}

/// The column of grid position `i`.
pub open spec fn cell_x(screen: Rect, i: int) -> int {
    screen.x + i % (screen.width as int)
}

/// The row of grid position `i`.
pub open spec fn cell_y(screen: Rect, i: int) -> int {
    screen.y + i / (screen.width as int)
}

/// A grid of marks covers the screen cell for cell.
pub open spec fn grid_for(screen: Rect, marks: Seq<Connections>) -> bool {
    marks.len() == screen.width * screen.height
}

pub fn index(screen: Rect, x: u16, y: u16) -> (i: usize)
    requires
        screen.x <= x,
        screen.y <= y,
        x - screen.x < screen.width,
    ensures
        i == spec_index(screen, x as int, y as int),
{
    let dy = (y - screen.y) as usize;
    let dx = (x - screen.x) as usize;
    let w = screen.width as usize;
    assert(dy * w <= 65535 * 65535) by (nonlinear_arith)
        requires
            dy <= 65535,
            w <= 65535,
    ;
    dy * w + dx
}

/// Grid position and cell coordinates name each other on the screen.
proof fn lemma_cell_of_index(screen: Rect, x: int, y: int, i: int)
    requires
        in_screen(screen, x, y),
        0 <= i,
    ensures
        0 <= spec_index(screen, x, y) < screen.width * screen.height,
        (i == spec_index(screen, x, y)) <==> (cell_x(screen, i) == x && cell_y(screen, i) == y),
{
    let w = screen.width as int;
    let h = screen.height as int;
    let dx = x - screen.x;
    let dy = y - screen.y;
    assert(0 <= dx < w && 0 <= dy < h);
    assert(0 <= dy * w + dx < w * h) by (nonlinear_arith)
        requires
            0 <= dx < w,
            0 <= dy < h,
    ;
    assert((dy * w + dx) % w == dx && (dy * w + dx) / w == dy) by (nonlinear_arith)
        requires
            0 <= dx < w,
            0 <= dy,
    ;
    if cell_x(screen, i) == x && cell_y(screen, i) == y {
        assert(i == (i / w) * w + i % w) by (nonlinear_arith)
            requires
                w > 0,
        ;
    }
}

/// Count the sides of `directions` at cell `(x, y)`; off-screen cells and
/// empty directions leave the marks unchanged.
pub fn add_mark(marks: &mut Vec<Connections>, screen: Rect, x: u16, y: u16, directions: Directions)
    requires
        grid_for(screen, old(marks)@),
        in_screen(screen, x as int, y as int) ==> {
            let c = old(marks)@[spec_index(screen, x as int, y as int)];
            &&& c.north + count(directions.north) <= 255
            &&& c.south + count(directions.south) <= 255
            &&& c.west + count(directions.west) <= 255
            &&& c.east + count(directions.east) <= 255
        },
    ensures
        final(marks)@.len() == old(marks)@.len(),
        forall|i: int|
            0 <= i < old(marks)@.len() ==> {
                let hit = in_screen(screen, x as int, y as int) && i == spec_index(
                    screen,
                    x as int,
                    y as int,
                );
                let c = old(marks)@[i];
                let d = #[trigger] final(marks)@[i];
                &&& d.north == c.north + if hit { count(directions.north) } else { 0 }
                &&& d.south == c.south + if hit { count(directions.south) } else { 0 }
                &&& d.west == c.west + if hit { count(directions.west) } else { 0 }
                &&& d.east == c.east + if hit { count(directions.east) } else { 0 }
            },
{
    if directions.is_empty() || x < screen.left() || x >= screen.right() || y < screen.top() || y
        >= screen.bottom() {
        return ;
    }
    proof {
        lemma_cell_of_index(screen, x as int, y as int, 0);
    }
    let i = index(screen, x, y);
    let mut c = marks[i];
    c.add(directions);
    marks.set(i, c);
}


/// The rectangle has at least one cell.
pub open spec fn nonempty(r: Rect) -> bool {
    r.width > 0 && r.height > 0
}

/// Last column of a rectangle.
pub open spec fn last_col(r: Rect) -> int {
    r.right() - 1
}

/// Last row of a rectangle.
pub open spec fn last_row(r: Rect) -> int {
    r.bottom() - 1
}

/// Segments reaching west into cell `(x, y)` from the top and bottom edges of
/// `rect`, counting the columns before `cx` only.
pub open spec fn edge_west(screen: Rect, rect: Rect, cx: int, x: int, y: int) -> int {
    if in_screen(screen, x, y) && nonempty(rect) && rect.x < x < cx && x <= last_col(rect) {
        count(y == rect.y) + count(y == last_row(rect))
    } else {
        0
    }
}

/// Segments reaching east, as `edge_west`.
pub open spec fn edge_east(screen: Rect, rect: Rect, cx: int, x: int, y: int) -> int {
    if in_screen(screen, x, y) && nonempty(rect) && rect.x <= x < cx && x < last_col(rect) {
        count(y == rect.y) + count(y == last_row(rect))
    } else {
        0
    }
}

/// Segments reaching north into cell `(x, y)` from the left and right edges of
/// `rect`, counting the rows before `cy` only.
pub open spec fn edge_north(screen: Rect, rect: Rect, cy: int, x: int, y: int) -> int {
    if in_screen(screen, x, y) && nonempty(rect) && rect.y < y < cy && y <= last_row(rect) {
        count(x == rect.x) + count(x == last_col(rect))
    } else {
        0
    }
}

/// Segments reaching south, as `edge_north`.
pub open spec fn edge_south(screen: Rect, rect: Rect, cy: int, x: int, y: int) -> int {
    if in_screen(screen, x, y) && nonempty(rect) && rect.y <= y < cy && y < last_row(rect) {
        count(x == rect.x) + count(x == last_col(rect))
    } else {
        0
    }
}

/// The sides of screen cell `(x, y)` that the border of `rect` reaches, counted
/// once per edge of `rect` that passes through the cell.
pub open spec fn rect_marks(screen: Rect, rect: Rect, x: int, y: int) -> (int, int, int, int) {
    (
        edge_north(screen, rect, last_row(rect) + 1, x, y),
        edge_south(screen, rect, last_row(rect) + 1, x, y),
        edge_west(screen, rect, last_col(rect) + 1, x, y),
        edge_east(screen, rect, last_col(rect) + 1, x, y),
    )
}

/// Every cell's counts leave room for the border of `rect`.
pub open spec fn room_for(marks: Seq<Connections>, screen: Rect, rect: Rect) -> bool {
    forall|i: int|
        0 <= i < marks.len() ==> {
            let c = #[trigger] marks[i];
            let m = rect_marks(screen, rect, cell_x(screen, i), cell_y(screen, i));
            c.north + m.0 <= 255 && c.south + m.1 <= 255 && c.west + m.2 <= 255 && c.east + m.3
                <= 255
        }
}

/// Add the border of `rect` to the marks of the screen grid.
pub fn mark_rect(marks: &mut Vec<Connections>, screen: Rect, rect: Rect)
    requires
        grid_for(screen, old(marks)@),
        room_for(old(marks)@, screen, rect),
    ensures
        final(marks)@.len() == old(marks)@.len(),
        forall|i: int|
            0 <= i < old(marks)@.len() ==> {
                let c = old(marks)@[i];
                let d = #[trigger] final(marks)@[i];
                let m = rect_marks(screen, rect, cell_x(screen, i), cell_y(screen, i));
                &&& d.north == c.north + m.0
                &&& d.south == c.south + m.1
                &&& d.west == c.west + m.2
                &&& d.east == c.east + m.3
            },
{
    let ghost m0 = marks@;
    if rect.width == 0 || rect.height == 0 {
        return ;
    }
    let left = rect.left();
    let right = rect.right() - 1;
    let top = rect.top();
    let bottom = rect.bottom() - 1;

    let mut x = left;
    while x <= right
        invariant
            grid_for(screen, marks@),
            marks@.len() == m0.len(),
            room_for(m0, screen, rect),
            nonempty(rect),
            left == rect.x,
            right == last_col(rect),
            top == rect.y,
            bottom == last_row(rect),
            left <= x <= right + 1,
            forall|i: int|
                0 <= i < m0.len() ==> {
                    let c = m0[i];
                    let d = #[trigger] marks@[i];
                    let px = cell_x(screen, i);
                    let py = cell_y(screen, i);
                    &&& d.north == c.north
                    &&& d.south == c.south
                    &&& d.west == c.west + edge_west(screen, rect, x as int, px, py)
                    &&& d.east == c.east + edge_east(screen, rect, x as int, px, py)
                },
        decreases right + 1 - x,
    {
        let mut bits = Directions::none();
        if x > left {
            bits.west = true;
        }
        if x < right {
            bits.east = true;
        }
        let ghost before = marks@;
        proof {
            if in_screen(screen, x as int, top as int) {
                lemma_cell_of_index(screen, x as int, top as int, 0);
                let k = spec_index(screen, x as int, top as int);
                lemma_cell_of_index(screen, x as int, top as int, k);
            }
        }
        add_mark(marks, screen, x, top, bits);
        let ghost middle = marks@;
        proof {
            if in_screen(screen, x as int, bottom as int) {
                lemma_cell_of_index(screen, x as int, bottom as int, 0);
                let k = spec_index(screen, x as int, bottom as int);
                lemma_cell_of_index(screen, x as int, bottom as int, k);
                if in_screen(screen, x as int, top as int) {
                    lemma_cell_of_index(screen, x as int, top as int, k);
                }
            }
        }
        add_mark(marks, screen, x, bottom, bits);
        proof {
            assert forall|i: int| 0 <= i < m0.len() implies {
                let c = m0[i];
                let d = #[trigger] marks@[i];
                let px = cell_x(screen, i);
                let py = cell_y(screen, i);
                &&& d.north == c.north
                &&& d.south == c.south
                &&& d.west == c.west + edge_west(screen, rect, x + 1, px, py)
                &&& d.east == c.east + edge_east(screen, rect, x + 1, px, py)
            } by {
                let px = cell_x(screen, i);
                let py = cell_y(screen, i);
                let _ = before[i];
                let _ = middle[i];
                if in_screen(screen, x as int, top as int) {
                    lemma_cell_of_index(screen, x as int, top as int, i);
                }
                if in_screen(screen, x as int, bottom as int) {
                    lemma_cell_of_index(screen, x as int, bottom as int, i);
                }
            }
        }
        x = x + 1;
    }

    let ghost m1 = marks@;
    let mut y = top;
    while y <= bottom
        invariant
            grid_for(screen, marks@),
            marks@.len() == m0.len(),
            room_for(m0, screen, rect),
            nonempty(rect),
            left == rect.x,
            right == last_col(rect),
            top == rect.y,
            bottom == last_row(rect),
            top <= y <= bottom + 1,
            forall|i: int|
                0 <= i < m0.len() ==> {
                    let c = m0[i];
                    let d = #[trigger] marks@[i];
                    let px = cell_x(screen, i);
                    let py = cell_y(screen, i);
                    &&& d.north == c.north + edge_north(screen, rect, y as int, px, py)
                    &&& d.south == c.south + edge_south(screen, rect, y as int, px, py)
                    &&& d.west == c.west + edge_west(screen, rect, right + 1, px, py)
                    &&& d.east == c.east + edge_east(screen, rect, right + 1, px, py)
                },
        decreases bottom + 1 - y,
    {
        let mut bits = Directions::none();
        if y > top {
            bits.north = true;
        }
        if y < bottom {
            bits.south = true;
        }
        let ghost before = marks@;
        proof {
            if in_screen(screen, left as int, y as int) {
                lemma_cell_of_index(screen, left as int, y as int, 0);
                let k = spec_index(screen, left as int, y as int);
                lemma_cell_of_index(screen, left as int, y as int, k);
            }
        }
        add_mark(marks, screen, left, y, bits);
        let ghost middle = marks@;
        proof {
            if in_screen(screen, right as int, y as int) {
                lemma_cell_of_index(screen, right as int, y as int, 0);
                let k = spec_index(screen, right as int, y as int);
                lemma_cell_of_index(screen, right as int, y as int, k);
                if in_screen(screen, left as int, y as int) {
                    lemma_cell_of_index(screen, left as int, y as int, k);
                }
            }
        }
        add_mark(marks, screen, right, y, bits);
        proof {
            assert forall|i: int| 0 <= i < m0.len() implies {
                let c = m0[i];
                let d = #[trigger] marks@[i];
                let px = cell_x(screen, i);
                let py = cell_y(screen, i);
                &&& d.north == c.north + edge_north(screen, rect, y + 1, px, py)
                &&& d.south == c.south + edge_south(screen, rect, y + 1, px, py)
                &&& d.west == c.west + edge_west(screen, rect, right + 1, px, py)
                &&& d.east == c.east + edge_east(screen, rect, right + 1, px, py)
            } by {
                let _ = before[i];
                let _ = middle[i];
                if in_screen(screen, left as int, y as int) {
                    lemma_cell_of_index(screen, left as int, y as int, i);
                }
                if in_screen(screen, right as int, y as int) {
                    lemma_cell_of_index(screen, right as int, y as int, i);
                }
            }
        }
        y = y + 1;
    }
}


/// The sides of screen cell `(x, y)` reached by the borders of all `frames`.
pub open spec fn frames_marks(screen: Rect, frames: Seq<Rect>, x: int, y: int) -> (
    int,
    int,
    int,
    int,
)
    decreases frames.len(),
{
    if frames.len() == 0 {
        (0, 0, 0, 0)
    } else {
        let a = frames_marks(screen, frames.drop_last(), x, y);
        let b = rect_marks(screen, frames.last(), x, y);
        (a.0 + b.0, a.1 + b.1, a.2 + b.2, a.3 + b.3)
    }
}

/// Every cell's counts of the borders of all `frames` fit in a byte.
pub open spec fn marks_fit(screen: Rect, frames: Seq<Rect>) -> bool {
    forall|i: int|
        0 <= i < screen.width * screen.height ==> {
            let m = #[trigger] frames_marks(screen, frames, cell_x(screen, i), cell_y(screen, i));
            m.0 <= 255 && m.1 <= 255 && m.2 <= 255 && m.3 <= 255
        }
}

/// The counts of the first `j` frames are at most those of all of them.
proof fn lemma_prefix_marks(screen: Rect, frames: Seq<Rect>, j: int, x: int, y: int)
    requires
        0 <= j <= frames.len(),
    ensures
        ({
            let a = frames_marks(screen, frames.subrange(0, j), x, y);
            let b = frames_marks(screen, frames, x, y);
            0 <= a.0 <= b.0 && 0 <= a.1 <= b.1 && 0 <= a.2 <= b.2 && 0 <= a.3 <= b.3
        }),
    decreases frames.len() - j,
{
    if j == frames.len() {
        assert(frames.subrange(0, j) =~= frames);
        lemma_marks_nonnegative(screen, frames, x, y);
    } else {
        lemma_prefix_marks(screen, frames, j + 1, x, y);
        assert(frames.subrange(0, j + 1).drop_last() =~= frames.subrange(0, j));
        lemma_rect_marks_small(screen, frames[j], x, y);
        lemma_marks_nonnegative(screen, frames.subrange(0, j), x, y);
    }
}

proof fn lemma_marks_nonnegative(screen: Rect, frames: Seq<Rect>, x: int, y: int)
    ensures
        ({
            let a = frames_marks(screen, frames, x, y);
            0 <= a.0 && 0 <= a.1 && 0 <= a.2 && 0 <= a.3
        }),
    decreases frames.len(),
{
    if frames.len() > 0 {
        lemma_marks_nonnegative(screen, frames.drop_last(), x, y);
        lemma_rect_marks_small(screen, frames.last(), x, y);
    }
}

proof fn lemma_rect_marks_small(screen: Rect, rect: Rect, x: int, y: int)
    ensures
        0 <= rect_marks(screen, rect, x, y).0 <= 2,
        0 <= rect_marks(screen, rect, x, y).1 <= 2,
        0 <= rect_marks(screen, rect, x, y).2 <= 2,
        0 <= rect_marks(screen, rect, x, y).3 <= 2,
{
}

/// The border marks of all `frames` on a row-major grid of the screen. A cell
/// takes a border symbol wherever one of its counts is non-zero.
pub fn border_marks(screen: Rect, frames: &Vec<Rect>) -> (marks: Vec<Connections>)
    requires
        marks_fit(screen, frames@),
    ensures
        grid_for(screen, marks@),
        forall|i: int|
            0 <= i < marks@.len() ==> {
                let d = #[trigger] marks@[i];
                let m = frames_marks(screen, frames@, cell_x(screen, i), cell_y(screen, i));
                &&& d.north == m.0
                &&& d.south == m.1
                &&& d.west == m.2
                &&& d.east == m.3
            },
{
    let w = screen.width as usize;
    let h = screen.height as usize;
    assert(w * h <= 65535 * 65535) by (nonlinear_arith)
        requires
            w <= 65535,
            h <= 65535,
    ;
    let n = w * h;
    let mut marks: Vec<Connections> = Vec::new();
    let mut k: usize = 0;
    while k < n
        invariant
            n == screen.width * screen.height,
            k <= n,
            marks@.len() == k,
            forall|i: int| 0 <= i < k ==> #[trigger] marks@[i] == (Connections { north: 0, south: 0, west: 0, east: 0 }),
        decreases n - k,
    {
        marks.push(Connections::new());
        k = k + 1;
    }
    let mut f: usize = 0;
    while f < frames.len()
        invariant
            marks_fit(screen, frames@),
            f <= frames@.len(),
            grid_for(screen, marks@),
            forall|i: int|
                0 <= i < marks@.len() ==> {
                    let d = #[trigger] marks@[i];
                    let m = frames_marks(
                        screen,
                        frames@.subrange(0, f as int),
                        cell_x(screen, i),
                        cell_y(screen, i),
                    );
                    &&& d.north == m.0
                    &&& d.south == m.1
                    &&& d.west == m.2
                    &&& d.east == m.3
                },
        decreases frames.len() - f,
    {
        let ghost before = marks@;
        proof {
            let post = frames@.subrange(0, f + 1);
            assert(post.drop_last() =~= frames@.subrange(0, f as int));
            assert forall|i: int| 0 <= i < marks@.len() implies {
                let c = #[trigger] marks@[i];
                let m = rect_marks(screen, frames@[f as int], cell_x(screen, i), cell_y(screen, i));
                c.north + m.0 <= 255 && c.south + m.1 <= 255 && c.west + m.2 <= 255 && c.east + m.3
                    <= 255
            } by {
                lemma_prefix_marks(screen, frames@, f + 1, cell_x(screen, i), cell_y(screen, i));
                let _ = frames_marks(screen, frames@, cell_x(screen, i), cell_y(screen, i));
            }
        }
        mark_rect(&mut marks, screen, frames[f]);
        proof {
            let pre = frames@.subrange(0, f as int);
            let post = frames@.subrange(0, f + 1);
            assert(post.drop_last() =~= pre);
            assert forall|i: int| 0 <= i < marks@.len() implies {
                let d = #[trigger] marks@[i];
                let m = frames_marks(screen, post, cell_x(screen, i), cell_y(screen, i));
                &&& d.north == m.0
                &&& d.south == m.1
                &&& d.west == m.2
                &&& d.east == m.3
            } by {
                let _ = before[i];
                lemma_rect_marks_small(screen, frames@[f as int], cell_x(screen, i), cell_y(screen, i));
            }
        }
        f = f + 1;
    }
    proof {
        assert(frames@.subrange(0, frames@.len() as int) =~= frames@);
    }
    marks
}


/// Two placements side by side (the right one starting where the left one
/// ends, away from the area's left edge) get frames that share one divider
/// column: the last column of the left frame is the first of the right one.
pub proof fn lemma_side_by_side_frames_share_divider(area: Rect, a: Rect, b: Rect)
    requires
        a.x + a.width == b.x,
        b.x > area.x,
        a.width < u16::MAX,
        b.width < u16::MAX,
    ensures
        spec_shared_frame_rect(area, a).right() - 1 == spec_shared_frame_rect(area, b).left(),
{
}

/// Two placements stacked (the lower one starting where the upper one ends,
/// away from the area's top edge) get frames that share one divider row.
pub proof fn lemma_stacked_frames_share_divider(area: Rect, a: Rect, b: Rect)
    requires
        a.y + a.height == b.y,
        b.y > area.y,
        a.height < u16::MAX,
        b.height < u16::MAX,
    ensures
        spec_shared_frame_rect(area, a).bottom() - 1 == spec_shared_frame_rect(area, b).top(),
{
}

/// The arms of a single-line box-drawing character: whether it reaches up,
/// down, left and right from the middle of its cell.
pub open spec fn glyph_arms(c: char) -> (bool, bool, bool, bool) {
    if c == '─' {
        (false, false, true, true)
    } else if c == '│' {
        (true, true, false, false)
    } else if c == '┌' {
        (false, true, false, true)
    } else if c == '┐' {
        (false, true, true, false)
    } else if c == '└' {
        (true, false, false, true)
    } else if c == '┘' {
        (true, false, true, false)
    } else if c == '┬' {
        (false, true, true, true)
    } else if c == '┴' {
        (true, false, true, true)
    } else if c == '├' {
        (true, true, false, true)
    } else if c == '┤' {
        (true, true, true, false)
    } else if c == '┼' {
        (true, true, true, true)
    } else {
        (false, false, false, false)
    }
}

/// A border cell is drawn with one box-drawing character whose arms point
/// exactly to the sides it connects, wherever it connects two sides or more;
/// a cell reached from one side only is drawn as a straight line through
/// that side.
pub proof fn lemma_box_symbol_points_to_connected_sides(c: Connections)
    ensures
        ({
            let (n, s, w, e) = (c.north > 0, c.south > 0, c.west > 0, c.east > 0);
            let sym = spec_box_symbol(n, s, w, e)@;
            let arms = glyph_arms(sym[0]);
            let reached = (if n { 1int } else { 0 }) + (if s { 1int } else { 0 }) + (if w { 1int } else { 0 })
                + (if e { 1int } else { 0 });
            &&& sym.len() == 1
            &&& reached >= 2 ==> arms == (n, s, w, e)
            &&& reached == 1 ==> (n ==> arms.0) && (s ==> arms.1) && (w ==> arms.2) && (e ==> arms.3)
        }),
{
    reveal_strlit("─");
    reveal_strlit("│");
    reveal_strlit("┌");
    reveal_strlit("┐");
    reveal_strlit("└");
    reveal_strlit("┘");
    reveal_strlit("┬");
    reveal_strlit("┴");
    reveal_strlit("├");
    reveal_strlit("┤");
    reveal_strlit("┼");
}

} // verus!
