//! Text shown with the graphs: the time span a graph covers, bar symbols,
//! device names.

use crate::config::GpuMode;
use crate::config::Direction;
use crate::layout::{kept, sat_add, spec_rect_new, split_area, within, Constraint, Rect};
use crate::text::{dec, push_decimal, trim, trimmed};
use vstd::prelude::*;

verus! {

/// The labels around a graph: three on the value axis, two on the time axis.
pub struct SparklineLabels<'a> {
    pub y_top: &'a str,
    pub y_middle: &'a str,
    pub y_bottom: &'a str,
    pub x_left: &'a str,
    pub x_right: &'a str,
}

/// A duration in milliseconds as whole seconds (at least one), minutes, or
/// hours: `45s`, `3m`, `2h`.
pub open spec fn duration_text(ms: nat) -> Seq<char> {
    let seconds = if ms / 1000 >= 1 { ms / 1000 } else { 1 };
    if seconds < 60 {
        dec(seconds) + seq!['s']
    } else if seconds / 60 < 60 {
        dec(seconds / 60) + seq!['m']
    } else {
        dec(seconds / 3600) + seq!['h']
    }
}

pub fn format_duration(ms: u64) -> (s: String)
    ensures
        s@ == duration_text(ms as nat),
{
    let seconds = if ms / 1000 >= 1 {
        ms / 1000
    } else {
        1
    };
    let mut s = String::new();
    if seconds < 60 {
        push_decimal(&mut s, seconds as u128);
        s.append("s");
    } else {
        let minutes = seconds / 60;
        if minutes < 60 {
            push_decimal(&mut s, minutes as u128);
            s.append("m");
        } else {
            push_decimal(&mut s, (minutes / 60) as u128);
            s.append("h");
            proof {
                assert(seconds / 3600 == minutes / 60) by {
                    vstd::arithmetic::div_mod::lemma_div_denominator(seconds as int, 60, 60);
                }
            }
        }
    }
    proof {
        reveal_strlit("s");
        reveal_strlit("m");
        reveal_strlit("h");
    }
    s
}

/// How many samples a graph `plot_width` columns wide shows (two per
/// column), and the time from the oldest shown to the newest.
pub open spec fn visible_samples(sample_count: nat, plot_width: nat) -> nat {
    let capacity = if 2 * plot_width <= usize::MAX { 2 * plot_width } else { usize::MAX as nat };
    if sample_count < capacity {
        sample_count
    } else {
        capacity
    }
}

pub open spec fn span_ms(sample_count: nat, plot_width: nat, update_ms: nat) -> int {
    let v = visible_samples(sample_count, plot_width);
    (if v >= 1 { v - 1 } else { 0 }) * update_ms
}

/// The time span label of a graph: `-` and the time its visible samples
/// cover.
pub open spec fn span_label(sample_count: nat, plot_width: nat, update_ms: nat) -> Seq<char> {
    seq!['-'] + duration_text(span_ms(sample_count, plot_width, update_ms) as nat)
}

/// The span label of a graph that fills `plot_width` columns.
pub fn history_span_label(sample_count: usize, plot_width: usize, update_ms: u64) -> (s: String)
    requires
        span_ms(sample_count as nat, plot_width as nat, update_ms as nat) <= u64::MAX,
    ensures
        s@ == span_label(sample_count as nat, plot_width as nat, update_ms as nat),
{
    let capacity = if plot_width <= usize::MAX / 2 {
        plot_width * 2
    } else {
        usize::MAX
    };
    let visible = if sample_count < capacity {
        sample_count
    } else {
        capacity
    };
    let steps = visible.saturating_sub(1) as u64;
    proof {
        assert(steps * update_ms <= u64::MAX);
    }
    let elapsed = steps * update_ms;
    let mut s = "-".to_owned();
    let d = format_duration(elapsed);
    s.append(d.as_str());
    proof {
        reveal_strlit("-");
    }
    s
}

/// The plot width of a labelled graph: its area less the five-column value
/// axis gutter.
pub open spec fn plot_width(labeled_area_width: u16) -> nat {
    if labeled_area_width >= 5 {
        (labeled_area_width - 5) as nat
    } else {
        0
    }
}

/// The span label of a labelled graph `labeled_area_width` columns wide.
pub fn history_window_label(sample_count: usize, labeled_area_width: u16, update_ms: u64) -> (s:
    String)
    requires
        span_ms(sample_count as nat, plot_width(labeled_area_width), update_ms as nat) <= u64::MAX,
    ensures
        s@ == span_label(sample_count as nat, plot_width(labeled_area_width), update_ms as nat),
{
    let plot = labeled_area_width.saturating_sub(5) as usize;
    history_span_label(sample_count, plot, update_ms)
}

/// The block of a bar cell filled `eighths` eighths high (full from eight on,
/// and for zero).
pub open spec fn block_text(eighths: u16) -> Seq<char> {
    if eighths == 1 {
        seq!['\u{2581}']
    } else if eighths == 2 {
        seq!['\u{2582}']
    } else if eighths == 3 {
        seq!['\u{2583}']
    } else if eighths == 4 {
        seq!['\u{2584}']
    } else if eighths == 5 {
        seq!['\u{2585}']
    } else if eighths == 6 {
        seq!['\u{2586}']
    } else if eighths == 7 {
        seq!['\u{2587}']
    } else {
        seq!['\u{2588}']
    }
}

pub fn block_symbol(eighths: u16) -> (s: &'static str)
    ensures
        s@ == block_text(eighths),
{
    proof {
        reveal_strlit("\u{2581}");
        reveal_strlit("\u{2582}");
        reveal_strlit("\u{2583}");
        reveal_strlit("\u{2584}");
        reveal_strlit("\u{2585}");
        reveal_strlit("\u{2586}");
        reveal_strlit("\u{2587}");
        reveal_strlit("\u{2588}");
    }
    match eighths {
        1 => "\u{2581}",
        2 => "\u{2582}",
        3 => "\u{2583}",
        4 => "\u{2584}",
        5 => "\u{2585}",
        6 => "\u{2586}",
        7 => "\u{2587}",
        _ => "\u{2588}",
    }
}

/// A GPU name for the compact view: trimmed, without a leading `NVIDIA `.
pub open spec fn compact_name(name: Seq<char>) -> Seq<char> {
    let t = trimmed(name);
    if t.len() >= 7 && t.take(7) == "NVIDIA "@ {
        t.skip(7)
    } else {
        t
    }
}

pub fn compact_gpu_name(name: &str) -> (r: String)
    ensures
        r@ == compact_name(name@),
{
    let t = trim(name);
    let n = t.unicode_len();
    proof {
        reveal_strlit("NVIDIA ");
    }
    if n >= 7 && crate::text::str_eq(t.substring_char(0, 7), "NVIDIA ") {
        t.substring_char(7, n).to_owned()
    } else {
        t.to_owned()
    }
}

/// With this many GPUs or more, `auto` mode shows one aggregate view.
pub const COMPACT_DEVICE_THRESHOLD: usize = 4;

/// Whether the GPU widgets show the compact aggregate view: always in
/// `compact` mode, never in `per_device` mode, and in `auto` mode from four
/// GPUs on.
pub fn use_compact_view(mode: GpuMode, devices: usize) -> (r: bool)
    ensures
        r == match mode {
            GpuMode::Compact => true,
            GpuMode::PerDevice => false,
            GpuMode::Auto => devices >= 4,
        },
{
    match mode {
        GpuMode::Compact => true,
        GpuMode::PerDevice => false,
        GpuMode::Auto => devices >= COMPACT_DEVICE_THRESHOLD,
    }
}

/// Which samples a graph with `slots` positions shows and where: the newest
/// `min(len, slots)` samples, from index `first`, drawn from slot `start`
/// on, so that the newest sample takes the last slot.
#[derive(Debug, Clone, Copy, PartialEq, Eq, Structural)]
pub struct GraphWindow {
    pub first: usize,
    pub start: usize,
}

pub fn graph_window(len: usize, slots: usize) -> (w: GraphWindow)
    ensures
        w.first == len - (if len < slots { len } else { slots }),
        w.start == slots - (if len < slots { len } else { slots }),
        w.first <= len,
        w.start <= slots,
        len - w.first == slots - w.start,
        len > 0 && slots > 0 ==> w.start + (len - 1 - w.first) == slots - 1,
{
    let visible = if len < slots {
        len
    } else {
        slots
    };
    GraphWindow { first: len - visible, start: slots - visible }
}

/// Where the parts of a labelled graph go: the graph, the rows of the three
/// value labels (right-aligned in the first `label_width` columns), and the
/// time-axis row, with the right time label's column where it fits.
#[derive(Debug, Clone, Copy, PartialEq, Eq, Structural)]
pub struct SparklineLayout {
    pub graph: Rect,
    pub label_width: u16,
    pub top_y: u16,
    pub middle_y: u16,
    pub bottom_y: u16,
    pub axis_y: u16,
    pub right_x: Option<u16>,
}

/// A text's width in columns as the graph code counts it (characters,
/// truncated to 16 bits).
pub open spec fn width16(s: Seq<char>) -> u16 {
    (s.len() % 65536) as u16
}

pub open spec fn max3(a: nat, b: nat, c: nat) -> nat {
    if a >= b && a >= c {
        a
    } else if b >= c {
        b
    } else {
        c
    }
}

/// The width of the value-label gutter's text: the longest value label.
pub open spec fn label_width(y_top: Seq<char>, y_middle: Seq<char>, y_bottom: Seq<char>) -> u16 {
    (max3(y_top.len(), y_middle.len(), y_bottom.len()) % 65536) as u16
}

/// The layout of a labelled graph in `area`, or `None` where the area is
/// too small for labels (under 5 rows or 24 columns, or no room beside the
/// label gutter) and the graph takes the whole area.
pub open spec fn sparkline_plan(area: Rect, lw: u16, left: u16, right: u16) -> Option<SparklineLayout> {
    let gutter = if lw < u16::MAX { lw + 1 } else { lw as int };
    if area.height < 5 || area.width < 24 || lw == 0 || area.width <= gutter + 2 {
        None
    } else {
        let graph = spec_rect_new(
            (area.x + gutter) as u16,
            area.y,
            (area.width - gutter) as u16,
            (area.height - 1) as u16,
        );
        Some(
            SparklineLayout {
                graph,
                label_width: lw,
                top_y: graph.y,
                middle_y: (graph.y + graph.height / 2) as u16,
                bottom_y: (graph.y + graph.height - 1) as u16,
                axis_y: (area.y + area.height - 1) as u16,
                right_x: if right < graph.width && left + right + 1 < graph.width {
                    Some((graph.x + graph.width - right) as u16)
                } else {
                    None
                },
            },
        )
    }
}

/// Lay out a labelled graph: value labels in a gutter on the left, the time
/// labels on the bottom row.
pub fn sparkline_layout(area: Rect, labels: &SparklineLabels) -> (r: Option<SparklineLayout>)
    requires
        area.x + area.width <= u16::MAX,
        area.y + area.height <= u16::MAX,
        ({
            let lw = label_width(labels.y_top@, labels.y_middle@, labels.y_bottom@);
            area.height >= 5 && area.width >= 24 && lw != 0 ==> lw + 3 <= u16::MAX
        }),
        ({
            let lw = label_width(labels.y_top@, labels.y_middle@, labels.y_bottom@);
            let right = width16(labels.x_right@);
            area.height >= 5 && area.width >= 24 && lw != 0 && area.width > lw + 3 && right
                < area.width - (lw + 1) ==> width16(labels.x_left@) + right + 1 <= u16::MAX
        }),
    ensures
        r == sparkline_plan(
            area,
            label_width(labels.y_top@, labels.y_middle@, labels.y_bottom@),
            width16(labels.x_left@),
            width16(labels.x_right@),
        ),
{
    let a = labels.y_top.unicode_len();
    let b = labels.y_middle.unicode_len();
    let c = labels.y_bottom.unicode_len();
    let m = if a >= b && a >= c {
        a
    } else if b >= c {
        b
    } else {
        c
    };
    let lw = (m % 65536) as u16;
    let left = (labels.x_left.unicode_len() % 65536) as u16;
    let right = (labels.x_right.unicode_len() % 65536) as u16;
    if area.height < 5 || area.width < 24 || lw == 0 {
        return None;
    }
    let gutter = lw.saturating_add(1);
    if area.width <= gutter + 2 {
        return None;
    }
    let graph = Rect::new(area.x + gutter, area.y, area.width - gutter, area.height - 1);
    let right_x = if right < graph.width && left + right + 1 < graph.width {
        Some(graph.x + graph.width - right)
    } else {
        None
    };
    Some(
        SparklineLayout {
            graph,
            label_width: lw,
            top_y: graph.y,
            middle_y: graph.y + graph.height / 2,
            bottom_y: graph.y + graph.height - 1,
            axis_y: area.y + area.height - 1,
            right_x,
        },
    )
}

/// Where the parts of a titled graph cell go: the title row, the graph, and,
/// when asked for and there is room, a time-axis row below the graph.
#[derive(Debug, Clone, Copy, PartialEq, Eq, Structural)]
pub enum CellPlan {
    /// Nothing to draw in an empty area.
    Nothing,
    /// A one-row area: the graph alone.
    Plain,
    /// The title on the first row, the graph below it, and the axis row.
    Titled { graph: Rect, axis: Option<Rect> },
}

/// The plan of a graph cell in `area`; `with_axis` asks for a time axis,
/// which is drawn only where at least two graph rows remain.
pub open spec fn cell_plan(area: Rect, with_axis: bool) -> CellPlan {
    if area.width == 0 || area.height == 0 {
        CellPlan::Nothing
    } else if area.height < 2 {
        CellPlan::Plain
    } else {
        let h = area.height - 1;
        if with_axis && h >= 2 {
            CellPlan::Titled {
                graph: spec_rect_new(area.x, (area.y + 1) as u16, area.width, (h - 1) as u16),
                axis: Some(spec_rect_new(area.x, (area.y + h) as u16, area.width, 1)),
            }
        } else {
            CellPlan::Titled {
                graph: spec_rect_new(area.x, (area.y + 1) as u16, area.width, h as u16),
                axis: None,
            }
        }
    }
}

pub fn graph_cell_layout(area: Rect, with_axis: bool) -> (p: CellPlan)
    requires
        area.y + area.height <= u16::MAX,
    ensures
        p == cell_plan(area, with_axis),
{
    if area.width == 0 || area.height == 0 {
        return CellPlan::Nothing;
    }
    if area.height < 2 {
        return CellPlan::Plain;
    }
    let h = area.height - 1;
    if with_axis && h >= 2 {
        CellPlan::Titled {
            graph: Rect::new(area.x, area.y + 1, area.width, h - 1),
            axis: Some(Rect::new(area.x, area.y + h, area.width, 1)),
        }
    } else {
        CellPlan::Titled { graph: Rect::new(area.x, area.y + 1, area.width, h), axis: None }
    }
}

/// Where a graph cell's time axis shows `now`: its three columns end at the
/// axis's right edge, shown only when they fit beside the span label
/// (`left_len` columns) with at least one column between them.
pub open spec fn now_column(axis: Rect, left_len: nat) -> Option<u16> {
    if 3 < axis.width && left_len + 3 + 1 < axis.width {
        Some((sat_add(axis.x, axis.width) - 3) as u16)
    } else {
        None
    }
}

/// The column at which the `now` label of a time axis starts, if it is shown
/// beside the span label `left`.
pub fn now_label_column(axis: Rect, left: &str) -> (r: Option<u16>)
    ensures
        r == now_column(axis, left@.len()),
{
    let n = left.unicode_len();
    if 3 < axis.width && n < (axis.width - 4) as usize {
        Some(axis.right() - 3)
    } else {
        None
    }
}

/// The rows of a compact GPU section.
#[derive(Debug, Clone, Copy, PartialEq, Eq, Structural)]
pub enum SectionPlan {
    /// No room: nothing is drawn.
    Nothing,
    /// Under three rows: the summary line alone, in the whole area.
    Summary,
    /// A summary row, a per-device row from five rows on, and the graph below.
    Rows { summary: Rect, per_device: Option<Rect>, graph: Rect },
}

/// A row of a section: within its area and as wide as it.
pub open spec fn section_row(r: Rect, area: Rect) -> bool {
    within(r, area) && kept(Direction::Vertical, r, area)
}

/// The plan of a compact section in `area`: nothing when it is empty, the
/// summary alone under three rows, and otherwise rows of the area split by
/// the layout solver, with a per-device row exactly from five rows on.
pub open spec fn section_planned(area: Rect, p: SectionPlan) -> bool {
    if area.width == 0 || area.height == 0 {
        p is Nothing
    } else if area.height < 3 {
        p is Summary
    } else {
        match p {
            SectionPlan::Rows { summary, per_device, graph } => {
                &&& section_row(summary, area)
                &&& section_row(graph, area)
                &&& (per_device is Some <==> area.height >= 5)
                &&& per_device matches Some(d) ==> section_row(d, area)
            },
            _ => false,
        }
    }
}

/// The rows a compact section asks the layout solver for: the summary, the
/// per-device line where it is shown, and the graph taking the rest.
pub open spec fn section_constraints_spec(show_per_device: bool) -> Seq<Constraint> {
    seq![Constraint::Length(1)] + (if show_per_device {
        seq![Constraint::Length(1)]
    } else {
        Seq::empty()
    }) + seq![Constraint::Fill(1)]
}

pub fn section_constraints(show_per_device: bool) -> (c: Vec<Constraint>)
    ensures
        c@ == section_constraints_spec(show_per_device),
{
    let mut c = vec![Constraint::Length(1)];
    if show_per_device {
        c.push(Constraint::Length(1));
    }
    c.push(Constraint::Fill(1));
    proof {
        assert(c@ =~= section_constraints_spec(show_per_device));
    }
    c
}

/// The section's rows from the rows the solver gave for those constraints,
/// in order.
pub open spec fn section_rows_of(rows: Seq<Rect>, show_per_device: bool) -> SectionPlan {
    SectionPlan::Rows {
        summary: rows[0],
        per_device: if show_per_device {
            Some(rows[1])
        } else {
            None
        },
        graph: rows[rows.len() - 1],
    }
}

pub fn section_rows_from(rows: &Vec<Rect>, show_per_device: bool) -> (p: SectionPlan)
    requires
        rows@.len() == section_constraints_spec(show_per_device).len(),
    ensures
        p == section_rows_of(rows@, show_per_device),
{
    let last = rows.len() - 1;
    if show_per_device {
        SectionPlan::Rows { summary: rows[0], per_device: Some(rows[1]), graph: rows[last] }
    } else {
        SectionPlan::Rows { summary: rows[0], per_device: None, graph: rows[last] }
    }
}

/// Lay out a compact section: one row for the summary, one for the
/// per-device line when there are at least five rows, the rest for the graph.
pub fn compact_section_plan(area: Rect) -> (p: SectionPlan)
    ensures
        section_planned(area, p),
        ({
            let show = area.height >= 5;
            area.width > 0 && area.height >= 3 ==> exists|rows: Seq<Rect>|
                {
                    &&& rows.len() == section_constraints_spec(show).len()
                    &&& forall|i: int| 0 <= i < rows.len() ==> section_row(#[trigger] rows[i], area)
                    &&& p == #[trigger] section_rows_of(rows, show)
                }
        }),
{
    if area.width == 0 || area.height == 0 {
        return SectionPlan::Nothing;
    }
    if area.height < 3 {
        return SectionPlan::Summary;
    }
    let show_per_device = area.height >= 5;
    let constraints = section_constraints(show_per_device);
    let rows = split_area(Direction::Vertical, &constraints, area);
    let p = section_rows_from(&rows, show_per_device);
    proof {
        assert(forall|i: int| 0 <= i < rows@.len() ==> section_row(#[trigger] rows@[i], area));
    }
    p
}

/// The rows of the memory widget.
#[derive(Debug, Clone, Copy)]
pub struct MemoryRows {
    /// The RAM figures.
    pub ram_text: Rect,
    /// The RAM usage bar, when it is shown.
    pub usage_bar: Option<Rect>,
    /// The swap figures and the swap bar, when swap is shown.
    pub swap: Option<(Rect, Rect)>,
    /// The usage history graph below.
    pub history: Rect,
}

/// The memory widget's rows: one for the RAM figures, one for the usage bar
/// and two for swap where they are shown, and the rest for the history, as
/// the layout solver splits `area` into rows.
pub open spec fn memory_rows_planned(area: Rect, show_usage_bar: bool, show_swap: bool, m: MemoryRows) -> bool {
    &&& section_row(m.ram_text, area)
    &&& section_row(m.history, area)
    &&& (m.usage_bar is Some <==> show_usage_bar)
    &&& (m.swap is Some <==> show_swap)
    &&& m.usage_bar matches Some(r) ==> section_row(r, area)
    &&& m.swap matches Some((t, g)) ==> section_row(t, area) && section_row(g, area)
}

/// The rows the memory widget asks the layout solver for: the RAM figures,
/// the usage bar and the two swap rows where shown, and the history taking
/// the rest.
pub open spec fn memory_constraints_spec(show_usage_bar: bool, show_swap: bool) -> Seq<Constraint> {
    seq![Constraint::Length(1)] + (if show_usage_bar {
        seq![Constraint::Length(1)]
    } else {
        Seq::empty()
    }) + (if show_swap {
        seq![Constraint::Length(1), Constraint::Length(1)]
    } else {
        Seq::empty()
    }) + seq![Constraint::Fill(1)]
}

pub fn memory_constraints(show_usage_bar: bool, show_swap: bool) -> (c: Vec<Constraint>)
    ensures
        c@ == memory_constraints_spec(show_usage_bar, show_swap),
{
    let mut c = vec![Constraint::Length(1)];
    if show_usage_bar {
        c.push(Constraint::Length(1));
    }
    if show_swap {
        c.push(Constraint::Length(1));
        c.push(Constraint::Length(1));
    }
    c.push(Constraint::Fill(1));
    proof {
        assert(c@ =~= memory_constraints_spec(show_usage_bar, show_swap));
    }
    c
}

/// The memory widget's rows from the rows the solver gave for those
/// constraints, in order.
pub open spec fn memory_rows_of(rows: Seq<Rect>, show_usage_bar: bool, show_swap: bool) -> MemoryRows {
    let k = if show_usage_bar { 2int } else { 1int };
    MemoryRows {
        ram_text: rows[0],
        usage_bar: if show_usage_bar {
            Some(rows[1])
        } else {
            None
        },
        swap: if show_swap {
            Some((rows[k], rows[k + 1]))
        } else {
            None
        },
        history: rows[rows.len() - 1],
    }
}

pub fn memory_rows_from(rows: &Vec<Rect>, show_usage_bar: bool, show_swap: bool) -> (m: MemoryRows)
    requires
        rows@.len() == memory_constraints_spec(show_usage_bar, show_swap).len(),
    ensures
        m == memory_rows_of(rows@, show_usage_bar, show_swap),
{
    let k: usize = if show_usage_bar { 2 } else { 1 };
    let usage_bar = if show_usage_bar {
        Some(rows[1])
    } else {
        None
    };
    let swap = if show_swap {
        Some((rows[k], rows[k + 1]))
    } else {
        None
    };
    MemoryRows { ram_text: rows[0], usage_bar, swap, history: rows[rows.len() - 1] }
}

/// Lay out the memory widget's rows in `area`.
pub fn memory_rows(area: Rect, show_usage_bar: bool, show_swap: bool) -> (m: MemoryRows)
    ensures
        memory_rows_planned(area, show_usage_bar, show_swap, m),
        exists|rows: Seq<Rect>|
            {
                &&& rows.len() == memory_constraints_spec(show_usage_bar, show_swap).len()
                &&& forall|i: int| 0 <= i < rows.len() ==> section_row(#[trigger] rows[i], area)
                &&& m == #[trigger] memory_rows_of(rows, show_usage_bar, show_swap)
            },
{
    let constraints = memory_constraints(show_usage_bar, show_swap);
    let rows = split_area(Direction::Vertical, &constraints, area);
    let m = memory_rows_from(&rows, show_usage_bar, show_swap);
    proof {
        assert(forall|i: int| 0 <= i < rows@.len() ==> section_row(#[trigger] rows@[i], area));
    }
    m
}

} // verus!
