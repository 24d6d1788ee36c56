use xtop::config::WidgetKind;
use xtop::layout::Rect;
use xtop::panel::{
    border_marks, box_symbol, frame_placements, index, inset, mark_rect, shared_frame_rect, title,
    Connections,
};

fn c(north: u8, south: u8, west: u8, east: u8) -> Connections {
    Connections { north, south, west, east }
}

#[test]
fn maps_connections_to_single_line_frame() {
    assert_eq!(box_symbol(c(0, 0, 1, 1)), "─");
    assert_eq!(box_symbol(c(0, 0, 2, 2)), "─");
    assert_eq!(box_symbol(c(0, 1, 0, 1)), "┌");
    assert_eq!(box_symbol(c(0, 2, 0, 2)), "┌");
    assert_eq!(box_symbol(c(0, 2, 1, 1)), "┬");
    assert_eq!(box_symbol(c(1, 1, 0, 2)), "├");
    assert_eq!(box_symbol(c(2, 2, 2, 2)), "┼");
}

#[test]
fn expands_non_origin_rects_to_share_dividers() {
    let area = Rect::new(0, 0, 10, 5);
    let left = shared_frame_rect(area, Rect::new(0, 0, 5, 5));
    let right = shared_frame_rect(area, Rect::new(5, 0, 5, 5));

    assert_eq!(left.right() - 1, right.left());
}

#[test]
fn side_by_side_panels_share_single_divider() {
    let area = Rect::new(0, 0, 10, 5);
    let panels = frame_placements(
        area,
        &vec![
            (WidgetKind::Cpu, Rect::new(0, 0, 5, 5)),
            (WidgetKind::Gpu, Rect::new(5, 0, 5, 5)),
        ],
    );
    let mut marks = vec![Connections::default(); area.width as usize * area.height as usize];

    for panel in panels {
        mark_rect(&mut marks, area, panel.frame);
    }

    assert_eq!(box_symbol(marks[index(area, 0, 0)]), "┌");
    assert_eq!(box_symbol(marks[index(area, 4, 0)]), "┬");
    assert_eq!(box_symbol(marks[index(area, 4, 2)]), "│");
    assert_eq!(box_symbol(marks[index(area, 4, 4)]), "┴");
    assert_eq!(box_symbol(marks[index(area, 9, 4)]), "┘");
}

#[test]
fn stacked_panels_share_single_divider() {
    let area = Rect::new(0, 0, 10, 5);
    let panels = frame_placements(
        area,
        &vec![
            (WidgetKind::Cpu, Rect::new(0, 0, 10, 3)),
            (WidgetKind::Memory, Rect::new(0, 3, 10, 2)),
        ],
    );
    let mut marks = vec![Connections::default(); area.width as usize * area.height as usize];

    for panel in panels {
        mark_rect(&mut marks, area, panel.frame);
    }

    assert_eq!(box_symbol(marks[index(area, 0, 2)]), "├");
    assert_eq!(box_symbol(marks[index(area, 5, 2)]), "─");
    assert_eq!(box_symbol(marks[index(area, 9, 2)]), "┤");
}

#[test]
fn border_marks_of_two_frames_match_marking_each() {
    let area = Rect::new(0, 0, 10, 5);
    let frames = vec![Rect::new(0, 0, 5, 5), Rect::new(4, 0, 6, 5)];
    let marks = border_marks(area, &frames);
    assert_eq!(box_symbol(marks[index(area, 4, 0)]), "┬");
    assert_eq!(box_symbol(marks[index(area, 9, 0)]), "┐");
}

#[test]
fn frames_keep_one_cell_of_border_inside() {
    let frame = Rect::new(4, 0, 6, 5);
    assert_eq!(inset(frame), Rect::new(5, 1, 4, 3));
    assert_eq!(title(WidgetKind::Cpu), "CPU");
    assert_eq!(title(WidgetKind::Network), "Network IO");
}
