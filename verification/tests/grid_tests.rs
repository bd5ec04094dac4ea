use kakikun::canvas::{Brush, CanvasView, PointerPhase, Tool};
use kakikun::grid::{Board, Cell, Rgb};

fn rgb(r: u8, g: u8, b: u8) -> Rgb {
    Rgb { r, g, b }
}

fn white() -> Rgb {
    rgb(255, 255, 255)
}

#[test]
fn cell_id_present_iff_in_range() {
    let board = Board::new(3, 2);
    assert_eq!(board.cell_id(0, 0), Some(0));
    assert_eq!(board.cell_id(2, 0), Some(2));
    assert_eq!(board.cell_id(0, 1), Some(3));
    assert_eq!(board.cell_id(2, 1), Some(5));
    assert_eq!(board.cell_id(3, 0), None);
    assert_eq!(board.cell_id(0, 2), None);
    assert_eq!(board.cell_id(usize::MAX, 0), None);
    assert_eq!(board.cell_id(0, usize::MAX), None);
    assert_eq!(board.cell_id(usize::MAX, usize::MAX), None);
}

#[test]
fn get_and_set_never_panic() {
    let mut board = Board::new(2, 2);
    assert!(board.get(1, 1).is_some());
    assert!(board.get(2, 1).is_none());
    assert!(board.get(usize::MAX, usize::MAX).is_none());
    let cell = Cell { color: rgb(1, 2, 3), backcolor: rgb(4, 5, 6), symbol: 'q' };
    board.set(usize::MAX, usize::MAX, cell);
    board.set(2, 0, cell);
    for x in 0..2 {
        for y in 0..2 {
            let c = board.get(x, y).unwrap();
            assert_eq!(c.color, white());
            assert_eq!(c.symbol, ' ');
        }
    }
    board.set(1, 0, cell);
    assert_eq!(board.get(1, 0).unwrap().symbol, 'q');
}

#[test]
fn board_default_cells() {
    let board = Board::new(4, 3);
    for x in 0..4 {
        for y in 0..3 {
            let c = board.get(x, y).unwrap();
            assert_eq!(c.color, white());
            assert_eq!(c.backcolor, white());
            assert_eq!(c.symbol, ' ');
        }
    }
}

#[test]
fn history_keeps_most_recent_250() {
    let mut canvas = CanvasView::new(2, 2);
    for i in 1..=300u32 {
        canvas.changecolor(0, 0, rgb((i % 256) as u8, 0, 0), white());
        canvas.add_history();
    }
    // The capacity is 250, so the snapshots of paints 51..=300 remain.
    for expected in (51..=300u32).rev() {
        canvas.back();
        let overlay = canvas.get_overlay();
        assert_eq!(overlay[0].color.r, (expected % 256) as u8);
    }
    // The history is now empty: undoing further changes nothing.
    let before = canvas.get_overlay();
    canvas.back();
    let after = canvas.get_overlay();
    assert_eq!(before, after);
}

#[test]
fn undo_on_empty_history_is_a_no_op() {
    let mut canvas = CanvasView::new(2, 2);
    canvas.back(); // consumes the initial snapshot
    canvas.changecolor(1, 1, rgb(9, 8, 7), rgb(6, 5, 4));
    let before = canvas.get_overlay();
    canvas.back(); // history empty: the painted board must stay
    let after = canvas.get_overlay();
    assert_eq!(before, after);
    assert_eq!(after[3].color, rgb(9, 8, 7));
}

#[test]
fn fill_all_then_undo_restores_board() {
    let mut canvas = CanvasView::new(3, 2);
    canvas.changebrushsymbol('o');
    canvas.changecolor(1, 0, rgb(10, 20, 30), rgb(40, 50, 60));
    canvas.changecolor(2, 1, rgb(1, 1, 1), rgb(2, 2, 2));
    let original = canvas.get_overlay();
    canvas.changebrushsymbol('X');
    let brush = Brush { color: rgb(0, 0, 0), backcolor: rgb(0, 0, 0) };
    canvas.fill_all(&brush);
    let filled = canvas.get_overlay();
    for c in &filled {
        assert_eq!(c.color, rgb(0, 0, 0));
        assert_eq!(c.backcolor, rgb(0, 0, 0));
        assert_eq!(c.symbol, 'X');
    }
    canvas.back();
    assert_eq!(canvas.get_overlay(), original);
}

#[test]
fn paint_out_of_range_is_silent() {
    let mut canvas = CanvasView::new(2, 2);
    let before = canvas.get_overlay();
    canvas.changecolor(5, 7, rgb(1, 1, 1), rgb(2, 2, 2));
    assert_eq!(canvas.get_overlay(), before);
}

#[test]
fn clear_resets_cells_and_keeps_size() {
    let mut canvas = CanvasView::new(3, 2);
    canvas.changebrushsymbol('#');
    canvas.changecolor(0, 0, rgb(1, 2, 3), rgb(4, 5, 6));
    canvas.clear();
    assert_eq!(canvas.get_width(), 3);
    assert_eq!(canvas.get_height(), 2);
    for c in &canvas.get_overlay() {
        assert_eq!(c.color, white());
        assert_eq!(c.backcolor, white());
        assert_eq!(c.symbol, ' ');
    }
}

#[test]
fn pipette_picks_and_reverts_to_draw() {
    let mut canvas = CanvasView::new(2, 2);
    canvas.changebrushsymbol('*');
    canvas.changecolor(1, 0, rgb(11, 22, 33), rgb(44, 55, 66));
    canvas.changebrushsymbol('-');
    let mut brush = Brush { color: rgb(0, 0, 0), backcolor: rgb(0, 0, 0) };

    // In draw mode a pick does nothing.
    assert!(!canvas.pick_at(1, 0, &mut brush));
    assert_eq!(brush.color, rgb(0, 0, 0));

    canvas.set_tool(Tool::Pipette);
    assert!(canvas.pick_at(1, 0, &mut brush));
    assert_eq!(brush.color, rgb(11, 22, 33));
    assert_eq!(brush.backcolor, rgb(44, 55, 66));
    // The symbol came along and the tool dropped back to drawing.
    let mut brush2 = Brush { color: rgb(1, 1, 1), backcolor: rgb(1, 1, 1) };
    assert!(!canvas.pick_at(1, 0, &mut brush2));
    canvas.changecolor(0, 1, rgb(0, 0, 0), rgb(0, 0, 0));
    assert_eq!(canvas.get_overlay()[2].symbol, '*');
}

#[test]
fn pointer_gesture_paints_and_snapshots() {
    let mut canvas = CanvasView::new(2, 2);
    let pre = canvas.get_overlay();
    let mut brush = Brush { color: rgb(5, 6, 7), backcolor: rgb(8, 9, 10) };
    assert!(canvas.on_pointer(PointerPhase::Hold, 0, 0, &mut brush));
    assert!(canvas.on_pointer(PointerPhase::Hold, 1, 1, &mut brush));
    assert!(!canvas.on_pointer(PointerPhase::Hold, 2, 2, &mut brush));
    assert!(!canvas.on_pointer(PointerPhase::Release, 0, 0, &mut brush));
    let overlay = canvas.get_overlay();
    assert_eq!(overlay[0].color, rgb(5, 6, 7));
    assert_eq!(overlay[3].backcolor, rgb(8, 9, 10));
    // The whole drag was one undo step, snapshotted before its first
    // paint: one undo restores the pre-drag board.
    canvas.back();
    assert_eq!(canvas.get_overlay(), pre);
}

#[test]
fn each_drag_is_one_undo_step() {
    let mut canvas = CanvasView::new(2, 1);
    let mut brush = Brush { color: rgb(1, 1, 1), backcolor: rgb(2, 2, 2) };
    let g0 = canvas.get_overlay();
    canvas.on_pointer(PointerPhase::Hold, 0, 0, &mut brush);
    canvas.on_pointer(PointerPhase::Release, 0, 0, &mut brush);
    let g1 = canvas.get_overlay();
    assert_ne!(g1, g0);
    brush.color = rgb(3, 3, 3);
    canvas.on_pointer(PointerPhase::Hold, 1, 0, &mut brush);
    canvas.on_pointer(PointerPhase::Hold, 0, 0, &mut brush);
    canvas.on_pointer(PointerPhase::Release, 0, 0, &mut brush);
    assert_ne!(canvas.get_overlay(), g1);
    // Undoing peels the gestures off one by one.
    canvas.back();
    assert_eq!(canvas.get_overlay(), g1);
    canvas.back();
    assert_eq!(canvas.get_overlay(), g0);
}

#[test]
fn accessors_report_board_shape() {
    let mut canvas = CanvasView::new(7, 4);
    assert_eq!(canvas.get_width(), 7);
    assert_eq!(canvas.get_height(), 4);
    assert_eq!(canvas.get_overlay_len(), 28);
    let board = canvas.get_board();
    assert_eq!(board.width, 7);
    assert_eq!(board.height, 4);
    assert_eq!(board.cells.len(), 28);
}
