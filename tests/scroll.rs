use socktop::scroll::{
    per_core_content_area, per_core_handle_key, per_core_handle_mouse, per_core_handle_scrollbar_mouse, MouseInput,
    MouseKind, PerCoreScrollDrag, Rect, ScrollKey,
};

fn rect(x: u16, y: u16, width: u16, height: u16) -> Rect {
    Rect { x, y, width, height }
}

fn mouse(kind: MouseKind, column: u16, row: u16) -> MouseInput {
    MouseInput { kind, column, row }
}

#[test]
fn keys_scroll() {
    let mut off = 5;
    per_core_handle_key(&mut off, ScrollKey::Up, 10);
    assert_eq!(off, 4);
    per_core_handle_key(&mut off, ScrollKey::PageUp, 10);
    assert_eq!(off, 0);
    per_core_handle_key(&mut off, ScrollKey::PageDown, 0);
    assert_eq!(off, 1);
    per_core_handle_key(&mut off, ScrollKey::End, 3);
    assert_eq!(off, usize::MAX);
    per_core_handle_key(&mut off, ScrollKey::Down, 3);
    assert_eq!(off, usize::MAX);
    per_core_handle_key(&mut off, ScrollKey::Home, 3);
    assert_eq!(off, 0);
}

#[test]
fn wheel_only_inside() {
    let area = rect(10, 5, 20, 8);
    let mut off = 3;
    per_core_handle_mouse(&mut off, mouse(MouseKind::ScrollDown, 10, 5), area, 4);
    assert_eq!(off, 4);
    per_core_handle_mouse(&mut off, mouse(MouseKind::ScrollDown, 30, 5), area, 4);
    assert_eq!(off, 4);
    per_core_handle_mouse(&mut off, mouse(MouseKind::ScrollLeft, 29, 12), area, 4);
    assert_eq!(off, 0);
    assert_eq!(per_core_content_area(rect(0, 0, 30, 10)), rect(1, 1, 26, 8));
    assert_eq!(per_core_content_area(rect(0, 0, 3, 1)), rect(1, 1, 0, 0));
}

#[test]
fn scrollbar_arrows_pages_and_drag() {
    // inner area 1..=10 rows, scrollbar in column 18; 100 rows, 10 visible, track 8.
    let area = rect(0, 0, 20, 12);
    let mut off = 0;
    let mut drag = None;
    per_core_handle_scrollbar_mouse(&mut off, &mut drag, mouse(MouseKind::LeftDown, 18, 10), area, 100);
    assert_eq!(off, 1);
    per_core_handle_scrollbar_mouse(&mut off, &mut drag, mouse(MouseKind::LeftDown, 18, 1), area, 100);
    assert_eq!(off, 0);
    // thumb is one row at the top of the track (row 2): clicking below pages down
    per_core_handle_scrollbar_mouse(&mut off, &mut drag, mouse(MouseKind::LeftDown, 18, 6), area, 100);
    assert_eq!(off, 10);
    per_core_handle_scrollbar_mouse(&mut off, &mut drag, mouse(MouseKind::ScrollDown, 18, 6), area, 100);
    assert_eq!(off, 11);
    per_core_handle_scrollbar_mouse(&mut off, &mut drag, mouse(MouseKind::ScrollDown, 3, 6), area, 100);
    assert_eq!(off, 11);
    // grab the thumb (offset 11 of 90 puts it at track row 1, screen row 3) and drag it to the bottom
    per_core_handle_scrollbar_mouse(&mut off, &mut drag, mouse(MouseKind::LeftDown, 18, 3), area, 100);
    assert_eq!(drag, Some(PerCoreScrollDrag { active: true, start_y: 3, start_top: 1 }));
    per_core_handle_scrollbar_mouse(&mut off, &mut drag, mouse(MouseKind::LeftDrag, 0, 40), area, 100);
    assert_eq!(off, 90);
    assert_eq!(drag, Some(PerCoreScrollDrag { active: true, start_y: 40, start_top: 7 }));
    per_core_handle_scrollbar_mouse(&mut off, &mut drag, mouse(MouseKind::LeftUp, 0, 0), area, 100);
    assert_eq!(drag, None);
    // too small for a scrollbar: nothing changes
    let mut small = 7;
    per_core_handle_scrollbar_mouse(&mut small, &mut drag, mouse(MouseKind::LeftDown, 1, 1), rect(0, 0, 5, 4), 100);
    assert_eq!(small, 7);
    // an offset past the end is clamped
    let mut far = 1000;
    per_core_handle_scrollbar_mouse(&mut far, &mut drag, mouse(MouseKind::Other, 0, 0), area, 100);
    assert_eq!(far, 90);
}
