//! Scrolling of the per-core and process lists: keys, wheel, and a scrollbar
//! with arrows, paging and a draggable thumb.
//!
//! Geometry is in terminal cells; a panel's border takes one cell on each side.
use vstd::prelude::*;

verus! {

/// A rectangle of terminal cells.
#[derive(Clone, Copy, Debug, PartialEq, Eq, Structural)]
pub struct Rect {
    pub x: u16,
    pub y: u16,
    pub width: u16,
    pub height: u16,
}

/// A drag of the scrollbar thumb in progress.
#[derive(Clone, Copy, Debug, PartialEq, Eq, Structural)]
pub struct PerCoreScrollDrag {
    pub active: bool,
    /// Mouse row where the drag last moved.
    pub start_y: u16,
    /// Thumb top (in track rows) at that moment.
    pub start_top: usize,
}

/// Order of the process table.
#[derive(Clone, Copy, Debug, PartialEq, Eq, Structural)]
pub enum ProcSortBy {
    CpuDesc,
    MemDesc,
}

/// Keys that scroll.
#[derive(Clone, Copy, Debug, PartialEq, Eq, Structural)]
pub enum ScrollKey {
    Up,
    Down,
    PageUp,
    PageDown,
    Home,
    End,
    Other,
}

/// What the mouse did.
#[derive(Clone, Copy, Debug, PartialEq, Eq, Structural)]
pub enum MouseKind {
    LeftDown,
    LeftDrag,
    LeftUp,
    ScrollUp,
    ScrollDown,
    ScrollLeft,
    ScrollRight,
    Other,
}

#[derive(Clone, Copy, Debug, PartialEq, Eq, Structural)]
pub struct MouseInput {
    pub kind: MouseKind,
    pub column: u16,
    pub row: u16,
}

pub open spec fn sat_sub(a: int, b: int) -> int {
    if a > b {
        a - b
    } else {
        0
    }
}

pub open spec fn sat_add(a: int, b: int) -> int {
    if a + b > usize::MAX {
        usize::MAX as int
    } else {
        a + b
    }
}

pub open spec fn page_step(page_size: usize) -> int {
    if page_size == 0 {
        1
    } else {
        page_size as int
    }
}

/// The offset after a key press; `End` scrolls as far as possible (clamped on drawing).
pub open spec fn offset_after_key(off: usize, key: ScrollKey, page_size: usize) -> int {
    match key {
        ScrollKey::Up => sat_sub(off as int, 1),
        ScrollKey::Down => sat_add(off as int, 1),
        ScrollKey::PageUp => sat_sub(off as int, page_step(page_size)),
        ScrollKey::PageDown => sat_add(off as int, page_step(page_size)),
        ScrollKey::Home => 0,
        ScrollKey::End => usize::MAX as int,
        ScrollKey::Other => off as int,
    }
}

fn sub_usize(a: usize, b: usize) -> (r: usize)
    ensures
        r == sat_sub(a as int, b as int),
{
    if a > b {
        a - b
    } else {
        0
    }
}

fn add_usize(a: usize, b: usize) -> (r: usize)
    ensures
        r == sat_add(a as int, b as int),
{
    if a > usize::MAX - b {
        usize::MAX
    } else {
        a + b
    }
}

/// Scrolls by one row, one page, or to either end.
pub fn per_core_handle_key(scroll_offset: &mut usize, key: ScrollKey, page_size: usize)
    ensures
        *final(scroll_offset) == offset_after_key(*old(scroll_offset), key, page_size),
{
    let step: usize = if page_size == 0 { 1 } else { page_size };
    let off = *scroll_offset;
    *scroll_offset = match key {
        ScrollKey::Up => sub_usize(off, 1),
        ScrollKey::Down => add_usize(off, 1),
        ScrollKey::PageUp => sub_usize(off, step),
        ScrollKey::PageDown => add_usize(off, step),
        ScrollKey::Home => 0,
        ScrollKey::End => usize::MAX,
        ScrollKey::Other => off,
    };
}

pub open spec fn inside(r: Rect, column: u16, row: u16) -> bool {
    r.x <= column < r.x + r.width && r.y <= row < r.y + r.height
}

/// The offset after the wheel: vertical by a row, horizontal by a page, only over `area`.
pub open spec fn offset_after_wheel(off: usize, m: MouseInput, area: Rect, page_size: usize) -> int {
    if !inside(area, m.column, m.row) {
        off as int
    } else {
        match m.kind {
            MouseKind::ScrollUp => sat_sub(off as int, 1),
            MouseKind::ScrollDown => sat_add(off as int, 1),
            MouseKind::ScrollLeft => sat_sub(off as int, page_step(page_size)),
            MouseKind::ScrollRight => sat_add(off as int, page_step(page_size)),
            _ => off as int,
        }
    }
}

/// Wheel scrolling over the content.
pub fn per_core_handle_mouse(scroll_offset: &mut usize, mouse: MouseInput, content_area: Rect, page_size: usize)
    ensures
        *final(scroll_offset) == offset_after_wheel(*old(scroll_offset), mouse, content_area, page_size),
{
    let c = mouse.column as u32;
    let r = mouse.row as u32;
    let x = content_area.x as u32;
    let y = content_area.y as u32;
    let is_inside = c >= x && c < x + content_area.width as u32 && r >= y && r < y + content_area.height as u32;
    if !is_inside {
        return;
    }
    let step: usize = if page_size == 0 { 1 } else { page_size };
    let off = *scroll_offset;
    *scroll_offset = match mouse.kind {
        MouseKind::ScrollUp => sub_usize(off, 1),
        MouseKind::ScrollDown => add_usize(off, 1),
        MouseKind::ScrollLeft => sub_usize(off, step),
        MouseKind::ScrollRight => add_usize(off, step),
        _ => off,
    };
}

/// The per-core bars' content: inside the border, less a gutter and the scrollbar column.
pub open spec fn content_of(area: Rect) -> Rect {
    Rect {
        x: (area.x + 1) as u16,
        y: (area.y + 1) as u16,
        width: sat_sub(sat_sub(area.width as int, 2), 2) as u16,
        height: sat_sub(area.height as int, 2) as u16,
    }
}

pub fn per_core_content_area(area: Rect) -> (r: Rect)
    requires
        area.x < u16::MAX,
        area.y < u16::MAX,
    ensures
        r == content_of(area),
{
    let w: u16 = if area.width > 2 { area.width - 2 } else { 0 };
    Rect {
        x: area.x + 1,
        y: area.y + 1,
        width: if w > 2 { w - 2 } else { 0 },
        height: if area.height > 2 { area.height - 2 } else { 0 },
    }
}

/// Clamps a scroll offset so that the last page stays full.
pub fn per_core_clamp(scroll_offset: &mut usize, total_rows: usize, viewport_rows: usize)
    ensures
        *final(scroll_offset) == if *old(scroll_offset) > sat_sub(total_rows as int, viewport_rows as int) {
            sat_sub(total_rows as int, viewport_rows as int)
        } else {
            *old(scroll_offset) as int
        },
{
    let max_offset = sub_usize(total_rows, viewport_rows);
    if *scroll_offset > max_offset {
        *scroll_offset = max_offset;
    }
}

/// Scrollbar geometry of a bordered panel showing `total` rows.
pub struct Scrollbar {
    /// Rows between the two arrows.
    pub track: int,
    pub thumb_len: int,
    /// Rows visible at once.
    pub view: int,
    pub max_off: int,
    /// The scrollbar column, its top row and its height.
    pub bar_x: int,
    pub bar_y: int,
    pub bar_h: int,
}

/// The scrollbar of `area`, when the panel is tall enough to have one: the
/// rightmost inner column, with an arrow at each end and a thumb whose length
/// is the visible share of the track (at least one row).
pub open spec fn scrollbar_of(area: Rect, total_rows: usize) -> Option<Scrollbar> {
    let iw = sat_sub(area.width as int, 2);
    let ih = sat_sub(area.height as int, 2);
    if ih < 3 || iw < 1 {
        None
    } else {
        let total = if total_rows == 0 { 1 } else { total_rows as int };
        let view = if ih < total { ih } else { total };
        let track = ih - 2;
        let raw = (track * view + total - 1) / total;
        let thumb = if raw < 1 { 1 } else if raw > track { track } else { raw };
        Some(Scrollbar {
            track,
            thumb_len: thumb,
            view,
            max_off: total - view,
            bar_x: area.x + 1 + iw - 1,
            bar_y: area.y + 1,
            bar_h: ih,
        })
    }
}

/// Top row of the thumb for offset `off`, rounded to the nearest row.
pub open spec fn thumb_top(s: Scrollbar, off: int) -> int {
    if s.max_off == 0 {
        0
    } else {
        ((s.track - s.thumb_len) * off + s.max_off / 2) / s.max_off
    }
}

pub open spec fn on_bar(s: Scrollbar, m: MouseInput) -> bool {
    m.column == s.bar_x && s.bar_y <= m.row < s.bar_y + s.bar_h
}

/// The offset a thumb top stands for, rounded to the nearest offset.
pub open spec fn offset_of_top(s: Scrollbar, top: int) -> int {
    if s.track > s.thumb_len {
        if s.max_off == 0 {
            0
        } else {
            (top * s.max_off + (s.track - s.thumb_len) / 2) / (s.track - s.thumb_len)
        }
    } else {
        0
    }
}

pub open spec fn clamp_int(v: int, lo: int, hi: int) -> int {
    if v < lo {
        lo
    } else if v > hi {
        hi
    } else {
        v
    }
}

/// Offset and drag state after a mouse event on the scrollbar, before the final clamp.
pub open spec fn scrollbar_event(
    s: Scrollbar,
    off: int,
    drag: Option<PerCoreScrollDrag>,
    m: MouseInput,
) -> (int, Option<PerCoreScrollDrag>) {
    match m.kind {
        MouseKind::LeftDown => if !on_bar(s, m) {
            (off, drag)
        } else if m.row == s.bar_y {
            (sat_sub(off, 1), drag)
        } else if m.row + 1 == s.bar_y + s.bar_h {
            (sat_add(off, 1), drag)
        } else {
            let rel = m.row - (s.bar_y + 1);
            if rel < thumb_top(s, off) {
                (sat_sub(off, s.view), drag)
            } else if rel >= thumb_top(s, off) + s.thumb_len {
                (sat_add(off, s.view), drag)
            } else {
                (off, Some(PerCoreScrollDrag { active: true, start_y: m.row, start_top: thumb_top(s, off) as usize }))
            }
        },
        MouseKind::LeftDrag => match drag {
            Some(d) => if d.active {
                let top = clamp_int(d.start_top + (m.row - d.start_y), 0, s.track - s.thumb_len);
                (offset_of_top(s, top), Some(PerCoreScrollDrag { active: true, start_y: m.row, start_top: top as usize }))
            } else {
                (off, None)
            },
            None => (off, None),
        },
        MouseKind::LeftUp => (off, None),
        MouseKind::ScrollUp => if on_bar(s, m) {
            (sat_sub(off, 1), drag)
        } else {
            (off, drag)
        },
        MouseKind::ScrollDown => if on_bar(s, m) {
            (sat_add(off, 1), drag)
        } else {
            (off, drag)
        },
        _ => (off, drag),
    }
}

/// Clicks on the arrows move a row, clicks on the track page, and the thumb can
/// be dragged; the wheel over the scrollbar scrolls too. The offset ends within
/// range; nothing changes when the panel is too small for a scrollbar.
pub fn per_core_handle_scrollbar_mouse(
    scroll_offset: &mut usize,
    drag: &mut Option<PerCoreScrollDrag>,
    mouse: MouseInput,
    per_core_area: Rect,
    total_rows: usize,
)
    requires
        per_core_area.x + per_core_area.width <= u16::MAX,
        per_core_area.y + per_core_area.height <= u16::MAX,
    ensures
        match scrollbar_of(per_core_area, total_rows) {
            None => *final(scroll_offset) == *old(scroll_offset) && *final(drag) == *old(drag),
            Some(s) => {
                let start = if *old(scroll_offset) > s.max_off { s.max_off } else { *old(scroll_offset) as int };
                let (o, d) = scrollbar_event(s, start, *old(drag), mouse);
                &&& *final(scroll_offset) == clamp_int(o, 0, s.max_off)
                &&& *final(drag) == d
            },
        },
{
    let iw: usize = if per_core_area.width > 2 { (per_core_area.width - 2) as usize } else { 0 };
    let ih: usize = if per_core_area.height > 2 { (per_core_area.height - 2) as usize } else { 0 };
    if ih < 3 || iw < 1 {
        return;
    }
    let ghost sb = scrollbar_of(per_core_area, total_rows)->0;
    let total: usize = if total_rows == 0 { 1 } else { total_rows };
    let view: usize = if ih < total { ih } else { total };
    let track: usize = ih - 2;
    assert((track as int) * (view as int) <= 65535 * 0xffff_ffff_ffff_ffff) by (nonlinear_arith)
        requires track <= 65535, view <= 0xffff_ffff_ffff_ffff;
    let raw: u128 = ((track as u128) * (view as u128) + (total as u128) - 1) / (total as u128);
    let thumb: usize = if raw < 1 { 1 } else if raw > track as u128 { track } else { raw as usize };
    let max_off: usize = total - view;
    let bar_x: u32 = per_core_area.x as u32 + iw as u32;
    let bar_y: u32 = per_core_area.y as u32 + 1;
    let bar_h: u32 = ih as u32;
    assert(sb.track == track && sb.thumb_len == thumb && sb.view == view && sb.max_off == max_off);
    assert(sb.bar_x == bar_x && sb.bar_y == bar_y && sb.bar_h == bar_h);
    let mut offset: usize = if *scroll_offset > max_off { max_off } else { *scroll_offset };
    let ghost start = offset as int;
    let top: usize = if max_off == 0 {
        0
    } else {
        proof {
            assert((track - thumb) * offset <= (track - thumb) * max_off) by (nonlinear_arith)
                requires offset <= max_off, track >= thumb;
            assert((track - thumb) * max_off <= 65535 * 0xffff_ffff_ffff_ffff) by (nonlinear_arith)
                requires track - thumb <= 65535, max_off <= 0xffff_ffff_ffff_ffff;
            assert(((track - thumb) * offset + max_off / 2) / (max_off as int) <= track - thumb + 1) by (nonlinear_arith)
                requires (track - thumb) * offset <= (track - thumb) * max_off, max_off > 0;
        }
        let t: u128 = ((track - thumb) as u128 * offset as u128 + (max_off / 2) as u128) / max_off as u128;
        t as usize
    };
    assert(top == thumb_top(sb, offset as int));
    let col = mouse.column as u32;
    let row = mouse.row as u32;
    let on_bar = col == bar_x && row >= bar_y && row < bar_y + bar_h;
    match mouse.kind {
        MouseKind::LeftDown => {
            if on_bar {
                if row == bar_y {
                    offset = sub_usize(offset, 1);
                } else if row + 1 == bar_y + bar_h {
                    offset = add_usize(offset, 1);
                } else {
                    let rel = (row - (bar_y + 1)) as usize;
                    if rel < top {
                        offset = sub_usize(offset, view);
                    } else if rel >= top + thumb {
                        offset = add_usize(offset, view);
                    } else {
                        *drag = Some(PerCoreScrollDrag { active: true, start_y: mouse.row, start_top: top });
                    }
                }
            }
        },
        MouseKind::LeftDrag => {
            match *drag {
                Some(d) => {
                    if d.active {
                        let room = track - thumb;
                        let moved: i128 = d.start_top as i128 + (mouse.row as i128 - d.start_y as i128);
                        let new_top: usize = if moved < 0 { 0 } else if moved > room as i128 { room } else { moved as usize };
                        offset = if track > thumb {
                            if max_off == 0 {
                                0
                            } else {
                                proof {
                                    assert(new_top * max_off <= 65535 * 0xffff_ffff_ffff_ffff) by (nonlinear_arith)
                                        requires new_top <= 65535, max_off <= 0xffff_ffff_ffff_ffff;
                                    assert(new_top * max_off + room / 2 <= room * max_off + room) by (nonlinear_arith)
                                        requires new_top <= room;
                                    assert((new_top * max_off + room / 2) / (room as int) <= max_off + 1) by (nonlinear_arith)
                                        requires new_top * max_off + room / 2 <= room * max_off + room, room > 0;
                                }
                                let v: u128 = (new_top as u128 * max_off as u128 + (room / 2) as u128) / room as u128;
                                if v > usize::MAX as u128 { usize::MAX } else { v as usize }
                            }
                        } else {
                            0
                        };
                        *drag = Some(PerCoreScrollDrag { active: true, start_y: mouse.row, start_top: new_top });
                    } else {
                        *drag = None;
                    }
                },
                None => {},
            }
        },
        MouseKind::LeftUp => {
            *drag = None;
        },
        MouseKind::ScrollUp => {
            if on_bar {
                offset = sub_usize(offset, 1);
            }
        },
        MouseKind::ScrollDown => {
            if on_bar {
                offset = add_usize(offset, 1);
            }
        },
        _ => {},
    }
    if offset > max_off {
        offset = max_off;
    }
    *scroll_offset = offset;
}

} // verus!
