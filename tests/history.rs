use socktop::icons::disk_icon;
use socktop::history::{push_capped, PerCoreHistory};
use socktop::scroll::per_core_clamp;
use std::collections::VecDeque;

#[test]
fn push_capped_drops_oldest() {
    let mut d: VecDeque<u64> = VecDeque::new();
    for v in 0..5 {
        push_capped(&mut d, v, 3);
    }
    assert_eq!(d.iter().copied().collect::<Vec<_>>(), vec![2, 3, 4]);
}

#[test]
fn per_core_history_resets_on_topology_change() {
    let mut h = PerCoreHistory::new(2);
    h.push_samples(&[10, 20]);
    h.push_samples(&[11, 21]);
    h.push_samples(&[12, 22]);
    assert_eq!(h.deques.len(), 2);
    assert_eq!(h.deques[0].iter().copied().collect::<Vec<_>>(), vec![11, 12]);
    h.push_samples(&[5, 6, 7]);
    assert_eq!(h.deques.len(), 3);
    assert_eq!(h.deques[2].iter().copied().collect::<Vec<_>>(), vec![7]);
    h.ensure_cores(3);
    assert_eq!(h.deques[2].len(), 1);
    h.ensure_cores(1);
    assert_eq!(h.deques[0].len(), 0);
}

#[test]
fn clamp_scroll_offset() {
    let mut off = 50;
    per_core_clamp(&mut off, 20, 8);
    assert_eq!(off, 12);
    per_core_clamp(&mut off, 4, 8);
    assert_eq!(off, 0);
    let mut ok = 3;
    per_core_clamp(&mut ok, 20, 8);
    assert_eq!(ok, 3);
}

#[test]
fn disk_icons_by_name() {
    assert_eq!(disk_icon("//server:share"), "\u{1f5c4}\u{fe0f}");
    assert_eq!(disk_icon("NVMe0n1"), "\u{26a1}");
    assert_eq!(disk_icon("SDA1"), "\u{1f4bd}");
    assert_eq!(disk_icon("overlay"), "\u{1f4e6}");
    assert_eq!(disk_icon("mmcblk0"), "\u{1f5b4}");
    assert_eq!(disk_icon(""), "\u{1f5b4}");
}
