use fediiverse::ui::scan::{QrScan, SCAN_FRAMES};
use fediiverse::panic_hook::{result_failed, select_pressed, unwind_label, KEY_SELECT};

#[test]
fn searches_every_scan_frames() {
    let mut counter = QrScan::default();
    assert_eq!(counter.scan_frame, 0);
    let searched: Vec<bool> = (0..9).map(|_| counter.count_frame()).collect();
    assert_eq!(searched, vec![false, false, true, false, false, true, false, false, true]);
    assert_eq!(SCAN_FRAMES, 3);
    for k in 1..=30usize {
        let mut c = QrScan::default();
        let mut last = false;
        for _ in 0..k {
            last = c.count_frame();
        }
        assert_eq!(last, k % SCAN_FRAMES == 0);
        assert_eq!(c.scan_frame, k % SCAN_FRAMES);
    }
}

#[test]
fn panic_screen_decisions() {
    assert_eq!(KEY_SELECT, 4);
    assert!(select_pressed(4));
    assert!(select_pressed(0xffff_ffff));
    assert!(!select_pressed(0));
    assert!(!select_pressed(!4));
    assert_eq!(unwind_label(true), "can unwind");
    assert_eq!(unwind_label(false), "cannot unwind");
    assert!(result_failed(-1));
    assert!(result_failed(i32::MIN));
    assert!(!result_failed(0));
    assert!(!result_failed(5));
}

#[test]
fn searches_in_k_frames() {
    for k in 0..=40usize {
        let mut c = QrScan::default();
        let searches = (0..k).filter(|_| c.count_frame()).count();
        assert_eq!(searches, k / SCAN_FRAMES);
    }
}
