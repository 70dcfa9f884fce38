use portside::chrome::{
    brand_segments, log_window, spinner, visible_log_lines, PaletteColor, ACCENT, MUTED,
};

#[test]
fn spinner_cycles_through_four_frames() {
    assert_eq!(spinner(0), '|');
    assert_eq!(spinner(1), '/');
    assert_eq!(spinner(2), '-');
    assert_eq!(spinner(3), '\\');
    assert_eq!(spinner(4), '|');
    assert_eq!(spinner(7), spinner(3));
    assert_eq!(spinner(u64::MAX), '\\');
}

#[test]
fn brand_line_segments() {
    let segs = brand_segments("crane");
    assert_eq!(segs.len(), 2);
    assert_eq!(segs[0].text, "⚓ freight");
    assert_eq!(segs[0].color, ACCENT);
    assert!(segs[0].bold);
    assert_eq!(segs[1].text, " · crane");
    assert_eq!(segs[1].color, PaletteColor::DarkGray);
    assert_eq!(segs[1].color, MUTED);
    assert!(!segs[1].bold);
}

#[test]
fn log_window_follows_the_tail() {
    // 10 lines, a console of 6 rows shows the last 4.
    assert_eq!(log_window(10, 0, 6), (6, 10));
    // Scrolled up 3 lines.
    assert_eq!(log_window(10, 3, 6), (3, 7));
    // Scrolled past the top.
    assert_eq!(log_window(10, 20, 6), (0, 0));
    // Fewer lines than rows.
    assert_eq!(log_window(2, 0, 6), (0, 2));
    // No room inside the border.
    assert_eq!(log_window(10, 0, 1), (10, 10));
}

#[test]
fn visible_lines_are_the_window() {
    let lines: Vec<String> = (0..10).map(|i| format!("line {i}")).collect();
    let shown = visible_log_lines(&lines, 3, 6);
    assert_eq!(shown, vec!["line 3", "line 4", "line 5", "line 6"]);
    assert!(visible_log_lines(&lines, 0, 2).is_empty());
    assert!(visible_log_lines(&[], 0, 10).is_empty());
}
