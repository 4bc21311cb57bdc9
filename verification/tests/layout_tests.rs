use sofka::layout::{distribute_column_widths, ColWidth};
use sofka::logline::{all_ready, leading_timestamp, source_color, source_prefix};
use sofka::screen::{
    centered_rect_exact, centered_rect_with_min, container_column_widths, container_columns_width, header_hints_fit,
    visible_items, Rect, TableViewport,
};
use sofka::text::{
    clip_to_width, decimal_string, display_height, is_blank, is_keyish, str_width_of, strip_ansi,
    strip_ansi_if_present, wrapped_height,
};

#[test]
fn clip_to_width_measures_terminal_columns() {
    assert_eq!(clip_to_width("abc", 5), "abc");
    assert_eq!(clip_to_width("abcdef", 4), "abc…");
    // Six characters, twelve columns wide.
    assert_eq!(str_width_of("日本語ファイル"), 14);
    let clipped = clip_to_width("日本語ファイル", 8);
    assert!(str_width_of(&clipped) <= 8, "{clipped:?} is {} wide", str_width_of(&clipped));
    assert!(clipped.ends_with('…'));
    // No room even for the ellipsis.
    assert_eq!(clip_to_width("abc", 0), "");
}

#[test]
fn width_deficit_trims_padding_before_data() {
    // NAME needs 10 but weighs 6; EXTERNAL-IP needs 15 and weighs 1.
    let cols = [(ColWidth::Flex(6), 10), (ColWidth::Flex(1), 15), (ColWidth::Cap(7), 3)];
    let widths = distribute_column_widths(28, &cols);
    // 28 - AGE(3) = 25 for the flex pair: NAME's share (25*6/7 = 21)
    // covers its 10, so EXTERNAL-IP gets the remaining 15 in full.
    assert_eq!(widths, vec![10, 15, 3]);
}

#[test]
fn width_surplus_spreads_by_weight() {
    let cols = [(ColWidth::Flex(6), 10), (ColWidth::Flex(2), 5)];
    let widths = distribute_column_widths(55, &cols);
    // 55 - 15 needed = 40 surplus → 30/10 by weight.
    assert_eq!(widths, vec![40, 15]);
    assert_eq!(widths.iter().map(|&w| u32::from(w)).sum::<u32>(), 55);
}

#[test]
fn width_hard_deficit_shares_by_weight() {
    let cols = [(ColWidth::Flex(6), 100), (ColWidth::Flex(1), 100)];
    let widths = distribute_column_widths(21, &cols);
    assert_eq!(widths, vec![18, 3]);
}

#[test]
fn width_exact_and_cap_rules() {
    let cols = [
        (ColWidth::Exact(12), 3),
        (ColWidth::Cap(19), 7),
        (ColWidth::Cap(19), 25),
        (ColWidth::Flex(1), 5),
    ];
    let widths = distribute_column_widths(60, &cols);
    assert_eq!(widths[0], 12, "user width kept even when content is short");
    assert_eq!(widths[1], 7, "cap shrinks to the widest visible value");
    assert_eq!(widths[2], 19, "cap still bounds long content");
    // Flex takes its 5 plus the whole surplus (60 - 12 - 7 - 19 = 22).
    assert_eq!(widths[3], 22);
}

#[test]
fn width_budget_is_spent_in_full() {
    let cols = [(ColWidth::Flex(3), 4), (ColWidth::Exact(5), 1), (ColWidth::Flex(2), 40)];
    for budget in [10u16, 20, 47, 80, 200] {
        let widths = distribute_column_widths(budget, &cols);
        let total: u32 = widths.iter().map(|&w| u32::from(w)).sum();
        assert_eq!(total, u32::from(budget), "budget {budget}: {widths:?}");
    }
}

#[test]
fn all_ready_requires_full_fraction() {
    assert!(all_ready("2/2"));
    assert!(all_ready("0/0"));
    assert!(!all_ready("1/2"));
    assert!(!all_ready("0/1"));
    // Non-fraction cells (other kinds' status columns) never trigger it.
    assert!(all_ready("Ready"));
}

#[test]
fn all_ready_compares_text_after_the_first_slash() {
    assert!(!all_ready("1/1/x"));
    assert!(!all_ready("10/1"));
    assert!(all_ready("/"));
}

#[test]
fn wrapped_height_counts_columns_not_bytes() {
    assert_eq!(wrapped_height("", 10), 1); // empty line still takes a row
    assert_eq!(wrapped_height("aaaaaaaaaa", 10), 1); // exact fit
    assert_eq!(wrapped_height("aaaaaaaaaab", 10), 2);
    // 5 wide chars = 10 columns → one row at width 10, not "5 chars fit".
    assert_eq!(wrapped_height("五五五五五", 10), 1);
    assert_eq!(wrapped_height("五五五五五五", 10), 2);
    // ANSI escapes don't consume columns.
    assert_eq!(wrapped_height("\x1b[31maaaaaaaaaa\x1b[0m", 10), 1);
}

#[test]
fn wrapped_height_edge_cases() {
    // Width zero counts as one column per row.
    assert_eq!(wrapped_height("abc", 0), 3);
    // A wide glyph that does not fit moves whole to the next row.
    assert_eq!(wrapped_height("a五", 2), 2);
    // Tabs are control characters and take no columns.
    assert_eq!(wrapped_height("a\tb", 2), 1);
    // A lone escape is dropped, a CSI sequence too.
    assert_eq!(wrapped_height("\x1bab\x1b[2Kcd", 2), 2);
}

#[test]
fn display_height_sums_the_lines() {
    assert_eq!(display_height("abc\ndefgh", 3), 3);
    assert_eq!(display_height("", 5), 1);
    assert_eq!(display_height("a\n\nb", 0), 3);
}

#[test]
fn leading_timestamp_detection() {
    // Space-terminated RFC3339 → dimmed.
    assert_eq!(leading_timestamp("2026-06-30T12:52:20.876Z hello"), Some(24));
    assert_eq!(leading_timestamp("2026-06-30T12:52:20Z msg"), Some(20));
    assert_eq!(leading_timestamp("2026-06-30T12:52:20.5+02:00 msg"), Some(27));
    // Glued to the message (config-reloader style) → NOT a timestamp.
    assert_eq!(leading_timestamp("2026-06-27T04:56:24.216Zinfo k8s_watch"), None);
    // Not a timestamp at all.
    assert_eq!(leading_timestamp("Close ws://127.0.0.1"), None);
}

#[test]
fn leading_timestamp_accepts_space_separator_and_end_of_line() {
    assert_eq!(leading_timestamp("2026-06-30 12:52:20"), Some(19));
    assert_eq!(leading_timestamp("2026-06-30T12:52:20\tx"), Some(19));
    assert_eq!(leading_timestamp("2026-06-30T12:52:20-07:00"), Some(25));
    assert_eq!(leading_timestamp("2026-06-30T12:52"), None);
}

#[test]
fn source_prefix_detection() {
    // "[rod] " is 6 bytes including the trailing space.
    assert_eq!(source_prefix("[rod] Close ws://x").map(|(e, _)| e), Some(6));
    assert_eq!(source_prefix("[main] {\"level\":\"info\"}").map(|(e, _)| e), Some(7));
    // No trailing space still detected.
    assert_eq!(source_prefix("[x]done").map(|(e, _)| e), Some(3));
    assert_eq!(source_prefix("no prefix here"), None);
    assert_eq!(source_prefix("[]empty"), None);
}

#[test]
fn source_color_is_stable_and_distinct() {
    // Same label → same palette slot across calls.
    assert_eq!(source_color("rod"), source_color("rod"));
    for label in ["rod", "main", "istio-proxy", "app", "vmagent"] {
        assert!(source_color(label) < 10);
    }
    // The two prefixes in the screenshot land on different colors.
    assert_ne!(source_color("rod"), source_color("main"));
    // FNV-1a of the empty label is the offset basis: 2166136261 % 10.
    assert_eq!(source_color(""), 1);
    assert_eq!(source_prefix("[rod] x").map(|(_, slot)| slot), Some(source_color("rod")));
}

#[test]
fn strips_and_interprets_ansi() {
    let raw = "2026/07/01 08:43:13 \x1b[34mINFO\x1b[0m WAF started";
    let text = strip_ansi(raw);
    assert_eq!(text, "2026/07/01 08:43:13 INFO WAF started");
    assert!(!text.contains('\x1b') && !text.contains("[34m"));
    assert_eq!(strip_ansi("\x1b[1;31mE\x1b[0mrror"), "Error");
    assert_eq!(strip_ansi_if_present("plain text"), "plain text");
    assert_eq!(strip_ansi_if_present("\x1bodd \x1b[2Kcleared"), "odd cleared");
}

#[test]
fn keyish_and_blank_text() {
    assert!(is_keyish("  Containers "));
    assert!(is_keyish("restart_count-total"));
    assert!(!is_keyish("   "));
    assert!(!is_keyish("a: b"));
    assert!(is_blank(" \t\n"));
    assert!(!is_blank(" x "));
}

#[test]
fn decimal_strings() {
    assert_eq!(decimal_string(0), "0");
    assert_eq!(decimal_string(7), "7");
    assert_eq!(decimal_string(1234567890), "1234567890");
    assert_eq!(decimal_string(u64::MAX), u64::MAX.to_string());
}

#[test]
fn viewport_freezes_anchored_columns() {
    let vp = TableViewport::new(&[4, 6, 3], 1, 10);
    assert_eq!(vp.columns, vec![(2, 6), (8, 14), (16, 19)]);
    assert_eq!(vp.frozen_width, 8);
    assert_eq!(vp.max_offset, 9);
    assert_eq!(vp.ranges(0), vec![(2, 6, 0, 0), (8, 10, 1, 0)]);
    assert_eq!(vp.ranges(5), vec![(2, 6, 0, 0), (8, 9, 1, 5)]);
    assert_eq!(vp.ranges(9), vec![(2, 6, 0, 0), (8, 10, 2, 1)]);
}

#[test]
fn visible_items_counts_whole_items() {
    assert_eq!(visible_items(&[1, 2, 3], 0, 3), 2);
    assert_eq!(visible_items(&[5], 0, 3), 1);
    assert_eq!(visible_items(&[1, 1, 1], 1, 10), 2);
    assert_eq!(visible_items(&[1, 1], 5, 10), 1);
}

#[test]
fn header_hints_need_room() {
    assert!(!header_hints_fit(117));
    assert!(header_hints_fit(118));
    assert!(!header_hints_fit(0));
}

#[test]
fn centered_rect_with_min_keeps_popups_readable() {
    let area = Rect { x: 10, y: 20, width: 100, height: 20 };
    assert_eq!(centered_rect_with_min(50, 20, 56, 7, area), Rect { x: 32, y: 26, width: 56, height: 7 });

    let tiny = Rect { x: 3, y: 4, width: 40, height: 5 };
    assert_eq!(centered_rect_with_min(50, 20, 56, 7, tiny), tiny);
    assert_eq!(centered_rect_exact(10, 2, area), Rect { x: 55, y: 29, width: 10, height: 2 });
}

#[test]
fn container_columns_drop_percentages_first() {
    let names = vec!["web".to_string()];
    let states = vec!["Running".to_string()];
    let restarts = vec![3];
    let wide = container_column_widths(&names, &states, &restarts, 200);
    assert_eq!(wide, [8, 5, 7, 8, 7, 9, 8, 9]);
    assert_eq!(container_columns_width(&wide), 61 + 14);
    let narrow = container_column_widths(&names, &states, &restarts, 50);
    assert_eq!(narrow[5], 0);
    assert_eq!(narrow[7], 0);
    assert!(container_columns_width(&narrow) <= 50);
}
