use sofka::ansi::ansi_runs;
use sofka::text::wrapped_height;
use sofka::wrap::{visible_wrapped_rows, wrap_line};

/// The spans a log body is drawn with: one per ANSI run, tagged by its
/// position.
fn spans(raw: &str) -> Vec<(String, usize)> {
    ansi_runs(raw).into_iter().enumerate().map(|(i, r)| (r.text, i)).collect()
}

fn texts<S>(rows: &[Vec<(String, S)>]) -> Vec<String> {
    rows.iter().map(|r| r.iter().map(|(t, _)| t.as_str()).collect()).collect()
}

#[test]
fn wrapped_height_matches_wrap_line() {
    let cases = [
        "",
        "short",
        "exactly-ten",
        "a much longer plain ascii log line that wraps a few times over",
        // Tabs and other ASCII controls are zero-width.
        "column\tvalue\tthat wraps near a boundary",
        // ANSI escapes are zero-width.
        "\x1b[33mwarn\x1b[0m something colorful happened in the reconcile loop",
        // Wide CJK glyphs take two columns and never straddle a break.
        "日本語のログ行 with mixed ascii ワイド文字",
        // Combining mark (zero width) + multi-byte.
        "cafe\u{301} naïve élan über — dash",
        // Lone ESC and non-SGR CSI are swallowed.
        "\x1bodd \x1b[2Kcleared line",
    ];
    for w in [1usize, 3, 10, 37, 120] {
        for raw in cases {
            let rows = wrap_line(spans(raw), w).len();
            assert_eq!(wrapped_height(raw, w), rows, "height/split disagree for {raw:?} at width {w}");
        }
    }
}

#[test]
fn rows_break_spans_and_keep_their_styles() {
    let rows = wrap_line(vec![("abcd".to_string(), 1u8), ("efg".to_string(), 2u8)], 3);
    assert_eq!(
        rows,
        vec![
            vec![("abc".to_string(), 1u8)],
            vec![("d".to_string(), 1u8), ("ef".to_string(), 2u8)],
            vec![("g".to_string(), 2u8)],
        ]
    );
}

#[test]
fn a_wide_glyph_moves_whole_to_the_next_row() {
    let rows = wrap_line(vec![("a五b".to_string(), 0u8)], 2);
    assert_eq!(texts(&rows), vec!["a", "五", "b"]);
    // Alone on a row, a glyph wider than the row still gets one.
    let rows = wrap_line(vec![("五五".to_string(), 0u8)], 1);
    assert_eq!(texts(&rows), vec!["五", "五"]);
}

#[test]
fn an_empty_line_takes_one_empty_row() {
    let rows = wrap_line(Vec::<(String, u8)>::new(), 10);
    assert_eq!(rows, vec![Vec::<(String, u8)>::new()]);
    let rows = wrap_line(vec![(String::new(), 0u8)], 0);
    assert_eq!(rows.len(), 1);
    assert!(rows[0].is_empty());
}

#[test]
fn zero_width_counts_as_one_column() {
    let rows = wrap_line(vec![("abc".to_string(), 0u8)], 0);
    assert_eq!(texts(&rows), vec!["a", "b", "c"]);
}

#[test]
fn the_viewport_takes_rows_from_the_offset_on() {
    let lines = vec![
        vec![("abcdef".to_string(), 0u8)],
        vec![("gh".to_string(), 1u8)],
        vec![("ijklmn".to_string(), 2u8)],
    ];
    // Rows at width 3: abc def gh ijk lmn.
    let all = visible_wrapped_rows(lines.clone(), 3, 0, 100);
    assert_eq!(texts(&all), vec!["abc", "def", "gh", "ijk", "lmn"]);
    let view = visible_wrapped_rows(lines.clone(), 3, 1, 3);
    assert_eq!(texts(&view), vec!["def", "gh", "ijk"]);
    assert_eq!(view[1], vec![("gh".to_string(), 1u8)]);
    assert!(visible_wrapped_rows(lines.clone(), 3, 5, 2).is_empty());
    assert!(visible_wrapped_rows(lines, 3, 0, 0).is_empty());
}
