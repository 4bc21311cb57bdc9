use sofka::layout::ColWidth;
use sofka::screen::{
    column_needs, column_rule, metric_width, table_budget, table_rows, table_scroll, table_title, widen_flex, TitleTone,
};

fn rule(h: &str, nodes: bool) -> ColWidth {
    column_rule(None, None, &h.to_string(), nodes)
}

#[test]
fn headers_pick_their_width_rules() {
    assert_eq!(rule("NAME", false), ColWidth::Flex(6));
    assert_eq!(rule("NAMESPACE", false), ColWidth::Flex(2));
    assert_eq!(rule("VOLUME", false), ColWidth::Flex(1));
    assert_eq!(rule("AGE", false), ColWidth::Cap(7));
    assert_eq!(rule("MEM", false), ColWidth::Exact(8));
    assert_eq!(rule("%CPU", false), ColWidth::Exact(5));
    assert_eq!(rule("PODS", true), ColWidth::Exact(5));
    assert_eq!(rule("STATUS", false), ColWidth::Exact(26));
    assert_eq!(rule("STATUS", true), ColWidth::Exact(27));
    assert_eq!(rule("RESTARTS", false), ColWidth::Cap(10));
    assert_eq!(rule("GROUP", false), ColWidth::Cap(30));
    assert_eq!(rule("VERSIONS", false), ColWidth::Cap(20));
    assert_eq!(rule("SCOPE", false), ColWidth::Cap(12));
    assert_eq!(rule("MESSAGE", false), ColWidth::Flex(4));
    assert_eq!(rule("REVISION", false), ColWidth::Flex(2));
    assert_eq!(rule("SUSPENDED", false), ColWidth::Cap(9));
    assert_eq!(rule("IP", false), ColWidth::Flex(1));
    assert_eq!(rule("name", false), ColWidth::Flex(1));
}

#[test]
fn configured_and_metric_widths_win() {
    let h = "NAME".to_string();
    assert_eq!(column_rule(Some(3), Some(12), &h, false), ColWidth::Exact(3));
    assert_eq!(column_rule(None, Some(12), &h, false), ColWidth::Exact(12));
}

#[test]
fn table_rows_leave_room_for_borders_and_header() {
    assert_eq!(table_rows(0), 1);
    assert_eq!(table_rows(4), 1);
    assert_eq!(table_rows(5), 2);
    assert_eq!(table_rows(40), 37);
}

#[test]
fn table_scroll_keeps_the_selection_in_view() {
    assert_eq!(table_scroll(0, Some(3), 7, 10), (Some(3), 0));
    assert_eq!(table_scroll(5, Some(9), 0, 10), (Some(4), 0));
    assert_eq!(table_scroll(100, Some(50), 0, 10), (Some(50), 41));
    assert_eq!(table_scroll(100, Some(5), 20, 10), (Some(5), 5));
    assert_eq!(table_scroll(100, Some(25), 20, 10), (Some(25), 20));
    assert_eq!(table_scroll(10, None, 30, 5), (None, 9));
}

#[test]
fn table_budget_takes_borders_marker_and_gaps() {
    assert_eq!(table_budget(100, 5), 100 - 4 - 8);
    assert_eq!(table_budget(100, 0), 96);
    assert_eq!(table_budget(10, 10), 0);
    assert_eq!(table_budget(3, 1), 0);
}

#[test]
fn table_titles_show_count_marks_and_filter() {
    let plain: Vec<(String, TitleTone)> = table_title("pods(all)", 12, false, 0, 0, 0, "", false, " (api)");
    assert_eq!(
        plain,
        vec![
            (" pods(all) ".to_string(), TitleTone::Kind),
            ("[12]".to_string(), TitleTone::Count),
            (" ".to_string(), TitleTone::Plain),
        ]
    );
    let full = table_title("pods", 3, true, 2, 5, 4, "app=web", true, " (api)");
    let texts: Vec<&str> = full.iter().map(|(t, _)| t.as_str()).collect();
    assert_eq!(texts, vec![" pods ", "[3]", " [faults]", " ←", " →", " ✓4", " /app=web", " (api)", " "]);
    assert_eq!(full[6].1, TitleTone::BadFilter);
    assert_eq!(full[7].1, TitleTone::Dim);
    let right_edge = table_title("pods", 0, false, 5, 5, 0, "x", false, "");
    let texts: Vec<&str> = right_edge.iter().map(|(t, _)| t.as_str()).collect();
    assert_eq!(texts, vec![" pods ", "[0]", " ←", " /x", "", " "]);
    assert_eq!(right_edge[3].1, TitleTone::Filter);
}

#[test]
fn metric_columns_have_fixed_widths() {
    assert_eq!(metric_width(true, true, true), 12);
    assert_eq!(metric_width(false, true, true), 5);
    assert_eq!(metric_width(false, false, true), 7);
    assert_eq!(metric_width(false, false, false), 8);
}

#[test]
fn sort_and_forward_marks_widen_their_columns() {
    let needed = vec![10u16, 3, 20];
    assert_eq!(column_needs(&needed, Some(1), 6, 0, false), vec![10, 8, 20]);
    assert_eq!(column_needs(&needed, Some(2), 6, 0, true), vec![12, 3, 20]);
    assert_eq!(column_needs(&vec![u16::MAX], Some(0), u16::MAX, 0, true), vec![u16::MAX]);
    assert_eq!(column_needs(&needed, None, 0, 5, true), needed);
}

#[test]
fn flex_columns_are_widened_to_their_floor() {
    let rules = vec![(ColWidth::Flex(2), 30u16), (ColWidth::Flex(6), 40), (ColWidth::Cap(7), 7), (ColWidth::Flex(1), 9)];
    let mut widths = vec![5u16, 10, 2, 4];
    // Frame 84 wide, NAME second: the columns up to NAME are floored at
    // most at (84 - 4) / 4 = 20 cells; later flexible ones at their need.
    widen_flex(&mut widths, &rules, 1, 84);
    assert_eq!(widths, vec![20, 20, 2, 9]);
    let mut wide = vec![25u16, 30, 7, 12];
    widen_flex(&mut wide, &rules, 1, 84);
    assert_eq!(wide, vec![25, 30, 7, 12]);
}
