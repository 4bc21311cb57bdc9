use sofka::ansi::{ansi_runs, apply_sgr, parse_u8, AnsiColor};
use sofka::text::strip_ansi;

fn sgr(params: &str, color: Option<AnsiColor>, bold: bool) -> (Option<AnsiColor>, bool) {
    let mut c = color;
    let mut b = bold;
    apply_sgr(params, &mut c, &mut b);
    (c, b)
}

fn chars(s: &str) -> Vec<char> {
    s.chars().collect()
}

#[test]
fn ansi_runs_plain_string_is_single_run() {
    let runs = ansi_runs("plain text");
    assert_eq!(runs.len(), 1);
    assert_eq!(runs[0].text, "plain text");
    assert_eq!(runs[0].color, None);
}

#[test]
fn ansi_truecolor_passes_through() {
    let runs = ansi_runs("\x1b[38;2;10;20;30mX\x1b[0m");
    assert_eq!(runs[0].text, "X");
    assert_eq!(runs[0].color, Some(AnsiColor::Rgb(10, 20, 30)));
    assert_eq!(strip_ansi("\x1b[1;31mE\x1b[0mrror"), "Error");
}

#[test]
fn caddy_style_level_token_is_its_own_coloured_run() {
    let runs = ansi_runs("2026/07/01 08:43:13 \x1b[34mINFO\x1b[0m WAF started");
    let text: String = runs.iter().map(|r| r.text.as_str()).collect();
    assert_eq!(text, "2026/07/01 08:43:13 INFO WAF started");
    assert_eq!(runs.len(), 3);
    assert_eq!(runs[0].color, None);
    assert_eq!(runs[1].text, "INFO");
    assert_eq!(runs[1].color, Some(AnsiColor::Standard(34)));
    assert_eq!(runs[2].text, " WAF started");
    assert_eq!(runs[2].color, None);
}

#[test]
fn empty_string_is_one_empty_run() {
    let runs = ansi_runs("");
    assert_eq!(runs.len(), 1);
    assert_eq!(runs[0].text, "");
    assert_eq!(runs[0].color, None);
    assert!(!runs[0].bold);
}

#[test]
fn only_escapes_gives_one_empty_run_in_the_final_style() {
    let runs = ansi_runs("\x1b[1;32m");
    assert_eq!(runs.len(), 1);
    assert_eq!(runs[0].text, "");
    assert_eq!(runs[0].color, Some(AnsiColor::Standard(32)));
    assert!(runs[0].bold);
}

#[test]
fn non_sgr_csi_and_lone_escapes_are_dropped_without_a_new_run() {
    let runs = ansi_runs("a\x1b[2Kb\x1bc");
    assert_eq!(runs.len(), 1);
    assert_eq!(runs[0].text, "abc");
    let truncated = ansi_runs("x\x1b[12");
    assert_eq!(truncated.len(), 1);
    assert_eq!(truncated[0].text, "x");
}

#[test]
fn bold_and_colour_change_independently() {
    let runs = ansi_runs("\x1b[1mA\x1b[31mB\x1b[22mC\x1b[39mD");
    let got: Vec<(String, Option<AnsiColor>, bool)> =
        runs.iter().map(|r| (r.text.clone(), r.color, r.bold)).collect();
    assert_eq!(
        got,
        vec![
            ("A".to_string(), None, true),
            ("B".to_string(), Some(AnsiColor::Standard(31)), true),
            ("C".to_string(), Some(AnsiColor::Standard(31)), false),
            ("D".to_string(), None, false),
        ]
    );
}

#[test]
fn texts_of_runs_are_the_stripped_text() {
    for s in ["plain", "\x1b[1;31mE\x1b[0mrror", "a\x1b[2Kb\x1b[m\x1bc", "\x1b[38;5;9mred\x1b[0m!", "\x1b["] {
        let joined: String = ansi_runs(s).iter().map(|r| r.text.as_str()).collect();
        assert_eq!(joined, strip_ansi(s));
    }
}

#[test]
fn sgr_resets_on_zero_and_on_nothing() {
    let lit = Some(AnsiColor::Standard(31));
    assert_eq!(sgr("", lit, true), (None, false));
    assert_eq!(sgr("0", lit, true), (None, false));
    assert_eq!(sgr("1;;", lit, false), (None, false));
}

#[test]
fn sgr_standard_and_bright_codes_set_the_colour() {
    assert_eq!(sgr("30", None, false), (Some(AnsiColor::Standard(30)), false));
    assert_eq!(sgr("97", None, false), (Some(AnsiColor::Standard(97)), false));
    assert_eq!(sgr("38", None, false), (None, false));
    assert_eq!(sgr("42", None, false), (None, false));
    assert_eq!(sgr("98", None, false), (None, false));
    assert_eq!(sgr("031", None, false), (Some(AnsiColor::Standard(31)), false));
}

#[test]
fn sgr_palette_and_truecolour_consume_their_values() {
    assert_eq!(sgr("38;5;200", None, false), (Some(AnsiColor::Indexed(200)), false));
    // An out-of-range palette index is consumed, so the 31 after it still counts.
    assert_eq!(sgr("38;5;300;31", None, false), (Some(AnsiColor::Standard(31)), false));
    assert_eq!(sgr("38;2;1;2;3;1", None, false), (Some(AnsiColor::Rgb(1, 2, 3)), true));
    // A truecolour triple with a bad value is consumed whole and changes nothing.
    assert_eq!(sgr("38;2;1;256;3", None, false), (None, false));
    // Too few values: everything left is consumed.
    assert_eq!(sgr("38;2;1;2", None, false), (None, false));
    // An unknown colour mode after 38 is skipped with it.
    assert_eq!(sgr("38;7;33", None, false), (Some(AnsiColor::Standard(33)), false));
}

#[test]
fn parse_u8_follows_std() {
    assert_eq!(parse_u8(&chars("0")), Some(0));
    assert_eq!(parse_u8(&chars("255")), Some(255));
    assert_eq!(parse_u8(&chars("256")), None);
    assert_eq!(parse_u8(&chars("+7")), Some(7));
    assert_eq!(parse_u8(&chars("+")), None);
    assert_eq!(parse_u8(&chars("")), None);
    assert_eq!(parse_u8(&chars("1a")), None);
    assert_eq!(parse_u8(&chars("0000000000000000000012")), Some(12));
    for t in ["0", "255", "256", "+7", "+", "", "1a", "-1", "99999999999"] {
        assert_eq!(parse_u8(&chars(t)), t.parse::<u8>().ok());
    }
}

#[test]
fn back_to_back_sequences_close_no_empty_runs() {
    let runs = ansi_runs("a\x1b[31m\x1b[1mb\x1b[0m\x1b[32m");
    let got: Vec<(String, Option<AnsiColor>, bool)> =
        runs.iter().map(|r| (r.text.clone(), r.color, r.bold)).collect();
    assert_eq!(
        got,
        vec![("a".to_string(), None, false), ("b".to_string(), Some(AnsiColor::Standard(31)), true)]
    );
    assert!(ansi_runs("x\x1b[0m").iter().all(|r| !r.text.is_empty()));
}
