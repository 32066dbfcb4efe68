use ana::progress::{
    bar_of, clamp_width, no_progress_disabled, sanitize, should_redraw, truncate, FetchTally,
    StatusLine, FALLBACK_WIDTH, MIN_REDRAW_INTERVAL,
};

#[test]
fn no_progress_disabled_is_true_only_for_non_empty_values() {
    assert!(!no_progress_disabled(None));
    assert!(!no_progress_disabled(Some("")));
    assert!(no_progress_disabled(Some("1")));
    assert!(no_progress_disabled(Some("0")));
    assert!(no_progress_disabled(Some("false")));
}

#[test]
fn should_redraw_always_allows_the_first_draw() {
    assert!(should_redraw(None, 0));
}

#[test]
fn should_redraw_throttles_a_redraw_that_is_too_soon() {
    let first: u64 = 5_000_000_000;
    let too_soon = first + 1_000_000;
    assert!(!should_redraw(Some(first), too_soon));
}

#[test]
fn should_redraw_allows_a_redraw_once_the_interval_has_elapsed() {
    let first: u64 = 5_000_000_000;
    let later = first + MIN_REDRAW_INTERVAL;
    assert!(should_redraw(Some(first), later));
}

#[test]
fn truncate_leaves_short_text_untouched() {
    assert_eq!(truncate("short", 80), "short");
}

#[test]
fn truncate_shortens_long_text_with_an_ellipsis() {
    let long = "x".repeat(90);
    let truncated = truncate(&long, 80);
    assert_eq!(truncated.chars().count(), 80);
    assert!(truncated.ends_with('…'));
}

#[test]
fn truncate_at_exactly_the_width_is_untouched() {
    let exact = "x".repeat(80);
    assert_eq!(truncate(&exact, 80), exact);
}

#[test]
fn truncate_handles_a_zero_width_without_underflowing() {
    assert_eq!(truncate("anything", 0), "");
}

#[test]
fn clamp_width_falls_back_when_detection_fails() {
    assert_eq!(clamp_width(None), FALLBACK_WIDTH - 1);
}

#[test]
fn clamp_width_reserves_one_column_of_margin() {
    assert_eq!(clamp_width(Some(100)), 99);
}

#[test]
fn clamp_width_never_reaches_zero_even_for_a_one_column_terminal() {
    assert_eq!(clamp_width(Some(1)), 1);
    assert_eq!(clamp_width(Some(0)), 1);
}

/// A status line whose output is no terminal.
fn disabled_status_line() -> StatusLine {
    StatusLine::new(false, None)
}

#[test]
fn disabled_status_line_never_marks_itself_drawn() {
    let mut line = disabled_status_line();
    assert!(!line.enabled());
    assert_eq!(line.update("this should never render", 0, None), None);
    assert!(!line.drawn());
    assert_eq!(line.clear(), None);
}

#[test]
fn disabled_status_line_never_should_render() {
    let line = disabled_status_line();
    assert!(!line.enabled());
    assert!(!line.should_render(0));
}

#[test]
fn sanitize_leaves_plain_text_untouched() {
    assert_eq!(
        sanitize("ana: installing packages"),
        "ana: installing packages"
    );
}

#[test]
fn sanitize_strips_ansi_escape_sequences() {
    let injected = "evil\x1B[31mred\x1B[0m";
    assert_eq!(sanitize(injected), "evil[31mred[0m");
    assert!(!sanitize(injected).contains('\x1B'));
}

#[test]
fn sanitize_strips_carriage_returns_and_newlines() {
    assert_eq!(sanitize("line one\r\nline two"), "line oneline two");
}

#[test]
fn a_line_on_a_terminal_is_enabled_unless_turned_off() {
    assert!(StatusLine::new(true, None).enabled());
    assert!(StatusLine::new(true, Some("")).enabled());
    assert!(!StatusLine::new(true, Some("1")).enabled());
    assert!(!StatusLine::new(false, None).enabled());
}

#[test]
fn update_erases_cleans_and_cuts() {
    let mut line = StatusLine::new(true, None);
    assert_eq!(
        line.update("ab\ncdef", 7, Some(5)),
        Some("\r\u{1b}[Kabc\u{2026}".to_string())
    );
    assert!(line.drawn());
    assert_eq!(line.update("again", 8, Some(5)), None);
    assert_eq!(
        line.update("again", 7 + MIN_REDRAW_INTERVAL, None),
        Some("\r\u{1b}[Kagain".to_string())
    );
}

#[test]
fn clear_erases_once() {
    let mut line = StatusLine::new(true, None);
    assert_eq!(line.clear(), None);
    line.update("x", 0, None);
    assert_eq!(line.clear(), Some("\r\u{1b}[K"));
    assert_eq!(line.clear(), None);
}

#[test]
fn a_clock_that_goes_back_does_not_redraw() {
    assert!(!should_redraw(Some(10), 5));
}

#[test]
fn bar_cells_are_filled_from_the_left() {
    assert_eq!(bar_of(0, 4), "\u{2591}\u{2591}\u{2591}\u{2591}");
    assert_eq!(bar_of(2, 4), "\u{2588}\u{2588}\u{2591}\u{2591}");
    assert_eq!(bar_of(9, 2), "\u{2588}\u{2588}");
}

#[test]
fn tally_totals_what_downloads_have_brought() {
    let (tally, first) = FetchTally::new(3).start();
    let (tally, second) = tally.start();
    assert_eq!((first, second), (0, 1));
    let tally = tally.advance(first, 100).advance(second, 50);
    assert_eq!(tally.total_bytes(), 150);
    let tally = tally.advance(first, 40).complete();
    assert_eq!(tally.total_bytes(), 90);
    assert_eq!(tally.completed(), 1);
    assert_eq!(tally.expected(), 3);
}

#[test]
fn tally_takes_progress_of_a_download_that_was_not_announced() {
    let tally = FetchTally::new(1).advance(4, 7);
    assert_eq!(tally.total_bytes(), 7);
}
