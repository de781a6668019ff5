use hoard::highlight::highlight_span;

#[test]
fn span_covers_occurrence_through_end_token() {
    assert_eq!(Some((5, 13)), highlight_span("echo #param1$", "#", "$"));
}

#[test]
fn span_of_unterminated_occurrence_is_start_token_only() {
    assert_eq!(Some((4, 5)), highlight_span("run #abc def", "#", "$"));
}

#[test]
fn span_with_empty_end_token_is_start_token_only() {
    assert_eq!(Some((3, 4)), highlight_span("go #x", "#", ""));
}

#[test]
fn span_skips_escaped_occurrence() {
    assert_eq!(None, highlight_span("a\\#b", "#", "!"));
}

#[test]
fn span_is_none_when_all_resolved() {
    assert_eq!(None, highlight_span("echo done", "#", "$"));
}

#[test]
fn span_stops_at_next_start_token() {
    assert_eq!(Some((2, 3)), highlight_span("a #x #y$", "#", "$"));
}

#[test]
fn span_counts_characters_not_bytes() {
    assert_eq!(Some((6, 9)), highlight_span("héllo #p$", "#", "$"));
}

#[test]
fn span_finds_short_closed_occurrence() {
    assert_eq!(Some((2, 5)), highlight_span("x #p! y", "#", "!"));
}
