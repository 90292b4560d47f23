use hygg::search::find;

fn lines_of(words: &[&str]) -> Vec<String> {
    words.iter().map(|w| w.to_string()).collect()
}

#[test]
fn forward_search_wraps_past_the_end() {
    let lines = lines_of(&["alpha", "beta", "gamma"]);
    // scanning starts after line 2, wraps, and the first hit is line 0
    let r = find(&lines, "a", 2, true);
    assert_eq!(r, Some((0, 0, 1)));
}

#[test]
fn forward_search_finds_the_next_line_first() {
    let lines = lines_of(&["alpha", "beta", "gamma"]);
    let r = find(&lines, "a", 0, true);
    assert_eq!(r, Some((1, 3, 4)));
}

#[test]
fn backward_search_scans_down_then_wraps_from_the_end() {
    let lines = lines_of(&["alpha", "beta", "gamma"]);
    let r = find(&lines, "a", 0, false);
    assert_eq!(r, Some((2, 1, 2)));
    let r2 = find(&lines, "alpha", 2, false);
    assert_eq!(r2, Some((0, 0, 5)));
}

#[test]
fn search_is_case_insensitive_both_ways() {
    let lines = lines_of(&["Hello World", "plain"]);
    // an uppercase line is found by a lowercase query
    let r = find(&lines, "hello", 1, true);
    assert_eq!(r, Some((0, 0, 5)));
    // an uppercase query finds a lowercase line
    let r2 = find(&lines, "PLAIN", 0, true);
    assert_eq!(r2, Some((1, 0, 5)));
}

#[test]
fn empty_query_matches_nothing() {
    let lines = lines_of(&["alpha", "beta"]);
    assert_eq!(find(&lines, "", 0, true), None);
    assert_eq!(find(&lines, "", 1, false), None);
}

#[test]
fn absent_needle_matches_nothing() {
    let lines = lines_of(&["alpha", "beta"]);
    assert_eq!(find(&lines, "zeta", 0, true), None);
    assert_eq!(find(&lines, "zeta", 1, false), None);
}

#[test]
fn match_positions_are_the_first_occurrence_in_the_line() {
    let lines = lines_of(&["abcabc"]);
    let r = find(&lines, "bc", 0, true);
    assert_eq!(r, Some((0, 1, 3)));
}
