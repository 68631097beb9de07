use downscaler::resolve::determine_scale;

fn path(parts: &[&str]) -> Vec<String> {
    parts.iter().map(|s| s.to_string()).collect()
}

#[test]
fn longest_matching_prefix_wins() {
    let overrides = vec![(path(&["a"]), 480), (path(&["a", "b"]), 720)];
    let suffix = path(&["a", "b", "c"]);
    assert_eq!(determine_scale(&suffix, None, &overrides), Some(720));
    // The same regardless of table order.
    let overrides = vec![(path(&["a", "b"]), 720), (path(&["a"]), 480)];
    assert_eq!(determine_scale(&suffix, None, &overrides), Some(720));
}

#[test]
fn override_beats_default() {
    let overrides = vec![(path(&["movies"]), 480)];
    let suffix = path(&["movies", "action"]);
    assert_eq!(determine_scale(&suffix, Some(720), &overrides), Some(480));
}

#[test]
fn no_match_falls_back_to_default() {
    let overrides = vec![(path(&["movies"]), 480)];
    let suffix = path(&["series"]);
    assert_eq!(determine_scale(&suffix, Some(720), &overrides), Some(720));
}

#[test]
fn no_match_and_no_default_is_none() {
    let overrides = vec![(path(&["movies"]), 480)];
    let suffix = path(&["series"]);
    assert_eq!(determine_scale(&suffix, None, &overrides), None);
}

#[test]
fn prefix_is_componentwise_not_textual() {
    // "movies" must match "movies/action" but not "movies2".
    let overrides = vec![(path(&["movies"]), 480)];
    assert_eq!(determine_scale(&path(&["movies", "action"]), None, &overrides), Some(480));
    assert_eq!(determine_scale(&path(&["movies2"]), None, &overrides), None);
}

#[test]
fn exact_match_counts_as_prefix() {
    let overrides = vec![(path(&["movies"]), 480)];
    assert_eq!(determine_scale(&path(&["movies"]), None, &overrides), Some(480));
}

#[test]
fn empty_key_matches_everything_but_loses_to_longer() {
    let overrides = vec![(Vec::new(), 1080), (path(&["movies"]), 480)];
    assert_eq!(determine_scale(&path(&["series"]), None, &overrides), Some(1080));
    assert_eq!(determine_scale(&path(&["movies"]), None, &overrides), Some(480));
}

#[test]
fn key_longer_than_suffix_does_not_match() {
    let overrides = vec![(path(&["a", "b", "c"]), 480)];
    assert_eq!(determine_scale(&path(&["a", "b"]), None, &overrides), None);
}
