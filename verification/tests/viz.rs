use kstrk::viz::{keyboard_layout, render_ascii_heatmap};

fn pairs(rows: &[(&str, u64)]) -> Vec<(String, u64)> {
    rows.iter().map(|(name, n)| (name.to_string(), *n)).collect()
}

#[test]
fn test_ascii_heatmap_empty() {
    let counts = Vec::new();
    let heatmap = render_ascii_heatmap(&counts);
    assert!(!heatmap.is_empty());
    assert!(heatmap.contains('░'));
}

#[test]
fn the_layout_has_five_rows() {
    let layout = keyboard_layout();
    let sizes: Vec<usize> = layout.iter().map(|row| row.len()).collect();
    assert_eq!(sizes, vec![13, 13, 11, 10, 1]);
    assert_eq!(layout[0][0], "`");
    assert_eq!(layout[1], vec!["q", "w", "e", "r", "t", "y", "u", "i", "o", "p", "[", "]", "\\"]);
    assert_eq!(layout[4], vec!["space"]);
}

#[test]
fn an_empty_heatmap_is_all_light() {
    let text = render_ascii_heatmap(&Vec::new());
    let expected = format!(
        "{}\n{}\n{}\n{}\n{}\n",
        "░ ".repeat(13),
        "░ ".repeat(13),
        "░ ".repeat(11),
        "░ ".repeat(10),
        "░ "
    );
    assert_eq!(text, expected);
    // Counts of zero shade nothing either.
    assert_eq!(render_ascii_heatmap(&pairs(&[("a", 0), ("q", 0)])), expected);
}

#[test]
fn shades_are_thirds_of_the_largest_count() {
    // The largest count is 9: 0..2 is shade 0, 3..5 shade 1, 6..8 shade 2, 9 shade 3.
    let counts = pairs(&[
        ("q", 9),
        ("w", 8),
        ("e", 6),
        ("r", 5),
        ("t", 3),
        ("y", 2),
        ("u", 0),
        ("space", 9),
        ("unlisted", 4),
    ]);
    let text = render_ascii_heatmap(&counts);
    let rows: Vec<&str> = text.lines().collect();
    assert_eq!(rows.len(), 5);
    assert_eq!(rows[0], "░ ".repeat(13));
    assert_eq!(rows[1], "█ ▓ ▓ ▒ ▒ ░ ░ ░ ░ ░ ░ ░ ░ ");
    assert_eq!(rows[2], "░ ".repeat(11));
    assert_eq!(rows[4], "█ ");
}

#[test]
fn a_key_that_is_not_drawn_still_sets_the_scale() {
    let counts = pairs(&[("F5", 300), ("a", 100), ("s", 99), ("d", 200)]);
    let text = render_ascii_heatmap(&counts);
    let rows: Vec<&str> = text.lines().collect();
    assert_eq!(rows[2], "▒ ░ ▓ ░ ░ ░ ░ ░ ░ ░ ░ ");
}

#[test]
fn of_two_entries_for_a_key_the_first_counts() {
    let counts = pairs(&[("a", 10), ("a", 0), ("s", 0), ("s", 10)]);
    let text = render_ascii_heatmap(&counts);
    let rows: Vec<&str> = text.lines().collect();
    assert_eq!(rows[2], "█ ░ ░ ░ ░ ░ ░ ░ ░ ░ ░ ");
}

#[test]
fn the_largest_counts_do_not_overflow() {
    let counts = pairs(&[("a", u64::MAX), ("s", u64::MAX - 1), ("d", u64::MAX / 3), ("f", u64::MAX / 3 + 1)]);
    let text = render_ascii_heatmap(&counts);
    let rows: Vec<&str> = text.lines().collect();
    assert_eq!(rows[2], "█ ▓ ▒ ▒ ░ ░ ░ ░ ░ ░ ░ ");
}
