use ph2mapdl::text::normalize;

#[test]
fn scenario_two_paragraphs_with_bullets() {
    let raw = "Hello [b]world[/b][*]first\n\n[*]second\n\nthird paragraph";
    let out = normalize(raw);
    assert_eq!(out, "Hello world  - first\n  - second");
}

#[test]
fn empty_input_gives_empty_output() {
    assert_eq!(normalize(""), "");
}

#[test]
fn short_clean_text_is_unchanged() {
    assert_eq!(normalize("a plain short description"), "a plain short description");
}

#[test]
fn tags_are_stripped() {
    assert_eq!(normalize("[b]bold[/b] and [i]slanted[/i]"), "bold and slanted");
    assert_eq!(normalize("[h1]title[/h1]x"), "titlex");
}

#[test]
fn bullet_markers_become_hyphens() {
    assert_eq!(normalize("x[*]one[*]two"), "x  - one  - two");
    // the final trim removes the indent of a bullet at the very start
    assert_eq!(normalize("[*]one[*]two"), "- one  - two");
}

#[test]
fn leading_whitespace_is_dropped() {
    assert_eq!(normalize("   \t hello"), "hello");
}

#[test]
fn crlf_blank_lines_split_paragraphs() {
    assert_eq!(normalize("first\r\n\r\nsecond\r\n\r\nthird"), "first\nsecond");
}

#[test]
fn third_paragraph_never_shows() {
    let out = normalize("one\n\ntwo\n\nSECRETWORD");
    assert!(!out.contains("SECRETWORD"));
    assert_eq!(out, "one\ntwo");
}

#[test]
fn long_description_wraps_at_whitespace() {
    // 250 characters; no whitespace until past character 100.
    let raw = format!("{} {} {}", "x".repeat(120), "y".repeat(59), "z".repeat(69));
    assert_eq!(raw.len(), 250);
    let out = normalize(&raw);
    let lines: Vec<&str> = out.lines().collect();
    assert_eq!(lines.len(), 3);
    assert_eq!(lines[0], "x".repeat(120));
    assert_eq!(lines[1], "y".repeat(59));
    assert_eq!(lines[2], "z".repeat(69));
    for line in &lines {
        assert!(line.len() <= 100 || !line.trim_start().contains(char::is_whitespace));
    }
}

#[test]
fn wrapping_is_greedy_across_inner_spaces() {
    // 250 characters, whitespace at positions 50 and 99: the first chunk runs
    // to the last whitespace within 100 characters, the unsplittable rest is
    // one line.
    let raw = format!("{} {} {}", "a".repeat(50), "b".repeat(48), "c".repeat(150));
    let out = normalize(&raw);
    let lines: Vec<&str> = out.lines().collect();
    assert_eq!(lines.len(), 2);
    assert_eq!(lines[0], format!("{} {}", "a".repeat(50), "b".repeat(48)));
    assert_eq!(lines[1], "c".repeat(150));
}

#[test]
fn indentation_after_a_break_is_kept() {
    assert_eq!(normalize("head\n  indented"), "head\n  indented");
}

#[test]
fn oversized_single_word_is_not_split() {
    let word = "x".repeat(120);
    assert_eq!(normalize(&word), word);
}

#[test]
fn every_line_fits_or_is_one_word() {
    let raw = format!("{} tail words here", "y".repeat(130));
    let out = normalize(&raw);
    for line in out.lines() {
        assert!(line.len() <= 100 || !line.trim().contains(char::is_whitespace));
    }
}

#[test]
fn removing_a_tag_can_splice_one_together() {
    // The single left-to-right pass removes `[b]` and leaves `[ac]` behind.
    assert_eq!(normalize("[a[b]c]"), "[ac]");
}

#[test]
fn whitespace_runs_inside_a_line_survive() {
    assert_eq!(normalize("one  two"), "one  two");
}
