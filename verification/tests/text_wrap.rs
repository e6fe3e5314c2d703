use boxflow::dom::Dom;
use boxflow::node::Text;
use boxflow::style::{Font, Style};
use boxflow::text::{calculate_line_height, measure_text, split_on, split_words, FixedAdvanceMetrics};

// With FixedAdvanceMetrics every character at size 16 advances 16 / 2 + 1 = 9
// pixels, so a five-letter word is 45 wide and a space is 9.

#[test]
fn line_height_is_nine_eighths_of_font_size() {
    assert_eq!(calculate_line_height(16), 18);
    assert_eq!(calculate_line_height(8), 9);
    assert_eq!(calculate_line_height(0), 0);
}

#[test]
fn split_on_keeps_empty_pieces() {
    let pieces = split_on("a\n\nb", '\n');
    assert_eq!(pieces, vec!["a".to_string(), "".to_string(), "b".to_string()]);
    let one = split_on("abc", '\n');
    assert_eq!(one, vec!["abc".to_string()]);
    let empty = split_on("", '\n');
    assert_eq!(empty, vec!["".to_string()]);
}

#[test]
fn split_words_collapses_spaces() {
    let words = split_words("  one   two  ");
    assert_eq!(words, vec!["one".to_string(), "two".to_string()]);
    let none = split_words("   ");
    assert!(none.is_empty());
}

#[test]
fn six_words_at_two_per_line_make_three_lines() {
    // Each word is 45 wide; two words and a space are 99, which fits a
    // 100-pixel wrap width, and a third word would need 153.
    let metrics = FixedAdvanceMetrics::new();
    let (max_w, total_h, info) =
        measure_text(&metrics, "aaaaa aaaaa aaaaa aaaaa aaaaa aaaaa", 0, 16, 100);
    assert_eq!(info.lines.len(), 3);
    for line in &info.lines {
        assert_eq!(line, "aaaaa aaaaa");
    }
    for w in &info.line_widths {
        assert_eq!(*w, 99);
        assert!(*w <= 100);
    }
    for h in &info.line_heights {
        assert_eq!(*h, 18);
    }
    assert_eq!(max_w, 99);
    assert_eq!(total_h, 54);
}

#[test]
fn fitting_line_is_kept_whole() {
    let metrics = FixedAdvanceMetrics::new();
    let (max_w, total_h, info) = measure_text(&metrics, "ab cd", 0, 16, 1000);
    assert_eq!(info.lines, vec!["ab cd".to_string()]);
    assert_eq!(max_w, 45);
    assert_eq!(total_h, 18);
}

#[test]
fn overlong_word_gets_its_own_line() {
    // A single word wider than the wrap width is placed alone, unbroken.
    let metrics = FixedAdvanceMetrics::new();
    let (max_w, _, info) = measure_text(&metrics, "a aaaaaaaaaa a", 0, 16, 50);
    assert_eq!(
        info.lines,
        vec!["a".to_string(), "aaaaaaaaaa".to_string(), "a".to_string()]
    );
    // The widest produced line is clamped to the wrap width.
    assert_eq!(max_w, 50);
    assert_eq!(info.line_widths[1], 90);
}

#[test]
fn hard_newlines_split_first() {
    let metrics = FixedAdvanceMetrics::new();
    let (_, total_h, info) = measure_text(&metrics, "ab\ncd", 0, 16, 1000);
    assert_eq!(info.lines, vec!["ab".to_string(), "cd".to_string()]);
    assert_eq!(total_h, 36);
}

#[test]
fn measuring_twice_yields_identical_line_sets() {
    let metrics = FixedAdvanceMetrics::new();
    let first = measure_text(&metrics, "aaaaa aaaaa aaaaa", 7, 14, 120);
    let second = measure_text(&metrics, "aaaaa aaaaa aaaaa", 7, 14, 120);
    assert_eq!(first.0, second.0);
    assert_eq!(first.1, second.1);
    assert_eq!(first.2.lines, second.2.lines);
    assert_eq!(first.2.line_widths, second.2.line_widths);
    assert_eq!(first.2.line_heights, second.2.line_heights);
}

#[test]
fn styled_text_node_is_measured_at_its_own_font_size() {
    // A text run carrying its own authored font size 32 measures with a
    // 9/8 line height of 36, not the engine default of 18.
    let mut dom = Dom::new();
    let root = dom.root;
    let t = dom.create_text(Text::new("aa".to_string()));
    dom.append_child(root, t);
    let mut s = Style::default();
    s.font = Some(Font { color: None, font_size: Some(32), font_family: None });
    dom.set_style(t, s);
    dom.compute_styles();
    let metrics = FixedAdvanceMetrics::new();
    dom.compute_layout(&metrics, 500, 500);
    let b = dom.layout[t.idx].unwrap();
    // Each glyph is size/2 + 1 = 17 pixels wide; one line of two glyphs.
    assert_eq!(b.actual_width, 34);
    assert_eq!(b.actual_height, 36);
}
