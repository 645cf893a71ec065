use deet::text::{count_words, split_lines, trim};

#[test]
fn words_are_counted_as_runs_without_white_space() {
    assert_eq!(count_words(""), 0);
    assert_eq!(count_words("   \n\t"), 0);
    assert_eq!(count_words("one"), 1);
    assert_eq!(count_words("one two\nthree\t four  "), 4);
    for text in ["a b c", " lead and trail ", "tabs\tand\nlines\r\n", "ünï cödé"] {
        assert_eq!(count_words(text), text.split_whitespace().count());
    }
}

#[test]
fn a_text_is_cut_at_every_line_feed() {
    assert_eq!(split_lines(""), vec![""]);
    assert_eq!(split_lines("a"), vec!["a"]);
    assert_eq!(split_lines("a\nb"), vec!["a", "b"]);
    assert_eq!(split_lines("a\n"), vec!["a", ""]);
    assert_eq!(split_lines("\n\n"), vec!["", "", ""]);
    assert_eq!(split_lines("a\r\nb c\n"), vec!["a\r", "b c", ""]);
    for text in ["x\ny\nz", "\nlead", "no feed", "é\nü\n"] {
        let expected: Vec<&str> = text.split('\n').collect();
        assert_eq!(split_lines(text), expected);
    }
}

#[test]
fn white_space_is_taken_off_both_ends() {
    assert_eq!(trim(""), "");
    assert_eq!(trim("   "), "");
    assert_eq!(trim("a"), "a");
    assert_eq!(trim("  a b \t\n"), "a b");
    assert_eq!(trim("\u{3000}é \u{a0}"), "é");
    for text in [" x", "x ", " x y ", "\r\nword\r\n", "in  side"] {
        assert_eq!(trim(text), text.trim());
    }
}
