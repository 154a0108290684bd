use ui0::text::{chars_of, string_of, trim_jsx_text};

#[test]
fn text_of_one_line_is_kept() {
    assert_eq!(trim_jsx_text("Hello"), "Hello");
    assert_eq!(trim_jsx_text("Hello, "), "Hello, ");
    assert_eq!(trim_jsx_text("  Hello  "), "  Hello  ");
}

#[test]
fn empty_text_has_no_content() {
    assert_eq!(trim_jsx_text(""), "");
    assert_eq!(trim_jsx_text("\n"), "");
    assert_eq!(trim_jsx_text("\n\n\n"), "");
}

#[test]
fn line_breaks_become_single_spaces() {
    assert_eq!(trim_jsx_text("a\nb\nc"), "a b c");
    assert_eq!(trim_jsx_text("\n Hello \n world \n"), "Hello world ");
    assert_eq!(trim_jsx_text("\n Hello \n world \n "), "Hello world");
}

#[test]
fn a_single_space_goes_where_a_line_meets_a_break() {
    assert_eq!(trim_jsx_text("a\n  b"), "a  b");
    assert_eq!(trim_jsx_text("a  \nb"), "a  b");
    assert_eq!(trim_jsx_text("a \n b"), "a b");
    assert_eq!(trim_jsx_text("\n    Hello\n    world\n  "), "   Hello    world");
}

#[test]
fn first_line_keeps_leading_spaces() {
    assert_eq!(trim_jsx_text("  a  \n  b  \n  c  "), "  a   b   c  ");
}

#[test]
fn last_line_keeps_trailing_spaces() {
    assert_eq!(trim_jsx_text("\nHi, "), "Hi, ");
    assert_eq!(trim_jsx_text("a \n"), "a ");
}

#[test]
fn lines_of_nothing_but_spaces_are_dropped() {
    assert_eq!(trim_jsx_text("a\n\n\nb"), "a b");
    assert_eq!(trim_jsx_text("a\n \nb"), "a b");
    assert_eq!(trim_jsx_text("a\n  \nb"), "a b");
    assert_eq!(trim_jsx_text("a\n   \nb"), "a b");
    assert_eq!(trim_jsx_text("a\n \t \nb"), "a b");
}

#[test]
fn text_of_nothing_but_spaces_and_breaks_has_no_content() {
    assert_eq!(trim_jsx_text("\n \n"), "");
    assert_eq!(trim_jsx_text("\n  \n"), "");
    assert_eq!(trim_jsx_text("\n   \n"), "");
    assert_eq!(trim_jsx_text("\n    "), "");
    assert_eq!(trim_jsx_text(" \n  \n "), "");
    assert_eq!(trim_jsx_text("   \n   \n   "), "");
}

#[test]
fn first_line_of_spaces_that_is_not_last_is_dropped() {
    assert_eq!(trim_jsx_text(" \nb"), "b");
    assert_eq!(trim_jsx_text("   \nb"), "b");
}

#[test]
fn last_line_of_spaces_that_is_not_first_is_dropped() {
    assert_eq!(trim_jsx_text("a\n "), "a");
    assert_eq!(trim_jsx_text("a\n    "), "a");
    assert_eq!(trim_jsx_text("a \n    "), "a");
    assert_eq!(trim_jsx_text("a  \n    "), "a ");
}

#[test]
fn only_line_of_spaces_is_kept() {
    assert_eq!(trim_jsx_text("   "), "   ");
}

#[test]
fn tabs_count_as_spaces() {
    assert_eq!(trim_jsx_text("\n\tHello\n\tworld\n"), "Hello world");
    assert_eq!(trim_jsx_text("\n\t\tHello\t\n\tworld\n"), " Hello world");
    assert_eq!(trim_jsx_text("a\tb"), "a b");
    assert_eq!(trim_jsx_text("\ta"), " a");
}

#[test]
fn carriage_return_before_line_feed_ends_the_line() {
    assert_eq!(trim_jsx_text("a\r\nb\r\n"), "a b");
    assert_eq!(trim_jsx_text("\r\n a\r\n"), "a");
    assert_eq!(trim_jsx_text("\r\n  a\r\n"), " a");
}

#[test]
fn lone_carriage_return_stays() {
    assert_eq!(trim_jsx_text("a\rb"), "a\rb");
    assert_eq!(trim_jsx_text("a\r"), "a\r");
    assert_eq!(trim_jsx_text("x\r\r\ny"), "x\r y");
}

#[test]
fn text_beyond_ascii_is_kept() {
    assert_eq!(trim_jsx_text("\n h\u{e9}llo \u{4e16}\u{754c}\n"), "h\u{e9}llo \u{4e16}\u{754c}");
}

#[test]
fn trimming_twice_is_trimming_once() {
    let samples = [
        "",
        "Hello",
        "  a  \n  b  \n  c  ",
        "\n\t\tHello\n\tworld\n",
        "a\r\nb\r\n",
        "x\r\r\ny",
        "   \n   \n   ",
        "   ",
        "a \n",
        "\n   Hi,   there  ",
    ];
    for sample in samples {
        let once = trim_jsx_text(sample);
        let twice = trim_jsx_text(&once);
        assert_eq!(twice, once);
    }
}

#[test]
fn characters_round_trip() {
    let chars = chars_of("a\u{e9}\u{1F600}b");
    assert_eq!(chars, vec!['a', '\u{e9}', '\u{1F600}', 'b']);
    assert_eq!(string_of(&chars), "a\u{e9}\u{1F600}b");
    assert_eq!(chars_of(""), Vec::<char>::new());
}

fn by_the_standard_library(text: &str) -> String {
    let mut buf = String::new();
    let text = text.replace('\t', " ");
    let lines = text.lines();
    let count = lines.clone().count();
    for (i, line) in lines.enumerate() {
        let mut bare = line;
        if i != 0 {
            bare = bare.trim_start_matches(' ');
        }
        if i != count - 1 {
            bare = bare.trim_end_matches(' ');
        }
        if bare.is_empty() {
            continue;
        }
        let mut line = line;
        if i != 0 {
            line = line.strip_prefix(' ').unwrap_or(line);
        }
        if i != count - 1 {
            line = line.strip_suffix(' ').unwrap_or(line);
        }
        if line.is_empty() {
            continue;
        }
        if !buf.is_empty() {
            buf.push(' ');
        }
        buf.push_str(line);
    }
    buf
}

fn texts_up_to(length: usize, alphabet: &[char]) -> Vec<String> {
    let mut all = vec![String::new()];
    let mut last = vec![String::new()];
    for _ in 0..length {
        let mut next = Vec::new();
        for text in &last {
            for c in alphabet {
                let mut longer = text.clone();
                longer.push(*c);
                next.push(longer);
            }
        }
        all.extend(next.iter().cloned());
        last = next;
    }
    all
}

#[test]
fn lines_and_spaces_are_those_of_the_standard_library() {
    for text in texts_up_to(7, &[' ', '\t', '\n', '\r', 'a']) {
        assert_eq!(trim_jsx_text(&text), by_the_standard_library(&text), "{:?}", text);
    }
}

#[test]
fn every_short_text_is_trimmed_once_and_for_all() {
    for text in texts_up_to(6, &[' ', '\t', '\n', '\r', 'a']) {
        let once = trim_jsx_text(&text);
        assert_eq!(trim_jsx_text(&once), once, "{:?}", text);
        assert!(!once.contains('\n') && !once.contains('\t'), "{:?}", text);
    }
}

fn written(text: &str) -> String {
    text.chars().filter(|c| !matches!(c, ' ' | '\t' | '\n' | '\r')).collect()
}

#[test]
fn trimming_touches_white_space_only() {
    assert_eq!(written(&trim_jsx_text("\n  Hello,\r\n\tdear  world \n")), "Hello,dearworld");
    for text in texts_up_to(6, &[' ', '\t', '\n', '\r', 'a', 'b']) {
        assert_eq!(written(&trim_jsx_text(&text)), written(&text), "{:?}", text);
    }
}
