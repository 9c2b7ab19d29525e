use hypertyper::text::{char_is_whitespace, chars_of, split_lines, trim};

fn std_lines(text: &str) -> Vec<String> {
    text.lines().map(|l| l.to_string()).collect()
}

#[test]
fn chars_of_gives_each_character() {
    assert_eq!(chars_of("a\u{e9}z"), vec!['a', '\u{e9}', 'z']);
    assert_eq!(chars_of(""), Vec::<char>::new());
}

#[test]
fn split_lines_of_empty_text_is_empty() {
    assert_eq!(split_lines(""), Vec::<String>::new());
}

#[test]
fn split_lines_without_terminator() {
    assert_eq!(split_lines("cat"), vec!["cat"]);
}

#[test]
fn split_lines_final_terminator_is_optional() {
    assert_eq!(split_lines("cat\ndog\n"), vec!["cat", "dog"]);
    assert_eq!(split_lines("cat\ndog"), vec!["cat", "dog"]);
}

#[test]
fn split_lines_keeps_blank_lines() {
    assert_eq!(split_lines("cat\n\ndog"), vec!["cat", "", "dog"]);
    assert_eq!(split_lines("\n"), vec![""]);
    assert_eq!(split_lines("\n\n"), vec!["", ""]);
}

#[test]
fn split_lines_strips_carriage_return_before_line_feed() {
    assert_eq!(split_lines("cat\r\ndog\r\n"), vec!["cat", "dog"]);
    assert_eq!(split_lines("\r\n"), vec![""]);
}

#[test]
fn split_lines_keeps_other_carriage_returns() {
    assert_eq!(split_lines("ca\rt\ndog\r"), vec!["ca\rt", "dog\r"]);
    assert_eq!(split_lines("cat\r\r\n"), vec!["cat\r"]);
}

#[test]
fn split_lines_agrees_with_std() {
    let samples = [
        "",
        "\n",
        "\r",
        "\r\n",
        "a",
        "a\n",
        "a\r\n",
        "a\nb",
        "a\n\nb\n",
        "a\r\n\r\nb",
        "one\ntwo\r\nthree\rfour\n\rfive",
        "\u{e9}t\u{e9}\nna\u{ef}ve\r\n",
        "\n\n\n",
        "x\r",
    ];
    for text in samples.iter() {
        assert_eq!(split_lines(text), std_lines(text), "text {:?}", text);
    }
}

#[test]
fn whitespace_agrees_with_std_on_every_char() {
    let mut u: u32 = 0;
    while u <= 0x10FFFF {
        if let Some(c) = char::from_u32(u) {
            assert_eq!(char_is_whitespace(c), c.is_whitespace(), "char {:x}", u);
        }
        u += 1;
    }
}

#[test]
fn trim_removes_line_terminator() {
    assert_eq!(trim("cat\n"), "cat");
    assert_eq!(trim("cat\r\n"), "cat");
}

#[test]
fn trim_removes_surrounding_whitespace() {
    assert_eq!(trim("  \tcat \t \n"), "cat");
    assert_eq!(trim("\u{3000}cat\u{a0}"), "cat");
}

#[test]
fn trim_keeps_inner_whitespace() {
    assert_eq!(trim(" c a t "), "c a t");
}

#[test]
fn trim_of_blank_is_empty() {
    assert_eq!(trim(""), "");
    assert_eq!(trim(" \n\t "), "");
}

#[test]
fn trim_agrees_with_std() {
    let samples = ["", " ", "a", " a", "a ", " a b ", "\n\na\n\n", "\u{2003}x\u{2003}", "x\u{200b}"];
    for text in samples.iter() {
        assert_eq!(trim(text), text.trim(), "text {:?}", text);
    }
}
