use vocrab::paragraph::{paragraph_from_wrapped, split_lines, usage_paragraph, Fragment};

fn shown(paragraph: &Vec<Fragment>) -> Vec<(String, bool)> {
    paragraph.iter().map(|f| (f.text.clone(), f.highlighted)).collect()
}

fn plain(text: &str) -> (String, bool) {
    (text.to_string(), false)
}

fn marked(text: &str) -> (String, bool) {
    (text.to_string(), true)
}

#[test]
fn split_lines_cuts_at_every_line_feed() {
    assert_eq!(split_lines(""), vec![""]);
    assert_eq!(split_lines("one"), vec!["one"]);
    assert_eq!(split_lines("one\ntwo"), vec!["one", "two"]);
    assert_eq!(split_lines("one\n"), vec!["one", ""]);
    assert_eq!(split_lines("\none"), vec!["", "one"]);
    assert_eq!(split_lines("\n\n"), vec!["", "", ""]);
    assert_eq!(split_lines("é\n日本\r"), vec!["é", "日本\r"]);
}

#[test]
fn split_lines_agrees_with_the_standard_split() {
    for text in ["", "a", "a\nb\n\nc", "\n", "x \n y\n"] {
        let expected: Vec<&str> = text.split("\n").collect();
        assert_eq!(split_lines(text), expected);
    }
}

#[test]
fn paragraph_puts_the_word_between_the_wrapped_lines() {
    let paragraph = paragraph_from_wrapped(Some("The quick\nbrown"), "fox", " jumps\nover");
    assert_eq!(
        shown(&paragraph),
        vec![
            plain("The quick"),
            plain("brown"),
            plain(" "),
            marked("fox"),
            plain(" jumps"),
            plain("over"),
        ]
    );
}

#[test]
fn paragraph_without_text_before_begins_with_the_word() {
    let paragraph = paragraph_from_wrapped(None, "Fox", " runs");
    assert_eq!(shown(&paragraph), vec![marked("Fox"), plain(" runs")]);
}

#[test]
fn paragraph_has_no_gap_after_an_empty_line() {
    let paragraph = paragraph_from_wrapped(Some(""), "Fox", "");
    assert_eq!(shown(&paragraph), vec![plain(""), marked("Fox"), plain("")]);
    let paragraph = paragraph_from_wrapped(Some("so\n"), "it", ".");
    assert_eq!(
        shown(&paragraph),
        vec![plain("so"), plain(""), marked("it"), plain(".")]
    );
}

#[test]
fn usage_paragraph_trims_the_closing_space_and_adds_the_gap() {
    let paragraph = usage_paragraph("The ", "cats", " sat.", 80);
    assert_eq!(
        shown(&paragraph),
        vec![plain("The"), plain(" "), marked("cats"), plain(" sat.")]
    );
}

#[test]
fn usage_paragraph_of_a_first_token_has_an_empty_line_and_no_gap() {
    let paragraph = usage_paragraph(" ", "Cats", " sit?", 80);
    assert_eq!(shown(&paragraph), vec![plain(""), marked("Cats"), plain(" sit?")]);
}

#[test]
fn usage_paragraph_with_nothing_before_begins_with_the_word() {
    let paragraph = usage_paragraph("", "Cats", "", 80);
    assert_eq!(shown(&paragraph), vec![marked("Cats"), plain("")]);
}

#[test]
fn usage_paragraph_wraps_long_context() {
    let paragraph = usage_paragraph("aaa bbb ccc ", "ddd", " eee fff ggg", 7);
    assert_eq!(
        shown(&paragraph),
        vec![
            plain("aaa bbb"),
            plain("ccc"),
            plain(" "),
            marked("ddd"),
            plain(" eee"),
            plain("fff ggg"),
        ]
    );
}

#[test]
fn usage_paragraph_agrees_with_the_wrapping_crate() {
    let before = "It was the best of times, it was the worst of ";
    let after = ", it was the age of wisdom, it was the age of foolishness";
    for width in [0usize, 1, 5, 12, 40] {
        let front = textwrap::fill(before, width);
        let back = textwrap::fill(after, width);
        let mut expected: Vec<(String, bool)> = front.split("\n").map(plain).collect();
        if !expected.last().unwrap().0.is_empty() {
            expected.push(plain(" "));
        }
        expected.push(marked("times"));
        expected.extend(back.split("\n").map(plain));
        assert_eq!(shown(&usage_paragraph(before, "times", after, width)), expected);
        assert!(front.contains('\n'));
    }
}
