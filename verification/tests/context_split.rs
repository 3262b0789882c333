use vocrab::context::{get_sentence_bolded, get_sentence_split};
use vocrab::token::Token;

fn word(text: &str) -> Token {
    Token::new(text.to_string(), text.to_lowercase(), "X".to_string())
}

fn punct(text: &str) -> Token {
    Token::new(text.to_string(), text.to_string(), "PUNCT".to_string())
}

fn greeting() -> Vec<Vec<Token>> {
    vec![
        vec![],
        vec![
            word("Hello"),
            punct(","),
            word("dear"),
            word("world"),
            punct("!"),
            punct("\""),
        ],
        vec![punct("("), word("aside"), punct(")")],
        vec![word("Alone")],
    ]
}

#[test]
fn first_token_has_only_the_closing_space_before_it() {
    let corpus = greeting();
    let (before, word, after) = get_sentence_split(&corpus, 1, 0);
    assert_eq!(before, " ");
    assert_eq!(word, "Hello");
    assert_eq!(after, ", dear world!\"");
}

#[test]
fn last_token_has_nothing_after_it() {
    let corpus = greeting();
    let (before, word, after) = get_sentence_split(&corpus, 1, 5);
    assert_eq!(before, "Hello, dear world! ");
    assert_eq!(word, "\"");
    assert_eq!(after, "");
}

#[test]
fn token_in_the_middle_is_split_out() {
    let corpus = greeting();
    let (before, word, after) = get_sentence_split(&corpus, 1, 3);
    assert_eq!(before, "Hello, dear ");
    assert_eq!(word, "world");
    assert_eq!(after, "!\"");
}

#[test]
fn token_before_punctuation_gets_no_space_after_it() {
    let corpus = greeting();
    let (before, word, after) = get_sentence_split(&corpus, 1, 2);
    assert_eq!(before, "Hello, ");
    assert_eq!(word, "dear");
    assert_eq!(after, " world!\"");
}

#[test]
fn leading_punctuation_is_followed_by_a_space() {
    let corpus = greeting();
    let (before, word, after) = get_sentence_split(&corpus, 2, 1);
    assert_eq!(before, "( ");
    assert_eq!(word, "aside");
    assert_eq!(after, ")");
}

#[test]
fn single_token_sentence_splits_into_space_word_nothing() {
    let corpus = greeting();
    let (before, word, after) = get_sentence_split(&corpus, 3, 0);
    assert_eq!(before, " ");
    assert_eq!(word, "Alone");
    assert_eq!(after, "");
}

#[test]
fn parts_put_together_give_the_sentence_again() {
    let corpus = greeting();
    let plain = "Hello, dear world!\"";
    for token_i in [2usize, 3] {
        let (before, word, after) = get_sentence_split(&corpus, 1, token_i);
        assert_eq!(format!("{}{}{}", before, word, after), plain);
    }
    let (before, word, after) = get_sentence_split(&corpus, 1, 0);
    assert_eq!(format!("{}{}{}", before, word, after), format!(" {}", plain));
    assert_eq!(format!("{}{}{}", before, word, after).trim_start(), plain);
}

#[test]
fn bolded_marks_exactly_the_chosen_token() {
    let corpus = greeting();
    assert_eq!(
        get_sentence_bolded(&corpus, 1, 0),
        "\u{1b}[1;4mHello\u{1b}[22;24m, dear world!\""
    );
    assert_eq!(
        get_sentence_bolded(&corpus, 1, 3),
        "Hello, dear \u{1b}[1;4mworld\u{1b}[22;24m!\""
    );
    assert_eq!(
        get_sentence_bolded(&corpus, 1, 4),
        "Hello, dear world\u{1b}[1;4m!\u{1b}[22;24m\""
    );
}

#[test]
fn bolded_without_a_token_to_mark_is_the_plain_sentence() {
    let corpus = greeting();
    assert_eq!(get_sentence_bolded(&corpus, 1, 6), "Hello, dear world!\"");
    assert_eq!(get_sentence_bolded(&corpus, 0, 0), "");
    assert_eq!(get_sentence_bolded(&corpus, 2, 17), "( aside)");
}

#[test]
fn bolded_is_the_split_with_markers_around_the_word() {
    let corpus = greeting();
    for token_i in [2usize, 3] {
        let (before, word, after) = get_sentence_split(&corpus, 1, token_i);
        assert_eq!(
            get_sentence_bolded(&corpus, 1, token_i),
            format!("{}\u{1b}[1;4m{}\u{1b}[22;24m{}", before, word, after)
        );
    }
}

#[test]
fn only_the_exact_tag_marks_punctuation() {
    assert!(punct(".").is_punct());
    assert!(!word("dot").is_punct());
    assert!(!Token::new(".".to_string(), ".".to_string(), "punct".to_string()).is_punct());
    assert!(!Token::new(".".to_string(), ".".to_string(), "PUNCTS".to_string()).is_punct());
    assert!(!Token::new(".".to_string(), ".".to_string(), "".to_string()).is_punct());
    let corpus = vec![vec![
        word("a"),
        Token::new(".".to_string(), ".".to_string(), "punct".to_string()),
    ]];
    assert_eq!(get_sentence_bolded(&corpus, 0, 5), "a .");
}

#[test]
fn token_getters_return_the_fields() {
    let token = Token::new("Cats".to_string(), "cat".to_string(), "NOUN".to_string());
    assert_eq!(token.text(), "Cats");
    assert_eq!(token.lemma(), "cat");
    assert_eq!(token.pos(), "NOUN");
}
