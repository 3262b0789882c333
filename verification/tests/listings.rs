use vocrab::lemmatizer::Lemmatizer;
use vocrab::listing::{listing, LemmaLine};
use vocrab::token::Token;

fn token(text: &str, lemma: &str, pos: &str) -> Token {
    Token::new(text.to_string(), lemma.to_string(), pos.to_string())
}

fn loaded(sentences: Vec<Vec<Token>>) -> Lemmatizer {
    let mut lemmatizer = Lemmatizer::new();
    assert!(lemmatizer.can_load(&sentences));
    lemmatizer.load_file(sentences);
    lemmatizer
}

fn shown(lines: &Vec<LemmaLine>) -> Vec<(String, usize, usize, Vec<(String, usize, String)>)> {
    lines
        .iter()
        .map(|line| {
            (
                line.lemma.clone(),
                line.count,
                line.running,
                line.forms
                    .iter()
                    .map(|f| (f.form.clone(), f.count, f.example.clone()))
                    .collect(),
            )
        })
        .collect()
}

#[test]
fn listing_of_nothing_is_empty() {
    assert_eq!(listing(&Lemmatizer::new()).len(), 0);
    assert_eq!(listing(&loaded(vec![vec![token("!", "!", "PUNCT")]])).len(), 0);
}

#[test]
fn listing_gives_counts_running_counts_and_first_examples() {
    let lemmatizer = loaded(vec![
        vec![
            token("A", "a", "DET"),
            token("cat", "cat", "NOUN"),
            token("sat", "sit", "VERB"),
            token(".", ".", "PUNCT"),
        ],
        vec![
            token("Cats", "cat", "NOUN"),
            token("sit", "sit", "VERB"),
            token(",", ",", "PUNCT"),
            token("cats", "cat", "NOUN"),
            token("sat", "sit", "VERB"),
        ],
    ]);
    let on = "\u{1b}[1;4m";
    let off = "\u{1b}[22;24m";
    let expected = vec![
        (
            "cat".to_string(),
            3,
            3,
            vec![
                (
                    "cats".to_string(),
                    2,
                    format!("{}Cats{} sit, cats sat", on, off),
                ),
                ("cat".to_string(), 1, format!("A {}cat{} sat.", on, off)),
            ],
        ),
        (
            "sit".to_string(),
            3,
            6,
            vec![
                ("sat".to_string(), 2, format!("A cat {}sat{}.", on, off)),
                (
                    "sit".to_string(),
                    1,
                    format!("Cats {}sit{}, cats sat", on, off),
                ),
            ],
        ),
        (
            "a".to_string(),
            1,
            7,
            vec![("a".to_string(), 1, format!("{}A{} cat sat.", on, off))],
        ),
    ];
    assert_eq!(shown(&listing(&lemmatizer)), expected);
}

#[test]
fn last_running_count_is_the_word_count() {
    let lemmatizer = loaded(vec![
        vec![token("x", "x", "N"), token("y", "y", "N"), token("x", "x", "N")],
        vec![token("z", "z", "N"), token(";", ";", "PUNCT"), token("y", "y", "N")],
    ]);
    let lines = listing(&lemmatizer);
    assert_eq!(lines.len(), 3);
    assert_eq!(lines[2].running, 5);
    let mut sum = 0;
    for line in &lines {
        sum += line.count;
        assert_eq!(line.running, sum);
        let in_forms: usize = line.forms.iter().map(|f| f.count).sum();
        assert_eq!(in_forms, line.count);
    }
}
