use vocrab::lemmatizer::{map_from_array, usages_from, Lemmatizer, Token, WordCount};

fn token(text: &str, lemma: &str, pos: &str) -> Token {
    Token::new(text.to_string(), lemma.to_string(), pos.to_string())
}

fn first_file() -> Vec<Vec<Token>> {
    vec![
        vec![
            token("The", "the", "DET"),
            token("cats", "cat", "NOUN"),
            token("sat", "sit", "VERB"),
            token(".", ".", "PUNCT"),
        ],
        vec![
            token("Cats", "cat", "NOUN"),
            token("sit", "sit", "VERB"),
            token("?", "?", "PUNCT"),
        ],
    ]
}

fn second_file() -> Vec<Vec<Token>> {
    vec![vec![
        token("A", "a", "DET"),
        token("cat", "cat", "NOUN"),
        token("sits", "sit", "VERB"),
        token("on", "on", "ADP"),
        token("the", "the", "DET"),
        token("cats", "cat", "NOUN"),
    ]]
}

fn triple(a: &str, b: &str, c: &str) -> (String, String, String) {
    (a.to_string(), b.to_string(), c.to_string())
}

#[test]
fn new_lemmatizer_is_empty() {
    let lemmatizer = Lemmatizer::new();
    assert_eq!(lemmatizer.tokens().len(), 0);
    assert_eq!(lemmatizer.lemma_map().len(), 0);
    assert_eq!(lemmatizer.get_lemmas(), Vec::<String>::new());
    assert_eq!(lemmatizer.get_forms("cat"), Vec::<String>::new());
    assert_eq!(lemmatizer.get_usages("cat", "cats"), Vec::new());
}

#[test]
fn loaded_lemmas_come_by_rank() {
    let mut lemmatizer = Lemmatizer::new();
    assert!(lemmatizer.can_load(&first_file()));
    lemmatizer.load_file(first_file());
    assert_eq!(lemmatizer.get_lemmas(), vec!["cat", "sit", "the"]);
    assert_eq!(lemmatizer.lemma_map().word_count(), 5);
}

#[test]
fn loading_a_second_file_appends_to_the_first() {
    let mut lemmatizer = Lemmatizer::new();
    lemmatizer.load_file(first_file());
    assert!(lemmatizer.can_load(&second_file()));
    lemmatizer.load_file(second_file());
    assert_eq!(lemmatizer.tokens().len(), 3);
    assert_eq!(lemmatizer.get_lemmas(), vec!["cat", "sit", "the", "a", "on"]);
    assert_eq!(lemmatizer.get_forms("cat"), vec!["cats", "cat"]);
    assert_eq!(lemmatizer.get_forms("sit"), vec!["sat", "sit", "sits"]);
    assert_eq!(lemmatizer.lemma_map().word_count(), 11);

    let mut whole = first_file();
    whole.extend(second_file());
    let rebuilt = map_from_array(&whole);
    let held = lemmatizer.lemma_map();
    assert_eq!(held.len(), rebuilt.len());
    for i in 0..held.len() {
        assert_eq!(held.lemma(i), rebuilt.lemma(i));
        assert_eq!(held.forms(i).len(), rebuilt.forms(i).len());
        for j in 0..held.forms(i).len() {
            assert_eq!(held.forms(i).form(j), rebuilt.forms(i).form(j));
            assert_eq!(held.forms(i).occurrences(j), rebuilt.forms(i).occurrences(j));
        }
    }
}

#[test]
fn forms_are_looked_up_by_the_exact_key() {
    let mut lemmatizer = Lemmatizer::new();
    lemmatizer.load_file(first_file());
    assert_eq!(lemmatizer.get_forms("cat"), vec!["cats"]);
    assert_eq!(lemmatizer.get_forms("Cat"), Vec::<String>::new());
    assert_eq!(lemmatizer.get_forms("dog"), Vec::<String>::new());
    assert_eq!(lemmatizer.get_forms("."), Vec::<String>::new());
}

#[test]
fn usages_come_in_scan_order_with_their_context() {
    let mut lemmatizer = Lemmatizer::new();
    lemmatizer.load_file(first_file());
    lemmatizer.load_file(second_file());
    assert_eq!(
        lemmatizer.get_usages("cat", "cats"),
        vec![
            triple("The ", "cats", " sat."),
            triple(" ", "Cats", " sit?"),
            triple("A cat sits on the ", "cats", ""),
        ]
    );
    assert_eq!(
        lemmatizer.get_usages("cat", "cat"),
        vec![triple("A ", "cat", " sits on the cats")]
    );
    assert_eq!(lemmatizer.get_usages("cat", "Cats"), Vec::new());
    assert_eq!(lemmatizer.get_usages("dog", "cats"), Vec::new());
    assert_eq!(lemmatizer.get_usages("sit", "cats"), Vec::new());
}

#[test]
fn usages_from_follows_the_given_positions() {
    let corpus = first_file();
    assert_eq!(
        usages_from(&corpus, &vec![(1, 1), (0, 0), (1, 1)]),
        vec![
            triple("Cats ", "sit", "?"),
            triple(" ", "The", " cats sat."),
            triple("Cats ", "sit", "?"),
        ]
    );
    assert_eq!(usages_from(&corpus, &vec![]), Vec::new());
}
