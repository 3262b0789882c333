use vocrab::builder::map_from_array;
use vocrab::context::{get_sentence_bolded, get_sentence_split};
use vocrab::index::WordCount;
use vocrab::rank::rank_forms;
use vocrab::token::Token;

fn token(text: &str, lemma: &str, pos: &str) -> Token {
    Token::new(text.to_string(), lemma.to_string(), pos.to_string())
}

fn cats_corpus() -> Vec<Vec<Token>> {
    vec![vec![
        token("The", "the", "DET"),
        token("cats", "cat", "NOUN"),
        token("sat", "sit", "VERB"),
        token(".", ".", "PUNCT"),
    ]]
}

#[test]
fn index_of_one_sentence_skips_punctuation() {
    let corpus = cats_corpus();
    let index = map_from_array(&corpus);
    assert_eq!(index.len(), 3);
    assert_eq!(index.lemma(0), "the");
    assert_eq!(index.lemma(1), "cat");
    assert_eq!(index.lemma(2), "sit");
    assert_eq!(index.forms(0).len(), 1);
    assert_eq!(index.forms(0).form(0), "the");
    assert_eq!(index.forms(0).occurrences(0), &vec![(0usize, 0usize)]);
    assert_eq!(index.forms(1).form(0), "cats");
    assert_eq!(index.forms(1).occurrences(0), &vec![(0usize, 1usize)]);
    assert_eq!(index.forms(2).form(0), "sat");
    assert_eq!(index.forms(2).occurrences(0), &vec![(0usize, 2usize)]);
    assert!(index.get(".").is_none());
    assert_eq!(index.word_count(), 3);
}

#[test]
fn split_context_attaches_punctuation() {
    let corpus = cats_corpus();
    let (before, word, after) = get_sentence_split(&corpus, 0, 1);
    assert_eq!(before, "The ");
    assert_eq!(word, "cats");
    assert_eq!(after, " sat.");
}

#[test]
fn bolded_sentence_wraps_the_word() {
    let corpus = cats_corpus();
    assert_eq!(
        get_sentence_bolded(&corpus, 0, 1),
        "The \u{1b}[1;4mcats\u{1b}[22;24m sat."
    );
}

#[test]
fn rank_forms_puts_the_frequent_form_first() {
    let corpus = vec![vec![
        token("cat", "cat", "NOUN"),
        token("cats", "cat", "NOUN"),
        token("Cats", "cat", "NOUN"),
        token("CATS", "cat", "NOUN"),
    ]];
    let index = map_from_array(&corpus);
    let forms = index.get("cat").unwrap();
    let order = rank_forms(forms);
    assert_eq!(order.len(), 2);
    assert_eq!(forms.form(order[0]), "cats");
    assert_eq!(forms.occurrences(order[0]).len(), 3);
    assert_eq!(forms.form(order[1]), "cat");
    assert_eq!(forms.occurrences(order[1]).len(), 1);
}
