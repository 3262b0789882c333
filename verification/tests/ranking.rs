use vocrab::builder::{add_to_map, count_words, extend_map, map_from_array};
use vocrab::index::{FormMap, LemmaMap, WordCount};
use vocrab::rank::{rank_counts, rank_forms, rank_lemmas};
use vocrab::token::Token;

fn token(text: &str, lemma: &str, pos: &str) -> Token {
    Token::new(text.to_string(), lemma.to_string(), pos.to_string())
}

fn zoo() -> Vec<Vec<Token>> {
    vec![
        vec![
            token("A", "a", "DET"),
            token("dog", "dog", "NOUN"),
            token("saw", "see", "VERB"),
            token("Cats", "cat", "NOUN"),
            token(".", ".", "PUNCT"),
        ],
        vec![],
        vec![
            token("The", "the", "DET"),
            token("cats", "cat", "NOUN"),
            token("see", "see", "VERB"),
            token("a", "a", "DET"),
            token("CAT", "cat", "NOUN"),
            token("!", "!", "PUNCT"),
        ],
        vec![
            token("cats", "Cat", "NOUN"),
            token("saw", "saw", "NOUN"),
            token(",", ",", "PUNCT"),
            token("sees", "SEE", "VERB"),
        ],
    ]
}

fn snapshot(index: &LemmaMap) -> Vec<(String, Vec<(String, Vec<(usize, usize)>)>)> {
    let mut out = Vec::new();
    for i in 0..index.len() {
        let forms = index.forms(i);
        let mut buckets = Vec::new();
        for j in 0..forms.len() {
            buckets.push((forms.form(j).to_string(), forms.occurrences(j).clone()));
        }
        out.push((index.lemma(i).to_string(), buckets));
    }
    out
}

#[test]
fn index_keeps_buckets_in_order_of_first_occurrence() {
    let index = map_from_array(&zoo());
    let expected: Vec<(String, Vec<(String, Vec<(usize, usize)>)>)> = vec![
        ("a".to_string(), vec![("a".to_string(), vec![(0, 0), (2, 3)])]),
        ("dog".to_string(), vec![("dog".to_string(), vec![(0, 1)])]),
        (
            "see".to_string(),
            vec![
                ("saw".to_string(), vec![(0, 2)]),
                ("see".to_string(), vec![(2, 2)]),
                ("sees".to_string(), vec![(3, 3)]),
            ],
        ),
        (
            "cat".to_string(),
            vec![
                ("cats".to_string(), vec![(0, 3), (2, 1), (3, 0)]),
                ("cat".to_string(), vec![(2, 4)]),
            ],
        ),
        ("the".to_string(), vec![("the".to_string(), vec![(2, 0)])]),
        ("saw".to_string(), vec![("saw".to_string(), vec![(3, 1)])]),
    ];
    assert_eq!(snapshot(&index), expected);
}

#[test]
fn word_counts_add_up_to_the_tokens_that_are_not_punctuation() {
    let corpus = zoo();
    let index = map_from_array(&corpus);
    assert_eq!(index.word_count(), 12);
    assert_eq!(count_words(&corpus), Some(12));
    let mut total = 0;
    for i in 0..index.len() {
        total += index.forms(i).word_count();
    }
    assert_eq!(total, 12);
    assert_eq!(index.get("cat").unwrap().word_count(), 4);
    assert_eq!(index.get("see").unwrap().word_count(), 3);
}

#[test]
fn empty_corpus_has_an_empty_index() {
    let corpus: Vec<Vec<Token>> = Vec::new();
    let index = map_from_array(&corpus);
    assert_eq!(index.len(), 0);
    assert_eq!(index.word_count(), 0);
    assert_eq!(count_words(&corpus), Some(0));
    assert_eq!(rank_lemmas(&index), Vec::<usize>::new());
    let only_empty: Vec<Vec<Token>> = vec![vec![], vec![]];
    assert_eq!(map_from_array(&only_empty).len(), 0);
}

#[test]
fn corpus_of_punctuation_alone_has_an_empty_index() {
    let corpus = vec![vec![token(".", ".", "PUNCT"), token("?", "?", "PUNCT")]];
    let index = map_from_array(&corpus);
    assert_eq!(index.len(), 0);
    assert_eq!(count_words(&corpus), Some(0));
}

#[test]
fn building_twice_gives_the_same_index() {
    let corpus = zoo();
    let first = map_from_array(&corpus);
    let second = map_from_array(&corpus);
    assert_eq!(snapshot(&first), snapshot(&second));
    assert_eq!(rank_lemmas(&first), rank_lemmas(&second));
    let again = map_from_array(&zoo());
    assert_eq!(snapshot(&first), snapshot(&again));
}

#[test]
fn extending_an_index_equals_building_it_from_the_whole_corpus() {
    let whole = zoo();
    for cut in 0..=whole.len() {
        let head: Vec<Vec<Token>> = zoo().into_iter().take(cut).collect();
        let mut index = map_from_array(&head);
        extend_map(&mut index, &whole, cut);
        assert_eq!(snapshot(&index), snapshot(&map_from_array(&whole)));
    }
}

#[test]
fn extending_grows_buckets_and_never_replaces_them() {
    let whole = zoo();
    let head: Vec<Vec<Token>> = zoo().into_iter().take(1).collect();
    let mut index = map_from_array(&head);
    let before = snapshot(&index);
    extend_map(&mut index, &whole, 1);
    let after = snapshot(&index);
    for (i, (lemma, forms)) in before.iter().enumerate() {
        assert_eq!(&after[i].0, lemma);
        for (j, (form, occurrences)) in forms.iter().enumerate() {
            assert_eq!(&after[i].1[j].0, form);
            assert_eq!(&after[i].1[j].1[..occurrences.len()], &occurrences[..]);
        }
    }
}

#[test]
fn add_to_map_folds_the_case_of_lemma_and_text() {
    let mut index = LemmaMap::new();
    add_to_map(&token("ÉCOLE", "École", "NOUN"), (4, 2), &mut index);
    add_to_map(&token("école", "ÉCOLE", "NOUN"), (5, 0), &mut index);
    assert_eq!(index.len(), 1);
    assert_eq!(index.lemma(0), "école");
    assert_eq!(index.forms(0).len(), 1);
    assert_eq!(index.forms(0).form(0), "école");
    assert_eq!(index.forms(0).occurrences(0), &vec![(4usize, 2usize), (5, 0)]);
}

#[test]
fn add_to_map_does_not_look_at_the_tag() {
    let mut index = LemmaMap::new();
    add_to_map(&token(".", ".", "PUNCT"), (0, 0), &mut index);
    assert_eq!(index.len(), 1);
    assert_eq!(index.lemma(0), ".");
}

#[test]
fn insert_occurrence_takes_the_keys_as_they_are() {
    let mut index = LemmaMap::new();
    index.insert_occurrence("Cat".to_string(), "Cats".to_string(), (0, 0));
    index.insert_occurrence("cat".to_string(), "Cats".to_string(), (0, 1));
    index.insert_occurrence("Cat".to_string(), "cats".to_string(), (0, 2));
    index.insert_occurrence("Cat".to_string(), "Cats".to_string(), (0, 3));
    assert_eq!(index.len(), 2);
    assert_eq!(index.position("Cat"), Some(0));
    assert_eq!(index.position("cat"), Some(1));
    assert_eq!(index.position("CAT"), None);
    let forms = index.get("Cat").unwrap();
    assert_eq!(forms.len(), 2);
    assert_eq!(forms.position("Cats"), Some(0));
    assert_eq!(forms.position("cats"), Some(1));
    assert_eq!(forms.position("cat"), None);
    assert_eq!(forms.get("Cats"), Some(&vec![(0usize, 0usize), (0, 3)]));
    assert_eq!(forms.get("cats"), Some(&vec![(0usize, 2usize)]));
    assert_eq!(forms.get("dogs"), None);
    assert_eq!(index.word_count(), 4);
}

#[test]
fn form_map_add_appends_in_scan_order() {
    let mut forms = FormMap::new();
    assert_eq!(forms.len(), 0);
    assert_eq!(forms.word_count(), 0);
    forms.add("b".to_string(), (1, 1));
    forms.add("a".to_string(), (1, 2));
    forms.add("b".to_string(), (0, 0));
    assert_eq!(forms.len(), 2);
    assert_eq!(forms.form(0), "b");
    assert_eq!(forms.occurrences(0), &vec![(1usize, 1usize), (0, 0)]);
    assert_eq!(forms.form(1), "a");
    assert_eq!(forms.word_count(), 3);
}

#[test]
fn rank_counts_sorts_descending_and_keeps_ties_in_order() {
    assert_eq!(rank_counts(&vec![]), Vec::<usize>::new());
    assert_eq!(rank_counts(&vec![4]), vec![0]);
    assert_eq!(rank_counts(&vec![1, 3, 3, 5]), vec![3, 1, 2, 0]);
    assert_eq!(rank_counts(&vec![2, 2, 2]), vec![0, 1, 2]);
    assert_eq!(rank_counts(&vec![5, 4, 3, 2, 1]), vec![0, 1, 2, 3, 4]);
    assert_eq!(rank_counts(&vec![1, 2, 3, 4, 5]), vec![4, 3, 2, 1, 0]);
    assert_eq!(rank_counts(&vec![0, 7, 0, 7, 3, 0]), vec![1, 3, 4, 0, 2, 5]);
}

#[test]
fn rank_forms_is_sorted_by_number_of_occurrences() {
    let index = map_from_array(&zoo());
    for i in 0..index.len() {
        let forms = index.forms(i);
        let order = rank_forms(forms);
        assert_eq!(order.len(), forms.len());
        for k in 1..order.len() {
            assert!(forms.occurrences(order[k - 1]).len() >= forms.occurrences(order[k]).len());
        }
    }
    let see = index.get("see").unwrap();
    assert_eq!(rank_forms(see), vec![0, 1, 2]);
    let cat = index.get("cat").unwrap();
    assert_eq!(rank_forms(cat), vec![0, 1]);
}

#[test]
fn rank_lemmas_is_sorted_by_word_count() {
    let index = map_from_array(&zoo());
    let order = rank_lemmas(&index);
    let names: Vec<&str> = order.iter().map(|&b| index.lemma(b)).collect();
    assert_eq!(names, vec!["cat", "see", "a", "dog", "the", "saw"]);
    let counts: Vec<usize> = order.iter().map(|&b| index.forms(b).word_count()).collect();
    assert_eq!(counts, vec![4, 3, 2, 1, 1, 1]);
}

#[test]
fn rank_forms_breaks_ties_by_first_occurrence() {
    let corpus = vec![vec![
        token("zeta", "x", "N"),
        token("alpha", "x", "N"),
        token("mid", "x", "N"),
        token("alpha", "x", "N"),
        token("zeta", "x", "N"),
    ]];
    let index = map_from_array(&corpus);
    let forms = index.get("x").unwrap();
    let order = rank_forms(forms);
    let names: Vec<&str> = order.iter().map(|&j| forms.form(j)).collect();
    assert_eq!(names, vec!["zeta", "alpha", "mid"]);
}
