use vocrab::browser::App;
use vocrab::lemmatizer::Lemmatizer;
use vocrab::navigation::{AppColumn, Event, StatefulList};
use vocrab::token::Token;

fn token(text: &str, lemma: &str, pos: &str) -> Token {
    Token::new(text.to_string(), lemma.to_string(), pos.to_string())
}

fn corpus() -> Vec<Vec<Token>> {
    vec![
        vec![
            token("I", "i", "PRON"),
            token("saw", "see", "VERB"),
            token("a", "a", "DET"),
            token("saw", "saw", "NOUN"),
            token(".", ".", "PUNCT"),
        ],
        vec![
            token("Saws", "saw", "NOUN"),
            token("saw", "saw", "VERB"),
            token("wood", "wood", "NOUN"),
            token(";", ";", "PUNCT"),
            token("saws", "saw", "NOUN"),
            token("see", "see", "VERB"),
            token("nothing", "nothing", "PRON"),
        ],
    ]
}

fn session(sentences: Vec<Vec<Token>>) -> App {
    let mut lemmatizer = Lemmatizer::new();
    assert!(lemmatizer.can_load(&sentences));
    lemmatizer.load_file(sentences);
    App::new(lemmatizer)
}

fn started() -> App {
    let mut app = session(corpus());
    app.update_form();
    app
}

fn row(label: &str, count: usize) -> (String, usize) {
    (label.to_string(), count)
}

fn triple(a: &str, b: &str, c: &str) -> (String, String, String) {
    (a.to_string(), b.to_string(), c.to_string())
}

#[test]
fn columns_step_in_order_and_stop_at_the_ends() {
    assert_eq!(AppColumn::Lemmas.next(), AppColumn::Forms);
    assert_eq!(AppColumn::Forms.next(), AppColumn::Usage);
    assert_eq!(AppColumn::Usage.next(), AppColumn::Usage);
    assert_eq!(AppColumn::Usage.prev(), AppColumn::Forms);
    assert_eq!(AppColumn::Forms.prev(), AppColumn::Lemmas);
    assert_eq!(AppColumn::Lemmas.prev(), AppColumn::Lemmas);
}

#[test]
fn list_selection_wraps_around() {
    let mut list = StatefulList::with_items(vec!['a', 'b', 'c']);
    assert_eq!(list.selected(), None);
    assert_eq!(list.len(), 3);
    assert_eq!(list.items(), &vec!['a', 'b', 'c']);
    list.next();
    assert_eq!(list.selected(), Some(0));
    list.next();
    assert_eq!(list.selected(), Some(1));
    list.next();
    assert_eq!(list.selected(), Some(2));
    list.next();
    assert_eq!(list.selected(), Some(0));
    list.prev();
    assert_eq!(list.selected(), Some(2));
    list.prev();
    assert_eq!(list.selected(), Some(1));
}

#[test]
fn list_without_selection_selects_the_first_row_either_way() {
    let mut list = StatefulList::with_items(vec![1, 2]);
    list.prev();
    assert_eq!(list.selected(), Some(0));
    let mut other = StatefulList::with_items(vec![1, 2]);
    other.select_first();
    assert_eq!(other.selected(), Some(0));
    other.next();
    other.select_first();
    assert_eq!(other.selected(), Some(1));
}

#[test]
fn list_of_one_row_stays_on_it() {
    let mut list = StatefulList::with_items(vec![9]);
    list.next();
    assert_eq!(list.selected(), Some(0));
    list.next();
    assert_eq!(list.selected(), Some(0));
    list.prev();
    assert_eq!(list.selected(), Some(0));
}

#[test]
fn empty_list_never_gets_a_selection() {
    let mut list: StatefulList<u8> = StatefulList::with_items(vec![]);
    list.next();
    assert_eq!(list.selected(), None);
    list.prev();
    assert_eq!(list.selected(), None);
    list.select_first();
    assert_eq!(list.selected(), None);
}

#[test]
fn new_session_has_the_focus_on_the_lemmas_and_nothing_derived() {
    let app = session(corpus());
    assert_eq!(app.column(), AppColumn::Lemmas);
    assert_eq!(app.selected(AppColumn::Lemmas), None);
    assert_eq!(app.selected(AppColumn::Forms), None);
    assert_eq!(app.selected(AppColumn::Usage), None);
    assert_eq!(app.curr_lemma(), None);
    assert_eq!(app.curr_form(), None);
    assert_eq!(
        app.lemma_rows(),
        vec![
            row("saw", 4),
            row("see", 2),
            row("i", 1),
            row("a", 1),
            row("wood", 1),
            row("nothing", 1),
        ]
    );
    assert_eq!(app.form_rows(), Vec::new());
    assert_eq!(app.usage_rows(), Vec::new());
    assert_eq!(app.usage_positions(), Vec::new());
    assert_eq!(app.lemmatizer().tokens().len(), 2);
}

#[test]
fn update_form_derives_both_panes_for_the_first_lemma() {
    let app = started();
    assert_eq!(app.column(), AppColumn::Lemmas);
    assert_eq!(app.selected(AppColumn::Lemmas), Some(0));
    assert_eq!(app.curr_lemma(), Some("saw"));
    assert_eq!(app.form_rows(), vec![row("saw", 2), row("saws", 2)]);
    assert_eq!(app.selected(AppColumn::Forms), Some(0));
    assert_eq!(app.curr_form(), Some("saw"));
    assert_eq!(app.usage_positions(), vec![(0, 3), (1, 1)]);
    assert_eq!(app.selected(AppColumn::Usage), Some(0));
    assert_eq!(
        app.usage_rows(),
        vec![
            triple("I saw a ", "saw", "."),
            triple("Saws ", "saw", " wood; saws see nothing"),
        ]
    );
}

#[test]
fn selecting_another_lemma_rekeys_both_derived_panes() {
    let mut app = started();
    assert!(!app.handle_event(Event::SelectNext));
    assert_eq!(app.selected(AppColumn::Lemmas), Some(1));
    assert_eq!(app.curr_lemma(), Some("see"));
    assert_eq!(app.form_rows(), vec![row("saw", 1), row("see", 1)]);
    assert_eq!(app.selected(AppColumn::Forms), Some(0));
    assert_eq!(app.curr_form(), Some("saw"));
    assert_eq!(app.usage_positions(), vec![(0, 1)]);
    assert_eq!(app.usage_rows(), vec![triple("I ", "saw", " a saw.")]);
}

#[test]
fn selecting_a_lemma_resets_the_selections_to_its_right() {
    let mut app = started();
    app.handle_event(Event::Drill);
    app.handle_event(Event::SelectNext);
    app.handle_event(Event::Drill);
    app.handle_event(Event::SelectNext);
    assert_eq!(app.selected(AppColumn::Forms), Some(1));
    assert_eq!(app.selected(AppColumn::Usage), Some(1));
    app.handle_event(Event::FocusPrev);
    app.handle_event(Event::FocusPrev);
    assert_eq!(app.column(), AppColumn::Lemmas);
    app.handle_event(Event::SelectPrev);
    assert_eq!(app.selected(AppColumn::Lemmas), Some(5));
    assert_eq!(app.curr_lemma(), Some("nothing"));
    assert_eq!(app.selected(AppColumn::Forms), Some(0));
    assert_eq!(app.selected(AppColumn::Usage), Some(0));
    assert_eq!(app.usage_positions(), vec![(1, 6)]);
}

#[test]
fn selecting_another_form_rekeys_the_usages_only() {
    let mut app = started();
    app.handle_event(Event::Drill);
    assert_eq!(app.column(), AppColumn::Forms);
    app.handle_event(Event::SelectNext);
    assert_eq!(app.selected(AppColumn::Lemmas), Some(0));
    assert_eq!(app.curr_lemma(), Some("saw"));
    assert_eq!(app.selected(AppColumn::Forms), Some(1));
    assert_eq!(app.curr_form(), Some("saws"));
    assert_eq!(app.usage_positions(), vec![(1, 0), (1, 4)]);
    assert_eq!(app.selected(AppColumn::Usage), Some(0));
    app.handle_event(Event::SelectNext);
    assert_eq!(app.selected(AppColumn::Forms), Some(0));
    assert_eq!(app.curr_form(), Some("saw"));
    assert_eq!(app.usage_positions(), vec![(0, 3), (1, 1)]);
}

#[test]
fn selecting_a_usage_changes_nothing_else() {
    let mut app = started();
    app.handle_event(Event::Drill);
    app.handle_event(Event::Drill);
    assert_eq!(app.column(), AppColumn::Usage);
    app.handle_event(Event::SelectNext);
    assert_eq!(app.selected(AppColumn::Usage), Some(1));
    app.handle_event(Event::SelectNext);
    assert_eq!(app.selected(AppColumn::Usage), Some(0));
    app.handle_event(Event::SelectPrev);
    assert_eq!(app.selected(AppColumn::Usage), Some(1));
    assert_eq!(app.selected(AppColumn::Lemmas), Some(0));
    assert_eq!(app.selected(AppColumn::Forms), Some(0));
    assert_eq!(app.curr_lemma(), Some("saw"));
    assert_eq!(app.curr_form(), Some("saw"));
    assert_eq!(app.usage_positions(), vec![(0, 3), (1, 1)]);
}

#[test]
fn drill_keeps_a_pane_whose_key_is_still_selected() {
    let mut app = started();
    app.handle_event(Event::Drill);
    app.handle_event(Event::SelectNext);
    app.handle_event(Event::Drill);
    app.handle_event(Event::SelectNext);
    app.handle_event(Event::FocusPrev);
    app.handle_event(Event::FocusPrev);
    app.handle_event(Event::Drill);
    assert_eq!(app.column(), AppColumn::Forms);
    assert_eq!(app.selected(AppColumn::Forms), Some(1));
    assert_eq!(app.curr_form(), Some("saws"));
    app.handle_event(Event::Drill);
    assert_eq!(app.column(), AppColumn::Usage);
    assert_eq!(app.selected(AppColumn::Usage), Some(1));
    assert_eq!(app.usage_positions(), vec![(1, 0), (1, 4)]);
}

#[test]
fn drill_in_the_usages_pane_does_nothing() {
    let mut app = started();
    app.handle_event(Event::Drill);
    app.handle_event(Event::Drill);
    app.handle_event(Event::SelectNext);
    assert!(!app.handle_event(Event::Drill));
    assert_eq!(app.column(), AppColumn::Usage);
    assert_eq!(app.selected(AppColumn::Usage), Some(1));
    assert_eq!(app.curr_form(), Some("saw"));
    app.enter_behavior();
    assert_eq!(app.column(), AppColumn::Usage);
}

#[test]
fn drill_from_a_fresh_session_derives_the_forms() {
    let mut app = session(corpus());
    app.handle_event(Event::Drill);
    assert_eq!(app.column(), AppColumn::Forms);
    assert_eq!(app.selected(AppColumn::Lemmas), Some(0));
    assert_eq!(app.curr_lemma(), Some("saw"));
    assert_eq!(app.form_rows(), vec![row("saw", 2), row("saws", 2)]);
    assert_eq!(app.curr_form(), Some("saw"));
}

#[test]
fn focus_moves_do_not_wrap_and_do_not_derive() {
    let mut app = session(corpus());
    app.handle_event(Event::FocusPrev);
    assert_eq!(app.column(), AppColumn::Lemmas);
    app.handle_event(Event::FocusNext);
    assert_eq!(app.column(), AppColumn::Forms);
    assert_eq!(app.curr_lemma(), None);
    app.handle_event(Event::SelectNext);
    assert_eq!(app.selected(AppColumn::Forms), None);
    app.handle_event(Event::FocusNext);
    app.handle_event(Event::FocusNext);
    assert_eq!(app.column(), AppColumn::Usage);
    app.handle_event(Event::SelectPrev);
    assert_eq!(app.selected(AppColumn::Usage), None);
    assert_eq!(app.selected(AppColumn::Lemmas), None);
}

#[test]
fn quit_changes_nothing_and_reports_the_end() {
    let mut app = started();
    app.handle_event(Event::SelectNext);
    assert!(app.handle_event(Event::Quit));
    assert_eq!(app.column(), AppColumn::Lemmas);
    assert_eq!(app.selected(AppColumn::Lemmas), Some(1));
    assert_eq!(app.curr_lemma(), Some("see"));
}

#[test]
fn lemma_selection_wraps_in_both_directions() {
    let mut app = started();
    app.handle_event(Event::SelectPrev);
    assert_eq!(app.selected(AppColumn::Lemmas), Some(5));
    assert_eq!(app.curr_lemma(), Some("nothing"));
    app.handle_event(Event::SelectNext);
    assert_eq!(app.selected(AppColumn::Lemmas), Some(0));
    assert_eq!(app.curr_lemma(), Some("saw"));
}

#[test]
fn session_over_an_empty_corpus_answers_every_event() {
    let mut app = session(vec![vec![], vec![token(".", ".", "PUNCT")]]);
    app.update_form();
    for event in [
        Event::SelectNext,
        Event::SelectPrev,
        Event::Drill,
        Event::SelectNext,
        Event::Drill,
        Event::SelectPrev,
        Event::Drill,
        Event::FocusPrev,
        Event::FocusNext,
    ] {
        assert!(!app.handle_event(event));
        assert_eq!(app.selected(AppColumn::Lemmas), None);
        assert_eq!(app.selected(AppColumn::Forms), None);
        assert_eq!(app.selected(AppColumn::Usage), None);
        assert_eq!(app.curr_lemma(), None);
        assert_eq!(app.curr_form(), None);
        assert_eq!(app.lemma_rows(), Vec::new());
        assert_eq!(app.form_rows(), Vec::new());
        assert_eq!(app.usage_rows(), Vec::new());
    }
    assert_eq!(app.column(), AppColumn::Usage);
    app.update_usage();
    assert_eq!(app.curr_form(), None);
}

#[test]
fn update_usage_derives_the_forms_first_where_they_are_absent() {
    let mut app = session(corpus());
    app.update_usage();
    assert_eq!(app.selected(AppColumn::Lemmas), Some(0));
    assert_eq!(app.curr_lemma(), Some("saw"));
    assert_eq!(app.curr_form(), Some("saw"));
    assert_eq!(app.usage_positions(), vec![(0, 3), (1, 1)]);
}

#[test]
fn move_selection_backward_then_forward_returns() {
    let mut app = started();
    app.move_selection(true);
    app.move_selection(true);
    assert_eq!(app.curr_lemma(), Some("i"));
    app.move_selection(false);
    assert_eq!(app.curr_lemma(), Some("see"));
    assert_eq!(app.form_rows(), vec![row("saw", 1), row("see", 1)]);
}
