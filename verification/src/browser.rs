//! The browsing session itself: the corpus, its index, and the three panes.

use crate::builder::{
    built_index, lemma_built_index_counts_words, lemma_built_index_sound, lemma_built_index_wf,
};
use crate::index::{index_count, lemma_index_count_bounds_bucket, WordCount};
use crate::lemmatizer::{lemma_occurrences_of_valid, usages_at, usages_from, Lemmatizer};
use crate::navigation::{AppColumn, Event, ListModel, StatefulList};
use crate::rank::{is_permutation, rank_forms, rank_lemmas};
use crate::session::{
    after_drill, after_event, after_select, form_rows_of, form_updated, forms_in_step,
    forms_refreshed, initial_model, lemma_after_drill, lemma_after_select, lemma_form_rows,
    lemma_form_updated, lemma_forms_refreshed, lemma_lemma_rows, lemma_panes_stay_current,
    lemma_rows_of, lemma_usage_positions_keyed, lemma_usage_updated, model_valid, model_wf,
    panes_current, selected_lemma, selection_of, usage_positions_of, usage_updated,
    usages_refreshed, AppModel,
};
use crate::text::same_text;
use crate::token::TokenModel;
use vstd::prelude::*;

verus! {

/// The content of a pane that may be absent.
pub open spec fn pane_view<T>(pane: Option<StatefulList<T>>) -> Option<ListModel<T>> {
    match pane {
        Some(list) => Some(list@),
        None => None,
    }
}

/// A copy of a list of positions.
fn copy_positions(positions: &Vec<(usize, usize)>) -> (copy: Vec<(usize, usize)>)
    ensures
        copy@ == positions@,
{
    let mut copy: Vec<(usize, usize)> = Vec::new();
    let mut k: usize = 0;
    while k < positions.len()
        invariant
            k <= positions.len(),
            copy@ == positions@.take(k as int),
        decreases positions.len() - k,
    {
        copy.push(positions[k]);
        assert(copy@ =~= positions@.take(k + 1));
        k += 1;
    }
    assert(copy@ =~= positions@);
    copy
}

/// A browsing session over a corpus and its index.
pub struct App {
    lemmatizer: Lemmatizer,
    lemma_vec: StatefulList<usize>,
    curr_lemma: Option<String>,
    form_vec: Option<StatefulList<usize>>,
    curr_form: Option<String>,
    usage_vec: Option<StatefulList<(usize, usize)>>,
    column: AppColumn,
}

impl View for App {
    type V = AppModel;

    closed spec fn view(&self) -> AppModel {
        AppModel {
            index: self.lemmatizer.index(),
            lemmas: self.lemma_vec@,
            curr_lemma: self.curr_lemma.deep_view(),
            forms: pane_view(self.form_vec),
            curr_form: self.curr_form.deep_view(),
            usages: pane_view(self.usage_vec),
            column: self.column,
        }
    }
}

impl App {
    /// The corpus that is browsed.
    pub closed spec fn corpus(&self) -> Seq<Seq<TokenModel>> {
        self.lemmatizer.corpus()
    }

    /// The session holds a corpus together with its index.
    pub closed spec fn loaded(&self) -> bool {
        self.lemmatizer.wf()
    }

    /// The derived panes are what their keys say.
    pub open spec fn valid(&self) -> bool {
        self.loaded() && model_valid(self@)
    }

    /// The state of a session between two events.
    pub open spec fn wf(&self) -> bool {
        self.loaded() && model_wf(self@)
    }

    /// The index that is browsed is the index of the corpus.
    pub proof fn lemma_index_is_built(&self)
        requires
            self.loaded(),
        ensures
            self@.index == built_index(self.corpus()),
    {
    }

    /// Opens a session: the focus is on the lemmas pane, which lists the
    /// lemmas by rank; nothing is selected and nothing derived yet.
    pub fn new(lemmatizer: Lemmatizer) -> (app: App)
        requires
            lemmatizer.wf(),
        ensures
            app@ == initial_model(lemmatizer.index()),
            app.corpus() == lemmatizer.corpus(),
            app.wf(),
    {
        let index = lemmatizer.lemma_map();
        proof {
            lemma_built_index_counts_words(lemmatizer.corpus());
            lemma_built_index_wf(lemmatizer.corpus());
            index.lemma_buckets_fit();
        }
        let order = rank_lemmas(index);
        App {
            lemmatizer,
            lemma_vec: StatefulList::with_items(order),
            curr_lemma: None,
            form_vec: None,
            curr_form: None,
            usage_vec: None,
            column: AppColumn::Lemmas,
        }
    }

    /// The corpus and its index.
    pub fn lemmatizer(&self) -> (lemmatizer: &Lemmatizer)
        ensures
            lemmatizer.corpus() == self.corpus(),
            lemmatizer.index() == self@.index,
            self.loaded() ==> lemmatizer.wf(),
    {
        &self.lemmatizer
    }

    /// The pane that has the focus.
    pub fn column(&self) -> (column: AppColumn)
        ensures
            column == self@.column,
    {
        self.column
    }

    /// The row that is selected in a pane.
    pub fn selected(&self, column: AppColumn) -> (selected: Option<usize>)
        ensures
            selected == selection_of(self@, column),
    {
        match column {
            AppColumn::Lemmas => self.lemma_vec.selected(),
            AppColumn::Forms => match &self.form_vec {
                Some(forms) => forms.selected(),
                None => None,
            },
            AppColumn::Usage => match &self.usage_vec {
                Some(usages) => usages.selected(),
                None => None,
            },
        }
    }

    /// The lemma for which the forms pane was derived.
    pub fn curr_lemma(&self) -> (lemma: Option<&str>)
        ensures
            match lemma {
                Some(key) => self@.curr_lemma == Some(key@),
                None => self@.curr_lemma is None,
            },
    {
        match &self.curr_lemma {
            Some(key) => Some(key.as_str()),
            None => None,
        }
    }

    /// The form for which the usages pane was derived.
    pub fn curr_form(&self) -> (form: Option<&str>)
        ensures
            match form {
                Some(key) => self@.curr_form == Some(key@),
                None => self@.curr_form is None,
            },
    {
        match &self.curr_form {
            Some(key) => Some(key.as_str()),
            None => None,
        }
    }

    /// The rows of the lemmas pane: each lemma with its word count, the most
    /// frequent first.
    pub fn lemma_rows(&self) -> (rows: Vec<(String, usize)>)
        requires
            self.wf(),
        ensures
            rows.deep_view() == lemma_rows_of(self@),
    {
        let index = self.lemmatizer.lemma_map();
        let order = self.lemma_vec.items();
        proof {
            lemma_lemma_rows(self@);
            lemma_built_index_counts_words(self.lemmatizer.corpus());
        }
        let mut rows: Vec<(String, usize)> = Vec::new();
        let mut k: usize = 0;
        while k < order.len()
            invariant
                k <= order.len(),
                order@ == self@.lemmas.items,
                index@ == self@.index,
                is_permutation(order@, index@.len()),
                index_count(index@) <= usize::MAX,
                rows.deep_view() == lemma_rows_of(self@).take(k as int),
            decreases order.len() - k,
        {
            let bucket = order[k];
            let ghost before = rows.deep_view();
            proof {
                lemma_index_count_bounds_bucket(index@, bucket as int);
            }
            let row = (index.lemma(bucket).to_owned(), index.forms(bucket).word_count());
            rows.push(row);
            assert(rows.deep_view() =~= before.push(lemma_rows_of(self@)[k as int]));
            assert(rows.deep_view() =~= lemma_rows_of(self@).take(k + 1));
            k += 1;
        }
        assert(rows.deep_view() =~= lemma_rows_of(self@));
        rows
    }

    /// The rows of the forms pane: each form of the selected lemma with the
    /// number of its occurrences, the most frequent first.
    pub fn form_rows(&self) -> (rows: Vec<(String, usize)>)
        requires
            self.wf(),
        ensures
            rows.deep_view() == form_rows_of(self@),
    {
        let lemma_bucket = match self.lemma_vec.selected() {
            Some(k) => Some(self.lemma_vec.items()[k]),
            None => None,
        };
        proof {
            lemma_lemma_rows(self@);
        }
        let mut rows: Vec<(String, usize)> = Vec::new();
        match (&self.form_vec, lemma_bucket) {
            (Some(forms), Some(b)) => {
                let buckets = self.lemmatizer.lemma_map().forms(b);
                let order = forms.items();
                proof {
                    lemma_form_rows(self@.index, b as int);
                }
                let mut k: usize = 0;
                while k < order.len()
                    invariant
                        k <= order.len(),
                        self@.forms == Some(forms@),
                        selected_lemma(self@) == Some(b),
                        order@ == forms@.items,
                        b < self@.index.len(),
                        buckets@ == self@.index[b as int].forms,
                        is_permutation(order@, buckets@.len()),
                        rows.deep_view() == form_rows_of(self@).take(k as int),
                    decreases order.len() - k,
                {
                    let j = order[k];
                    let ghost before = rows.deep_view();
                    let row = (buckets.form(j).to_owned(), buckets.occurrences(j).len());
                    rows.push(row);
                    assert(rows.deep_view() =~= before.push(form_rows_of(self@)[k as int]));
                    assert(rows.deep_view() =~= form_rows_of(self@).take(k + 1));
                    k += 1;
                }
                assert(rows.deep_view() =~= form_rows_of(self@));
            },
            _ => {
                assert(rows.deep_view() =~= form_rows_of(self@));
            },
        }
        rows
    }

    /// The positions that the usages pane lists, in scan order.
    pub fn usage_positions(&self) -> (positions: Vec<(usize, usize)>)
        ensures
            positions@ == usage_positions_of(self@),
    {
        match &self.usage_vec {
            Some(usages) => copy_positions(usages.items()),
            None => Vec::new(),
        }
    }

    /// The rows of the usages pane: for each occurrence of the selected form
    /// its sentence, split around the occurrence.
    pub fn usage_rows(&self) -> (rows: Vec<(String, String, String)>)
        requires
            self.wf(),
        ensures
            rows.deep_view() == usages_at(self.corpus(), usage_positions_of(self@)),
    {
        proof {
            lemma_built_index_sound(self.lemmatizer.corpus());
            lemma_usage_positions_keyed(self@);
            match (self@.curr_lemma, self@.curr_form) {
                (Some(lemma), Some(form)) => {
                    lemma_occurrences_of_valid(self@.index, self.corpus(), lemma, form);
                },
                _ => {},
            }
        }
        match &self.usage_vec {
            Some(usages) => usages_from(self.lemmatizer.tokens(), usages.items()),
            None => {
                let rows: Vec<(String, String, String)> = Vec::new();
                assert(rows.deep_view() =~= usages_at(self.corpus(), usage_positions_of(self@)));
                rows
            },
        }
    }

    /// Brings the forms pane in step with the selected lemma.
    fn refresh_forms(&mut self)
        requires
            old(self).valid(),
        ensures
            final(self)@ == forms_refreshed(old(self)@),
            final(self).corpus() == old(self).corpus(),
            final(self).loaded(),
    {
        proof {
            lemma_lemma_rows(self@);
        }
        self.lemma_vec.select_first();
        match self.lemma_vec.selected() {
            None => {
                self.curr_lemma = None;
                self.form_vec = None;
                self.curr_form = None;
                self.usage_vec = None;
            },
            Some(k) => {
                let bucket = self.lemma_vec.items()[k];
                let index = self.lemmatizer.lemma_map();
                let lemma = index.lemma(bucket);
                let reuse = match &self.curr_lemma {
                    Some(curr) => same_text(curr.as_str(), lemma),
                    None => false,
                };
                if !reuse {
                    let mut forms = StatefulList::with_items(rank_forms(index.forms(bucket)));
                    forms.select_first();
                    let key = lemma.to_owned();
                    self.form_vec = Some(forms);
                    self.curr_lemma = Some(key);
                    self.curr_form = None;
                    self.usage_vec = None;
                }
            },
        }
    }

    /// Brings the usages pane in step with the selected form.
    fn refresh_usages(&mut self)
        requires
            old(self).valid(),
            forms_in_step(old(self)@),
        ensures
            final(self)@ == usages_refreshed(old(self)@),
            final(self).corpus() == old(self).corpus(),
            final(self).loaded(),
    {
        proof {
            lemma_lemma_rows(self@);
        }
        let lemma_bucket = match self.lemma_vec.selected() {
            Some(k) => Some(self.lemma_vec.items()[k]),
            None => None,
        };
        match (self.form_vec.take(), lemma_bucket) {
            (Some(forms), Some(b)) => {
                let mut forms = forms;
                proof {
                    lemma_form_rows(self@.index, b as int);
                }
                forms.select_first();
                match forms.selected() {
                    None => {
                        self.curr_form = None;
                        self.usage_vec = None;
                    },
                    Some(k) => {
                        let j = forms.items()[k];
                        let buckets = self.lemmatizer.lemma_map().forms(b);
                        let form = buckets.form(j);
                        let reuse = match &self.curr_form {
                            Some(curr) => same_text(curr.as_str(), form),
                            None => false,
                        };
                        if !reuse {
                            let mut usages = StatefulList::with_items(
                                copy_positions(buckets.occurrences(j)),
                            );
                            usages.select_first();
                            let key = form.to_owned();
                            self.curr_form = Some(key);
                            self.usage_vec = Some(usages);
                        }
                    },
                }
                self.form_vec = Some(forms);
            },
            (forms, _) => {
                self.form_vec = forms;
                self.curr_form = None;
                self.usage_vec = None;
            },
        }
    }

    /// Brings the forms pane, and then the usages pane, in step with what is
    /// selected. The first row of a pane is selected where none was. A pane
    /// whose key is still the selected row stays as it is, with its own
    /// selection; another is derived afresh.
    pub fn update_form(&mut self)
        requires
            old(self).valid(),
        ensures
            final(self)@ == form_updated(old(self)@),
            final(self).corpus() == old(self).corpus(),
            final(self).wf(),
            panes_current(final(self)@),
    {
        proof {
            lemma_forms_refreshed(self@);
            lemma_form_updated(self@);
        }
        self.refresh_forms();
        self.refresh_usages();
    }

    /// Brings the usages pane in step with the selected form; the forms pane
    /// is derived first where it is absent.
    pub fn update_usage(&mut self)
        requires
            old(self).valid(),
            forms_in_step(old(self)@),
        ensures
            final(self)@ == usage_updated(old(self)@),
            final(self).corpus() == old(self).corpus(),
            final(self).wf(),
            panes_current(final(self)@),
    {
        if self.form_vec.is_none() {
            self.update_form();
        } else {
            proof {
                lemma_usage_updated(self@);
            }
            self.refresh_usages();
        }
    }

    /// Steps into the selected row: from the lemmas pane to the forms of the
    /// selected lemma, from the forms pane to the usages of the selected
    /// form. In the usages pane nothing happens.
    pub fn enter_behavior(&mut self)
        requires
            old(self).wf(),
        ensures
            final(self)@ == after_drill(old(self)@),
            final(self).corpus() == old(self).corpus(),
            final(self).wf(),
    {
        proof {
            lemma_after_drill(self@);
        }
        match self.column {
            AppColumn::Lemmas => {
                self.update_form();
                self.column = AppColumn::Forms;
            },
            AppColumn::Forms => {
                self.update_usage();
                self.column = AppColumn::Usage;
            },
            AppColumn::Usage => {},
        }
    }

    /// Moves the selection of the focused pane by one row, forward or
    /// backward, and brings the panes to its right in step.
    pub fn move_selection(&mut self, forward: bool)
        requires
            old(self).wf(),
        ensures
            final(self)@ == after_select(old(self)@, forward),
            final(self).corpus() == old(self).corpus(),
            final(self).wf(),
    {
        proof {
            lemma_after_select(self@, forward);
        }
        match self.column {
            AppColumn::Lemmas => {
                if forward {
                    self.lemma_vec.next();
                } else {
                    self.lemma_vec.prev();
                }
                self.update_form();
            },
            AppColumn::Forms => {
                match self.form_vec.take() {
                    Some(forms) => {
                        let mut forms = forms;
                        if forward {
                            forms.next();
                        } else {
                            forms.prev();
                        }
                        self.form_vec = Some(forms);
                        self.refresh_usages();
                    },
                    None => {},
                }
            },
            AppColumn::Usage => {
                match self.usage_vec.take() {
                    Some(usages) => {
                        let mut usages = usages;
                        if forward {
                            usages.next();
                        } else {
                            usages.prev();
                        }
                        self.usage_vec = Some(usages);
                    },
                    None => {},
                }
            },
        }
    }

    /// Takes one event and says whether the session is over. Whatever is
    /// selected, and whichever pane is empty, every event is answered.
    pub fn handle_event(&mut self, event: Event) -> (quit: bool)
        requires
            old(self).wf(),
        ensures
            final(self)@ == after_event(old(self)@, event),
            final(self).corpus() == old(self).corpus(),
            final(self).wf(),
            panes_current(old(self)@) ==> panes_current(final(self)@),
            quit == (event == Event::Quit),
    {
        proof {
            if panes_current(self@) {
                lemma_panes_stay_current(self@, event);
            }
        }
        match event {
            Event::Quit => true,
            Event::FocusNext => {
                self.column = self.column.next();
                false
            },
            Event::FocusPrev => {
                self.column = self.column.prev();
                false
            },
            Event::SelectNext => {
                self.move_selection(true);
                false
            },
            Event::SelectPrev => {
                self.move_selection(false);
                false
            },
            Event::Drill => {
                self.enter_behavior();
                false
            },
        }
    }
}

} // verus!
