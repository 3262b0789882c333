//! The browsing session as a state machine over the index.
//!
//! The forms pane and the usages pane are derived views. Each is kept together
//! with the key it was derived for, and is derived again only when the
//! selection to its left names another key.

use crate::index::{
    form_keys, forms_count, index_wf, key_position, lemma_key_position_of_distinct, lemma_keys,
    occurrences_of, LemmaModel,
};
use crate::navigation::{
    fresh_list, list_wf, moved, with_first_selected, AppColumn, Event, ListModel,
};
use crate::rank::{form_counts, is_permutation, lemma_counts, lemma_ranking_properties, ranking};
use vstd::prelude::*;

verus! {

/// The state of a browsing session, as far as the transitions read it.
pub struct AppModel {
    /// The index that is browsed.
    pub index: Seq<LemmaModel>,
    /// The lemmas pane: the ranking of the lemma buckets.
    pub lemmas: ListModel<usize>,
    /// The lemma for which the forms pane was derived.
    pub curr_lemma: Option<Seq<char>>,
    /// The forms pane: the ranking of the form buckets of a lemma.
    pub forms: Option<ListModel<usize>>,
    /// The form for which the usages pane was derived.
    pub curr_form: Option<Seq<char>>,
    /// The usages pane: the occurrences of a form.
    pub usages: Option<ListModel<(usize, usize)>>,
    /// The pane that has the focus.
    pub column: AppColumn,
}

/// The row that a list selects, if it selects one of its rows.
pub open spec fn selected_item<T>(list: ListModel<T>) -> Option<T> {
    match list.selected {
        Some(k) => if k < list.items.len() {
            Some(list.items[k as int])
        } else {
            None
        },
        None => None,
    }
}

/// The bucket of the lemma that is selected.
pub open spec fn selected_lemma(m: AppModel) -> Option<usize> {
    selected_item(m.lemmas)
}

/// The bucket, under its lemma, of the form that is selected.
pub open spec fn selected_form(m: AppModel) -> Option<usize> {
    match m.forms {
        Some(forms) => selected_item(forms),
        None => None,
    }
}

/// Every bucket of the index can be named by a `usize`.
pub open spec fn index_fits(index: Seq<LemmaModel>) -> bool {
    &&& index.len() <= usize::MAX
    &&& forall|b: int| 0 <= b < index.len() ==> (#[trigger] index[b]).forms.len() <= usize::MAX
}

/// The index is well formed and the lemmas pane is its ranking.
pub open spec fn lemmas_ranked(m: AppModel) -> bool {
    &&& index_wf(m.index)
    &&& index_fits(m.index)
    &&& m.lemmas.items == ranking(lemma_counts(m.index))
    &&& list_wf(m.lemmas)
}

/// Each derived pane is what its key says: the forms pane is the ranking of
/// the forms of the lemma `curr_lemma`, the usages pane holds the occurrences
/// of the form `curr_form` of that lemma. A pane without a key is absent.
pub open spec fn caches_keyed(m: AppModel) -> bool {
    match m.curr_lemma {
        None => m.forms is None && m.curr_form is None && m.usages is None,
        Some(lemma) => {
            &&& key_position(lemma_keys(m.index), lemma) matches Some(b)
            &&& m.forms matches Some(forms)
            &&& forms.items == ranking(form_counts(m.index[b].forms))
            &&& list_wf(forms)
            &&& match m.curr_form {
                None => m.usages is None,
                Some(form) => {
                    &&& key_position(form_keys(m.index[b].forms), form) matches Some(j)
                    &&& m.usages matches Some(usages)
                    &&& usages.items == m.index[b].forms[j].occurrences
                    &&& list_wf(usages)
                },
            }
        },
    }
}

/// The key of the forms pane, where there is one, is the selected lemma.
pub open spec fn forms_in_step(m: AppModel) -> bool {
    m.curr_lemma matches Some(lemma) ==> {
        &&& selected_lemma(m) matches Some(b)
        &&& b < m.index.len()
        &&& m.index[b as int].lemma == lemma
    }
}

/// The key of the usages pane, where there is one, is the selected form of
/// the selected lemma.
pub open spec fn usages_in_step(m: AppModel) -> bool {
    m.curr_form matches Some(form) ==> {
        &&& selected_lemma(m) matches Some(b)
        &&& b < m.index.len()
        &&& selected_form(m) matches Some(j)
        &&& j < m.index[b as int].forms.len()
        &&& m.index[b as int].forms[j as int].form == form
    }
}

/// A state in which the derived panes are what their keys say, whatever is
/// selected.
pub open spec fn model_valid(m: AppModel) -> bool {
    lemmas_ranked(m) && caches_keyed(m)
}

/// A state between two events: every derived pane that is present was
/// derived for what is selected to its left.
pub open spec fn model_wf(m: AppModel) -> bool {
    model_valid(m) && forms_in_step(m) && usages_in_step(m)
}

/// Every pane shows what is selected to its left: the forms pane is the
/// ranking of the forms of the selected lemma, the usages pane holds the
/// occurrences of the selected form, each under the key it was derived for.
/// Where nothing is selected to its left, a pane is absent.
pub open spec fn panes_current(m: AppModel) -> bool {
    match selected_lemma(m) {
        None => m.curr_lemma is None && m.forms is None && m.curr_form is None && m.usages is None,
        Some(b) => {
            &&& b < m.index.len()
            &&& m.curr_lemma == Some(m.index[b as int].lemma)
            &&& m.forms matches Some(forms)
            &&& forms.items == ranking(form_counts(m.index[b as int].forms))
            &&& match selected_item(forms) {
                None => m.curr_form is None && m.usages is None,
                Some(j) => {
                    &&& j < m.index[b as int].forms.len()
                    &&& m.curr_form == Some(m.index[b as int].forms[j as int].form)
                    &&& m.usages matches Some(usages)
                    &&& usages.items == m.index[b as int].forms[j as int].occurrences
                },
            }
        },
    }
}

/// The state at the start of a session: the focus on the lemmas pane,
/// nothing selected, nothing derived.
pub open spec fn initial_model(index: Seq<LemmaModel>) -> AppModel {
    AppModel {
        index,
        lemmas: ListModel { items: ranking(lemma_counts(index)), selected: None },
        curr_lemma: None,
        forms: None,
        curr_form: None,
        usages: None,
        column: AppColumn::Lemmas,
    }
}

/// The state with the forms pane brought in step with the lemmas pane. The
/// first lemma is selected if none was. Where the selected lemma is the key
/// of the forms pane, the pane stays as it is; else it is derived afresh, and
/// the usages pane is dropped with it. Without a lemma there are no derived
/// panes.
pub open spec fn forms_refreshed(m: AppModel) -> AppModel {
    let lemmas = with_first_selected(m.lemmas);
    match selected_item(lemmas) {
        None => AppModel {
            lemmas,
            curr_lemma: None,
            forms: None,
            curr_form: None,
            usages: None,
            ..m
        },
        Some(b) => {
            let lemma = m.index[b as int].lemma;
            if m.curr_lemma == Some(lemma) {
                AppModel { lemmas, ..m }
            } else {
                AppModel {
                    lemmas,
                    curr_lemma: Some(lemma),
                    forms: Some(fresh_list(ranking(form_counts(m.index[b as int].forms)))),
                    curr_form: None,
                    usages: None,
                    ..m
                }
            }
        },
    }
}

/// The state with the usages pane brought in step with the forms pane. The
/// first form is selected if none was. Where the selected form is the key of
/// the usages pane, the pane stays as it is; else it is derived afresh.
/// Without a form there is no usages pane.
pub open spec fn usages_refreshed(m: AppModel) -> AppModel {
    match (m.forms, selected_lemma(m)) {
        (Some(old_forms), Some(b)) => {
            let forms = with_first_selected(old_forms);
            match selected_item(forms) {
                None => AppModel { forms: Some(forms), curr_form: None, usages: None, ..m },
                Some(j) => {
                    let bucket = m.index[b as int].forms[j as int];
                    if m.curr_form == Some(bucket.form) {
                        AppModel { forms: Some(forms), ..m }
                    } else {
                        AppModel {
                            forms: Some(forms),
                            curr_form: Some(bucket.form),
                            usages: Some(fresh_list(bucket.occurrences)),
                            ..m
                        }
                    }
                },
            }
        },
        _ => AppModel { curr_form: None, usages: None, ..m },
    }
}

/// The state with both derived panes brought in step.
pub open spec fn form_updated(m: AppModel) -> AppModel {
    usages_refreshed(forms_refreshed(m))
}

/// The state with the usages pane brought in step; the forms pane is derived
/// first where it is absent.
pub open spec fn usage_updated(m: AppModel) -> AppModel {
    if m.forms is None {
        form_updated(m)
    } else {
        usages_refreshed(m)
    }
}

/// The state after the selection of the focused pane has moved by one row.
/// The panes to the right of the focused pane are brought in step.
pub open spec fn after_select(m: AppModel, forward: bool) -> AppModel {
    match m.column {
        AppColumn::Lemmas => form_updated(AppModel { lemmas: moved(m.lemmas, forward), ..m }),
        AppColumn::Forms => match m.forms {
            Some(forms) => usages_refreshed(AppModel { forms: Some(moved(forms, forward)), ..m }),
            None => m,
        },
        AppColumn::Usage => match m.usages {
            Some(usages) => AppModel { usages: Some(moved(usages, forward)), ..m },
            None => m,
        },
    }
}

/// The state after stepping into the selected row: the pane to the right is
/// brought in step and gets the focus. The last pane has nothing below it.
pub open spec fn after_drill(m: AppModel) -> AppModel {
    match m.column {
        AppColumn::Lemmas => AppModel { column: AppColumn::Forms, ..form_updated(m) },
        AppColumn::Forms => AppModel { column: AppColumn::Usage, ..usage_updated(m) },
        AppColumn::Usage => m,
    }
}

/// The state after an event.
pub open spec fn after_event(m: AppModel, event: Event) -> AppModel {
    match event {
        Event::Quit => m,
        Event::FocusNext => AppModel { column: m.column.spec_next(), ..m },
        Event::FocusPrev => AppModel { column: m.column.spec_prev(), ..m },
        Event::SelectNext => after_select(m, true),
        Event::SelectPrev => after_select(m, false),
        Event::Drill => after_drill(m),
    }
}

/// What the lemmas pane shows: each lemma with its word count, by rank.
pub open spec fn lemma_rows_of(m: AppModel) -> Seq<(Seq<char>, usize)> {
    Seq::new(
        m.lemmas.items.len(),
        |k: int|
            (
                m.index[m.lemmas.items[k] as int].lemma,
                forms_count(m.index[m.lemmas.items[k] as int].forms) as usize,
            ),
    )
}

/// What the forms pane shows: each form of the selected lemma with the
/// number of its occurrences, by rank. An absent pane shows nothing.
pub open spec fn form_rows_of(m: AppModel) -> Seq<(Seq<char>, usize)> {
    match (m.forms, selected_lemma(m)) {
        (Some(forms), Some(b)) => Seq::new(
            forms.items.len(),
            |k: int|
                (
                    m.index[b as int].forms[forms.items[k] as int].form,
                    m.index[b as int].forms[forms.items[k] as int].occurrences.len() as usize,
                ),
        ),
        _ => Seq::empty(),
    }
}

/// The positions that the usages pane lists, in scan order. An absent pane
/// lists nothing.
pub open spec fn usage_positions_of(m: AppModel) -> Seq<(usize, usize)> {
    match m.usages {
        Some(usages) => usages.items,
        None => Seq::empty(),
    }
}

/// The row that is selected in a pane.
pub open spec fn selection_of(m: AppModel, column: AppColumn) -> Option<usize> {
    match column {
        AppColumn::Lemmas => m.lemmas.selected,
        AppColumn::Forms => match m.forms {
            Some(forms) => forms.selected,
            None => None,
        },
        AppColumn::Usage => match m.usages {
            Some(usages) => usages.selected,
            None => None,
        },
    }
}

/// The positions that the usages pane lists are the occurrences that the
/// index holds for the two keys of the derived panes.
pub proof fn lemma_usage_positions_keyed(m: AppModel)
    requires
        caches_keyed(m),
    ensures
        match (m.curr_lemma, m.curr_form) {
            (Some(lemma), Some(form)) => usage_positions_of(m) == occurrences_of(
                m.index,
                lemma,
                form,
            ),
            _ => usage_positions_of(m) == Seq::<(usize, usize)>::empty(),
        },
{
}

/// Every row of the lemmas pane names a lemma bucket, and a bucket is found
/// under its own key.
pub proof fn lemma_lemma_rows(m: AppModel)
    requires
        lemmas_ranked(m),
    ensures
        is_permutation(m.lemmas.items, m.index.len()),
        forall|b: int|
            0 <= b < m.index.len() ==> key_position(
                lemma_keys(m.index),
                (#[trigger] m.index[b]).lemma,
            ) == Some(b),
{
    lemma_ranking_properties(lemma_counts(m.index));
    assert forall|b: int| 0 <= b < m.index.len() implies key_position(
        lemma_keys(m.index),
        (#[trigger] m.index[b]).lemma,
    ) == Some(b) by {
        lemma_key_position_of_distinct(lemma_keys(m.index), b);
    }
}

/// Every row of the ranking of the forms of a lemma names a form bucket, and
/// a bucket is found under its own key.
pub proof fn lemma_form_rows(index: Seq<LemmaModel>, b: int)
    requires
        index_wf(index),
        index_fits(index),
        0 <= b < index.len(),
    ensures
        is_permutation(ranking(form_counts(index[b].forms)), index[b].forms.len()),
        forall|j: int|
            0 <= j < index[b].forms.len() ==> key_position(
                form_keys(index[b].forms),
                (#[trigger] index[b].forms[j]).form,
            ) == Some(j),
{
    let forms = index[b].forms;
    lemma_ranking_properties(form_counts(forms));
    assert forall|j: int| 0 <= j < forms.len() implies key_position(
        form_keys(forms),
        (#[trigger] forms[j]).form,
    ) == Some(j) by {
        lemma_key_position_of_distinct(form_keys(forms), j);
    }
}

/// Bringing the forms pane in step keeps the state valid and leaves the
/// forms pane keyed to the selected lemma.
pub proof fn lemma_forms_refreshed(m: AppModel)
    requires
        model_valid(m),
    ensures
        model_valid(forms_refreshed(m)),
        forms_in_step(forms_refreshed(m)),
        forms_refreshed(m).index == m.index,
        forms_refreshed(m).column == m.column,
        forms_refreshed(m).lemmas == with_first_selected(m.lemmas),
        match selected_lemma(forms_refreshed(m)) {
            None => forms_refreshed(m).curr_lemma is None,
            Some(b) => b < m.index.len() && forms_refreshed(m).curr_lemma == Some(
                m.index[b as int].lemma,
            ),
        },
{
    let n = forms_refreshed(m);
    lemma_lemma_rows(m);
    match selected_item(with_first_selected(m.lemmas)) {
        None => {},
        Some(b) => {
            assert(b < m.index.len());
            lemma_form_rows(m.index, b as int);
            assert(key_position(lemma_keys(m.index), m.index[b as int].lemma) == Some(b as int));
        },
    }
}

/// Bringing the usages pane in step, in a state whose forms pane is in step,
/// gives a state in which every pane shows what is selected to its left.
pub proof fn lemma_usages_refreshed(m: AppModel)
    requires
        model_valid(m),
        forms_in_step(m),
        selected_lemma(m) is Some ==> m.curr_lemma is Some,
    ensures
        model_wf(usages_refreshed(m)),
        panes_current(usages_refreshed(m)),
        usages_refreshed(m).index == m.index,
        usages_refreshed(m).column == m.column,
        usages_refreshed(m).lemmas == m.lemmas,
        usages_refreshed(m).curr_lemma == m.curr_lemma,
        match m.forms {
            Some(forms) => usages_refreshed(m).forms == Some(with_first_selected(forms)),
            None => usages_refreshed(m).forms is None,
        },
{
    let n = usages_refreshed(m);
    lemma_lemma_rows(m);
    match (m.forms, selected_lemma(m)) {
        (Some(old_forms), Some(b)) => {
            assert(b < m.index.len());
            lemma_form_rows(m.index, b as int);
            assert(key_position(lemma_keys(m.index), m.index[b as int].lemma) == Some(b as int));
            let forms = with_first_selected(old_forms);
            match selected_item(forms) {
                None => {},
                Some(j) => {
                    assert(j < m.index[b as int].forms.len());
                    assert(key_position(
                        form_keys(m.index[b as int].forms),
                        m.index[b as int].forms[j as int].form,
                    ) == Some(j as int));
                },
            }
        },
        _ => {},
    }
}

/// Bringing both derived panes in step gives, from any valid state, a state
/// in which every pane shows what is selected to its left.
pub proof fn lemma_form_updated(m: AppModel)
    requires
        model_valid(m),
    ensures
        model_wf(form_updated(m)),
        panes_current(form_updated(m)),
        form_updated(m).index == m.index,
        form_updated(m).column == m.column,
        form_updated(m).lemmas == with_first_selected(m.lemmas),
{
    lemma_forms_refreshed(m);
    lemma_usages_refreshed(forms_refreshed(m));
}

/// Bringing the usages pane in step gives, from any state between two
/// events, a state in which every pane shows what is selected to its left.
pub proof fn lemma_usage_updated(m: AppModel)
    requires
        model_valid(m),
        forms_in_step(m),
        m.forms is Some,
    ensures
        model_wf(usage_updated(m)),
        panes_current(usage_updated(m)),
        usage_updated(m).index == m.index,
        usage_updated(m).column == m.column,
        usage_updated(m).lemmas == m.lemmas,
{
    lemma_lemma_rows(m);
    lemma_usages_refreshed(m);
}

/// Every event leads from a state between two events to another one, over
/// the same index.
pub proof fn lemma_after_event_wf(m: AppModel, event: Event)
    requires
        model_wf(m),
    ensures
        model_wf(after_event(m, event)),
        after_event(m, event).index == m.index,
{
    match event {
        Event::Quit => {},
        Event::FocusNext => {},
        Event::FocusPrev => {},
        Event::SelectNext => {
            lemma_after_select(m, true);
        },
        Event::SelectPrev => {
            lemma_after_select(m, false);
        },
        Event::Drill => {
            lemma_after_drill(m);
        },
    }
}

/// Moving a selection keeps the derived panes in step with it. After a move
/// in the lemmas pane the forms pane is keyed to the lemma that is now
/// selected, and the usages pane to the form that is now selected; after a
/// move in the forms pane the usages pane is keyed to the form that is now
/// selected.
pub proof fn lemma_after_select(m: AppModel, forward: bool)
    requires
        model_wf(m),
    ensures
        model_wf(after_select(m, forward)),
        after_select(m, forward).index == m.index,
        after_select(m, forward).column == m.column,
        m.column == AppColumn::Lemmas ==> after_select(m, forward).lemmas == moved(
            m.lemmas,
            forward,
        ) && panes_current(after_select(m, forward)),
        m.column == AppColumn::Forms && m.forms is Some ==> after_select(m, forward).forms == Some(
            moved(m.forms->0, forward),
        ) && panes_current(after_select(m, forward)),
        m.column == AppColumn::Usage && panes_current(m) ==> panes_current(
            after_select(m, forward),
        ),
{
    lemma_lemma_rows(m);
    match m.column {
        AppColumn::Lemmas => {
            let stepped = AppModel { lemmas: moved(m.lemmas, forward), ..m };
            lemma_form_updated(stepped);
        },
        AppColumn::Forms => {
            match m.forms {
                Some(forms) => {
                    let stepped = AppModel { forms: Some(moved(forms, forward)), ..m };
                    lemma_usages_refreshed(stepped);
                },
                None => {},
            }
        },
        AppColumn::Usage => {},
    }
}

/// Stepping into a row never shows a pane that was derived for another row:
/// after a step from the lemmas pane or from the forms pane, every pane shows
/// what is selected to its left.
pub proof fn lemma_after_drill(m: AppModel)
    requires
        model_wf(m),
    ensures
        model_wf(after_drill(m)),
        after_drill(m).index == m.index,
        after_drill(m).column == m.column.spec_next(),
        m.column != AppColumn::Usage ==> panes_current(after_drill(m)),
        panes_current(m) ==> panes_current(after_drill(m)),
{
    lemma_lemma_rows(m);
    match m.column {
        AppColumn::Lemmas => {
            lemma_form_updated(m);
        },
        AppColumn::Forms => {
            if m.forms is None {
                lemma_form_updated(m);
            } else {
                lemma_usage_updated(m);
            }
        },
        AppColumn::Usage => {},
    }
}

/// Once every pane shows what is selected to its left, it does so after
/// every further event.
pub proof fn lemma_panes_stay_current(m: AppModel, event: Event)
    requires
        model_wf(m),
        panes_current(m),
    ensures
        panes_current(after_event(m, event)),
{
    match event {
        Event::Quit => {},
        Event::FocusNext => {},
        Event::FocusPrev => {},
        Event::SelectNext => {
            lemma_after_select(m, true);
        },
        Event::SelectPrev => {
            lemma_after_select(m, false);
        },
        Event::Drill => {
            lemma_after_drill(m);
        },
    }
}

} // verus!
