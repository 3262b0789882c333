//! The building blocks of the browsing session: the panes, the events, and a
//! list with a selection.

use vstd::prelude::*;

verus! {

/// The pane that has the focus.
#[derive(Clone, Copy, Debug, PartialEq, Eq, Structural)]
pub enum AppColumn {
    Lemmas,
    Forms,
    Usage,
}

impl AppColumn {
    /// The pane to the right; the last pane stays.
    pub open spec fn spec_next(self) -> AppColumn {
        match self {
            AppColumn::Lemmas => AppColumn::Forms,
            AppColumn::Forms => AppColumn::Usage,
            AppColumn::Usage => AppColumn::Usage,
        }
    }

    /// The pane to the left; the first pane stays.
    pub open spec fn spec_prev(self) -> AppColumn {
        match self {
            AppColumn::Lemmas => AppColumn::Lemmas,
            AppColumn::Forms => AppColumn::Lemmas,
            AppColumn::Usage => AppColumn::Forms,
        }
    }

    /// The pane to the right; the last pane stays.
    #[verifier::when_used_as_spec(spec_next)]
    pub fn next(self) -> (column: AppColumn)
        ensures
            column == self.spec_next(),
    {
        match self {
            AppColumn::Lemmas => AppColumn::Forms,
            AppColumn::Forms => AppColumn::Usage,
            AppColumn::Usage => AppColumn::Usage,
        }
    }

    /// The pane to the left; the first pane stays.
    #[verifier::when_used_as_spec(spec_prev)]
    pub fn prev(self) -> (column: AppColumn)
        ensures
            column == self.spec_prev(),
    {
        match self {
            AppColumn::Lemmas => AppColumn::Lemmas,
            AppColumn::Forms => AppColumn::Lemmas,
            AppColumn::Usage => AppColumn::Forms,
        }
    }
}

/// What the user can ask for.
#[derive(Clone, Copy, Debug, PartialEq, Eq, Structural)]
pub enum Event {
    /// Leave the session.
    Quit,
    /// Move the focus one pane to the right.
    FocusNext,
    /// Move the focus one pane to the left.
    FocusPrev,
    /// Select the next row of the focused pane.
    SelectNext,
    /// Select the previous row of the focused pane.
    SelectPrev,
    /// Step into the selected row.
    Drill,
}

/// The content of a [`StatefulList`].
pub struct ListModel<T> {
    pub items: Seq<T>,
    pub selected: Option<usize>,
}

/// A selection, where there is one, names a row.
pub open spec fn list_wf<T>(list: ListModel<T>) -> bool {
    list.selected matches Some(i) ==> i < list.items.len()
}

/// A list that has just been derived: its first row is selected, if it has one.
pub open spec fn fresh_list<T>(items: Seq<T>) -> ListModel<T> {
    ListModel {
        items,
        selected: if items.len() > 0 {
            Some(0usize)
        } else {
            None
        },
    }
}

/// The list with its first row selected where nothing was selected before.
pub open spec fn with_first_selected<T>(list: ListModel<T>) -> ListModel<T> {
    if list.selected is None && list.items.len() > 0 {
        ListModel { items: list.items, selected: Some(0usize) }
    } else {
        list
    }
}

/// The list with the selection moved by one row, forward or backward, from
/// the last row on to the first and from the first back to the last. Where
/// nothing was selected the first row is. An empty list has no selection.
pub open spec fn moved<T>(list: ListModel<T>, forward: bool) -> ListModel<T> {
    let n = list.items.len();
    ListModel {
        items: list.items,
        selected: if n == 0 {
            None
        } else {
            match list.selected {
                None => Some(0usize),
                Some(i) => if forward {
                    if i + 1 >= n {
                        Some(0usize)
                    } else {
                        Some((i + 1) as usize)
                    }
                } else {
                    if i == 0 {
                        Some((n - 1) as usize)
                    } else {
                        Some((i - 1) as usize)
                    }
                },
            }
        },
    }
}

/// A list of rows, of which at most one is selected.
pub struct StatefulList<T> {
    selected: Option<usize>,
    items: Vec<T>,
}

impl<T> View for StatefulList<T> {
    type V = ListModel<T>;

    closed spec fn view(&self) -> ListModel<T> {
        ListModel { items: self.items@, selected: self.selected }
    }
}

impl<T> StatefulList<T> {
    /// Whether the selection, if there is one, names a row.
    pub open spec fn wf(&self) -> bool {
        list_wf(self@)
    }

    /// A list of the given rows with none selected.
    pub fn with_items(items: Vec<T>) -> (list: StatefulList<T>)
        ensures
            list@ == (ListModel { items: items@, selected: None }),
            list.wf(),
    {
        StatefulList { selected: None, items }
    }

    /// The rows.
    pub fn items(&self) -> (items: &Vec<T>)
        ensures
            items@ == self@.items,
    {
        &self.items
    }

    /// The number of rows.
    pub fn len(&self) -> (n: usize)
        ensures
            n == self@.items.len(),
    {
        self.items.len()
    }

    /// The selected row, if there is one.
    pub fn selected(&self) -> (selected: Option<usize>)
        ensures
            selected == self@.selected,
    {
        self.selected
    }

    /// Selects the first row if none is selected and there is a row.
    pub fn select_first(&mut self)
        requires
            old(self).wf(),
        ensures
            final(self)@ == with_first_selected(old(self)@),
            final(self).wf(),
    {
        if self.selected.is_none() && self.items.len() > 0 {
            self.selected = Some(0);
        }
    }

    /// Moves the selection to the next row, from the last row on to the first.
    pub fn next(&mut self)
        requires
            old(self).wf(),
        ensures
            final(self)@ == moved(old(self)@, true),
            final(self).wf(),
    {
        if self.items.len() == 0 {
            self.selected = None;
        } else {
            let i: usize = match self.selected {
                Some(i) => {
                    if i >= self.items.len() - 1 {
                        0
                    } else {
                        i + 1
                    }
                },
                None => 0,
            };
            self.selected = Some(i);
        }
    }

    /// Moves the selection to the previous row, from the first row back to
    /// the last.
    pub fn prev(&mut self)
        requires
            old(self).wf(),
        ensures
            final(self)@ == moved(old(self)@, false),
            final(self).wf(),
    {
        if self.items.len() == 0 {
            self.selected = None;
        } else {
            let i: usize = match self.selected {
                Some(i) => {
                    if i == 0 {
                        self.items.len() - 1
                    } else {
                        i - 1
                    }
                },
                None => 0,
            };
            self.selected = Some(i);
        }
    }
}

} // verus!
