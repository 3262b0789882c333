//! The two-level frequency index: lemma, then surface form, then the
//! positions at which the form occurs.
//!
//! Both levels keep their entries in the order in which the keys were first
//! met, so that everything derived from the index is determined by the corpus
//! alone. A lookup walks the entries in that order and compares the keys.

use crate::text::same_text;
use vstd::prelude::*;

verus! {

/// The content of one form bucket: the form and where it occurs, in scan order.
pub struct FormModel {
    pub form: Seq<char>,
    pub occurrences: Seq<(usize, usize)>,
}

/// The content of one lemma bucket: the lemma and its forms, in the order in
/// which the forms were first met.
pub struct LemmaModel {
    pub lemma: Seq<char>,
    pub forms: Seq<FormModel>,
}

/// The keys of a sequence of form buckets.
pub open spec fn form_keys(forms: Seq<FormModel>) -> Seq<Seq<char>> {
    Seq::new(forms.len(), |i: int| forms[i].form)
}

/// The keys of a sequence of lemma buckets.
pub open spec fn lemma_keys(index: Seq<LemmaModel>) -> Seq<Seq<char>> {
    Seq::new(index.len(), |i: int| index[i].lemma)
}

/// The first place at or behind `from` at which `key` stands among `keys`.
pub open spec fn key_position_from(keys: Seq<Seq<char>>, key: Seq<char>, from: int) -> Option<int>
    decreases keys.len() - from,
{
    if from < 0 || from >= keys.len() {
        None
    } else if keys[from] == key {
        Some(from)
    } else {
        key_position_from(keys, key, from + 1)
    }
}

/// The first place at which `key` stands among `keys`.
pub open spec fn key_position(keys: Seq<Seq<char>>, key: Seq<char>) -> Option<int> {
    key_position_from(keys, key, 0)
}

/// No key stands at two places.
pub open spec fn keys_distinct(keys: Seq<Seq<char>>) -> bool {
    forall|i: int, j: int| 0 <= i < j < keys.len() ==> keys[i] != keys[j]
}

/// The form buckets after one more occurrence of `form` at `pos`.
pub open spec fn forms_with(forms: Seq<FormModel>, form: Seq<char>, pos: (usize, usize)) -> Seq<
    FormModel,
> {
    match key_position(form_keys(forms), form) {
        Some(i) => forms.update(
            i,
            FormModel { form, occurrences: forms[i].occurrences.push(pos) },
        ),
        None => forms.push(FormModel { form, occurrences: seq![pos] }),
    }
}

/// The index after one more occurrence of `form` under `lemma` at `pos`.
pub open spec fn index_with(
    index: Seq<LemmaModel>,
    lemma: Seq<char>,
    form: Seq<char>,
    pos: (usize, usize),
) -> Seq<LemmaModel> {
    match key_position(lemma_keys(index), lemma) {
        Some(i) => index.update(
            i,
            LemmaModel { lemma, forms: forms_with(index[i].forms, form, pos) },
        ),
        None => index.push(
            LemmaModel { lemma, forms: seq![FormModel { form, occurrences: seq![pos] }] },
        ),
    }
}

/// The number of occurrences in a sequence of form buckets.
pub open spec fn forms_count(forms: Seq<FormModel>) -> nat
    decreases forms.len(),
{
    if forms.len() == 0 {
        0
    } else {
        forms_count(forms.drop_last()) + forms.last().occurrences.len()
    }
}

/// The number of occurrences in the whole index.
pub open spec fn index_count(index: Seq<LemmaModel>) -> nat
    decreases index.len(),
{
    if index.len() == 0 {
        0
    } else {
        index_count(index.drop_last()) + forms_count(index.last().forms)
    }
}

/// Form buckets as the builder leaves them: no form twice, no empty bucket.
pub open spec fn forms_wf(forms: Seq<FormModel>) -> bool {
    &&& keys_distinct(form_keys(forms))
    &&& forall|i: int| 0 <= i < forms.len() ==> (#[trigger] forms[i]).occurrences.len() > 0
}

/// An index as the builder leaves it: no lemma twice, and under every lemma
/// at least one form, each form once and with at least one occurrence.
pub open spec fn index_wf(index: Seq<LemmaModel>) -> bool {
    &&& keys_distinct(lemma_keys(index))
    &&& forall|i: int|
        0 <= i < index.len() ==> (#[trigger] index[i]).forms.len() > 0 && forms_wf(index[i].forms)
}

/// The positions at which `form` occurs according to the form buckets, in
/// scan order; none where no bucket has the form.
pub open spec fn form_occurrences(forms: Seq<FormModel>, form: Seq<char>) -> Seq<(usize, usize)> {
    match key_position(form_keys(forms), form) {
        Some(j) => forms[j].occurrences,
        None => Seq::empty(),
    }
}

/// The positions at which `form` occurs under `lemma` according to the index,
/// in scan order; none where the index does not hold the lemma, or the lemma
/// does not have the form.
pub open spec fn occurrences_of(index: Seq<LemmaModel>, lemma: Seq<char>, form: Seq<char>) -> Seq<
    (usize, usize),
> {
    match key_position(lemma_keys(index), lemma) {
        Some(i) => form_occurrences(index[i].forms, form),
        None => Seq::empty(),
    }
}

/// What [`key_position_from`] finds is the first match, and it finds nothing
/// only where there is none.
pub proof fn lemma_key_position_from(keys: Seq<Seq<char>>, key: Seq<char>, from: int)
    requires
        0 <= from,
    ensures
        match key_position_from(keys, key, from) {
            Some(i) => from <= i < keys.len() && keys[i] == key && forall|j: int|
                from <= j < i ==> keys[j] != key,
            None => forall|j: int| from <= j < keys.len() ==> keys[j] != key,
        },
    decreases keys.len() - from,
{
    if from < keys.len() && keys[from] != key {
        lemma_key_position_from(keys, key, from + 1);
    }
}

/// Among distinct keys, each key is found at its own place.
pub proof fn lemma_key_position_of_distinct(keys: Seq<Seq<char>>, i: int)
    requires
        keys_distinct(keys),
        0 <= i < keys.len(),
    ensures
        key_position(keys, keys[i]) == Some(i),
{
    lemma_key_position_from(keys, keys[i], 0);
}

/// A key appended behind the others is found there if it was not found
/// before; every other lookup finds what it found before.
pub proof fn lemma_key_position_push(keys: Seq<Seq<char>>, added: Seq<char>, key: Seq<char>)
    ensures
        key_position(keys.push(added), key) == match key_position(keys, key) {
            Some(i) => Some(i),
            None => if added == key {
                Some(keys.len() as int)
            } else {
                None
            },
        },
{
    let longer = keys.push(added);
    lemma_key_position_from(keys, key, 0);
    lemma_key_position_from(longer, key, 0);
    match key_position(keys, key) {
        Some(i) => {
            assert(longer[i] == key);
            match key_position(longer, key) {
                Some(j) => {
                    if j < i {
                        assert(keys[j] == longer[j]);
                    }
                },
                None => {},
            }
        },
        None => {
            match key_position(longer, key) {
                Some(j) => {
                    if j < keys.len() {
                        assert(keys[j] == longer[j]);
                    }
                },
                None => {
                    assert(longer[keys.len() as int] == added);
                },
            }
        },
    }
}

/// One more occurrence of `form` is appended to what a lookup of `form`
/// finds; a lookup of any other form finds what it found before.
pub proof fn lemma_forms_with_lookup(
    forms: Seq<FormModel>,
    form: Seq<char>,
    pos: (usize, usize),
    key: Seq<char>,
)
    ensures
        form_occurrences(forms_with(forms, form, pos), key) == form_occurrences(forms, key)
            + if form == key {
            seq![pos]
        } else {
            Seq::<(usize, usize)>::empty()
        },
{
    let keys = form_keys(forms);
    let after = forms_with(forms, form, pos);
    lemma_key_position_from(keys, form, 0);
    lemma_key_position_from(keys, key, 0);
    match key_position(keys, form) {
        Some(i) => {
            assert(form_keys(after) =~= keys);
            if form == key {
                assert(after[i].occurrences =~= forms[i].occurrences + seq![pos]);
            } else {
                assert(form_occurrences(after, key) =~= form_occurrences(forms, key));
                assert(form_occurrences(forms, key) + Seq::<(usize, usize)>::empty()
                    =~= form_occurrences(forms, key));
            }
        },
        None => {
            assert(form_keys(after) =~= keys.push(form));
            lemma_key_position_push(keys, form, key);
            if form == key {
                assert(after[keys.len() as int].occurrences =~= Seq::<(usize, usize)>::empty()
                    + seq![pos]);
            } else {
                assert(form_occurrences(forms, key) + Seq::<(usize, usize)>::empty()
                    =~= form_occurrences(forms, key));
            }
        },
    }
}

/// One more occurrence of `form` under `lemma` is appended to what a lookup
/// of that lemma and form finds; a lookup of any other pair finds what it
/// found before.
pub proof fn lemma_index_with_lookup(
    index: Seq<LemmaModel>,
    lemma: Seq<char>,
    form: Seq<char>,
    pos: (usize, usize),
    lemma_key: Seq<char>,
    form_key: Seq<char>,
)
    ensures
        occurrences_of(index_with(index, lemma, form, pos), lemma_key, form_key) == occurrences_of(
            index,
            lemma_key,
            form_key,
        ) + if lemma == lemma_key && form == form_key {
            seq![pos]
        } else {
            Seq::<(usize, usize)>::empty()
        },
{
    let keys = lemma_keys(index);
    let after = index_with(index, lemma, form, pos);
    let found = occurrences_of(index, lemma_key, form_key);
    lemma_key_position_from(keys, lemma, 0);
    lemma_key_position_from(keys, lemma_key, 0);
    assert(found + Seq::<(usize, usize)>::empty() =~= found);
    match key_position(keys, lemma) {
        Some(i) => {
            assert(lemma_keys(after) =~= keys);
            if lemma == lemma_key {
                lemma_forms_with_lookup(index[i].forms, form, pos, form_key);
            }
        },
        None => {
            assert(lemma_keys(after) =~= keys.push(lemma));
            lemma_key_position_push(keys, lemma, lemma_key);
            if lemma == lemma_key {
                lemma_forms_with_lookup(Seq::empty(), form, pos, form_key);
                assert(form_keys(Seq::<FormModel>::empty()) =~= Seq::<Seq<char>>::empty());
                assert(forms_with(Seq::empty(), form, pos) =~= seq![
                    FormModel { form, occurrences: seq![pos] },
                ]);
            }
        },
    }
}

/// Appending a bucket adds its occurrences to the count.
pub proof fn lemma_forms_count_push(forms: Seq<FormModel>, bucket: FormModel)
    ensures
        forms_count(forms.push(bucket)) == forms_count(forms) + bucket.occurrences.len(),
{
    assert(forms.push(bucket).drop_last() =~= forms);
}

/// Replacing a bucket changes the count by the difference of the two buckets.
pub proof fn lemma_forms_count_update(forms: Seq<FormModel>, i: int, bucket: FormModel)
    requires
        0 <= i < forms.len(),
    ensures
        forms_count(forms.update(i, bucket)) + forms[i].occurrences.len() == forms_count(forms)
            + bucket.occurrences.len(),
    decreases forms.len(),
{
    let updated = forms.update(i, bucket);
    if i == forms.len() - 1 {
        assert(updated.drop_last() =~= forms.drop_last());
    } else {
        lemma_forms_count_update(forms.drop_last(), i, bucket);
        assert(updated.drop_last() =~= forms.drop_last().update(i, bucket));
    }
}

/// One more occurrence raises the count of the form buckets by one.
pub proof fn lemma_forms_with_count(forms: Seq<FormModel>, form: Seq<char>, pos: (usize, usize))
    ensures
        forms_count(forms_with(forms, form, pos)) == forms_count(forms) + 1,
{
    lemma_key_position_from(form_keys(forms), form, 0);
    match key_position(form_keys(forms), form) {
        Some(i) => {
            lemma_forms_count_update(
                forms,
                i,
                FormModel { form, occurrences: forms[i].occurrences.push(pos) },
            );
        },
        None => {
            lemma_forms_count_push(forms, FormModel { form, occurrences: seq![pos] });
        },
    }
}

/// One more occurrence keeps the form buckets well formed.
pub proof fn lemma_forms_with_wf(forms: Seq<FormModel>, form: Seq<char>, pos: (usize, usize))
    requires
        forms_wf(forms),
    ensures
        forms_wf(forms_with(forms, form, pos)),
        forms_with(forms, form, pos).len() > 0,
{
    let keys = form_keys(forms);
    let after = forms_with(forms, form, pos);
    lemma_key_position_from(keys, form, 0);
    match key_position(keys, form) {
        Some(i) => {
            assert(form_keys(after) =~= keys);
        },
        None => {
            assert(form_keys(after) =~= keys.push(form));
        },
    }
}

/// Appending a lemma bucket adds its occurrences to the count.
pub proof fn lemma_index_count_push(index: Seq<LemmaModel>, bucket: LemmaModel)
    ensures
        index_count(index.push(bucket)) == index_count(index) + forms_count(bucket.forms),
{
    assert(index.push(bucket).drop_last() =~= index);
}

/// Replacing a lemma bucket changes the count by the difference of the two.
pub proof fn lemma_index_count_update(index: Seq<LemmaModel>, i: int, bucket: LemmaModel)
    requires
        0 <= i < index.len(),
    ensures
        index_count(index.update(i, bucket)) + forms_count(index[i].forms) == index_count(index)
            + forms_count(bucket.forms),
    decreases index.len(),
{
    let updated = index.update(i, bucket);
    if i == index.len() - 1 {
        assert(updated.drop_last() =~= index.drop_last());
    } else {
        lemma_index_count_update(index.drop_last(), i, bucket);
        assert(updated.drop_last() =~= index.drop_last().update(i, bucket));
    }
}

/// The count of one lemma bucket is at most the count of the whole index.
pub proof fn lemma_index_count_bounds_bucket(index: Seq<LemmaModel>, i: int)
    requires
        0 <= i < index.len(),
    ensures
        forms_count(index[i].forms) <= index_count(index),
    decreases index.len(),
{
    if i < index.len() - 1 {
        lemma_index_count_bounds_bucket(index.drop_last(), i);
    }
}

/// One more occurrence raises the count of the index by one.
pub proof fn lemma_index_with_count(
    index: Seq<LemmaModel>,
    lemma: Seq<char>,
    form: Seq<char>,
    pos: (usize, usize),
)
    ensures
        index_count(index_with(index, lemma, form, pos)) == index_count(index) + 1,
{
    lemma_key_position_from(lemma_keys(index), lemma, 0);
    match key_position(lemma_keys(index), lemma) {
        Some(i) => {
            lemma_forms_with_count(index[i].forms, form, pos);
            lemma_index_count_update(
                index,
                i,
                LemmaModel { lemma, forms: forms_with(index[i].forms, form, pos) },
            );
        },
        None => {
            let bucket = FormModel { form, occurrences: seq![pos] };
            lemma_forms_count_push(Seq::empty(), bucket);
            assert(seq![bucket] =~= Seq::<FormModel>::empty().push(bucket));
            lemma_index_count_push(index, LemmaModel { lemma, forms: seq![bucket] });
        },
    }
}

/// One more occurrence keeps the index well formed.
pub proof fn lemma_index_with_wf(
    index: Seq<LemmaModel>,
    lemma: Seq<char>,
    form: Seq<char>,
    pos: (usize, usize),
)
    requires
        index_wf(index),
    ensures
        index_wf(index_with(index, lemma, form, pos)),
{
    let keys = lemma_keys(index);
    let after = index_with(index, lemma, form, pos);
    lemma_key_position_from(keys, lemma, 0);
    match key_position(keys, lemma) {
        Some(i) => {
            lemma_forms_with_wf(index[i].forms, form, pos);
            assert(lemma_keys(after) =~= keys);
        },
        None => {
            let bucket = FormModel { form, occurrences: seq![pos] };
            assert(form_keys(seq![bucket]) =~= seq![form]);
            assert(lemma_keys(after) =~= keys.push(lemma));
        },
    }
}

/// Something that holds occurrences and can count them.
pub trait WordCount {
    /// The number of occurrences held.
    spec fn spec_word_count(&self) -> nat;

    /// Counts the occurrences held, from the current content.
    fn word_count(&self) -> (count: usize)
        requires
            self.spec_word_count() <= usize::MAX,
        ensures
            count == self.spec_word_count(),
    ;
}

/// One form bucket.
pub struct FormEntry {
    form: String,
    occurrences: Vec<(usize, usize)>,
}

impl View for FormEntry {
    type V = FormModel;

    closed spec fn view(&self) -> FormModel {
        FormModel { form: self.form@, occurrences: self.occurrences@ }
    }
}

/// The forms of one lemma, each with its occurrences.
pub struct FormMap {
    entries: Vec<FormEntry>,
}

impl View for FormMap {
    type V = Seq<FormModel>;

    closed spec fn view(&self) -> Seq<FormModel> {
        Seq::new(self.entries@.len(), |i: int| self.entries@[i]@)
    }
}

impl FormMap {
    /// Whether the buckets are as the builder leaves them.
    pub open spec fn wf(&self) -> bool {
        forms_wf(self@)
    }

    /// Form buckets of a lemma that has not occurred yet.
    pub fn new() -> (forms: FormMap)
        ensures
            forms@ == Seq::<FormModel>::empty(),
            forms.wf(),
    {
        let forms = FormMap { entries: Vec::new() };
        assert(forms@ =~= Seq::<FormModel>::empty());
        forms
    }

    /// The number of distinct forms.
    pub fn len(&self) -> (n: usize)
        ensures
            n == self@.len(),
    {
        self.entries.len()
    }

    /// Every bucket holds a number of occurrences that fits a `usize`.
    pub proof fn lemma_occurrences_fit(&self)
        ensures
            forall|i: int|
                0 <= i < self@.len() ==> (#[trigger] self@[i]).occurrences.len() <= usize::MAX,
    {
        assert forall|i: int| 0 <= i < self@.len() implies (#[trigger] self@[i]).occurrences.len()
            <= usize::MAX by {
            assert(self@[i].occurrences.len() == self.entries@[i].occurrences.len());
        }
    }

    /// The form of bucket `i`.
    pub fn form(&self, i: usize) -> (form: &str)
        requires
            i < self@.len(),
        ensures
            form@ == self@[i as int].form,
    {
        self.entries[i].form.as_str()
    }

    /// The occurrences in bucket `i`, in scan order.
    pub fn occurrences(&self, i: usize) -> (occurrences: &Vec<(usize, usize)>)
        requires
            i < self@.len(),
        ensures
            occurrences@ == self@[i as int].occurrences,
    {
        &self.entries[i].occurrences
    }

    /// The bucket of `form`, if there is one.
    pub fn position(&self, form: &str) -> (found: Option<usize>)
        ensures
            match found {
                Some(i) => key_position(form_keys(self@), form@) == Some(i as int),
                None => key_position(form_keys(self@), form@) is None,
            },
    {
        let ghost keys = form_keys(self@);
        let mut i: usize = 0;
        while i < self.entries.len()
            invariant
                i <= self.entries.len(),
                keys == form_keys(self@),
                key_position(keys, form@) == key_position_from(keys, form@, i as int),
            decreases self.entries.len() - i,
        {
            if same_text(self.entries[i].form.as_str(), form) {
                return Some(i);
            }
            i += 1;
        }
        None
    }

    /// The occurrences of `form`, if it is among the forms.
    pub fn get(&self, form: &str) -> (found: Option<&Vec<(usize, usize)>>)
        ensures
            match found {
                Some(occurrences) => key_position(form_keys(self@), form@) is Some
                    && occurrences@ == self@[key_position(
                    form_keys(self@),
                    form@,
                )->0].occurrences,
                None => key_position(form_keys(self@), form@) is None,
            },
    {
        proof {
            lemma_key_position_from(form_keys(self@), form@, 0);
        }
        match self.position(form) {
            Some(i) => Some(&self.entries[i].occurrences),
            None => None,
        }
    }

    /// Records one more occurrence of `form` at `pos`: in the bucket of the
    /// form if there is one, else in a new bucket behind the others.
    pub fn add(&mut self, form: String, pos: (usize, usize))
        ensures
            final(self)@ == forms_with(old(self)@, form@, pos),
            old(self).wf() ==> final(self).wf(),
    {
        proof {
            lemma_key_position_from(form_keys(self@), form@, 0);
            if self.wf() {
                lemma_forms_with_wf(self@, form@, pos);
            }
        }
        match self.position(form.as_str()) {
            Some(i) => {
                self.entries[i].occurrences.push(pos);
            },
            None => {
                let mut occurrences: Vec<(usize, usize)> = Vec::new();
                occurrences.push(pos);
                self.entries.push(FormEntry { form, occurrences });
            },
        }
        assert(self@ =~= forms_with(old(self)@, form@, pos));
    }
}

impl WordCount for FormMap {
    open spec fn spec_word_count(&self) -> nat {
        forms_count(self@)
    }

    fn word_count(&self) -> (count: usize) {
        let mut count: usize = 0;
        let mut i: usize = 0;
        while i < self.entries.len()
            invariant
                i <= self.entries.len(),
                count == forms_count(self@.take(i as int)),
                forms_count(self@) <= usize::MAX,
            decreases self.entries.len() - i,
        {
            proof {
                assert(self@.take(i + 1).drop_last() =~= self@.take(i as int));
                lemma_forms_count_prefix(self@, i + 1);
            }
            count = count + self.entries[i].occurrences.len();
            i += 1;
        }
        assert(self@.take(i as int) =~= self@);
        count
    }
}

/// A prefix of the buckets holds no more occurrences than all of them.
pub proof fn lemma_forms_count_prefix(forms: Seq<FormModel>, n: int)
    requires
        0 <= n <= forms.len(),
    ensures
        forms_count(forms.take(n)) <= forms_count(forms),
    decreases forms.len() - n,
{
    if n < forms.len() {
        lemma_forms_count_prefix(forms, n + 1);
        assert(forms.take(n + 1).drop_last() =~= forms.take(n));
    } else {
        assert(forms.take(n) =~= forms);
    }
}

/// One lemma bucket.
pub struct LemmaEntry {
    lemma: String,
    forms: FormMap,
}

impl View for LemmaEntry {
    type V = LemmaModel;

    closed spec fn view(&self) -> LemmaModel {
        LemmaModel { lemma: self.lemma@, forms: self.forms@ }
    }
}

/// The frequency index: every lemma with its forms and their occurrences.
pub struct LemmaMap {
    entries: Vec<LemmaEntry>,
}

impl View for LemmaMap {
    type V = Seq<LemmaModel>;

    closed spec fn view(&self) -> Seq<LemmaModel> {
        Seq::new(self.entries@.len(), |i: int| self.entries@[i]@)
    }
}

impl LemmaMap {
    /// Whether the index is as the builder leaves it.
    pub open spec fn wf(&self) -> bool {
        index_wf(self@)
    }

    /// The index of the empty corpus.
    pub fn new() -> (index: LemmaMap)
        ensures
            index@ == Seq::<LemmaModel>::empty(),
            index.wf(),
    {
        let index = LemmaMap { entries: Vec::new() };
        assert(index@ =~= Seq::<LemmaModel>::empty());
        assert(lemma_keys(index@) =~= Seq::<Seq<char>>::empty());
        index
    }

    /// The number of distinct lemmas.
    pub fn len(&self) -> (n: usize)
        ensures
            n == self@.len(),
    {
        self.entries.len()
    }

    /// The number of lemmas, and of the forms of each lemma, fits a `usize`.
    pub proof fn lemma_buckets_fit(&self)
        ensures
            self@.len() <= usize::MAX,
            forall|i: int| 0 <= i < self@.len() ==> (#[trigger] self@[i]).forms.len() <= usize::MAX,
    {
        assert(self@.len() == self.entries.len());
        assert forall|i: int| 0 <= i < self@.len() implies (#[trigger] self@[i]).forms.len()
            <= usize::MAX by {
            assert(self@[i].forms.len() == self.entries@[i].forms.entries.len());
        }
    }

    /// The lemma of bucket `i`.
    pub fn lemma(&self, i: usize) -> (lemma: &str)
        requires
            i < self@.len(),
        ensures
            lemma@ == self@[i as int].lemma,
    {
        self.entries[i].lemma.as_str()
    }

    /// The forms in bucket `i`.
    pub fn forms(&self, i: usize) -> (forms: &FormMap)
        requires
            i < self@.len(),
        ensures
            forms@ == self@[i as int].forms,
    {
        &self.entries[i].forms
    }

    /// The bucket of `lemma`, if there is one.
    pub fn position(&self, lemma: &str) -> (found: Option<usize>)
        ensures
            match found {
                Some(i) => key_position(lemma_keys(self@), lemma@) == Some(i as int),
                None => key_position(lemma_keys(self@), lemma@) is None,
            },
    {
        let ghost keys = lemma_keys(self@);
        let mut i: usize = 0;
        while i < self.entries.len()
            invariant
                i <= self.entries.len(),
                keys == lemma_keys(self@),
                key_position(keys, lemma@) == key_position_from(keys, lemma@, i as int),
            decreases self.entries.len() - i,
        {
            if same_text(self.entries[i].lemma.as_str(), lemma) {
                return Some(i);
            }
            i += 1;
        }
        None
    }

    /// The forms of `lemma`, if it is in the index.
    pub fn get(&self, lemma: &str) -> (found: Option<&FormMap>)
        ensures
            match found {
                Some(forms) => key_position(lemma_keys(self@), lemma@) is Some && forms@
                    == self@[key_position(lemma_keys(self@), lemma@)->0].forms,
                None => key_position(lemma_keys(self@), lemma@) is None,
            },
    {
        proof {
            lemma_key_position_from(lemma_keys(self@), lemma@, 0);
        }
        match self.position(lemma) {
            Some(i) => Some(&self.entries[i].forms),
            None => None,
        }
    }

    /// Records one more occurrence of `form` under `lemma` at `pos`. Buckets
    /// that exist grow; a lemma or a form that is new gets a bucket behind
    /// the others. Both keys are taken as they are.
    pub fn insert_occurrence(&mut self, lemma: String, form: String, pos: (usize, usize))
        ensures
            final(self)@ == index_with(old(self)@, lemma@, form@, pos),
            old(self).wf() ==> final(self).wf(),
            index_count(final(self)@) == index_count(old(self)@) + 1,
    {
        proof {
            lemma_key_position_from(lemma_keys(self@), lemma@, 0);
            lemma_index_with_count(self@, lemma@, form@, pos);
            if self.wf() {
                lemma_index_with_wf(self@, lemma@, form@, pos);
            }
        }
        match self.position(lemma.as_str()) {
            Some(i) => {
                self.entries[i].forms.add(form, pos);
            },
            None => {
                let mut forms = FormMap::new();
                forms.add(form, pos);
                assert(forms@ =~= seq![FormModel { form: form@, occurrences: seq![pos] }]);
                self.entries.push(LemmaEntry { lemma, forms });
            },
        }
        assert(self@ =~= index_with(old(self)@, lemma@, form@, pos));
    }
}

impl WordCount for LemmaMap {
    open spec fn spec_word_count(&self) -> nat {
        index_count(self@)
    }

    fn word_count(&self) -> (count: usize) {
        let mut count: usize = 0;
        let mut i: usize = 0;
        while i < self.entries.len()
            invariant
                i <= self.entries.len(),
                count == index_count(self@.take(i as int)),
                index_count(self@) <= usize::MAX,
            decreases self.entries.len() - i,
        {
            proof {
                assert(self@.take(i + 1).drop_last() =~= self@.take(i as int));
                lemma_index_count_prefix(self@, i + 1);
            }
            count = count + self.entries[i].forms.word_count();
            i += 1;
        }
        assert(self@.take(i as int) =~= self@);
        count
    }
}

/// A prefix of the lemma buckets holds no more occurrences than all of them.
pub proof fn lemma_index_count_prefix(index: Seq<LemmaModel>, n: int)
    requires
        0 <= n <= index.len(),
    ensures
        index_count(index.take(n)) <= index_count(index),
    decreases index.len() - n,
{
    if n < index.len() {
        lemma_index_count_prefix(index, n + 1);
        assert(index.take(n + 1).drop_last() =~= index.take(n));
    } else {
        assert(index.take(n) =~= index);
    }
}

} // verus!
