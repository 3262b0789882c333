//! The ranked listing of a corpus: every lemma with its word count and the
//! count of all lemmas down to it, and under each lemma its forms, each with
//! the first sentence that shows it.

use crate::builder::{
    forms_sound, index_sound, lemma_built_index_counts_words, lemma_built_index_sound,
    lemma_built_index_wf, occurrence_sound,
};
use crate::context::{bolded_text, get_sentence_bolded};
use crate::index::{
    index_count, lemma_index_count_bounds_bucket, FormMap, FormModel, LemmaModel, WordCount,
};
use crate::lemmatizer::Lemmatizer;
use crate::rank::{
    form_counts, is_permutation, lemma_counts, lemma_ranked_position, lemma_ranking_properties,
    rank_forms, rank_lemmas, ranked_position, ranking,
};
use crate::token::{Token, TokenModel};
use vstd::prelude::*;

verus! {

/// The content of a [`FormLine`].
pub struct FormLineModel {
    pub form: Seq<char>,
    pub count: usize,
    pub example: Seq<char>,
}

/// The content of a [`LemmaLine`].
pub struct LemmaLineModel {
    pub lemma: Seq<char>,
    pub count: usize,
    pub running: usize,
    pub forms: Seq<FormLineModel>,
}

/// One form in the listing: how often it occurs, and the sentence of its
/// first occurrence with the occurrence highlighted.
#[derive(Debug)]
pub struct FormLine {
    pub form: String,
    pub count: usize,
    pub example: String,
}

/// One lemma in the listing: how often it occurs, how often the lemmas down
/// to this one occur together, and its forms by rank.
#[derive(Debug)]
pub struct LemmaLine {
    pub lemma: String,
    pub count: usize,
    pub running: usize,
    pub forms: Vec<FormLine>,
}

impl View for FormLine {
    type V = FormLineModel;

    open spec fn view(&self) -> FormLineModel {
        FormLineModel { form: self.form@, count: self.count, example: self.example@ }
    }
}

impl DeepView for FormLine {
    type V = FormLineModel;

    open spec fn deep_view(&self) -> FormLineModel {
        self@
    }
}

impl View for LemmaLine {
    type V = LemmaLineModel;

    open spec fn view(&self) -> LemmaLineModel {
        LemmaLineModel {
            lemma: self.lemma@,
            count: self.count,
            running: self.running,
            forms: self.forms.deep_view(),
        }
    }
}

impl DeepView for LemmaLine {
    type V = LemmaLineModel;

    open spec fn deep_view(&self) -> LemmaLineModel {
        self@
    }
}

/// The sum of all counts.
pub open spec fn count_total(counts: Seq<usize>) -> int
    decreases counts.len(),
{
    if counts.len() == 0 {
        0
    } else {
        count_total(counts.drop_last()) + counts.last()
    }
}

/// The sum of the counts of the first `upto` buckets of a ranking.
pub open spec fn running_count(counts: Seq<usize>, order: Seq<usize>, upto: int) -> int
    decreases upto,
{
    if upto <= 0 {
        0
    } else {
        running_count(counts, order, upto - 1) + counts[order[upto - 1] as int]
    }
}

/// The line of form bucket `j`.
pub open spec fn form_line_of(
    corpus: Seq<Seq<TokenModel>>,
    forms: Seq<FormModel>,
    j: int,
) -> FormLineModel {
    let first = forms[j].occurrences[0];
    FormLineModel {
        form: forms[j].form,
        count: forms[j].occurrences.len() as usize,
        example: bolded_text(corpus[first.0 as int], first.1 as int),
    }
}

/// The lines of the forms of a lemma, by rank.
pub open spec fn form_lines_of(corpus: Seq<Seq<TokenModel>>, forms: Seq<FormModel>) -> Seq<
    FormLineModel,
> {
    Seq::new(
        forms.len(),
        |m: int| form_line_of(corpus, forms, ranking(form_counts(forms))[m] as int),
    )
}

/// The line of the lemma of rank `k`.
pub open spec fn lemma_line_of(
    corpus: Seq<Seq<TokenModel>>,
    index: Seq<LemmaModel>,
    k: int,
) -> LemmaLineModel {
    let counts = lemma_counts(index);
    let order = ranking(counts);
    let b = order[k] as int;
    LemmaLineModel {
        lemma: index[b].lemma,
        count: counts[b],
        running: running_count(counts, order, k + 1) as usize,
        forms: form_lines_of(corpus, index[b].forms),
    }
}

/// The listing of a corpus and its index: the lines of all lemmas, by rank.
pub open spec fn listing_of(corpus: Seq<Seq<TokenModel>>, index: Seq<LemmaModel>) -> Seq<
    LemmaLineModel,
> {
    Seq::new(index.len(), |k: int| lemma_line_of(corpus, index, k))
}

/// The running count grows along the ranking.
pub proof fn lemma_running_count_grows(counts: Seq<usize>, order: Seq<usize>, k: int, n: int)
    requires
        k <= n,
    ensures
        0 <= running_count(counts, order, k) <= running_count(counts, order, n),
    decreases n,
{
    if n > 0 {
        if k < n {
            lemma_running_count_grows(counts, order, k, n - 1);
        } else {
            lemma_running_count_grows(counts, order, k - 1, n - 1);
        }
    }
}

/// The running count reads only the buckets that the ranking lists.
pub proof fn lemma_running_count_agree(
    first: Seq<usize>,
    second: Seq<usize>,
    order: Seq<usize>,
    upto: int,
)
    requires
        upto <= order.len(),
        forall|k: int|
            0 <= k < upto ==> first[#[trigger] order[k] as int] == second[order[k] as int],
    ensures
        running_count(first, order, upto) == running_count(second, order, upto),
    decreases upto,
{
    if upto > 0 {
        lemma_running_count_agree(first, second, order, upto - 1);
    }
}

/// A bucket entered into a ranking adds its count to the running count of
/// the whole ranking.
pub proof fn lemma_running_count_insert(
    counts: Seq<usize>,
    order: Seq<usize>,
    at: int,
    bucket: usize,
)
    requires
        0 <= at <= order.len(),
    ensures
        running_count(counts, order.insert(at, bucket), order.len() as int + 1) == running_count(
            counts,
            order,
            order.len() as int,
        ) + counts[bucket as int],
    decreases order.len() - at,
{
    let longer = order.insert(at, bucket);
    let n = order.len() as int;
    if at == n {
        lemma_running_count_agree_orders(counts, longer, order, n);
    } else {
        lemma_running_count_insert(counts, order.drop_last(), at, bucket);
        assert(order.drop_last().insert(at, bucket) =~= longer.drop_last());
        lemma_running_count_agree_orders(counts, longer, longer.drop_last(), n);
        lemma_running_count_agree_orders(counts, order, order.drop_last(), n - 1);
        assert(longer[n] == order[n - 1]);
    }
}

/// The running count reads only the part of the ranking that it covers.
pub proof fn lemma_running_count_agree_orders(
    counts: Seq<usize>,
    first: Seq<usize>,
    second: Seq<usize>,
    upto: int,
)
    requires
        upto <= first.len(),
        upto <= second.len(),
        forall|k: int| 0 <= k < upto ==> first[k] == second[k],
    ensures
        running_count(counts, first, upto) == running_count(counts, second, upto),
    decreases upto,
{
    if upto > 0 {
        lemma_running_count_agree_orders(counts, first, second, upto - 1);
    }
}

/// The running count of a whole ranking is the sum of all counts.
pub proof fn lemma_running_count_total(counts: Seq<usize>)
    requires
        counts.len() <= usize::MAX,
    ensures
        running_count(counts, ranking(counts), counts.len() as int) == count_total(counts),
    decreases counts.len(),
{
    if counts.len() > 0 {
        let shorter = counts.drop_last();
        let rest = ranking(shorter);
        let at = ranked_position(rest, counts, counts.last());
        let last = (counts.len() - 1) as usize;
        lemma_running_count_total(shorter);
        lemma_ranking_properties(shorter);
        lemma_ranked_position(rest, counts, counts.last());
        lemma_running_count_insert(counts, rest, at, last);
        assert forall|k: int| 0 <= k < rest.len() implies counts[#[trigger] rest[k] as int]
            == shorter[rest[k] as int] by {}
        lemma_running_count_agree(counts, shorter, rest, rest.len() as int);
    }
}

/// The word counts of the lemmas add up to the word count of the index.
pub proof fn lemma_lemma_counts_total(index: Seq<LemmaModel>)
    requires
        index_count(index) <= usize::MAX,
    ensures
        count_total(lemma_counts(index)) == index_count(index),
    decreases index.len(),
{
    if index.len() > 0 {
        lemma_index_count_bounds_bucket(index, index.len() - 1);
        lemma_lemma_counts_total(index.drop_last());
        assert(lemma_counts(index).drop_last() =~= lemma_counts(index.drop_last()));
    }
}

/// The lines of the forms of one lemma, by rank.
fn form_lines(
    token_array: &Vec<Vec<Token>>,
    forms: &FormMap,
    Ghost(lemma): Ghost<Seq<char>>,
) -> (lines: Vec<FormLine>)
    requires
        forms.wf(),
        forms_sound(forms@, token_array.deep_view(), lemma),
    ensures
        lines.deep_view() == form_lines_of(token_array.deep_view(), forms@),
{
    let ghost corpus = token_array.deep_view();
    let ghost all = form_lines_of(corpus, forms@);
    let order = rank_forms(forms);
    let mut lines: Vec<FormLine> = Vec::new();
    let mut m: usize = 0;
    while m < order.len()
        invariant
            m <= order.len(),
            corpus == token_array.deep_view(),
            all == form_lines_of(corpus, forms@),
            order@ == ranking(form_counts(forms@)),
            is_permutation(order@, forms@.len()),
            forms.wf(),
            forms_sound(forms@, corpus, lemma),
            lines.deep_view() == all.take(m as int),
        decreases order.len() - m,
    {
        let j = order[m];
        let occurrences = forms.occurrences(j);
        assert(forms@[j as int].occurrences.len() > 0);
        let (sentence_i, token_i) = occurrences[0];
        assert(occurrence_sound(
            corpus,
            lemma,
            forms@[j as int].form,
            forms@[j as int].occurrences[0],
        ));
        let ghost before = lines.deep_view();
        let line = FormLine {
            form: forms.form(j).to_owned(),
            count: occurrences.len(),
            example: get_sentence_bolded(token_array, sentence_i, token_i),
        };
        lines.push(line);
        assert(lines.deep_view() =~= before.push(all[m as int]));
        assert(lines.deep_view() =~= all.take(m + 1));
        m += 1;
    }
    assert(lines.deep_view() =~= all);
    lines
}

/// Lists the lemmas of a corpus by rank. Each lemma comes with its word
/// count, with the word count of all lemmas down to it, and with its forms by
/// rank; each form comes with the number of its occurrences and with the
/// sentence of its first occurrence, the occurrence highlighted.
pub fn listing(lemmatizer: &Lemmatizer) -> (lines: Vec<LemmaLine>)
    requires
        lemmatizer.wf(),
    ensures
        lines.deep_view() == listing_of(lemmatizer.corpus(), lemmatizer.index()),
{
    let token_array = lemmatizer.tokens();
    let index = lemmatizer.lemma_map();
    let ghost corpus = lemmatizer.corpus();
    let ghost counts = lemma_counts(index@);
    let ghost all = listing_of(corpus, index@);
    proof {
        lemma_built_index_counts_words(corpus);
        lemma_built_index_wf(corpus);
        lemma_built_index_sound(corpus);
        index.lemma_buckets_fit();
        lemma_running_count_total(counts);
        lemma_lemma_counts_total(index@);
    }
    let order = rank_lemmas(index);
    let mut lines: Vec<LemmaLine> = Vec::new();
    let mut running: usize = 0;
    let mut k: usize = 0;
    while k < order.len()
        invariant
            k <= order.len(),
            corpus == token_array.deep_view(),
            counts == lemma_counts(index@),
            all == listing_of(corpus, index@),
            order@ == ranking(counts),
            is_permutation(order@, index@.len()),
            index.wf(),
            index_sound(index@, corpus),
            index_count(index@) <= usize::MAX,
            running_count(counts, order@, order@.len() as int) == index_count(index@),
            running == running_count(counts, order@, k as int),
            lines.deep_view() == all.take(k as int),
        decreases order.len() - k,
    {
        let b = order[k];
        let forms = index.forms(b);
        proof {
            lemma_index_count_bounds_bucket(index@, b as int);
            lemma_running_count_grows(counts, order@, k + 1, order@.len() as int);
        }
        let count = forms.word_count();
        running = running + count;
        let ghost before = lines.deep_view();
        let line = LemmaLine {
            lemma: index.lemma(b).to_owned(),
            count,
            running,
            forms: form_lines(token_array, forms, Ghost(index@[b as int].lemma)),
        };
        lines.push(line);
        assert(lines.deep_view() =~= before.push(all[k as int]));
        assert(lines.deep_view() =~= all.take(k + 1));
        k += 1;
    }
    assert(lines.deep_view() =~= all);
    lines
}

} // verus!
