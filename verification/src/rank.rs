//! Ranking buckets by how often they occur.
//!
//! A ranking lists the positions of the buckets, the most frequent first.
//! Buckets that occur equally often keep the order in which they stand in
//! the index, which is the order in which the corpus first showed them.

use crate::index::{
    forms_count, lemma_index_count_bounds_bucket, FormMap, FormModel, LemmaMap, LemmaModel,
    WordCount,
};
use vstd::prelude::*;

verus! {

/// Where a bucket that occurs `count` times enters a ranking: behind the last
/// bucket that occurs at least as often.
pub open spec fn ranked_position(order: Seq<usize>, counts: Seq<usize>, count: usize) -> int
    decreases order.len(),
{
    if order.len() == 0 {
        0
    } else if counts[order.last() as int] >= count {
        order.len() as int
    } else {
        ranked_position(order.drop_last(), counts, count)
    }
}

/// The ranking of the buckets whose counts are `counts`: the ranking of all
/// but the last, with the last entered at its place.
pub open spec fn ranking(counts: Seq<usize>) -> Seq<usize>
    decreases counts.len(),
{
    if counts.len() == 0 {
        Seq::empty()
    } else {
        let rest = ranking(counts.drop_last());
        rest.insert(ranked_position(rest, counts, counts.last()), (counts.len() - 1) as usize)
    }
}

/// How often each form occurs.
pub open spec fn form_counts(forms: Seq<FormModel>) -> Seq<usize> {
    Seq::new(forms.len(), |i: int| forms[i].occurrences.len() as usize)
}

/// How often each lemma occurs, over all its forms.
pub open spec fn lemma_counts(index: Seq<LemmaModel>) -> Seq<usize> {
    Seq::new(index.len(), |i: int| forms_count(index[i].forms) as usize)
}

/// Whether `order` lists each of the positions `0..n` once.
pub open spec fn is_permutation(order: Seq<usize>, n: nat) -> bool {
    &&& order.len() == n
    &&& forall|k: int| 0 <= k < order.len() ==> (#[trigger] order[k]) < n
    &&& forall|k: int, l: int| 0 <= k < l < order.len() ==> order[k] != order[l]
}

/// Whether `order` lists every one of the positions `0..n`.
pub open spec fn lists_every(order: Seq<usize>, n: nat) -> bool {
    forall|b: usize| b < n ==> #[trigger] order.contains(b)
}

/// Whether the counts do not rise along `order`.
pub open spec fn is_descending(order: Seq<usize>, counts: Seq<usize>) -> bool {
    forall|k: int, l: int|
        0 <= k < l < order.len() ==> counts[#[trigger] order[k] as int]
            >= counts[#[trigger] order[l] as int]
}

/// Whether buckets with equal counts stand in `order` as they stand in the
/// index.
pub open spec fn is_stable(order: Seq<usize>, counts: Seq<usize>) -> bool {
    forall|k: int, l: int|
        0 <= k < l < order.len() && counts[#[trigger] order[k] as int]
            == counts[#[trigger] order[l] as int] ==> order[k] < order[l]
}

/// The place at which a bucket enters lies within the ranking; all before it
/// count at least as much, all from it on count less.
pub proof fn lemma_ranked_position(order: Seq<usize>, counts: Seq<usize>, count: usize)
    ensures
        0 <= ranked_position(order, counts, count) <= order.len(),
        ranked_position(order, counts, count) > 0 ==> counts[order[ranked_position(
            order,
            counts,
            count,
        ) - 1] as int] >= count,
        forall|k: int|
            ranked_position(order, counts, count) <= k < order.len()
                ==> counts[#[trigger] order[k] as int] < count,
    decreases order.len(),
{
    if order.len() > 0 && counts[order.last() as int] < count {
        lemma_ranked_position(order.drop_last(), counts, count);
        let p = ranked_position(order.drop_last(), counts, count);
        assert forall|k: int| p <= k < order.len() implies counts[#[trigger] order[k] as int]
            < count by {
            if k < order.len() - 1 {
                assert(order.drop_last()[k] == order[k]);
            }
        }
        if p > 0 {
            assert(order.drop_last()[p - 1] == order[p - 1]);
        }
    }
}

/// A ranking lists every bucket once, the counts never rise along it, and
/// buckets with equal counts keep their order.
pub proof fn lemma_ranking_properties(counts: Seq<usize>)
    requires
        counts.len() <= usize::MAX,
    ensures
        is_permutation(ranking(counts), counts.len()),
        is_descending(ranking(counts), counts),
        is_stable(ranking(counts), counts),
    decreases counts.len(),
{
    if counts.len() > 0 {
        let shorter = counts.drop_last();
        let rest = ranking(shorter);
        let last = (counts.len() - 1) as usize;
        let p = ranked_position(rest, counts, counts.last());
        let order = ranking(counts);
        lemma_ranking_properties(shorter);
        lemma_ranked_position(rest, counts, counts.last());
        assert(order == rest.insert(p, last));
        assert forall|k: int| 0 <= k < rest.len() implies shorter[#[trigger] rest[k] as int]
            == counts[rest[k] as int] by {}
        assert forall|k: int| 0 <= k < order.len() implies (#[trigger] order[k]) < counts.len() by {
            if k < p {
                assert(order[k] == rest[k]);
            } else if k > p {
                assert(order[k] == rest[k - 1]);
            }
        }
        assert forall|k: int, l: int| 0 <= k < l < order.len() implies order[k] != order[l]
            && counts[#[trigger] order[k] as int] >= counts[#[trigger] order[l] as int]
            && (counts[order[k] as int] == counts[order[l] as int] ==> order[k] < order[l]) by {
            if l < p {
                assert(order[k] == rest[k] && order[l] == rest[l]);
            } else if l == p {
                assert(order[k] == rest[k]);
                assert(counts[rest[p - 1] as int] >= counts.last());
                if k < p - 1 {
                    assert(counts[rest[k] as int] >= counts[rest[p - 1] as int]);
                }
            } else if k < p {
                assert(order[k] == rest[k] && order[l] == rest[l - 1]);
            } else if k == p {
                assert(order[l] == rest[l - 1]);
            } else {
                assert(order[k] == rest[k - 1] && order[l] == rest[l - 1]);
            }
        }
    }
}

/// A ranking leaves no bucket out.
pub proof fn lemma_ranking_lists_every(counts: Seq<usize>)
    requires
        counts.len() <= usize::MAX,
    ensures
        lists_every(ranking(counts), counts.len()),
    decreases counts.len(),
{
    if counts.len() > 0 {
        let rest = ranking(counts.drop_last());
        let order = ranking(counts);
        let p = ranked_position(rest, counts, counts.last());
        lemma_ranking_lists_every(counts.drop_last());
        lemma_ranked_position(rest, counts, counts.last());
        assert forall|b: usize| b < counts.len() implies #[trigger] order.contains(b) by {
            if b == counts.len() - 1 {
                assert(order[p] == b);
            } else {
                assert(rest.contains(b));
                let k = choose|k: int| 0 <= k < rest.len() && rest[k] == b;
                if k < p {
                    assert(order[k] == b);
                } else {
                    assert(order[k + 1] == b);
                }
            }
        }
    }
}

/// Only one place lets a bucket enter a ranking so that all before it count
/// at least as much and all from it on count less.
pub proof fn lemma_ranked_position_unique(
    order: Seq<usize>,
    counts: Seq<usize>,
    count: usize,
    at: int,
)
    requires
        0 <= at <= order.len(),
        forall|k: int| 0 <= k < at ==> counts[#[trigger] order[k] as int] >= count,
        forall|k: int| at <= k < order.len() ==> counts[#[trigger] order[k] as int] < count,
    ensures
        ranked_position(order, counts, count) == at,
    decreases order.len(),
{
    if order.len() > 0 {
        let end = order.len() - 1;
        let shorter = order.drop_last();
        assert(order.last() == order[end]);
        if counts[order.last() as int] < count {
            if at > end {
                assert(counts[order[end] as int] >= count);
            }
            assert forall|k: int| 0 <= k < shorter.len() implies #[trigger] shorter[k]
                == order[k] by {}
            lemma_ranked_position_unique(shorter, counts, count, at);
        } else if at <= end {
            assert(counts[order[end] as int] < count);
        }
    }
}

/// The ranking is the only order that lists every bucket once, along which
/// the counts never rise, and in which buckets with equal counts keep their
/// order.
pub proof fn lemma_ranking_unique(order: Seq<usize>, counts: Seq<usize>)
    requires
        counts.len() <= usize::MAX,
        is_permutation(order, counts.len()),
        lists_every(order, counts.len()),
        is_descending(order, counts),
        is_stable(order, counts),
    ensures
        order == ranking(counts),
    decreases counts.len(),
{
    if counts.len() == 0 {
        assert(order =~= ranking(counts));
    } else {
        let n = counts.len() as int;
        let last = (n - 1) as usize;
        let shorter = counts.drop_last();
        assert(order.contains(last));
        let at = choose|k: int| 0 <= k < order.len() && order[k] == last;
        let rest = order.remove(at);
        assert forall|k: int| 0 <= k < rest.len() implies (#[trigger] rest[k]) < n - 1 by {
            if k < at {
                assert(rest[k] == order[k]);
            } else {
                assert(rest[k] == order[k + 1]);
            }
        }
        assert forall|k: int, l: int| 0 <= k < l < rest.len() implies rest[k] != rest[l]
            && shorter[#[trigger] rest[k] as int] >= shorter[#[trigger] rest[l] as int]
            && (shorter[rest[k] as int] == shorter[rest[l] as int] ==> rest[k] < rest[l]) by {
            let k0 = if k < at {
                k
            } else {
                k + 1
            };
            let l0 = if l < at {
                l
            } else {
                l + 1
            };
            assert(rest[k] == order[k0] && rest[l] == order[l0]);
            assert(rest[k] < n - 1 && rest[l] < n - 1);
        }
        assert forall|b: usize| b < n - 1 implies #[trigger] rest.contains(b) by {
            assert(order.contains(b));
            let k = choose|k: int| 0 <= k < order.len() && order[k] == b;
            if k < at {
                assert(rest[k] == b);
            } else {
                assert(rest[k - 1] == b);
            }
        }
        lemma_ranking_unique(rest, shorter);
        assert forall|k: int| 0 <= k < at implies counts[#[trigger] rest[k] as int]
            >= counts.last() by {
            assert(rest[k] == order[k]);
            assert(counts[order[k] as int] >= counts[order[at] as int]);
        }
        assert forall|k: int| at <= k < rest.len() implies counts[#[trigger] rest[k] as int]
            < counts.last() by {
            assert(rest[k] == order[k + 1]);
            assert(counts[order[at] as int] >= counts[order[k + 1] as int]);
            if counts[order[at] as int] == counts[order[k + 1] as int] {
                assert(order[at] < order[k + 1]);
            }
        }
        lemma_ranked_position_unique(rest, counts, counts.last(), at);
        assert(order =~= rest.insert(at, last));
    }
}

/// Ranks buckets by their counts: the positions `0..counts.len()`, the
/// greatest count first, equal counts in the order of their positions.
pub fn rank_counts(counts: &Vec<usize>) -> (order: Vec<usize>)
    ensures
        order@ == ranking(counts@),
        is_permutation(order@, counts@.len()),
        lists_every(order@, counts@.len()),
        is_descending(order@, counts@),
        is_stable(order@, counts@),
{
    let mut order: Vec<usize> = Vec::new();
    let mut i: usize = 0;
    while i < counts.len()
        invariant
            i <= counts.len(),
            order@ == ranking(counts@.take(i as int)),
            is_permutation(order@, i as nat),
        decreases counts.len() - i,
    {
        let count = counts[i];
        let ghost prefix = counts@.take(i + 1);
        let mut p: usize = order.len();
        proof {
            assert(order@.take(p as int) =~= order@);
        }
        while p > 0 && counts[order[p - 1]] < count
            invariant
                p <= order.len(),
                i < counts.len(),
                is_permutation(order@, i as nat),
                prefix == counts@.take(i + 1),
                count == counts[i as int],
                ranked_position(order@, prefix, count) == ranked_position(
                    order@.take(p as int),
                    prefix,
                    count,
                ),
            decreases p,
        {
            proof {
                assert(order@.take(p as int).last() == order@[p - 1]);
                assert(order@.take(p as int).drop_last() =~= order@.take(p - 1));
            }
            p -= 1;
        }
        proof {
            if p > 0 {
                assert(order@.take(p as int).last() == order@[p - 1]);
            }
            assert(prefix.drop_last() =~= counts@.take(i as int));
            lemma_ranking_properties(prefix);
        }
        order.insert(p, i);
        i += 1;
    }
    proof {
        assert(counts@.take(i as int) =~= counts@);
        lemma_ranking_properties(counts@);
        lemma_ranking_lists_every(counts@);
    }
    order
}

/// Ranks the forms of a lemma by how often they occur, the most frequent
/// first. Forms that occur equally often keep the order in which the corpus
/// first showed them.
pub fn rank_forms(forms: &FormMap) -> (order: Vec<usize>)
    ensures
        order@ == ranking(form_counts(forms@)),
        is_permutation(order@, forms@.len()),
        forall|k: int, l: int|
            0 <= k < l < order@.len() ==> forms@[#[trigger] order@[k] as int].occurrences.len()
                >= forms@[#[trigger] order@[l] as int].occurrences.len(),
        is_stable(order@, form_counts(forms@)),
{
    let mut counts: Vec<usize> = Vec::new();
    let mut i: usize = 0;
    while i < forms.len()
        invariant
            i <= forms@.len(),
            counts@ == form_counts(forms@).take(i as int),
        decreases forms@.len() - i,
    {
        counts.push(forms.occurrences(i).len());
        assert(counts@ =~= form_counts(forms@).take(i + 1));
        i += 1;
    }
    assert(counts@ =~= form_counts(forms@));
    let order = rank_counts(&counts);
    assert forall|k: int, l: int| 0 <= k < l < order@.len() implies forms@[
    #[trigger] order@[k] as int].occurrences.len()
        >= forms@[#[trigger] order@[l] as int].occurrences.len() by {
        assert(counts@[order@[k] as int] >= counts@[order@[l] as int]);
        forms.lemma_occurrences_fit();
    }
    order
}

/// Ranks the lemmas of the index by how often they occur over all their
/// forms, the most frequent first. Lemmas that occur equally often keep the
/// order in which the corpus first showed them.
pub fn rank_lemmas(index: &LemmaMap) -> (order: Vec<usize>)
    requires
        index.spec_word_count() <= usize::MAX,
    ensures
        order@ == ranking(lemma_counts(index@)),
        is_permutation(order@, index@.len()),
        forall|k: int, l: int|
            0 <= k < l < order@.len() ==> forms_count(index@[#[trigger] order@[k] as int].forms)
                >= forms_count(index@[#[trigger] order@[l] as int].forms),
        is_stable(order@, lemma_counts(index@)),
{
    let mut counts: Vec<usize> = Vec::new();
    let mut i: usize = 0;
    while i < index.len()
        invariant
            i <= index@.len(),
            counts@ == lemma_counts(index@).take(i as int),
            index.spec_word_count() <= usize::MAX,
        decreases index@.len() - i,
    {
        proof {
            lemma_index_count_bounds_bucket(index@, i as int);
        }
        counts.push(index.forms(i).word_count());
        assert(counts@ =~= lemma_counts(index@).take(i + 1));
        i += 1;
    }
    assert(counts@ =~= lemma_counts(index@));
    let order = rank_counts(&counts);
    assert forall|k: int, l: int| 0 <= k < l < order@.len() implies forms_count(
        index@[#[trigger] order@[k] as int].forms,
    ) >= forms_count(index@[#[trigger] order@[l] as int].forms) by {
        assert(counts@[order@[k] as int] >= counts@[order@[l] as int]);
        lemma_index_count_bounds_bucket(index@, order@[k] as int);
        lemma_index_count_bounds_bucket(index@, order@[l] as int);
    }
    order
}

} // verus!
