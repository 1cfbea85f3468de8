//! Ranking a frequency table: entries by descending count, entries of equal
//! count in the order in which the table lists them.

use vstd::prelude::*;
use vstd::seq_lib::*;

use crate::model::{count_views, Token, WordCounts};

verus! {

/// Counts never rise along the sequence.
pub open spec fn is_descending(ranking: Seq<(Token, nat)>) -> bool {
    forall|i: int, j: int|
        0 <= i <= j < ranking.len() ==> (#[trigger] ranking[i]).1 >= (#[trigger] ranking[j]).1
}

/// Where an entry with the given count joins a ranking: behind every entry
/// that the walk from the end finds to have at least that count.
pub open spec fn rank_position(ranking: Seq<(Token, nat)>, count: nat) -> nat
    decreases ranking.len(),
{
    if ranking.len() == 0 || ranking.last().1 >= count {
        ranking.len()
    } else {
        rank_position(ranking.drop_last(), count)
    }
}

/// The ranking with one more entry, placed behind the entries of equal or
/// greater count.
pub open spec fn insert_ranked(ranking: Seq<(Token, nat)>, entry: (Token, nat)) -> Seq<
    (Token, nat),
> {
    ranking.insert(rank_position(ranking, entry.1) as int, entry)
}

/// The entries by descending count; entries of equal count keep the order
/// in which `entries` lists them.
pub open spec fn ranked(entries: Seq<(Token, nat)>) -> Seq<(Token, nat)>
    decreases entries.len(),
{
    if entries.len() == 0 {
        Seq::empty()
    } else {
        insert_ranked(ranked(entries.drop_last()), entries.last())
    }
}

/// The test whether an entry has the given count.
pub open spec fn has_count(count: nat) -> spec_fn((Token, nat)) -> bool {
    |entry: (Token, nat)| entry.1 == count
}

/// The entries of one count, in order.
pub open spec fn with_count(entries: Seq<(Token, nat)>, count: nat) -> Seq<(Token, nat)> {
    entries.filter(has_count(count))
}

/// The first `n` entries of a ranking, or all of them if there are fewer.
pub open spec fn leading(ranking: Seq<(Token, nat)>, n: nat) -> Seq<(Token, nat)> {
    if n <= ranking.len() {
        ranking.take(n as int)
    } else {
        ranking
    }
}

/// The position at which an entry joins a ranking lies behind nothing but
/// entries of smaller count, and directly behind one of equal or greater count.
pub proof fn lemma_rank_position(ranking: Seq<(Token, nat)>, count: nat)
    ensures
        rank_position(ranking, count) <= ranking.len(),
        forall|k: int|
            rank_position(ranking, count) <= k < ranking.len() ==> (#[trigger] ranking[k]).1
                < count,
        rank_position(ranking, count) > 0 ==> ranking[rank_position(ranking, count) - 1].1
            >= count,
        is_descending(ranking) ==> forall|k: int|
            0 <= k < rank_position(ranking, count) ==> (#[trigger] ranking[k]).1 >= count,
    decreases ranking.len(),
{
    if ranking.len() == 0 || ranking.last().1 >= count {
    } else {
        let init = ranking.drop_last();
        lemma_rank_position(init, count);
        assert forall|k: int| rank_position(ranking, count) <= k < ranking.len() implies (
        #[trigger] ranking[k]).1 < count by {
            if k < init.len() {
                assert(init[k].1 < count);
            }
        }
        if is_descending(ranking) {
            assert forall|i: int, j: int| 0 <= i <= j < init.len() implies (#[trigger] init[i]).1
                >= (#[trigger] init[j]).1 by {
                assert(ranking[i].1 >= ranking[j].1);
            }
            assert forall|k: int| 0 <= k < rank_position(ranking, count) implies (
            #[trigger] ranking[k]).1 >= count by {
                assert(init[k].1 >= count);
            }
        }
    }
}

/// In a descending ranking the position is fixed by its two neighbours.
pub proof fn lemma_rank_position_is(ranking: Seq<(Token, nat)>, count: nat, at: int)
    requires
        is_descending(ranking),
        0 <= at <= ranking.len(),
        at > 0 ==> ranking[at - 1].1 >= count,
        at < ranking.len() ==> ranking[at].1 < count,
    ensures
        rank_position(ranking, count) == at,
{
    lemma_rank_position(ranking, count);
    let position = rank_position(ranking, count) as int;
    if position < at {
        assert(ranking[position].1 < count);
        assert(ranking[position].1 >= ranking[at - 1].1);
    }
    if position > at {
        assert(ranking[at].1 >= count);
    }
}

/// Inserting an entry keeps a ranking descending.
pub proof fn lemma_insert_ranked_descending(ranking: Seq<(Token, nat)>, entry: (Token, nat))
    requires
        is_descending(ranking),
    ensures
        is_descending(insert_ranked(ranking, entry)),
{
    lemma_rank_position(ranking, entry.1);
    let at = rank_position(ranking, entry.1) as int;
    let longer = insert_ranked(ranking, entry);
    assert forall|i: int, j: int| 0 <= i <= j < longer.len() implies (#[trigger] longer[i]).1 >= (
    #[trigger] longer[j]).1 by {
        let a = if i < at { i } else { i - 1 };
        let b = if j < at { j } else { j - 1 };
        if i != at && j != at {
            assert(ranking[a].1 >= ranking[b].1);
        } else if i == at && j != at {
            assert(ranking[b].1 < entry.1);
        } else if j == at && i != at {
            assert(ranking[a].1 >= entry.1);
        }
    }
}

/// A ranking is descending, as long as its input, and holds the same entries
/// as often as its input does.
pub proof fn lemma_ranked_is_descending_permutation(entries: Seq<(Token, nat)>)
    ensures
        is_descending(ranked(entries)),
        ranked(entries).len() == entries.len(),
        ranked(entries).to_multiset() == entries.to_multiset(),
    decreases entries.len(),
{
    if entries.len() > 0 {
        let init = entries.drop_last();
        let last = entries.last();
        lemma_ranked_is_descending_permutation(init);
        lemma_insert_ranked_descending(ranked(init), last);
        lemma_rank_position(ranked(init), last.1);
        to_multiset_insert(ranked(init), rank_position(ranked(init), last.1) as int, last);
        assert(entries =~= init.push(last));
        to_multiset_build(init, last);
        assert(ranked(entries).to_multiset() =~= entries.to_multiset());
    } else {
        assert(entries =~= Seq::<(Token, nat)>::empty());
    }
}

/// Ranking is stable: among the entries of any one count, the ranking keeps
/// the order of its input.
pub proof fn lemma_ranked_is_stable(entries: Seq<(Token, nat)>, count: nat)
    ensures
        with_count(ranked(entries), count) == with_count(entries, count),
    decreases entries.len(),
{
    let same = has_count(count);
    reveal(Seq::filter);
    if entries.len() > 0 {
        let init = entries.drop_last();
        let last = entries.last();
        let before = ranked(init);
        let at = rank_position(before, last.1) as int;
        lemma_ranked_is_stable(init, count);
        lemma_ranked_is_descending_permutation(init);
        lemma_rank_position(before, last.1);
        let head = before.take(at);
        let tail = before.skip(at);
        assert(before =~= head + tail);
        assert(ranked(entries) =~= head.push(last) + tail);
        Seq::filter_distributes_over_add(head, tail, same);
        Seq::filter_distributes_over_add(head.push(last), tail, same);
        head.lemma_filter_push(last, same);
        init.lemma_filter_push(last, same);
        assert(entries =~= init.push(last));
        if same(last) {
            assert(tail.filter(same).len() == 0) by {
                if tail.filter(same).len() > 0 {
                    tail.lemma_filter_pred(same, 0);
                    let entry = tail.filter(same)[0];
                    assert(tail.filter(same).contains(entry));
                    tail.lemma_filter_contains_rev(same, entry);
                    let k = choose|k: int| 0 <= k < tail.len() && tail[k] == entry;
                    assert(before[at + k].1 < last.1);
                }
            }
            assert(tail.filter(same) =~= Seq::<(Token, nat)>::empty());
            assert(head.filter(same).push(last) + tail.filter(same) =~= (head.filter(same)
                + tail.filter(same)).push(last));
        }
    }
}

/// Two descending sequences that agree, for every count, on the entries of
/// that count and their order are the same sequence.
pub proof fn lemma_descending_stable_is_unique(one: Seq<(Token, nat)>, other: Seq<(Token, nat)>)
    requires
        is_descending(one),
        is_descending(other),
        forall|count: nat| with_count(one, count) == with_count(other, count),
    ensures
        one == other,
    decreases one.len(),
{
    if one.len() == 0 {
        if other.len() > 0 {
            let same = has_count(other[0].1);
            other.lemma_filter_contains(same, 0);
            assert(with_count(one, other[0].1).contains(other[0]));
            one.lemma_filter_contains_rev(same, other[0]);
        }
        assert(one =~= other);
    } else {
        let top = one[0].1;
        let same = has_count(top);
        one.lemma_filter_contains(same, 0);
        assert(with_count(other, top).contains(one[0]));
        other.lemma_filter_contains_rev(same, one[0]);
        let k = choose|k: int| 0 <= k < other.len() && other[k] == one[0];
        assert(other[0].1 >= other[k].1);
        let same_other = has_count(other[0].1);
        other.lemma_filter_contains(same_other, 0);
        assert(with_count(one, other[0].1).contains(other[0]));
        one.lemma_filter_contains_rev(same_other, other[0]);
        let m = choose|m: int| 0 <= m < one.len() && one[m] == other[0];
        assert(one[0].1 >= one[m].1);
        assert(other[0].1 == top);
        let rest_one = one.drop_first();
        let rest_other = other.drop_first();
        assert(one =~= seq![one[0]] + rest_one);
        assert(other =~= seq![other[0]] + rest_other);
        assert forall|count: nat| with_count(rest_one, count) == with_count(
            rest_other,
            count,
        ) && (count == top ==> one[0] == other[0]) by {
            let of_count = has_count(count);
            rest_one.lemma_filter_prepend(one[0], of_count);
            rest_other.lemma_filter_prepend(other[0], of_count);
            let left = with_count(rest_one, count);
            let right = with_count(rest_other, count);
            assert(with_count(one, count) == with_count(other, count));
            if count == top {
                assert(with_count(one, count) == seq![one[0]] + left);
                assert(with_count(other, count) == seq![other[0]] + right);
                assert((seq![one[0]] + left)[0] == (seq![other[0]] + right)[0]);
                assert(left =~= (seq![one[0]] + left).skip(1));
                assert(right =~= (seq![other[0]] + right).skip(1));
            } else {
                assert(with_count(one, count) =~= left);
                assert(with_count(other, count) =~= right);
            }
        }
        assert(with_count(rest_one, top) == with_count(rest_other, top));
        assert(one[0] == other[0]);
        assert forall|i: int, j: int| 0 <= i <= j < rest_one.len() implies (#[trigger] rest_one[i]).1
            >= (#[trigger] rest_one[j]).1 by {
            assert(one[i + 1].1 >= one[j + 1].1);
        }
        assert forall|i: int, j: int| 0 <= i <= j < rest_other.len() implies (
        #[trigger] rest_other[i]).1 >= (#[trigger] rest_other[j]).1 by {
            assert(other[i + 1].1 >= other[j + 1].1);
        }
        lemma_descending_stable_is_unique(rest_one, rest_other);
    }
}

/// The ranking is the one stable descending order of its input: whatever
/// lists the entries by descending count and keeps, among the entries of
/// each count, the order of the input, is the ranking.
pub proof fn lemma_ranked_is_the_stable_descending_order(
    entries: Seq<(Token, nat)>,
    other: Seq<(Token, nat)>,
)
    requires
        is_descending(other),
        forall|count: nat| with_count(other, count) == with_count(entries, count),
    ensures
        other == ranked(entries),
{
    lemma_ranked_is_descending_permutation(entries);
    assert forall|count: nat| with_count(other, count) == with_count(ranked(entries), count) by {
        lemma_ranked_is_stable(entries, count);
    }
    lemma_descending_stable_is_unique(other, ranked(entries));
}

/// Keeping only the first `n` entries commutes with inserting one more: the
/// leading entries of the longer ranking come from the leading entries of the
/// shorter one, with the new entry placed among them if it belongs there.
pub proof fn lemma_leading_insert(
    ranking: Seq<(Token, nat)>,
    entry: (Token, nat),
    n: nat,
    at: int,
)
    requires
        is_descending(ranking),
        0 <= at <= leading(ranking, n).len(),
        at > 0 ==> leading(ranking, n)[at - 1].1 >= entry.1,
        forall|k: int| at <= k < leading(ranking, n).len() ==> (#[trigger] leading(ranking, n)[k]).1
            < entry.1,
    ensures
        at < n ==> leading(insert_ranked(ranking, entry), n) == leading(
            leading(ranking, n).insert(at, entry),
            n,
        ),
        at >= n ==> leading(insert_ranked(ranking, entry), n) == leading(ranking, n),
{
    let shown = leading(ranking, n);
    let position = rank_position(ranking, entry.1) as int;
    lemma_rank_position(ranking, entry.1);
    if at < shown.len() {
        assert(shown[at].1 < entry.1);
        lemma_rank_position_is(ranking, entry.1, at);
        assert(leading(insert_ranked(ranking, entry), n) =~= leading(shown.insert(at, entry), n));
    } else if shown.len() == ranking.len() {
        lemma_rank_position_is(ranking, entry.1, at);
        if at < n {
            assert(leading(insert_ranked(ranking, entry), n) =~= leading(
                shown.insert(at, entry),
                n,
            ));
        } else {
            assert(leading(insert_ranked(ranking, entry), n) =~= shown);
        }
    } else {
        assert(at == n);
        if position < n {
            assert(ranking[position].1 < entry.1);
            assert(ranking[position].1 >= ranking[n - 1].1);
            assert(shown[n - 1] == ranking[n - 1]);
        }
        assert(leading(insert_ranked(ranking, entry), n) =~= shown);
    }
}

/// The `n` most frequent entries of a frequency table, most frequent first;
/// entries of equal count come in the order in which the table lists them,
/// which for a table built by the counter is the order of first appearance.
/// A table with fewer than `n` entries is ranked whole.
pub fn top_n(counts: &WordCounts, n: usize) -> (top: WordCounts)
    ensures
        count_views(top@) == leading(ranked(count_views(counts@)), n as nat),
        top.len() == if n <= counts.len() {
            n
        } else {
            counts.len()
        },
        is_descending(count_views(top@)),
{
    let ghost all = count_views(counts@);
    let mut top: WordCounts = Vec::new();
    let mut i: usize = 0;
    assert(all.take(0) =~= Seq::<(Token, nat)>::empty());
    assert(count_views(top@) =~= leading(ranked(all.take(0)), n as nat));
    while i < counts.len()
        invariant
            i <= counts.len(),
            all == count_views(counts@),
            count_views(top@) == leading(ranked(all.take(i as int)), n as nat),
        decreases counts.len() - i,
    {
        let count: usize = counts[i].1;
        let ghost entry = all[i as int];
        let ghost before = ranked(all.take(i as int));
        let ghost shown = count_views(top@);
        proof {
            assert(all.take(i + 1).drop_last() =~= all.take(i as int));
            lemma_ranked_is_descending_permutation(all.take(i as int));
        }
        let mut at: usize = top.len();
        while at > 0 && top[at - 1].1 < count
            invariant
                at <= top.len(),
                shown == count_views(top@),
                entry.1 == count,
                forall|k: int| at <= k < top.len() ==> (#[trigger] shown[k]).1 < entry.1,
            decreases at,
        {
            assert(shown[at - 1].1 < entry.1);
            at -= 1;
        }
        proof {
            if at > 0 {
                assert(shown[at - 1].1 >= entry.1);
            }
            lemma_leading_insert(before, entry, n as nat, at as int);
        }
        if at < n {
            top.insert(at, (counts[i].0.clone(), count));
            assert(count_views(top@) =~= shown.insert(at as int, entry));
            if top.len() > n {
                top.pop();
                assert(count_views(top@) =~= shown.insert(at as int, entry).take(n as int));
            }
        }
        i += 1;
    }
    proof {
        assert(all.take(i as int) =~= all);
        lemma_ranked_is_descending_permutation(all);
        assert(count_views(top@).len() == top.len());
        let ranking = ranked(all);
        let shown = count_views(top@);
        assert forall|a: int, b: int| 0 <= a <= b < shown.len() implies (#[trigger] shown[a]).1 >= (
        #[trigger] shown[b]).1 by {
            assert(ranking[a].1 >= ranking[b].1);
        }
    }
    top
}

} // verus!
