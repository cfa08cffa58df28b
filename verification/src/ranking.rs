//! Candidates and their order: most frequent first, earlier candidates before
//! later ones of the same frequency.

use vstd::prelude::*;

verus! {

/// One suggestion: the text to insert, the kind of entry it comes from, and
/// how often that entry was seen.
pub struct Completion {
    pub text: Seq<char>,
    pub category: Seq<char>,
    pub count: u32,
}

/// The suggestion that a `(text, category, count)` triple stands for.
pub open spec fn completion_of(entry: (String, String, u32)) -> Completion {
    Completion { text: entry.0@, category: entry.1@, count: entry.2 }
}

/// The suggestions that a list of triples stands for.
pub open spec fn completions(entries: Seq<(String, String, u32)>) -> Seq<Completion> {
    entries.map_values(|entry: (String, String, u32)| completion_of(entry))
}

/// No suggestion is followed by a more frequent one.
pub open spec fn descending(list: Seq<Completion>) -> bool {
    forall|i: int, j: int| 0 <= i < j < list.len() ==> list[i].count >= list[j].count
}

/// Where a newcomer seen `count` times goes in `list`: behind the last
/// suggestion that is at least as frequent.
pub open spec fn slot(list: Seq<Completion>, count: u32) -> int
    decreases list.len(),
{
    if list.len() == 0 || list.last().count >= count {
        list.len() as int
    } else {
        slot(list.drop_last(), count)
    }
}

/// `list` with `newcomer` put in its slot.
pub open spec fn placed(list: Seq<Completion>, newcomer: Completion) -> Seq<Completion> {
    list.insert(slot(list, newcomer.count), newcomer)
}

/// The candidates in ranked order: each is placed, in turn, among those
/// before it.
pub open spec fn ranked(candidates: Seq<Completion>) -> Seq<Completion>
    decreases candidates.len(),
{
    if candidates.len() == 0 {
        Seq::empty()
    } else {
        placed(ranked(candidates.drop_last()), candidates.last())
    }
}

/// The first `limit` items of `list`, or all of it where it has fewer.
pub open spec fn truncated(list: Seq<Completion>, limit: nat) -> Seq<Completion> {
    if limit < list.len() {
        list.take(limit as int)
    } else {
        list
    }
}

/// Those of `list` that were seen exactly `count` times, in order.
pub open spec fn seen_times(list: Seq<Completion>, count: u32) -> Seq<Completion> {
    list.filter(|c: Completion| c.count == count)
}

/// The slot lies within the list, everything from it on is less frequent than
/// the newcomer, and what stands just before it is not.
pub proof fn lemma_slot(list: Seq<Completion>, count: u32)
    ensures
        0 <= slot(list, count) <= list.len(),
        forall|i: int| slot(list, count) <= i < list.len() ==> list[i].count < count,
        slot(list, count) > 0 ==> list[slot(list, count) - 1].count >= count,
    decreases list.len(),
{
    if list.len() == 0 || list.last().count >= count {
    } else {
        let rest = list.drop_last();
        lemma_slot(rest, count);
        assert forall|i: int| slot(list, count) <= i < list.len() implies list[i].count
            < count by {
            if i < rest.len() {
                assert(list[i] == rest[i]);
            }
        }
        if slot(list, count) > 0 {
            assert(list[slot(list, count) - 1] == rest[slot(rest, count) - 1]);
        }
    }
}

/// Placing a newcomer in a descending list leaves it descending.
pub proof fn lemma_placed_descending(list: Seq<Completion>, newcomer: Completion)
    requires
        descending(list),
    ensures
        descending(placed(list, newcomer)),
{
    lemma_slot(list, newcomer.count);
    let at = slot(list, newcomer.count);
    let after = placed(list, newcomer);
    assert forall|i: int, j: int| 0 <= i < j < after.len() implies after[i].count
        >= after[j].count by {
        if i < at {
            assert(after[i] == list[i]);
            assert(list[i].count >= list[at - 1].count);
        } else if i > at {
            assert(after[i] == list[i - 1]);
        }
        if j > at {
            assert(after[j] == list[j - 1]);
        } else if j < at {
            assert(after[j] == list[j]);
        }
    }
}

/// A ranked list is descending.
pub proof fn lemma_ranked_descending(candidates: Seq<Completion>)
    ensures
        descending(ranked(candidates)),
    decreases candidates.len(),
{
    if candidates.len() > 0 {
        lemma_ranked_descending(candidates.drop_last());
        lemma_placed_descending(ranked(candidates.drop_last()), candidates.last());
    }
}

/// Ranking neither adds nor loses a candidate.
pub proof fn lemma_ranked_same_members(candidates: Seq<Completion>)
    ensures
        ranked(candidates).to_multiset() == candidates.to_multiset(),
        ranked(candidates).len() == candidates.len(),
    decreases candidates.len(),
{
    broadcast use vstd::seq_lib::to_multiset_insert, vstd::seq_lib::to_multiset_build;

    if candidates.len() == 0 {
        assert(ranked(candidates) == candidates);
    } else {
        let before = candidates.drop_last();
        lemma_ranked_same_members(before);
        lemma_slot(ranked(before), candidates.last().count);
        assert(candidates == before.push(candidates.last()));
    }
}

/// Placing a newcomer appends it to the suggestions of its own frequency and
/// leaves those of every other frequency as they were.
pub proof fn lemma_placed_seen_times(list: Seq<Completion>, newcomer: Completion, count: u32)
    ensures
        seen_times(placed(list, newcomer), count) == if newcomer.count == count {
            seen_times(list, count).push(newcomer)
        } else {
            seen_times(list, count)
        },
{
    broadcast use Seq::filter_distributes_over_add;

    lemma_slot(list, newcomer.count);
    let at = slot(list, newcomer.count);
    let pred = |c: Completion| c.count == count;
    let head = list.take(at);
    let tail = list.skip(at);
    let one = seq![newcomer];
    assert(list == head + tail);
    assert(placed(list, newcomer) == (head + one) + tail);
    assert(one.filter(pred) == if newcomer.count == count { one } else { Seq::empty() }) by {
        reveal(Seq::filter);
        assert(one.drop_last().filter(pred) == Seq::<Completion>::empty());
        assert(one == Seq::<Completion>::empty().push(newcomer));
    }
    if newcomer.count == count {
        assert forall|i: int| 0 <= i < tail.len() implies !pred(#[trigger] tail[i]) by {
            assert(tail[i] == list[at + i]);
        }
        tail.lemma_all_neg_filter_empty(pred);
        assert(tail.filter(pred) == Seq::<Completion>::empty());
        assert(head.filter(pred) + one + Seq::<Completion>::empty() == head.filter(pred).push(
            newcomer,
        ));
        assert(head.filter(pred) + Seq::<Completion>::empty() == head.filter(pred));
    } else {
        assert(head.filter(pred) + Seq::<Completion>::empty() == head.filter(pred));
    }
}

/// Ranking is stable: the candidates of any one frequency keep their order.
pub proof fn lemma_ranked_stable(candidates: Seq<Completion>, count: u32)
    ensures
        seen_times(ranked(candidates), count) == seen_times(candidates, count),
    decreases candidates.len(),
{
    if candidates.len() == 0 {
    } else {
        let before = candidates.drop_last();
        lemma_ranked_stable(before, count);
        lemma_placed_seen_times(ranked(before), candidates.last(), count);
        reveal(Seq::filter);
    }
}

/// What holds of every candidate holds of every suggestion of the answer.
pub proof fn lemma_answer_keeps(
    candidates: Seq<Completion>,
    limit: nat,
    holds: spec_fn(Completion) -> bool,
)
    requires
        forall|i: int| 0 <= i < candidates.len() ==> holds(#[trigger] candidates[i]),
    ensures
        forall|i: int|
            0 <= i < truncated(ranked(candidates), limit).len() ==> holds(
                #[trigger] truncated(ranked(candidates), limit)[i],
            ),
        forall|i: int| 0 <= i < ranked(candidates).len() ==> holds(#[trigger] ranked(candidates)[i]),
    decreases candidates.len(),
{
    if candidates.len() > 0 {
        let before = candidates.drop_last();
        assert forall|i: int| 0 <= i < before.len() implies holds(#[trigger] before[i]) by {
            assert(before[i] == candidates[i]);
        }
        lemma_answer_keeps(before, limit, holds);
        lemma_slot(ranked(before), candidates.last().count);
        let at = slot(ranked(before), candidates.last().count);
        assert forall|i: int| 0 <= i < ranked(candidates).len() implies holds(
            #[trigger] ranked(candidates)[i],
        ) by {
            if i < at {
                assert(ranked(candidates)[i] == ranked(before)[i]);
            } else if i == at {
                assert(ranked(candidates)[i] == candidates[candidates.len() - 1]);
            } else {
                assert(ranked(candidates)[i] == ranked(before)[i - 1]);
            }
        }
    }
}

/// An answer is cut from the candidates fairly: each of its suggestions is one
/// of the candidates, and no candidate that it leaves out was seen more often
/// than one that it holds.
pub open spec fn keeps_most_frequent(kept: Seq<Completion>, candidates: Seq<Completion>) -> bool {
    &&& kept.to_multiset().subset_of(candidates.to_multiset())
    &&& forall|left: Completion, i: int|
        #![trigger kept[i], candidates.to_multiset().count(left)]
        0 <= i < kept.len() && candidates.to_multiset().count(left) > kept.to_multiset().count(
            left,
        ) ==> left.count <= kept[i].count
}

/// Cutting a ranked list short keeps its most frequent candidates.
pub proof fn lemma_truncated_keeps_most_frequent(candidates: Seq<Completion>, limit: nat)
    ensures
        descending(truncated(ranked(candidates), limit)),
        truncated(ranked(candidates), limit).len() == if limit < candidates.len() {
            limit
        } else {
            candidates.len()
        },
        keeps_most_frequent(truncated(ranked(candidates), limit), candidates),
{
    broadcast use vstd::seq_lib::lemma_multiset_commutative, vstd::seq_lib::to_multiset_contains;
    broadcast use vstd::multiset::group_multiset_axioms;

    lemma_ranked_descending(candidates);
    lemma_ranked_same_members(candidates);
    let all = ranked(candidates);
    let kept = truncated(all, limit);
    let rest = all.skip(kept.len() as int);
    assert(all == kept + rest);
    assert(all.to_multiset() == kept.to_multiset().add(rest.to_multiset()));
    assert forall|left: Completion, i: int|
        #![trigger kept[i], candidates.to_multiset().count(left)]
        0 <= i < kept.len() && candidates.to_multiset().count(left) > kept.to_multiset().count(
            left,
        ) implies left.count <= kept[i].count by {
        assert(rest.to_multiset().count(left) > 0);
        assert(rest.contains(left));
        let j = choose|j: int| 0 <= j < rest.len() && rest[j] == left;
        assert(all[kept.len() + j] == left);
        assert(all[i] == kept[i]);
    }
}

/// Puts `entry` in its slot of `list`.
pub fn place(list: &mut Vec<(String, String, u32)>, entry: (String, String, u32))
    ensures
        completions(final(list)@) == placed(completions(old(list)@), completion_of(entry)),
{
    let ghost before = completions(list@);
    let mut at: usize = list.len();
    assert(before.take(at as int) == before);
    while at > 0 && list[at - 1].2 < entry.2
        invariant
            at <= list.len(),
            before == completions(list@),
            slot(before, entry.2) == slot(before.take(at as int), entry.2),
        decreases at,
    {
        assert(before.take(at as int).drop_last() == before.take(at - 1));
        at = at - 1;
    }
    assert(slot(before.take(at as int), entry.2) == at);
    list.insert(at, entry);
    assert(completions(list@) == before.insert(at as int, completion_of(entry)));
}

/// Ranks the candidates: most frequent first, earlier before later among
/// equals.
pub fn rank(candidates: Vec<(String, String, u32)>) -> (list: Vec<(String, String, u32)>)
    ensures
        completions(list@) == ranked(completions(candidates@)),
        descending(completions(list@)),
        list@.len() == candidates@.len(),
{
    let ghost all = completions(candidates@);
    let mut list: Vec<(String, String, u32)> = Vec::new();
    for entry in it: candidates
        invariant
            completions(it.seq()) == all,
            completions(list@) == ranked(all.take(it.index() as int)),
    {
        proof {
            let i = it.index() as int;
            assert(all.take(i + 1).drop_last() == all.take(i));
            assert(all.take(i + 1).last() == completion_of(entry));
        }
        place(&mut list, entry);
    }
    proof {
        assert(all.take(all.len() as int) == all);
        lemma_ranked_descending(all);
        lemma_ranked_same_members(all);
    }
    list
}

} // verus!
