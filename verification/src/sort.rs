//! Clips in the order of their start times.
//!
//! [`sorted_by_start`] says what the order is: each clip in turn is put behind
//! the last clip before it that does not start later. [`sort_by_start`] reaches
//! it by merging sorted halves.

use crate::clip::{clips_model, start_rank, AudioClip, AudioClipModel};
use vstd::prelude::*;

verus! {

/// Whether the start times of a list of clips never decrease.
pub open spec fn ascending(clips: Seq<AudioClipModel>) -> bool {
    forall|i: int, j: int|
        0 <= i <= j < clips.len() ==> start_rank(#[trigger] clips[i].start) <= start_rank(
            #[trigger] clips[j].start,
        )
}

/// A list of clips ascending by start time, with one more clip put behind the
/// last clip that does not start later.
pub open spec fn insert_by_start(sorted: Seq<AudioClipModel>, clip: AudioClipModel) -> Seq<
    AudioClipModel,
>
    decreases sorted.len(),
{
    if sorted.len() == 0 {
        seq![clip]
    } else if start_rank(sorted.last().start) <= start_rank(clip.start) {
        sorted.push(clip)
    } else {
        insert_by_start(sorted.drop_last(), clip).push(sorted.last())
    }
}

/// The clips ascending by start time; clips that start together keep their order.
pub open spec fn sorted_by_start(clips: Seq<AudioClipModel>) -> Seq<AudioClipModel>
    decreases clips.len(),
{
    if clips.len() == 0 {
        Seq::empty()
    } else {
        insert_by_start(sorted_by_start(clips.drop_last()), clips.last())
    }
}

/// Where `clip` goes in `sorted`: behind position `at - 1`, whose clip does not
/// start later, and before all clips from `at` on, which do.
pub proof fn lemma_insert_position(sorted: Seq<AudioClipModel>, clip: AudioClipModel, at: int)
    requires
        0 <= at <= sorted.len(),
        at > 0 ==> start_rank(sorted[at - 1].start) <= start_rank(clip.start),
        forall|k: int| at <= k < sorted.len() ==> start_rank(clip.start) < start_rank(
            #[trigger] sorted[k].start,
        ),
    ensures
        insert_by_start(sorted, clip) == sorted.insert(at, clip),
    decreases sorted.len(),
{
    if sorted.len() == 0 {
        assert(seq![clip] =~= sorted.insert(at, clip));
    } else if at == sorted.len() {
        assert(sorted.push(clip) =~= sorted.insert(at, clip));
    } else {
        lemma_insert_position(sorted.drop_last(), clip, at);
        assert(sorted.drop_last().insert(at, clip).push(sorted.last()) =~= sorted.insert(
            at,
            clip,
        ));
    }
}

/// The clips that start at a given rank, as a test on a clip.
pub open spec fn starts_at(rank: int) -> spec_fn(AudioClipModel) -> bool {
    |c: AudioClipModel| start_rank(c.start) == rank
}

/// The position at which [`insert_by_start`] puts `clip`.
pub open spec fn insert_point(sorted: Seq<AudioClipModel>, clip: AudioClipModel) -> int
    decreases sorted.len(),
{
    if sorted.len() == 0 {
        0
    } else if start_rank(sorted.last().start) <= start_rank(clip.start) {
        sorted.len() as int
    } else {
        insert_point(sorted.drop_last(), clip)
    }
}

/// [`insert_by_start`] puts `clip` at [`insert_point`]: behind a clip that does
/// not start later, and before clips that all do.
pub proof fn lemma_insert_point(sorted: Seq<AudioClipModel>, clip: AudioClipModel)
    ensures
        0 <= insert_point(sorted, clip) <= sorted.len(),
        insert_point(sorted, clip) > 0 ==> start_rank(
            sorted[insert_point(sorted, clip) - 1].start,
        ) <= start_rank(clip.start),
        forall|k: int|
            insert_point(sorted, clip) <= k < sorted.len() ==> start_rank(clip.start) < start_rank(
                #[trigger] sorted[k].start,
            ),
        insert_by_start(sorted, clip) == sorted.insert(insert_point(sorted, clip), clip),
    decreases sorted.len(),
{
    let at = insert_point(sorted, clip);
    if sorted.len() > 0 && start_rank(sorted.last().start) > start_rank(clip.start) {
        lemma_insert_point(sorted.drop_last(), clip);
        assert forall|k: int| at <= k < sorted.len() implies start_rank(clip.start) < start_rank(
            #[trigger] sorted[k].start,
        ) by {
            if k < sorted.len() - 1 {
                assert(sorted[k] == sorted.drop_last()[k]);
            }
        }
        if at > 0 {
            assert(sorted[at - 1] == sorted.drop_last()[at - 1]);
        }
    }
    lemma_insert_position(sorted, clip, at);
}

/// Putting a clip into an ascending list leaves the list ascending.
pub proof fn lemma_insert_ascending(sorted: Seq<AudioClipModel>, clip: AudioClipModel)
    requires
        ascending(sorted),
    ensures
        ascending(insert_by_start(sorted, clip)),
{
    lemma_insert_point(sorted, clip);
    let at = insert_point(sorted, clip);
    let after = sorted.insert(at, clip);
    assert forall|i: int, j: int| 0 <= i <= j < after.len() implies start_rank(
        #[trigger] after[i].start,
    ) <= start_rank(#[trigger] after[j].start) by {
        if i < at {
            assert(after[i] == sorted[i]);
            assert(start_rank(sorted[i].start) <= start_rank(sorted[at - 1].start));
        } else if i > at {
            assert(after[i] == sorted[i - 1]);
        }
        if j < at {
            assert(after[j] == sorted[j]);
        } else if j > at {
            assert(after[j] == sorted[j - 1]);
        }
    }
}

/// The sorted clips ascend by start time.
pub proof fn lemma_sort_ascending(clips: Seq<AudioClipModel>)
    ensures
        ascending(sorted_by_start(clips)),
    decreases clips.len(),
{
    if clips.len() > 0 {
        lemma_sort_ascending(clips.drop_last());
        lemma_insert_ascending(sorted_by_start(clips.drop_last()), clips.last());
    }
}

/// Sorting neither drops nor adds a clip: each clip occurs in the sorted list
/// as often as in the given one.
pub proof fn lemma_sort_permutes(clips: Seq<AudioClipModel>)
    ensures
        sorted_by_start(clips).to_multiset() == clips.to_multiset(),
        sorted_by_start(clips).len() == clips.len(),
    decreases clips.len(),
{
    broadcast use vstd::seq_lib::to_multiset_len;

    if clips.len() == 0 {
        assert(clips =~= Seq::<AudioClipModel>::empty());
    } else {
        let before = sorted_by_start(clips.drop_last());
        lemma_sort_permutes(clips.drop_last());
        lemma_insert_point(before, clips.last());
        vstd::seq_lib::to_multiset_insert(before, insert_point(before, clips.last()), clips.last());
        assert(clips =~= clips.drop_last().push(clips.last()));
        vstd::seq_lib::to_multiset_build(clips.drop_last(), clips.last());
    }
}

/// No clip of a list passes a test that each of its clips fails.
proof fn lemma_filter_none(clips: Seq<AudioClipModel>, test: spec_fn(AudioClipModel) -> bool)
    requires
        forall|k: int| 0 <= k < clips.len() ==> !test(#[trigger] clips[k]),
    ensures
        clips.filter(test) == Seq::<AudioClipModel>::empty(),
    decreases clips.len(),
{
    reveal(Seq::filter);
    if clips.len() > 0 {
        lemma_filter_none(clips.drop_last(), test);
    }
}

/// Sorting is stable: the clips that start at one rank stand in the sorted list
/// in the order in which they were given.
pub proof fn lemma_sort_stable(clips: Seq<AudioClipModel>, rank: int)
    ensures
        sorted_by_start(clips).filter(starts_at(rank)) == clips.filter(starts_at(rank)),
    decreases clips.len(),
{
    let test = starts_at(rank);
    if clips.len() == 0 {
    } else {
        let rest = clips.drop_last();
        let last = clips.last();
        let before = sorted_by_start(rest);
        lemma_sort_stable(rest, rank);
        lemma_insert_point(before, last);
        let at = insert_point(before, last);
        let head = before.subrange(0, at);
        let tail = before.subrange(at, before.len() as int);
        assert(before =~= head + tail);
        Seq::filter_distributes_over_add(head, tail, test);
        Seq::filter_distributes_over_add(head.push(last), tail, test);
        head.lemma_filter_push(last, test);
        if test(last) {
            assert forall|k: int| 0 <= k < tail.len() implies !test(#[trigger] tail[k]) by {
                assert(tail[k] == before[at + k]);
            }
            lemma_filter_none(tail, test);
        }
        assert(before.insert(at, last).filter(test) =~= if test(last) {
            before.filter(test).push(last)
        } else {
            before.filter(test)
        });
        assert(clips =~= rest.push(last));
        rest.lemma_filter_push(last, test);
    }
}

/// Sorting leaves an ascending list as it is.
pub proof fn lemma_sort_keeps_ascending(clips: Seq<AudioClipModel>)
    requires
        ascending(clips),
    ensures
        sorted_by_start(clips) == clips,
    decreases clips.len(),
{
    if clips.len() > 0 {
        let rest = clips.drop_last();
        lemma_sort_keeps_ascending(rest);
        if rest.len() > 0 {
            assert(rest.last() == clips[clips.len() - 2]);
        }
        assert(clips =~= rest.push(clips.last()));
    }
}

/// Two lists in one: the clip that starts last, of the clips that end the two
/// lists, goes to the end, and where both start together the clip of `right`
/// does. Of two ascending lists this is the ascending list of all their clips,
/// with those of `left` before those of `right` that start together.
pub open spec fn merged(left: Seq<AudioClipModel>, right: Seq<AudioClipModel>) -> Seq<
    AudioClipModel,
>
    decreases left.len() + right.len(),
{
    if left.len() == 0 {
        right
    } else if right.len() == 0 {
        left
    } else if start_rank(left.last().start) <= start_rank(right.last().start) {
        merged(left, right.drop_last()).push(right.last())
    } else {
        merged(left.drop_last(), right).push(left.last())
    }
}

/// Putting a clip into the right list before merging gives what putting it
/// into the merged list gives.
proof fn lemma_merge_insert(
    left: Seq<AudioClipModel>,
    right: Seq<AudioClipModel>,
    clip: AudioClipModel,
)
    ensures
        merged(left, insert_by_start(right, clip)) == insert_by_start(merged(left, right), clip),
    decreases left.len() + right.len(),
{
    let with_clip = insert_by_start(right, clip);
    let both = merged(left, right);
    if left.len() == 0 {
    } else if right.len() == 0 || start_rank(right.last().start) <= start_rank(clip.start) {
        // The clip goes to the end of the right list.
        assert(with_clip =~= right.push(clip));
        assert(with_clip.drop_last() =~= right);
        if right.len() == 0 {
            assert(both == left);
        } else {
            assert(both.last() == left.last() || both.last() == right.last());
        }
        if start_rank(left.last().start) <= start_rank(clip.start) {
            assert(merged(left, with_clip) == both.push(clip));
        } else {
            lemma_merge_insert(left.drop_last(), right, clip);
            assert(merged(left, with_clip) == merged(left.drop_last(), with_clip).push(
                left.last(),
            ));
            if right.len() == 0 {
                assert(merged(left.drop_last(), right) =~= left.drop_last());
            } else {
                assert(both == merged(left.drop_last(), right).push(left.last()));
                assert(both.drop_last() =~= merged(left.drop_last(), right));
            }
        }
    } else {
        // The clip goes before the last clip of the right list.
        assert(with_clip == insert_by_start(right.drop_last(), clip).push(right.last()));
        assert(with_clip.drop_last() =~= insert_by_start(right.drop_last(), clip));
        assert(with_clip.last() == right.last());
        if start_rank(left.last().start) <= start_rank(right.last().start) {
            lemma_merge_insert(left, right.drop_last(), clip);
            assert(both == merged(left, right.drop_last()).push(right.last()));
            assert(both.drop_last() =~= merged(left, right.drop_last()));
        } else {
            lemma_merge_insert(left.drop_last(), right, clip);
            assert(both == merged(left.drop_last(), right).push(left.last()));
            assert(both.drop_last() =~= merged(left.drop_last(), right));
        }
    }
}

/// Merging two sorted lists sorts the clips of the first followed by those of
/// the second.
pub proof fn lemma_merge_sorted(left: Seq<AudioClipModel>, right: Seq<AudioClipModel>)
    ensures
        merged(sorted_by_start(left), sorted_by_start(right)) == sorted_by_start(left + right),
    decreases right.len(),
{
    if right.len() == 0 {
        assert(left + right =~= left);
    } else {
        lemma_merge_sorted(left, right.drop_last());
        lemma_merge_insert(
            sorted_by_start(left),
            sorted_by_start(right.drop_last()),
            right.last(),
        );
        assert((left + right).drop_last() =~= left + right.drop_last());
    }
}

/// The clips of a list, last first.
spec fn backwards(clips: Seq<AudioClipModel>) -> Seq<AudioClipModel> {
    Seq::new(clips.len(), |k: int| clips[clips.len() - 1 - k])
}

/// Merges two lists of clips as [`merged`] says.
fn merge(left: Vec<AudioClip>, right: Vec<AudioClip>) -> (all: Vec<AudioClip>)
    ensures
        clips_model(all@) == merged(clips_model(left@), clips_model(right@)),
{
    let ghost target = merged(clips_model(left@), clips_model(right@));
    let mut left = left;
    let mut right = right;
    let mut back: Vec<AudioClip> = Vec::new();
    assert(target =~= target + backwards(clips_model(back@)));
    while left.len() > 0 && right.len() > 0
        invariant
            target == merged(clips_model(left@), clips_model(right@)) + backwards(
                clips_model(back@),
            ),
        decreases left@.len() + right@.len(),
    {
        let ghost before_left = clips_model(left@);
        let ghost before_right = clips_model(right@);
        let ghost before_back = clips_model(back@);
        let from_right = left[left.len() - 1].start_rank() <= right[right.len() - 1].start_rank();
        let last = if from_right {
            right.pop()
        } else {
            left.pop()
        };
        if let Some(clip) = last {
            back.push(clip);
            proof {
                assert(clips_model(back@) =~= before_back.push(clip@));
                if from_right {
                    assert(clips_model(right@) =~= before_right.drop_last());
                    assert(clip@ == before_right.last());
                } else {
                    assert(clips_model(left@) =~= before_left.drop_last());
                    assert(clip@ == before_left.last());
                }
                assert(merged(before_left, before_right) == merged(
                    clips_model(left@),
                    clips_model(right@),
                ).push(clip@));
                assert(backwards(before_back.push(clip@)) =~= seq![clip@] + backwards(before_back));
                assert(target =~= merged(clips_model(left@), clips_model(right@)) + backwards(
                    clips_model(back@),
                ));
            }
        }
    }
    let mut all = if left.len() > 0 {
        left
    } else {
        right
    };
    while back.len() > 0
        invariant
            target == clips_model(all@) + backwards(clips_model(back@)),
        decreases back@.len(),
    {
        let ghost before_all = clips_model(all@);
        let ghost before_back = clips_model(back@);
        if let Some(clip) = back.pop() {
            all.push(clip);
            proof {
                assert(clips_model(back@) =~= before_back.drop_last());
                assert(clips_model(all@) =~= before_all.push(clip@));
                assert(backwards(before_back) =~= seq![clip@] + backwards(before_back.drop_last()));
                assert(target =~= clips_model(all@) + backwards(clips_model(back@)));
            }
        }
    }
    assert(target =~= clips_model(all@));
    all
}

/// Sorts the clips ascending by start time. Clips that start together keep
/// their order.
pub fn sort_by_start(clips: Vec<AudioClip>) -> (sorted: Vec<AudioClip>)
    ensures
        clips_model(sorted@) == sorted_by_start(clips_model(clips@)),
    decreases clips@.len(),
{
    let n = clips.len();
    let ghost given = clips_model(clips@);
    if n <= 1 {
        proof {
            if n == 1 {
                assert(given.drop_last() =~= Seq::<AudioClipModel>::empty());
                assert(sorted_by_start(given.drop_last()) =~= Seq::<AudioClipModel>::empty());
            }
            assert(sorted_by_start(given) =~= given);
        }
        return clips;
    }
    let mut left = clips;
    let right = left.split_off(n / 2);
    proof {
        assert(given =~= clips_model(left@) + clips_model(right@));
        lemma_merge_sorted(clips_model(left@), clips_model(right@));
    }
    let left = sort_by_start(left);
    let right = sort_by_start(right);
    merge(left, right)
}

} // verus!
