//! The aggregation stage: clips in the order of their start times, and each
//! sample path once.

use crate::clip::{clips_model, is_nan, AudioClip, AudioClipModel};
use crate::error::AlsError;
use crate::sort::{
    ascending, lemma_sort_ascending, lemma_sort_keeps_ascending, lemma_sort_permutes, sort_by_start,
    sorted_by_start,
};
use vstd::prelude::*;

verus! {

/// The outcome of the whole extraction.
#[derive(Clone, Debug, PartialEq, Eq)]
pub struct AlsParseResult {
    /// Each sample path that a clip names, once.
    pub paths: Vec<String>,
    /// The clips, ascending by start time.
    pub audio_clips: Vec<AudioClip>,
}

/// An outcome as a mathematical value.
pub struct AlsParseResultModel {
    pub paths: Seq<Seq<char>>,
    pub audio_clips: Seq<AudioClipModel>,
}

/// The texts of a list of strings.
pub open spec fn texts(strings: Seq<String>) -> Seq<Seq<char>> {
    strings.map_values(|s: String| s@)
}

impl View for AlsParseResult {
    type V = AlsParseResultModel;

    open spec fn view(&self) -> AlsParseResultModel {
        AlsParseResultModel {
            paths: texts(self.paths@),
            audio_clips: clips_model(self.audio_clips@),
        }
    }
}

/// The sample paths of a list of clips, clip by clip.
pub open spec fn clip_paths(clips: Seq<AudioClipModel>) -> Seq<Seq<char>> {
    clips.map_values(|c: AudioClipModel| c.path)
}

impl AlsParseResultModel {
    /// The clips ascend by start time, no path is listed twice, and the listed
    /// paths are those that the clips name.
    pub open spec fn wf(self) -> bool {
        &&& ascending(self.audio_clips)
        &&& self.paths.no_duplicates()
        &&& self.paths.to_set() == clip_paths(self.audio_clips).to_set()
    }
}

/// The paths of a list of clips, each once, in the order in which they first occur.
pub open spec fn distinct_paths(clips: Seq<AudioClipModel>) -> Seq<Seq<char>>
    decreases clips.len(),
{
    if clips.len() == 0 {
        Seq::empty()
    } else {
        let before = distinct_paths(clips.drop_last());
        if before.contains(clips.last().path) {
            before
        } else {
            before.push(clips.last().path)
        }
    }
}

/// Whether a clip of the list has a start time that is not a number.
pub open spec fn has_nan_start(clips: Seq<AudioClipModel>) -> bool {
    exists|i: int| 0 <= i < clips.len() && is_nan(#[trigger] clips[i].start)
}

/// The outcome of the aggregation.
pub open spec fn aggregate_result(clips: Seq<AudioClipModel>) -> Result<
    AlsParseResultModel,
    AlsError,
> {
    if has_nan_start(clips) {
        Err(AlsError::NanStart)
    } else {
        Ok(
            AlsParseResultModel {
                paths: distinct_paths(sorted_by_start(clips)),
                audio_clips: sorted_by_start(clips),
            },
        )
    }
}

/// Whether `r` is what an aggregation with the outcome `outcome` returns.
pub open spec fn returns_aggregate(
    outcome: Result<AlsParseResultModel, AlsError>,
    r: Result<AlsParseResult, AlsError>,
) -> bool {
    match outcome {
        Ok(result) => r matches Ok(found) && found@ == result,
        Err(e) => r matches Err(x) && x == e,
    }
}

/// The distinct paths of a list of clips hold no path twice, and hold exactly
/// the paths that the clips name.
pub proof fn lemma_distinct_paths(clips: Seq<AudioClipModel>)
    ensures
        distinct_paths(clips).no_duplicates(),
        distinct_paths(clips).to_set() == clip_paths(clips).to_set(),
    decreases clips.len(),
{
    if clips.len() == 0 {
        assert(distinct_paths(clips).to_set() =~= clip_paths(clips).to_set());
    } else {
        let rest = clips.drop_last();
        let path = clips.last().path;
        lemma_distinct_paths(rest);
        let before = distinct_paths(rest);
        assert(clip_paths(clips) =~= clip_paths(rest).push(path));
        clip_paths(rest).lemma_push_to_set_commute(path);
        before.lemma_push_to_set_commute(path);
        if before.contains(path) {
            assert(before.to_set().contains(path));
            assert(before.to_set().insert(path) =~= before.to_set());
        }
    }
}

/// Whether a clip of the list has a start time that is not a number.
pub fn any_nan_start(clips: &Vec<AudioClip>) -> (r: bool)
    ensures
        r == has_nan_start(clips_model(clips@)),
{
    let mut i: usize = 0;
    while i < clips.len()
        invariant
            i <= clips@.len(),
            forall|k: int| 0 <= k < i ==> !is_nan(#[trigger] clips_model(clips@)[k].start),
        decreases clips@.len() - i,
    {
        if clips[i].start_is_nan() {
            assert(is_nan(clips_model(clips@)[i as int].start));
            return true;
        }
        i += 1;
    }
    false
}

/// Whether `path` is among `paths`.
fn holds_path(paths: &Vec<String>, path: &String) -> (r: bool)
    ensures
        r == texts(paths@).contains(path@),
{
    let mut i: usize = 0;
    while i < paths.len()
        invariant
            i <= paths@.len(),
            forall|k: int| 0 <= k < i ==> texts(paths@)[k] != path@,
        decreases paths@.len() - i,
    {
        if paths[i] == *path {
            assert(texts(paths@)[i as int] == path@);
            return true;
        }
        i += 1;
    }
    false
}

/// Lists the paths of the clips, each once, in the order in which they first occur.
pub fn collect_paths(clips: &Vec<AudioClip>) -> (paths: Vec<String>)
    ensures
        texts(paths@) == distinct_paths(clips_model(clips@)),
{
    let mut paths: Vec<String> = Vec::new();
    let mut i: usize = 0;
    assert(clips_model(clips@).take(0) =~= Seq::<AudioClipModel>::empty());
    assert(texts(paths@) =~= Seq::<Seq<char>>::empty());
    while i < clips.len()
        invariant
            i <= clips@.len(),
            texts(paths@) == distinct_paths(clips_model(clips@).take(i as int)),
        decreases clips@.len() - i,
    {
        proof {
            let upto = clips_model(clips@).take(i + 1);
            assert(upto.drop_last() =~= clips_model(clips@).take(i as int));
            assert(upto.last().path == clips@[i as int].path@);
        }
        if !holds_path(&paths, &clips[i].path) {
            let path = clips[i].path.clone();
            assert(texts(paths@.push(path)) =~= texts(paths@).push(path@));
            paths.push(path);
        }
        i += 1;
    }
    assert(clips_model(clips@).take(i as int) =~= clips_model(clips@));
    paths
}

/// Orders the clips by start time and lists each of their paths once.
///
/// A start time that is not a number has no place in the order: the clips are
/// then refused.
pub fn aggregate(clips: Vec<AudioClip>) -> (r: Result<AlsParseResult, AlsError>)
    ensures
        returns_aggregate(aggregate_result(clips_model(clips@)), r),
        r matches Ok(found) ==> found@.wf(),
{
    if any_nan_start(&clips) {
        return Err(AlsError::NanStart);
    }
    let audio_clips = sort_by_start(clips);
    let paths = collect_paths(&audio_clips);
    proof {
        lemma_aggregate_wf(clips_model(clips@));
    }
    Ok(AlsParseResult { paths, audio_clips })
}

/// The clips of an aggregation that succeeds ascend by start time, and its
/// paths are those of the clips, each once.
pub proof fn lemma_aggregate_wf(clips: Seq<AudioClipModel>)
    requires
        !has_nan_start(clips),
    ensures
        aggregate_result(clips) matches Ok(result) && result.wf(),
{
    lemma_sort_ascending(clips);
    lemma_distinct_paths(sorted_by_start(clips));
}

/// Aggregating the same clips again gives the same clips in the same order and
/// the same paths, or the same error.
pub proof fn lemma_aggregate_repeats(
    clips: Seq<AudioClipModel>,
    first: Result<AlsParseResult, AlsError>,
    second: Result<AlsParseResult, AlsError>,
)
    requires
        returns_aggregate(aggregate_result(clips), first),
        returns_aggregate(aggregate_result(clips), second),
    ensures
        first matches Ok(a) ==> second matches Ok(b) && a@.audio_clips == b@.audio_clips
            && a@.paths.to_set() == b@.paths.to_set(),
        first matches Err(e) ==> second matches Err(x) && x == e,
{
}

/// Aggregating the clips of an aggregation changes nothing: they come out in
/// the same order, with the same paths.
pub proof fn lemma_aggregate_idempotent(clips: Seq<AudioClipModel>)
    requires
        !has_nan_start(clips),
    ensures
        aggregate_result(sorted_by_start(clips)) == aggregate_result(clips),
{
    let sorted = sorted_by_start(clips);
    lemma_sort_ascending(clips);
    lemma_sort_keeps_ascending(sorted);
    lemma_sort_permutes(clips);
    if has_nan_start(sorted) {
        let i = choose|i: int| 0 <= i < sorted.len() && is_nan(#[trigger] sorted[i].start);
        assert(sorted.to_multiset().count(sorted[i]) > 0) by {
            broadcast use vstd::seq_lib::to_multiset_contains;

            assert(sorted.contains(sorted[i]));
        }
        assert(clips.contains(sorted[i])) by {
            broadcast use vstd::seq_lib::to_multiset_contains;

        }
        let j = choose|j: int| 0 <= j < clips.len() && clips[j] == sorted[i];
        assert(is_nan(clips[j].start));
    }
}

} // verus!
