//! What holds of a whole run: a scan of the file, a reading of each record's
//! start text as a number, and an aggregation of the clips.

use crate::aggregate::{aggregate_result, returns_aggregate, AlsParseResult};
use crate::clip::{clip_of, clips_model, raw_clips_model, AudioClip, RawClip};
use crate::error::AlsError;
use crate::scan::{returns_scan, scan_file_result};
use vstd::prelude::*;

verus! {

/// Whether `clips` are the clips of `records`, record by record, where `read`
/// says as which number a start text is read.
pub open spec fn reads_as(
    records: Seq<RawClip>,
    read: spec_fn(Seq<char>) -> Option<u64>,
    clips: Seq<AudioClip>,
) -> bool {
    &&& clips.len() == records.len()
    &&& forall|i: int|
        0 <= i < records.len() ==> clip_of(#[trigger] records[i]@, read(records[i].start@)) == Ok::<
            _,
            AlsError,
        >(clips[i]@)
}

/// Running again on the same bytes gives the same clips in the same order and
/// the same set of paths, as long as the same start text is read as the same
/// number.
pub proof fn lemma_rerun_gives_same_output(
    data: Seq<u8>,
    read: spec_fn(Seq<char>) -> Option<u64>,
    first_records: Vec<RawClip>,
    first_clips: Vec<AudioClip>,
    first: AlsParseResult,
    second_records: Vec<RawClip>,
    second_clips: Vec<AudioClip>,
    second: AlsParseResult,
)
    requires
        returns_scan(scan_file_result(data), Ok(first_records)),
        returns_scan(scan_file_result(data), Ok(second_records)),
        reads_as(first_records@, read, first_clips@),
        reads_as(second_records@, read, second_clips@),
        returns_aggregate(aggregate_result(clips_model(first_clips@)), Ok(first)),
        returns_aggregate(aggregate_result(clips_model(second_clips@)), Ok(second)),
    ensures
        first@.audio_clips == second@.audio_clips,
        first@.paths.to_set() == second@.paths.to_set(),
{
    let a = raw_clips_model(first_records@);
    let b = raw_clips_model(second_records@);
    assert(a == b);
    assert(clips_model(first_clips@) =~= clips_model(second_clips@)) by {
        assert forall|i: int| 0 <= i < first_clips@.len() implies clips_model(first_clips@)[i]
            == clips_model(second_clips@)[i] by {
            assert(first_records@[i]@ == a[i]);
            assert(second_records@[i]@ == b[i]);
        }
    }
}

} // verus!
