use vstd::prelude::*;
use crate::segment::{SpeakerSegment, segment_ok, segment_is_ok};
use crate::marker::{Stage, MarkerId, MarkerEvent, MarkerView, views, add_candidate, numbered, add_candidate_marker, lemma_add_candidate_numbered};

verus! {

/// Segment `i` takes the floor from another speaker within `gap` of the
/// previous segment's end (or while it is still running).
pub open spec fn prompt_take_up(segs: Seq<SpeakerSegment>, i: int, gap: int) -> bool {
    &&& 0 < i < segs.len()
    &&& segment_ok(segs[i])
    &&& segs[i].speaker_id@ != segs[i - 1].speaker_id@
    &&& segs[i].start_time <= segs[i - 1].end_time + gap
}

/// The orientation marker a segment gives.
pub open spec fn orientation_candidate(s: SpeakerSegment) -> MarkerView {
    MarkerView {
        id: MarkerId { stage: Stage::A, number: 0 },
        marker_type: Stage::A,
        start_time: s.start_time as int,
        end_time: s.end_time as int,
        confidence: s.confidence as int,
        evidence: s.text@,
        explanation: "prompt take-up of the floor by another speaker"@,
        speaker: Some(s.speaker_id@),
    }
}

/// Stage A output over the first `n` segments.
pub open spec fn stage_a_upto(segs: Seq<SpeakerSegment>, gap: int, n: int) -> Seq<MarkerView>
    decreases n,
{
    if n <= 0 {
        Seq::empty()
    } else {
        let p = stage_a_upto(segs, gap, n - 1);
        if prompt_take_up(segs, n - 1, gap) {
            add_candidate(p, orientation_candidate(segs[n - 1]))
        } else {
            p
        }
    }
}

pub open spec fn stage_a(segs: Seq<SpeakerSegment>, gap: int) -> Seq<MarkerView> {
    stage_a_upto(segs, gap, segs.len() as int)
}

/// Stage A: one orientation marker for each prompt take-up of the floor by
/// another speaker; a malformed segment is skipped.
pub fn detect_orientation(segs: &Vec<SpeakerSegment>, turn_gap: u64) -> (r: Vec<MarkerEvent>)
    ensures
        views(r@) == stage_a(segs@, turn_gap as int),
        numbered(views(r@), Stage::A),
        r.len() <= segs.len(),
{
    let mut out: Vec<MarkerEvent> = Vec::new();
    let mut i: usize = 0;
    proof {
        assert(views(out@) =~= Seq::<MarkerView>::empty());
    }
    while i < segs.len()
        invariant
            i <= segs.len(),
            views(out@) == stage_a_upto(segs@, turn_gap as int, i as int),
            numbered(views(out@), Stage::A),
            out.len() <= i,
        decreases segs.len() - i,
    {
        let s = &segs[i];
        if i > 0 && segment_is_ok(s) {
            let prev = &segs[i - 1];
            let quick = s.start_time <= prev.end_time || s.start_time - prev.end_time <= turn_gap;
            let same = s.speaker_id == prev.speaker_id;
            if quick && !same {
                let c = MarkerEvent {
                    id: MarkerId { stage: Stage::A, number: 0 },
                    marker_type: Stage::A,
                    start_time: s.start_time,
                    end_time: s.end_time,
                    confidence: s.confidence,
                    evidence: s.text.clone(),
                    explanation: "prompt take-up of the floor by another speaker".to_string(),
                    speaker: Some(s.speaker_id.clone()),
                };
                proof {
                    assert(c@ == orientation_candidate(segs@[i as int]));
                    lemma_add_candidate_numbered(views(out@), c@, Stage::A);
                }
                add_candidate_marker(&mut out, c);
            }
        }
        i = i + 1;
    }
    out
}

} // verus!
