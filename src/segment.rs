use vstd::prelude::*;

verus! {

/// Largest confidence, in permille: a confidence of one.
pub const FULL_CONFIDENCE: u32 = 1000;

/// One speaker-attributed utterance of a transcript.
pub struct SpeakerSegment {
    pub speaker_id: String,
    pub speaker_label: String,
    /// Start of the utterance, in milliseconds.
    pub start_time: u64,
    /// End of the utterance, in milliseconds.
    pub end_time: u64,
    pub text: String,
    /// Transcription confidence, in permille.
    pub confidence: u32,
}

/// Bytes of the segment's text as UTF-8.
pub open spec fn text_bytes(s: SpeakerSegment) -> Seq<u8> {
    vstd::utf8::encode_utf8(s.text@)
}

/// A segment that may enter the pipeline: a positive duration, a
/// confidence within one, and some text.
pub open spec fn segment_ok(s: SpeakerSegment) -> bool {
    &&& s.start_time < s.end_time
    &&& s.confidence <= FULL_CONFIDENCE
    &&& s.text@.len() > 0
}

pub open spec fn segments_ok(segs: Seq<SpeakerSegment>) -> bool {
    forall|i: int| 0 <= i < segs.len() ==> #[trigger] segment_ok(segs[i])
}

/// Earliest start over a non-empty sequence of segments.
pub open spec fn min_start(segs: Seq<SpeakerSegment>) -> int
    decreases segs.len(),
{
    if segs.len() <= 1 {
        segs[0].start_time as int
    } else {
        let m = min_start(segs.drop_last());
        if segs.last().start_time < m { segs.last().start_time as int } else { m }
    }
}

/// Latest end over a non-empty sequence of segments.
pub open spec fn max_end(segs: Seq<SpeakerSegment>) -> int
    decreases segs.len(),
{
    if segs.len() <= 1 {
        segs[0].end_time as int
    } else {
        let m = max_end(segs.drop_last());
        if segs.last().end_time > m { segs.last().end_time as int } else { m }
    }
}

pub proof fn lemma_span_bounds(segs: Seq<SpeakerSegment>)
    requires
        segs.len() > 0,
    ensures
        forall|i: int| 0 <= i < segs.len() ==> min_start(segs) <= #[trigger] segs[i].start_time,
        forall|i: int| 0 <= i < segs.len() ==> #[trigger] segs[i].end_time <= max_end(segs),
        exists|i: int| 0 <= i < segs.len() && segs[i].start_time == min_start(segs),
        exists|i: int| 0 <= i < segs.len() && segs[i].end_time == max_end(segs),
    decreases segs.len(),
{
    if segs.len() > 1 {
        let p = segs.drop_last();
        lemma_span_bounds(p);
        assert forall|i: int| 0 <= i < segs.len() - 1 implies segs[i] == p[i] by {}
        let j = choose|j: int| 0 <= j < p.len() && p[j].start_time == min_start(p);
        let k = choose|k: int| 0 <= k < p.len() && p[k].end_time == max_end(p);
        assert(p[j] == segs[j] && p[k] == segs[k]);
        let n = segs.len() - 1;
        if segs.last().start_time < min_start(p) {
            assert(segs[n].start_time == min_start(segs));
        } else {
            assert(segs[j].start_time == min_start(segs));
        }
        if segs.last().end_time > max_end(p) {
            assert(segs[n].end_time == max_end(segs));
        } else {
            assert(segs[k].end_time == max_end(segs));
        }
    } else {
        assert(segs[0].start_time == min_start(segs));
        assert(segs[0].end_time == max_end(segs));
    }
}

/// Checks one segment against `segment_ok`.
pub fn segment_is_ok(s: &SpeakerSegment) -> (r: bool)
    ensures
        r == segment_ok(*s),
{
    s.start_time < s.end_time && s.confidence <= FULL_CONFIDENCE && !s.text.as_str().is_empty()
}

/// Checks every segment at pipeline entry; `false` when any segment is malformed.
pub fn validate_segments(segs: &Vec<SpeakerSegment>) -> (r: bool)
    ensures
        r == segments_ok(segs@),
{
    let mut i: usize = 0;
    while i < segs.len()
        invariant
            i <= segs.len(),
            forall|j: int| 0 <= j < i ==> #[trigger] segment_ok(segs@[j]),
        decreases segs.len() - i,
    {
        let s = &segs[i];
        if !(s.start_time < s.end_time && s.confidence <= FULL_CONFIDENCE && !s.text.as_str().is_empty()) {
            assert(!segment_ok(segs@[i as int]));
            return false;
        }
        i = i + 1;
    }
    true
}

/// The session's time span: earliest start and latest end over all segments.
pub fn session_span(segs: &Vec<SpeakerSegment>) -> (r: (u64, u64))
    requires
        segs.len() > 0,
    ensures
        r.0 == min_start(segs@),
        r.1 == max_end(segs@),
{
    let mut lo: u64 = segs[0].start_time;
    let mut hi: u64 = segs[0].end_time;
    let mut i: usize = 1;
    while i < segs.len()
        invariant
            1 <= i <= segs.len(),
            lo == min_start(segs@.take(i as int)),
            hi == max_end(segs@.take(i as int)),
        decreases segs.len() - i,
    {
        proof {
            assert(segs@.take(i + 1).drop_last() =~= segs@.take(i as int));
        }
        if segs[i].start_time < lo {
            lo = segs[i].start_time;
        }
        if segs[i].end_time > hi {
            hi = segs[i].end_time;
        }
        i = i + 1;
    }
    proof {
        assert(segs@.take(segs.len() as int) =~= segs@);
    }
    (lo, hi)
}

} // verus!

verus! {

/// Positions among the first `n` segments of those a stage skips as malformed.
pub open spec fn malformed_upto(segs: Seq<SpeakerSegment>, n: int) -> Seq<usize>
    decreases n,
{
    if n <= 0 {
        Seq::empty()
    } else if segment_ok(segs[n - 1]) {
        malformed_upto(segs, n - 1)
    } else {
        malformed_upto(segs, n - 1).push((n - 1) as usize)
    }
}

/// The warnings of a stage run: positions, in order, of the segments that
/// the stages skip because they are malformed.
pub fn malformed_segments(segs: &Vec<SpeakerSegment>) -> (r: Vec<usize>)
    ensures
        r@ == malformed_upto(segs@, segs.len() as int),
{
    let mut out: Vec<usize> = Vec::new();
    let mut i: usize = 0;
    while i < segs.len()
        invariant
            i <= segs.len(),
            out@ == malformed_upto(segs@, i as int),
        decreases segs.len() - i,
    {
        if !segment_is_ok(&segs[i]) {
            out.push(i);
        }
        i = i + 1;
    }
    out
}

} // verus!
