use vstd::prelude::*;
use crate::segment::{SpeakerSegment, min_start, max_end, session_span};
use crate::marker::{Stage, MarkerId, MarkerEvent, MarkerView, views, add_candidate, numbered, add_candidate_marker, lemma_add_candidate_numbered};
use crate::config::AnalysisConfig;
use crate::error::AnalysisError;

verus! {

pub open spec fn min_int(x: int, y: int) -> int {
    if x < y { x } else { y }
}

pub open spec fn max_int(x: int, y: int) -> int {
    if x > y { x } else { y }
}

/// Stage B markers `i` and `i + 1` form a reciprocal exchange: two speakers,
/// the second turn within the reciprocity gap of the first, both within the
/// cluster window.
pub open spec fn reciprocal(b: Seq<MarkerView>, i: int, cfg: AnalysisConfig) -> bool {
    &&& 0 <= i
    &&& i + 1 < b.len()
    &&& b[i].speaker != b[i + 1].speaker
    &&& b[i + 1].start_time <= b[i].end_time + cfg.reciprocity_gap
    &&& b[i + 1].end_time <= b[i].start_time + cfg.cluster_window
}

/// The cluster marker of an exchange: both turns widened by the reciprocity
/// gap, kept within the session span `[lo, hi]`.
pub open spec fn cluster_candidate(x: MarkerView, y: MarkerView, lo: int, hi: int, gap: int) -> MarkerView {
    MarkerView {
        id: MarkerId { stage: Stage::C, number: 0 },
        marker_type: Stage::C,
        start_time: max_int(lo, min_int(x.start_time, y.start_time) - gap),
        end_time: min_int(hi, max_int(x.end_time, y.end_time) + gap),
        confidence: (x.confidence + y.confidence) / 2,
        evidence: x.evidence,
        explanation: "reciprocal evaluative exchange"@,
        speaker: None,
    }
}

/// Stage C output over the exchanges that start among the first `n` Stage B markers.
pub open spec fn stage_c_upto(b: Seq<MarkerView>, lo: int, hi: int, cfg: AnalysisConfig, n: int) -> Seq<MarkerView>
    decreases n,
{
    if n <= 0 {
        Seq::empty()
    } else {
        let p = stage_c_upto(b, lo, hi, cfg, n - 1);
        if reciprocal(b, n - 1, cfg) {
            add_candidate(p, cluster_candidate(b[n - 1], b[n], lo, hi, cfg.reciprocity_gap as int))
        } else {
            p
        }
    }
}

pub open spec fn stage_c(segs: Seq<SpeakerSegment>, b: Seq<MarkerView>, cfg: AnalysisConfig) -> Seq<MarkerView> {
    if segs.len() == 0 {
        Seq::empty()
    } else {
        stage_c_upto(b, min_start(segs), max_end(segs), cfg, b.len() as int)
    }
}

fn widen_start(x: u64, gap: u64, lo: u64) -> (r: u64)
    ensures
        r == max_int(lo as int, x - gap),
{
    let s = if x > gap { x - gap } else { 0 };
    if s < lo { lo } else { s }
}

fn widen_end(x: u64, gap: u64, hi: u64) -> (r: u64)
    ensures
        r == min_int(hi as int, x + gap),
{
    if x >= hi || hi - x <= gap { hi } else { x + gap }
}

/// Stage C: one cluster marker for each reciprocal exchange between
/// consecutive Stage B markers. Fails when Stage A or Stage B has not run.
pub fn detect_clusters(
    segs: &Vec<SpeakerSegment>,
    a: Option<&Vec<MarkerEvent>>,
    b: Option<&Vec<MarkerEvent>>,
    cfg: &AnalysisConfig,
) -> (r: Result<Vec<MarkerEvent>, AnalysisError>)
    ensures
        r is Err <==> (a is None || b is None),
        r is Err ==> r->Err_0 == AnalysisError::StageDependencyError,
        r is Ok ==> views(r->Ok_0@) == stage_c(segs@, views(b->Some_0@), *cfg),
        r is Ok ==> numbered(views(r->Ok_0@), Stage::C),
        r is Ok ==> r->Ok_0.len() <= b->Some_0.len(),
{
    if a.is_none() {
        return Err(AnalysisError::StageDependencyError);
    }
    let b = match b {
        Some(b) => b,
        None => { return Err(AnalysisError::StageDependencyError); },
    };
    let mut out: Vec<MarkerEvent> = Vec::new();
    proof {
        assert(views(out@) =~= Seq::<MarkerView>::empty());
    }
    if segs.len() == 0 || b.len() == 0 {
        return Ok(out);
    }
    let (lo, hi) = session_span(segs);
    let gap = cfg.reciprocity_gap;
    let mut i: usize = 0;
    while i + 1 < b.len()
        invariant
            i < b.len(),
            segs.len() > 0,
            lo == min_start(segs@),
            hi == max_end(segs@),
            gap == cfg.reciprocity_gap,
            views(out@) == stage_c_upto(views(b@), lo as int, hi as int, *cfg, i as int),
            numbered(views(out@), Stage::C),
            out.len() <= i,
        decreases b.len() - i,
    {
        let x = &b[i];
        let y = &b[i + 1];
        let ghost bv = views(b@);
        proof {
            assert(bv[i as int] == x@);
            assert(bv[i + 1] == y@);
        }
        let diff_speaker = !opt_string_eq(&x.speaker, &y.speaker);
        let close = y.start_time <= x.end_time || y.start_time - x.end_time <= gap;
        let within = y.end_time <= x.start_time || y.end_time - x.start_time <= cfg.cluster_window;
        if diff_speaker && close && within {
            let s0 = if x.start_time < y.start_time { x.start_time } else { y.start_time };
            let e0 = if x.end_time > y.end_time { x.end_time } else { y.end_time };
            let conf = ((x.confidence as u64 + y.confidence as u64) / 2) as u32;
            let c = MarkerEvent {
                id: MarkerId { stage: Stage::C, number: 0 },
                marker_type: Stage::C,
                start_time: widen_start(s0, gap, lo),
                end_time: widen_end(e0, gap, hi),
                confidence: conf,
                evidence: x.evidence.clone(),
                explanation: "reciprocal evaluative exchange".to_string(),
                speaker: None,
            };
            proof {
                assert(c@ == cluster_candidate(bv[i as int], bv[i + 1], lo as int, hi as int, gap as int));
                lemma_add_candidate_numbered(views(out@), c@, Stage::C);
            }
            add_candidate_marker(&mut out, c);
        }
        i = i + 1;
    }
    proof {
        assert(!reciprocal(views(b@), i as int, *cfg));
        assert(stage_c_upto(views(b@), lo as int, hi as int, *cfg, b.len() as int)
            == stage_c_upto(views(b@), lo as int, hi as int, *cfg, i as int));
    }
    Ok(out)
}

/// Equality of two optional speakers.
pub fn opt_string_eq(x: &Option<String>, y: &Option<String>) -> (r: bool)
    ensures
        r == (crate::marker::opt_view(*x) == crate::marker::opt_view(*y)),
{
    match (x, y) {
        (Some(p), Some(q)) => {
            let e = *p == *q;
            proof {
                if !e {
                    assert(crate::marker::opt_view(*x)->Some_0 != crate::marker::opt_view(*y)->Some_0);
                }
            }
            e
        },
        (None, None) => true,
        _ => false,
    }
}

} // verus!
