use vstd::prelude::*;
use crate::marker::{Stage, MarkerId, MarkerEvent, MarkerView, views, numbered};
use crate::config::AnalysisConfig;
use crate::error::AnalysisError;

verus! {

pub open spec fn sum_confidence(c: Seq<MarkerView>) -> int
    decreases c.len(),
{
    if c.len() == 0 { 0 } else { sum_confidence(c.drop_last()) + c.last().confidence }
}

/// Earliest start over a non-empty sequence of markers.
pub open spec fn first_start(c: Seq<MarkerView>) -> int
    decreases c.len(),
{
    if c.len() <= 1 {
        c[0].start_time
    } else {
        let m = first_start(c.drop_last());
        if c.last().start_time < m { c.last().start_time } else { m }
    }
}

/// Latest end over a non-empty sequence of markers.
pub open spec fn last_end(c: Seq<MarkerView>) -> int
    decreases c.len(),
{
    if c.len() <= 1 {
        c[0].end_time
    } else {
        let m = last_end(c.drop_last());
        if c.last().end_time > m { c.last().end_time } else { m }
    }
}

/// The session-wide pattern: from the first cluster's start to the last
/// cluster's end, with the mean confidence of the clusters.
pub open spec fn pattern_marker(c: Seq<MarkerView>) -> MarkerView {
    MarkerView {
        id: MarkerId { stage: Stage::D, number: 1 },
        marker_type: Stage::D,
        start_time: first_start(c),
        end_time: last_end(c),
        confidence: sum_confidence(c) / (c.len() as int),
        evidence: c[0].evidence,
        explanation: "recurring reciprocal exchanges across the session"@,
        speaker: None,
    }
}

/// Stage D output: one pattern marker when the session holds at least the
/// configured number of clusters (and at least one), none otherwise.
pub open spec fn stage_d(c: Seq<MarkerView>, cfg: AnalysisConfig) -> Seq<MarkerView> {
    if c.len() > 0 && c.len() >= cfg.min_clusters {
        seq![pattern_marker(c)]
    } else {
        Seq::empty()
    }
}

pub proof fn lemma_sum_bound(c: Seq<MarkerView>, bound: int)
    requires
        forall|i: int| 0 <= i < c.len() ==> 0 <= (#[trigger] c[i]).confidence <= bound,
    ensures
        0 <= sum_confidence(c) <= c.len() * bound,
    decreases c.len(),
{
    if c.len() > 0 {
        let p = c.drop_last();
        assert forall|i: int| 0 <= i < p.len() implies 0 <= (#[trigger] p[i]).confidence <= bound by {
            assert(p[i] == c[i]);
        }
        lemma_sum_bound(p, bound);
        assert(p.len() * bound + bound == c.len() * bound) by (nonlinear_arith)
            requires p.len() + 1 == c.len();
    }
}

/// Stage D: detects a session-wide pattern of recurring reciprocal
/// exchanges over the whole marker stream. Fails when Stage A, B or C has
/// not run.
pub fn detect_meta_pattern(
    a: Option<&Vec<MarkerEvent>>,
    b: Option<&Vec<MarkerEvent>>,
    c: Option<&Vec<MarkerEvent>>,
    cfg: &AnalysisConfig,
) -> (r: Result<Vec<MarkerEvent>, AnalysisError>)
    ensures
        r is Err <==> (a is None || b is None || c is None),
        r is Err ==> r->Err_0 == AnalysisError::StageDependencyError,
        r is Ok ==> views(r->Ok_0@) == stage_d(views(c->Some_0@), *cfg),
        r is Ok ==> numbered(views(r->Ok_0@), Stage::D),
{
    if a.is_none() || b.is_none() {
        return Err(AnalysisError::StageDependencyError);
    }
    let c = match c {
        Some(c) => c,
        None => { return Err(AnalysisError::StageDependencyError); },
    };
    let mut out: Vec<MarkerEvent> = Vec::new();
    let ghost cv = views(c@);
    if c.len() == 0 || c.len() < cfg.min_clusters {
        proof {
            assert(views(out@) =~= Seq::<MarkerView>::empty());
        }
        return Ok(out);
    }
    let mut lo: u64 = c[0].start_time;
    let mut hi: u64 = c[0].end_time;
    let mut sum: u128 = c[0].confidence as u128;
    let mut i: usize = 1;
    proof {
        assert(cv.take(1).drop_last() =~= Seq::<MarkerView>::empty());
        assert(cv.take(1)[0] == cv[0]);
        assert(cv[0] == c@[0]@);
        assert(sum_confidence(cv.take(1).drop_last()) == 0);
        assert(sum_confidence(cv.take(1)) == cv[0].confidence);
    }
    while i < c.len()
        invariant
            1 <= i <= c.len(),
            cv == views(c@),
            lo == first_start(cv.take(i as int)),
            hi == last_end(cv.take(i as int)),
            sum == sum_confidence(cv.take(i as int)),
            sum <= i * 0xffff_ffffu128,
        decreases c.len() - i,
    {
        proof {
            assert(cv.take(i + 1).drop_last() =~= cv.take(i as int));
            assert(cv.take(i + 1).last() == c@[i as int]@);
        }
        if c[i].start_time < lo {
            lo = c[i].start_time;
        }
        if c[i].end_time > hi {
            hi = c[i].end_time;
        }
        sum = sum + c[i].confidence as u128;
        i = i + 1;
    }
    proof {
        assert(cv.take(c.len() as int) =~= cv);
        assert forall|k: int| 0 <= k < cv.len() implies 0 <= (#[trigger] cv[k]).confidence <= 0xffff_ffff by {
            assert(cv[k] == c@[k]@);
        }
        lemma_sum_bound(cv, 0xffff_ffff);
        let n = cv.len() as int;
        assert(sum_confidence(cv) / n <= 0xffff_ffff) by (nonlinear_arith)
            requires 0 <= sum_confidence(cv) <= n * 0xffff_ffff, n > 0;
        assert(cv[0] == c@[0]@);
    }
    let mean = (sum / (c.len() as u128)) as u32;
    let m = MarkerEvent {
        id: MarkerId { stage: Stage::D, number: 1 },
        marker_type: Stage::D,
        start_time: lo,
        end_time: hi,
        confidence: mean,
        evidence: c[0].evidence.clone(),
        explanation: "recurring reciprocal exchanges across the session".to_string(),
        speaker: None,
    };
    out.push(m);
    proof {
        assert(views(out@) =~= seq![pattern_marker(cv)]);
    }
    Ok(out)
}

} // verus!
