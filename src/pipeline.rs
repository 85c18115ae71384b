use vstd::prelude::*;
use crate::segment::{SpeakerSegment, FULL_CONFIDENCE, segments_ok, segment_ok, text_bytes, min_start, max_end, validate_segments, lemma_span_bounds};
use crate::marker::{Stage, MarkerEvent, MarkerView, views, add_candidate, lemma_slot_of};
use crate::config::AnalysisConfig;
use crate::error::AnalysisError;
use crate::stage_a::{stage_a, stage_a_upto, prompt_take_up, orientation_candidate, detect_orientation};
use crate::stage_b::{stage_b, stage_b_upto, first_term, evaluative_candidate, near_orientation, detect_evaluative};
use crate::stage_c::{stage_c, stage_c_upto, reciprocal, cluster_candidate, detect_clusters};
use crate::stage_d::{stage_d, first_start, last_end, sum_confidence, lemma_sum_bound, detect_meta_pattern};
use crate::rapport::{RapportIndicator, RapportView, rapport_views, rapport_series, calculate_rapport};

verus! {

/// Where a run stands: the stage running next, the rapport engine, or done.
#[derive(PartialEq, Eq, Structural, Clone, Copy, Debug)]
pub enum Phase {
    A,
    B,
    C,
    D,
    Rapport,
    Complete,
}

/// Progress in permille, by steps of one fifth.
pub const PROGRESS_STEP: u32 = 200;

/// Published after a stage completes: the stage, the fraction of the run
/// done (in permille), and the markers found so far.
#[derive(PartialEq, Eq, Structural, Clone, Copy, Debug)]
pub struct ProgressUpdate {
    pub stage: Phase,
    pub progress: u32,
    pub markers_detected: usize,
}

/// The markers and the rapport series of a completed run, with the
/// progress updates it published.
pub struct PipelineRun {
    pub markers: Vec<MarkerEvent>,
    pub rapport: Vec<RapportIndicator>,
    pub updates: Vec<ProgressUpdate>,
}

/// Outputs of the four stages, each fed the segments and what came before.
pub open spec fn spec_a(segs: Seq<SpeakerSegment>, cfg: AnalysisConfig) -> Seq<MarkerView> {
    stage_a(segs, cfg.turn_gap as int)
}

pub open spec fn spec_b(segs: Seq<SpeakerSegment>, cfg: AnalysisConfig) -> Seq<MarkerView> {
    stage_b(segs, spec_a(segs, cfg), cfg)
}

pub open spec fn spec_c(segs: Seq<SpeakerSegment>, cfg: AnalysisConfig) -> Seq<MarkerView> {
    stage_c(segs, spec_b(segs, cfg), cfg)
}

pub open spec fn spec_d(segs: Seq<SpeakerSegment>, cfg: AnalysisConfig) -> Seq<MarkerView> {
    stage_d(spec_c(segs, cfg), cfg)
}

/// All markers of a run, stage by stage.
pub open spec fn pipeline_markers(segs: Seq<SpeakerSegment>, cfg: AnalysisConfig) -> Seq<MarkerView> {
    spec_a(segs, cfg) + spec_b(segs, cfg) + spec_c(segs, cfg) + spec_d(segs, cfg)
}

pub open spec fn pipeline_rapport(segs: Seq<SpeakerSegment>, cfg: AnalysisConfig) -> Seq<RapportView> {
    rapport_series(segs, pipeline_markers(segs, cfg), cfg)
}

/// The updates of a run: one per stage, then one for the rapport engine.
pub open spec fn pipeline_updates(segs: Seq<SpeakerSegment>, cfg: AnalysisConfig) -> Seq<ProgressUpdate> {
    let na = spec_a(segs, cfg).len();
    let nb = na + spec_b(segs, cfg).len();
    let nc = nb + spec_c(segs, cfg).len();
    let nd = nc + spec_d(segs, cfg).len();
    seq![
        ProgressUpdate { stage: Phase::A, progress: 200, markers_detected: na as usize },
        ProgressUpdate { stage: Phase::B, progress: 400, markers_detected: nb as usize },
        ProgressUpdate { stage: Phase::C, progress: 600, markers_detected: nc as usize },
        ProgressUpdate { stage: Phase::D, progress: 800, markers_detected: nd as usize },
        ProgressUpdate { stage: Phase::Rapport, progress: 1000, markers_detected: nd as usize },
    ]
}

/// Runs one stage on the segments and the outputs of the stages completed
/// before it, in order. Stage B reads Stage A's output when there is one;
/// Stages C and D fail without the outputs they depend on.
pub fn run_stage(stage: Stage, segs: &Vec<SpeakerSegment>, done: &Vec<Vec<MarkerEvent>>, cfg: &AnalysisConfig)
    -> (r: Result<Vec<MarkerEvent>, AnalysisError>)
    ensures
        r is Err <==> ((stage == Stage::C && done.len() < 2) || (stage == Stage::D && done.len() < 3)),
        r is Err ==> r->Err_0 == AnalysisError::StageDependencyError,
        r is Ok ==> views(r->Ok_0@) == match stage {
            Stage::A => stage_a(segs@, cfg.turn_gap as int),
            Stage::B => stage_b(segs@, if done.len() > 0 { views(done@[0]@) } else { Seq::empty() }, *cfg),
            Stage::C => stage_c(segs@, views(done@[1]@), *cfg),
            Stage::D => stage_d(views(done@[2]@), *cfg),
        },
{
    match stage {
        Stage::A => Ok(detect_orientation(segs, cfg.turn_gap)),
        Stage::B => {
            if done.len() > 0 {
                Ok(detect_evaluative(segs, &done[0], cfg))
            } else {
                let none: Vec<MarkerEvent> = Vec::new();
                proof {
                    assert(views(none@) =~= Seq::<MarkerView>::empty());
                }
                Ok(detect_evaluative(segs, &none, cfg))
            }
        },
        Stage::C => {
            let a = if done.len() > 0 { Some(&done[0]) } else { None };
            let b = if done.len() > 1 { Some(&done[1]) } else { None };
            detect_clusters(segs, a, b, cfg)
        },
        Stage::D => {
            let a = if done.len() > 0 { Some(&done[0]) } else { None };
            let b = if done.len() > 1 { Some(&done[1]) } else { None };
            let c = if done.len() > 2 { Some(&done[2]) } else { None };
            detect_meta_pattern(a, b, c, cfg)
        },
    }
}

/// Runs the four stages in order, then the rapport engine. Fails with
/// `InvalidInput`, before any stage runs, when a segment is malformed.
pub fn run_pipeline(segs: &Vec<SpeakerSegment>, cfg: &AnalysisConfig) -> (r: Result<PipelineRun, AnalysisError>)
    requires
        cfg.wf(),
        segs.len() <= usize::MAX / 4,
        segs.len() > 0 ==> max_end(segs@) + cfg.rapport_window <= u64::MAX,
    ensures
        r is Err <==> !segments_ok(segs@),
        r is Err ==> r->Err_0 == AnalysisError::InvalidInput,
        r is Ok ==> views(r->Ok_0.markers@) == pipeline_markers(segs@, *cfg),
        r is Ok ==> rapport_views(r->Ok_0.rapport@) == pipeline_rapport(segs@, *cfg),
        r is Ok ==> r->Ok_0.updates@ == pipeline_updates(segs@, *cfg),
{
    if !validate_segments(segs) {
        return Err(AnalysisError::InvalidInput);
    }
    let mut a = detect_orientation(segs, cfg.turn_gap);
    let mut b = detect_evaluative(segs, &a, cfg);
    let mut c = match detect_clusters(segs, Some(&a), Some(&b), cfg) {
        Ok(c) => c,
        Err(e) => { return Err(e); },
    };
    let mut d = match detect_meta_pattern(Some(&a), Some(&b), Some(&c), cfg) {
        Ok(d) => d,
        Err(e) => { return Err(e); },
    };
    proof {
        if c.len() >= 1 {
            assert(views(d@).len() <= 1);
        }
        assert(views(d@).len() == d.len());
    }
    let na = a.len();
    let nb = na + b.len();
    let nc = nb + c.len();
    let nd = nc + d.len();
    let mut updates: Vec<ProgressUpdate> = Vec::new();
    updates.push(ProgressUpdate { stage: Phase::A, progress: PROGRESS_STEP, markers_detected: na });
    updates.push(ProgressUpdate { stage: Phase::B, progress: 2 * PROGRESS_STEP, markers_detected: nb });
    updates.push(ProgressUpdate { stage: Phase::C, progress: 3 * PROGRESS_STEP, markers_detected: nc });
    updates.push(ProgressUpdate { stage: Phase::D, progress: 4 * PROGRESS_STEP, markers_detected: nd });
    updates.push(ProgressUpdate { stage: Phase::Rapport, progress: 5 * PROGRESS_STEP, markers_detected: nd });
    let ghost ga = views(a@);
    let ghost gb = views(b@);
    let ghost gc = views(c@);
    let ghost gd = views(d@);
    let mut markers: Vec<MarkerEvent> = Vec::new();
    markers.append(&mut a);
    markers.append(&mut b);
    markers.append(&mut c);
    markers.append(&mut d);
    proof {
        assert(views(markers@) =~= ga + gb + gc + gd);
        assert(updates@ =~= pipeline_updates(segs@, *cfg));
    }
    let rapport = calculate_rapport(segs, &markers, cfg);
    Ok(PipelineRun { markers, rapport, updates })
}

} // verus!

verus! {

/// Every marker lies within `[lo, hi]`, starts no later than it ends, and
/// has a confidence of at most one.
pub open spec fn within(s: Seq<MarkerView>, lo: int, hi: int) -> bool {
    forall|i: int| 0 <= i < s.len() ==> lo <= (#[trigger] s[i]).start_time && s[i].end_time <= hi
        && s[i].start_time <= s[i].end_time
        && 0 <= s[i].confidence <= FULL_CONFIDENCE
}

proof fn lemma_add_within(s: Seq<MarkerView>, c: MarkerView, lo: int, hi: int)
    requires
        within(s, lo, hi),
        lo <= c.start_time,
        c.end_time <= hi,
        c.start_time <= c.end_time,
        0 <= c.confidence <= FULL_CONFIDENCE,
    ensures
        within(add_candidate(s, c), lo, hi),
        add_candidate(s, c).len() <= s.len() + 1,
{
    lemma_slot_of(s, c);
    let r = add_candidate(s, c);
    assert forall|i: int| 0 <= i < r.len() implies lo <= (#[trigger] r[i]).start_time && r[i].end_time <= hi by {
        if i < s.len() && r[i] != s[i] {
            assert(r[i].start_time == c.start_time && r[i].end_time == c.end_time);
            assert(r[i].confidence == c.confidence);
        }
    }
}

proof fn lemma_a_within(segs: Seq<SpeakerSegment>, gap: int, n: int)
    requires
        segs.len() > 0,
        0 <= n <= segs.len(),
    ensures
        within(stage_a_upto(segs, gap, n), min_start(segs), max_end(segs)),
        stage_a_upto(segs, gap, n).len() <= n,
    decreases n,
{
    if n > 0 {
        lemma_a_within(segs, gap, n - 1);
        lemma_span_bounds(segs);
        let s = segs[n - 1];
        assert(min_start(segs) <= s.start_time && s.end_time <= max_end(segs));
        if prompt_take_up(segs, n - 1, gap) {
            lemma_add_within(stage_a_upto(segs, gap, n - 1), orientation_candidate(s), min_start(segs), max_end(segs));
        }
    }
}

proof fn lemma_b_within(segs: Seq<SpeakerSegment>, a: Seq<MarkerView>, cfg: AnalysisConfig, n: int)
    requires
        segs.len() > 0,
        0 <= n <= segs.len(),
    ensures
        within(stage_b_upto(segs, a, cfg, n), min_start(segs), max_end(segs)),
        stage_b_upto(segs, a, cfg, n).len() <= n,
    decreases n,
{
    if n > 0 {
        lemma_b_within(segs, a, cfg, n - 1);
        lemma_span_bounds(segs);
        let s = segs[n - 1];
        assert(min_start(segs) <= s.start_time && s.end_time <= max_end(segs));
        let k = first_term(text_bytes(s), cfg.evaluative_terms@);
        if segment_ok(s) && k >= 0 {
            lemma_add_within(stage_b_upto(segs, a, cfg, n - 1), evaluative_candidate(s, cfg.evaluative_terms@[k]@,
                near_orientation(a, s, cfg.proximity as int), cfg.proximity_boost as int), min_start(segs), max_end(segs));
        }
    }
}

proof fn lemma_c_within(b: Seq<MarkerView>, lo: int, hi: int, cfg: AnalysisConfig, n: int)
    requires
        0 <= n,
        within(b, lo, hi),
    ensures
        within(stage_c_upto(b, lo, hi, cfg, n), lo, hi),
        stage_c_upto(b, lo, hi, cfg, n).len() <= n,
    decreases n,
{
    if n > 0 {
        lemma_c_within(b, lo, hi, cfg, n - 1);
        if reciprocal(b, n - 1, cfg) {
            lemma_add_within(stage_c_upto(b, lo, hi, cfg, n - 1),
                cluster_candidate(b[n - 1], b[n], lo, hi, cfg.reciprocity_gap as int), lo, hi);
        }
    }
}

proof fn lemma_d_bounds(c: Seq<MarkerView>, lo: int, hi: int)
    requires
        c.len() > 0,
        within(c, lo, hi),
    ensures
        lo <= first_start(c),
        last_end(c) <= hi,
        first_start(c) <= last_end(c),
        0 <= sum_confidence(c) / (c.len() as int) <= FULL_CONFIDENCE,
    decreases c.len(),
{
    lemma_sum_bound(c, FULL_CONFIDENCE as int);
    lemma_extremes(c);
    assert(first_start(c) <= c[0].start_time && c[0].end_time <= last_end(c));
    let n = c.len() as int;
    let t = sum_confidence(c);
    assert(0 <= t / n <= FULL_CONFIDENCE) by (nonlinear_arith)
        requires 0 <= t <= n * 1000, n > 0;
    if c.len() > 1 {
        let p = c.drop_last();
        assert forall|i: int| 0 <= i < p.len() implies lo <= (#[trigger] p[i]).start_time && p[i].end_time <= hi by {
            assert(p[i] == c[i]);
        }
        lemma_d_bounds(p, lo, hi);
        assert(lo <= c[c.len() - 1].start_time);
    }
}

proof fn lemma_extremes(c: Seq<MarkerView>)
    requires
        c.len() > 0,
    ensures
        forall|i: int| 0 <= i < c.len() ==> first_start(c) <= (#[trigger] c[i]).start_time && c[i].end_time <= last_end(c),
    decreases c.len(),
{
    if c.len() > 1 {
        let p = c.drop_last();
        lemma_extremes(p);
        assert forall|i: int| 0 <= i < c.len() implies first_start(c) <= (#[trigger] c[i]).start_time && c[i].end_time <= last_end(c) by {
            if i < c.len() - 1 {
                assert(c[i] == p[i]);
            }
        }
    }
}

/// Every marker of a run lies within the session's span, from the earliest
/// segment start to the latest segment end, starts no later than it ends,
/// and has a confidence of at most one.
pub proof fn law_markers_within_session(segs: Seq<SpeakerSegment>, cfg: AnalysisConfig)
    requires
        segs.len() > 0,
    ensures
        forall|i: int| 0 <= i < pipeline_markers(segs, cfg).len() ==>
            min_start(segs) <= (#[trigger] pipeline_markers(segs, cfg)[i]).start_time
            && pipeline_markers(segs, cfg)[i].end_time <= max_end(segs)
            && pipeline_markers(segs, cfg)[i].start_time <= pipeline_markers(segs, cfg)[i].end_time
            && 0 <= pipeline_markers(segs, cfg)[i].confidence <= FULL_CONFIDENCE,
{
    let lo = min_start(segs);
    let hi = max_end(segs);
    lemma_a_within(segs, cfg.turn_gap as int, segs.len() as int);
    lemma_b_within(segs, spec_a(segs, cfg), cfg, segs.len() as int);
    let b = spec_b(segs, cfg);
    lemma_c_within(b, lo, hi, cfg, b.len() as int);
    let c = spec_c(segs, cfg);
    if c.len() > 0 {
        lemma_d_bounds(c, lo, hi);
    }
    assert(within(spec_d(segs, cfg), lo, hi));
    let all = pipeline_markers(segs, cfg);
    assert(within(all, lo, hi));
}

/// Each stage finds at most one marker per segment (Stage D at most one in
/// all).
pub proof fn law_stage_counts(segs: Seq<SpeakerSegment>, cfg: AnalysisConfig)
    ensures
        spec_a(segs, cfg).len() <= segs.len(),
        spec_b(segs, cfg).len() <= segs.len(),
        spec_c(segs, cfg).len() <= segs.len(),
        spec_d(segs, cfg).len() <= 1,
{
    if segs.len() > 0 {
        lemma_a_within(segs, cfg.turn_gap as int, segs.len() as int);
        lemma_b_within(segs, spec_a(segs, cfg), cfg, segs.len() as int);
        let b = spec_b(segs, cfg);
        lemma_c_within(b, min_start(segs), max_end(segs), cfg, b.len() as int);
    }
}

/// A run reports Stage A, B, C and D in that order, each only after the one
/// before it, then the rapport engine; progress strictly increases by fifths
/// up to one, and the marker count never decreases.
pub proof fn law_stage_order(segs: Seq<SpeakerSegment>, cfg: AnalysisConfig)
    requires
        segs.len() <= usize::MAX / 4,
    ensures
        pipeline_updates(segs, cfg).len() == 5,
        pipeline_updates(segs, cfg)[0].stage == Phase::A,
        pipeline_updates(segs, cfg)[1].stage == Phase::B,
        pipeline_updates(segs, cfg)[2].stage == Phase::C,
        pipeline_updates(segs, cfg)[3].stage == Phase::D,
        pipeline_updates(segs, cfg)[4].stage == Phase::Rapport,
        pipeline_updates(segs, cfg)[4].progress == 1000,
        forall|i: int| 0 <= i < 4 ==> (#[trigger] pipeline_updates(segs, cfg)[i]).progress
            < pipeline_updates(segs, cfg)[i + 1].progress,
        forall|i: int| 0 <= i < 4 ==> (#[trigger] pipeline_updates(segs, cfg)[i]).markers_detected
            <= pipeline_updates(segs, cfg)[i + 1].markers_detected,
        pipeline_updates(segs, cfg)[4].markers_detected == pipeline_markers(segs, cfg).len(),
{
    law_stage_counts(segs, cfg);
}

/// Two runs on the same segments with the same configuration give the same
/// markers and the same rapport series.
pub proof fn law_rerun_identical(
    segs: Seq<SpeakerSegment>,
    cfg: AnalysisConfig,
    first: Seq<MarkerView>,
    second: Seq<MarkerView>,
    first_rapport: Seq<RapportView>,
    second_rapport: Seq<RapportView>,
)
    requires
        first == pipeline_markers(segs, cfg),
        second == pipeline_markers(segs, cfg),
        first_rapport == pipeline_rapport(segs, cfg),
        second_rapport == pipeline_rapport(segs, cfg),
    ensures
        first == second,
        first_rapport == second_rapport,
{
}

} // verus!
