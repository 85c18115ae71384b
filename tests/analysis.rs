use transrapport::{
    calculate_rapport, contains_folded, detect_clusters, detect_evaluative, detect_meta_pattern,
    detect_orientation, malformed_segments, run_pipeline, run_stage, session_span, validate_segments, AnalysisConfig,
    AnalysisError, JobRegistry, JobStatus, MarkerEvent, MarkerId, Phase, RapportIndicator,
    SpeakerSegment, Stage, Trend,
};

fn seg(speaker: &str, start: u64, end: u64, text: &str, confidence: u32) -> SpeakerSegment {
    SpeakerSegment {
        speaker_id: speaker.to_string(),
        speaker_label: format!("Speaker {}", speaker),
        start_time: start,
        end_time: end,
        text: text.to_string(),
        confidence,
    }
}

/// A 180 s session with a reciprocal evaluative exchange at 60 s to 66 s.
fn exchange_session() -> Vec<SpeakerSegment> {
    vec![
        seg("X", 0, 20_000, "let us begin the session", 900),
        seg("X", 25_000, 45_000, "we will talk about the plan", 900),
        seg("X", 60_000, 62_500, "that is a great point", 900),
        seg("Y", 63_000, 66_000, "I agree completely", 900),
        seg("Y", 150_000, 180_000, "see you next week", 900),
    ]
}

fn ids(ms: &[MarkerEvent]) -> Vec<MarkerId> {
    ms.iter().map(|m| m.id).collect()
}

fn marker(stage: Stage, start: u64, end: u64, confidence: u32, speaker: Option<&str>) -> MarkerEvent {
    MarkerEvent {
        id: MarkerId { stage, number: 1 },
        marker_type: stage,
        start_time: start,
        end_time: end,
        confidence,
        evidence: "great".to_string(),
        explanation: String::new(),
        speaker: speaker.map(|s| s.to_string()),
    }
}

#[test]
fn default_config_values() {
    let cfg = AnalysisConfig::default_config();
    assert!(cfg.is_valid());
    assert_eq!(cfg.proximity, 5000);
    assert_eq!(cfg.cluster_window, 30_000);
    assert_eq!(cfg.rapport_window, 60_000);
    assert_eq!(cfg.rapport_step, 30_000);
    assert_eq!(cfg.trend_band, 50_000);
}

#[test]
fn invalid_segments_are_rejected() {
    let cfg = AnalysisConfig::default_config();
    let cases = vec![
        vec![seg("X", 10, 10, "hello", 500)],
        vec![seg("X", 10, 5, "hello", 500)],
        vec![seg("X", 0, 10, "hello", 1001)],
        vec![seg("X", 0, 10, "", 500)],
    ];
    for segs in cases {
        assert!(!validate_segments(&segs));
        assert!(matches!(run_pipeline(&segs, &cfg), Err(AnalysisError::InvalidInput)));
    }
    assert!(validate_segments(&exchange_session()));
}

#[test]
fn session_span_is_min_start_max_end() {
    let segs = vec![seg("X", 500, 900, "a", 1), seg("Y", 100, 2000, "b", 1), seg("X", 300, 400, "c", 1)];
    assert_eq!(session_span(&segs), (100, 2000));
}

#[test]
fn stage_a_marks_prompt_take_up() {
    let segs = vec![
        seg("X", 0, 1000, "hello", 800),
        seg("Y", 1500, 3000, "hi", 700),
        seg("Y", 3100, 4000, "again", 700),
        seg("X", 9000, 9500, "late", 600),
        seg("Y", 9200, 9800, "overlap", 650),
    ];
    let a = detect_orientation(&segs, 1000);
    assert_eq!(a.len(), 2);
    assert_eq!(a[0].id, MarkerId { stage: Stage::A, number: 1 });
    assert_eq!((a[0].start_time, a[0].end_time, a[0].confidence), (1500, 3000, 700));
    assert_eq!(a[0].speaker.as_deref(), Some("Y"));
    assert_eq!(a[0].evidence, "hi");
    assert_eq!(a[1].id, MarkerId { stage: Stage::A, number: 2 });
    assert_eq!((a[1].start_time, a[1].end_time), (9200, 9800));
}

#[test]
fn stage_a_skips_malformed_segment() {
    let segs = vec![seg("X", 0, 1000, "hello", 800), seg("Y", 1200, 1100, "bad", 700)];
    assert!(detect_orientation(&segs, 1000).is_empty());
}

#[test]
fn identical_interval_keeps_higher_confidence() {
    let segs = vec![
        seg("X", 0, 1000, "hello", 800),
        seg("Y", 1000, 2000, "hi", 600),
        seg("Z", 1000, 2000, "hey", 900),
        seg("W", 1000, 2000, "yo", 900),
    ];
    let a = detect_orientation(&segs, 1000);
    assert_eq!(a.len(), 1);
    assert_eq!(a[0].confidence, 900);
    assert_eq!(a[0].speaker.as_deref(), Some("Z"));
    assert_eq!(a[0].id, MarkerId { stage: Stage::A, number: 1 });
}

#[test]
fn term_matching_ignores_ascii_case() {
    assert!(contains_folded(b"That is GREAT news", b"great"));
    assert!(contains_folded(b"great", b"Great"));
    assert!(!contains_folded(b"grea", b"great"));
    assert!(!contains_folded(b"a grate idea", b"great"));
    assert!(contains_folded(b"anything", b""));
}

#[test]
fn stage_b_boosts_near_orientation() {
    let cfg = AnalysisConfig::default_config();
    let segs = vec![
        seg("X", 0, 1000, "hello", 800),
        seg("Y", 1500, 3000, "I agree", 700),
        seg("X", 40_000, 41_000, "Wonderful", 990),
        seg("X", 50_000, 51_000, "nothing here", 990),
    ];
    let a = detect_orientation(&segs, cfg.turn_gap);
    let b = detect_evaluative(&segs, &a, &cfg);
    assert_eq!(b.len(), 2);
    assert_eq!(b[0].evidence, "agree");
    assert_eq!(b[0].confidence, 800);
    assert_eq!(b[0].marker_type, Stage::B);
    assert_eq!(b[1].evidence, "wonderful");
    assert_eq!(b[1].confidence, 990);
    assert_eq!(b[1].id, MarkerId { stage: Stage::B, number: 2 });
}

#[test]
fn stage_b_boost_is_capped() {
    let cfg = AnalysisConfig::default_config();
    let segs = vec![seg("X", 0, 1000, "hello", 800), seg("Y", 1500, 3000, "great", 950)];
    let a = detect_orientation(&segs, cfg.turn_gap);
    let b = detect_evaluative(&segs, &a, &cfg);
    assert_eq!(b[0].confidence, 1000);
}

#[test]
fn stage_c_needs_prior_stages() {
    let cfg = AnalysisConfig::default_config();
    let segs = exchange_session();
    let a = detect_orientation(&segs, cfg.turn_gap);
    assert!(matches!(detect_clusters(&segs, Some(&a), None, &cfg), Err(AnalysisError::StageDependencyError)));
    assert!(matches!(detect_clusters(&segs, None, Some(&a), &cfg), Err(AnalysisError::StageDependencyError)));
    assert!(matches!(run_stage(Stage::C, &segs, &vec![a], &cfg), Err(AnalysisError::StageDependencyError)));
}

#[test]
fn stage_d_needs_prior_stages() {
    let cfg = AnalysisConfig::default_config();
    let e: Vec<MarkerEvent> = Vec::new();
    assert!(matches!(detect_meta_pattern(Some(&e), Some(&e), None, &cfg), Err(AnalysisError::StageDependencyError)));
    assert!(matches!(run_stage(Stage::D, &exchange_session(), &vec![Vec::new(), Vec::new()], &cfg), Err(AnalysisError::StageDependencyError)));
    assert!(matches!(detect_meta_pattern(Some(&e), Some(&e), Some(&e), &cfg), Ok(v) if v.is_empty()));
}

#[test]
fn stage_c_cluster_is_clamped_to_session() {
    let cfg = AnalysisConfig::default_config();
    let segs = vec![seg("X", 1000, 2000, "great", 800), seg("Y", 2500, 4000, "agree", 600)];
    let a: Vec<MarkerEvent> = Vec::new();
    let b = vec![marker(Stage::B, 1000, 2000, 800, Some("X")), marker(Stage::B, 2500, 4000, 600, Some("Y"))];
    let c = detect_clusters(&segs, Some(&a), Some(&b), &cfg).unwrap();
    assert_eq!(c.len(), 1);
    assert_eq!((c[0].start_time, c[0].end_time), (1000, 4000));
    assert_eq!(c[0].confidence, 700);
    assert_eq!(c[0].speaker, None);
}

#[test]
fn stage_c_ignores_same_speaker_and_distant_turns() {
    let cfg = AnalysisConfig::default_config();
    let segs = vec![seg("X", 0, 100_000, "great", 800)];
    let a: Vec<MarkerEvent> = Vec::new();
    let b = vec![
        marker(Stage::B, 1000, 2000, 800, Some("X")),
        marker(Stage::B, 2500, 4000, 600, Some("X")),
        marker(Stage::B, 9000, 10_000, 600, Some("Y")),
    ];
    assert!(detect_clusters(&segs, Some(&a), Some(&b), &cfg).unwrap().is_empty());
}

#[test]
fn stage_d_spans_clusters_with_mean_confidence() {
    let cfg = AnalysisConfig::default_config();
    let e: Vec<MarkerEvent> = Vec::new();
    let c = vec![marker(Stage::C, 5000, 9000, 700, None), marker(Stage::C, 1000, 4000, 800, None)];
    let d = detect_meta_pattern(Some(&e), Some(&e), Some(&c), &cfg).unwrap();
    assert_eq!(d.len(), 1);
    assert_eq!(d[0].id, MarkerId { stage: Stage::D, number: 1 });
    assert_eq!((d[0].start_time, d[0].end_time, d[0].confidence), (1000, 9000, 750));
    let one = vec![marker(Stage::C, 5000, 9000, 700, None)];
    assert!(detect_meta_pattern(Some(&e), Some(&e), Some(&one), &cfg).unwrap().is_empty());
}

#[test]
fn reciprocal_exchange_scenario() {
    let cfg = AnalysisConfig::default_config();
    let segs = exchange_session();
    let run = run_pipeline(&segs, &cfg).unwrap();
    let b: Vec<&MarkerEvent> = run.markers.iter().filter(|m| m.marker_type == Stage::B).collect();
    assert!(b.iter().any(|m| m.speaker.as_deref() == Some("X")));
    assert!(b.iter().any(|m| m.speaker.as_deref() == Some("Y")));
    let c: Vec<&MarkerEvent> = run.markers.iter().filter(|m| m.marker_type == Stage::C).collect();
    assert_eq!(c.len(), 1);
    assert_eq!((c[0].start_time, c[0].end_time), (57_000, 69_000));
    let at = |t: u64| -> &RapportIndicator { run.rapport.iter().find(|r| r.timestamp == t).unwrap() };
    let empty = at(120_000);
    assert_eq!(empty.value, 0);
    assert!(empty.contributing_markers.is_empty());
    assert!(at(60_000).value > 0);
    assert!(at(60_000).value > empty.value);
    assert_eq!(at(60_000).value, 1_000_000);
    assert_eq!(at(30_000).value, 600_000);
}

#[test]
fn rapport_series_values_and_trends() {
    let cfg = AnalysisConfig::default_config();
    let run = run_pipeline(&exchange_session(), &cfg).unwrap();
    let ts: Vec<u64> = run.rapport.iter().map(|r| r.timestamp).collect();
    assert_eq!(ts, vec![30_000, 60_000, 90_000, 120_000, 150_000, 180_000]);
    let values: Vec<i64> = run.rapport.iter().map(|r| r.value).collect();
    assert_eq!(values, vec![600_000, 1_000_000, 1_000_000, 0, 0, 0]);
    let trends: Vec<Trend> = run.rapport.iter().map(|r| r.trend).collect();
    assert_eq!(
        trends,
        vec![Trend::Stable, Trend::Increasing, Trend::Stable, Trend::Decreasing, Trend::Stable, Trend::Stable]
    );
    for r in &run.rapport {
        assert!(-1_000_000 <= r.value && r.value <= 1_000_000);
    }
    for w in ts.windows(2) {
        assert!(w[0] < w[1]);
    }
}

#[test]
fn rapport_negative_weights_and_clamping() {
    let mut cfg = AnalysisConfig::default_config();
    cfg.weights.a = -1000;
    let segs = vec![seg("X", 0, 10_000, "x", 1000)];
    let ms = vec![
        marker(Stage::A, 0, 1000, 1000, None),
        marker(Stage::A, 1000, 2000, 500, None),
    ];
    let r = calculate_rapport(&segs, &ms, &cfg);
    assert_eq!(r.len(), 1);
    assert_eq!(r[0].timestamp, 30_000);
    assert_eq!(r[0].value, -1_000_000);
    assert_eq!(r[0].trend, Trend::Stable);
    assert_eq!(r[0].contributing_markers.len(), 2);
    cfg.weights.a = -300;
    let r = calculate_rapport(&segs, &ms, &cfg);
    assert_eq!(r[0].value, -450_000);
}

#[test]
fn rapport_of_empty_session_is_empty() {
    let cfg = AnalysisConfig::default_config();
    let r = calculate_rapport(&Vec::new(), &Vec::new(), &cfg);
    assert!(r.is_empty());
}

#[test]
fn markers_within_session_span() {
    let cfg = AnalysisConfig::default_config();
    let segs = exchange_session();
    let (lo, hi) = session_span(&segs);
    let run = run_pipeline(&segs, &cfg).unwrap();
    assert!(!run.markers.is_empty());
    for m in &run.markers {
        assert!(lo <= m.start_time && m.end_time <= hi);
        assert!(m.confidence <= 1000);
    }
}

#[test]
fn progress_updates_follow_stage_order() {
    let cfg = AnalysisConfig::default_config();
    let run = run_pipeline(&exchange_session(), &cfg).unwrap();
    let stages: Vec<Phase> = run.updates.iter().map(|u| u.stage).collect();
    assert_eq!(stages, vec![Phase::A, Phase::B, Phase::C, Phase::D, Phase::Rapport]);
    let progress: Vec<u32> = run.updates.iter().map(|u| u.progress).collect();
    assert_eq!(progress, vec![200, 400, 600, 800, 1000]);
    let counts: Vec<usize> = run.updates.iter().map(|u| u.markers_detected).collect();
    assert_eq!(counts, vec![1, 3, 4, 4, 4]);
    assert_eq!(run.markers.len(), 4);
}

#[test]
fn rerun_is_identical() {
    let cfg = AnalysisConfig::default_config();
    let segs = exchange_session();
    let r1 = run_pipeline(&segs, &cfg).unwrap();
    let r2 = run_pipeline(&segs, &cfg).unwrap();
    assert_eq!(ids(&r1.markers), ids(&r2.markers));
    for (x, y) in r1.markers.iter().zip(r2.markers.iter()) {
        assert_eq!((x.start_time, x.end_time, x.confidence), (y.start_time, y.end_time, y.confidence));
        assert_eq!(x.evidence, y.evidence);
        assert_eq!(x.speaker, y.speaker);
    }
    let v1: Vec<(u64, i64, Trend)> = r1.rapport.iter().map(|r| (r.timestamp, r.value, r.trend)).collect();
    let v2: Vec<(u64, i64, Trend)> = r2.rapport.iter().map(|r| (r.timestamp, r.value, r.trend)).collect();
    assert_eq!(v1, v2);
}

#[test]
fn start_job_twice_is_refused() {
    let mut reg = JobRegistry::new();
    assert!(reg.start_job("s1".to_string()).is_ok());
    assert!(matches!(reg.start_job("s1".to_string()), Err(AnalysisError::JobAlreadyRunning)));
    assert!(reg.start_job("s2".to_string()).is_ok());
}

#[test]
fn progress_of_unknown_session_is_not_found() {
    let reg = JobRegistry::new();
    assert!(matches!(reg.get_progress(&"unknown-session".to_string()), Err(AnalysisError::NotFound)));
    assert!(matches!(reg.get_result(&"unknown-session".to_string()), Err(AnalysisError::NotFound)));
}

#[test]
fn stage_c_failure_keeps_earlier_markers() {
    let cfg = AnalysisConfig::default_config();
    let segs = exchange_session();
    let id = "s1".to_string();
    let mut reg = JobRegistry::new();
    reg.start_job(id.clone()).unwrap();
    let a = run_stage(Stage::A, &segs, &Vec::new(), &cfg).unwrap();
    let b = run_stage(Stage::B, &segs, &vec![copy(&a)], &cfg).unwrap();
    let expected: Vec<MarkerId> = ids(&a).into_iter().chain(ids(&b)).collect();
    assert!(reg.record_stage(&id, Stage::A, Ok(a)));
    assert!(reg.record_stage(&id, Stage::B, Ok(b)));
    let c = run_stage(Stage::C, &segs, &Vec::new(), &cfg);
    assert!(c.is_err());
    assert!(reg.record_stage(&id, Stage::C, c));
    assert!(matches!(reg.get_result(&id), Err(AnalysisError::NotReady)));
    let partial = reg.get_partial_result(&id).unwrap();
    assert_eq!(ids(&partial.markers), expected);
    assert!(partial.rapport.is_empty());
    let p = reg.get_progress(&id).unwrap();
    assert_eq!(p.current_stage, Phase::C);
    assert_eq!(p.progress, 400);
    assert_eq!(p.markers_detected, expected.len());
    assert_eq!(p.status, JobStatus::Failed(AnalysisError::StageDependencyError));
    assert_eq!(p.message.as_deref(), Some("a stage ran without the output of a stage it depends on"));
    assert!(!reg.record_rapport(&id, Vec::new()));
    assert!(reg.start_job(id.clone()).is_ok());
}

fn copy(v: &[MarkerEvent]) -> Vec<MarkerEvent> {
    v.iter()
        .map(|m| MarkerEvent {
            id: m.id,
            marker_type: m.marker_type,
            start_time: m.start_time,
            end_time: m.end_time,
            confidence: m.confidence,
            evidence: m.evidence.clone(),
            explanation: m.explanation.clone(),
            speaker: m.speaker.clone(),
        })
        .collect()
}

#[test]
fn job_runs_to_completion() {
    let cfg = AnalysisConfig::default_config();
    let segs = exchange_session();
    let id = "s1".to_string();
    let mut reg = JobRegistry::new();
    reg.start_job(id.clone()).unwrap();
    assert_eq!(reg.get_progress(&id).unwrap().progress, 0);
    let mut done: Vec<Vec<MarkerEvent>> = Vec::new();
    let mut all: Vec<MarkerEvent> = Vec::new();
    for stage in [Stage::A, Stage::B, Stage::C, Stage::D] {
        let out = run_stage(stage, &segs, &done, &cfg).unwrap();
        all.extend(copy(&out));
        assert!(reg.record_stage(&id, stage, Ok(copy(&out))));
        done.push(out);
    }
    assert!(matches!(reg.get_result(&id), Err(AnalysisError::NotReady)));
    assert_eq!(reg.get_progress(&id).unwrap().current_stage, Phase::Rapport);
    let series = calculate_rapport(&segs, &all, &cfg);
    let n = series.len();
    assert!(reg.record_rapport(&id, series));
    let p = reg.get_progress(&id).unwrap();
    assert_eq!((p.current_stage, p.progress, p.markers_detected), (Phase::Complete, 1000, 4));
    let res = reg.get_result(&id).unwrap();
    assert_eq!(res.markers.len(), 4);
    assert_eq!(res.rapport.len(), n);
    assert!(!reg.record_stage(&id, Stage::D, Ok(Vec::new())));
}

#[test]
fn cancel_takes_effect_at_stage_boundary() {
    let cfg = AnalysisConfig::default_config();
    let segs = exchange_session();
    let id = "s1".to_string();
    let mut reg = JobRegistry::new();
    assert!(matches!(reg.cancel(&id), Err(AnalysisError::NotFound)));
    reg.start_job(id.clone()).unwrap();
    assert!(reg.cancel(&id).is_ok());
    let a = run_stage(Stage::A, &segs, &Vec::new(), &cfg).unwrap();
    let n = a.len();
    assert!(reg.record_stage(&id, Stage::A, Ok(a)));
    assert_eq!(reg.get_progress(&id).unwrap().markers_detected, n);
    assert!(!reg.record_stage(&id, Stage::B, Ok(Vec::new())));
    assert_eq!(reg.get_status(&id), Ok(JobStatus::Cancelled));
    assert!(matches!(reg.get_result(&id), Err(AnalysisError::NotReady)));
    assert!(reg.start_job(id.clone()).is_ok());
}

#[test]
fn weights_beyond_one_are_accepted() {
    let mut cfg = AnalysisConfig::default_config();
    cfg.weights.a = 1500;
    assert!(cfg.is_valid());
    let segs = vec![seg("X", 0, 10_000, "x", 1000)];
    let ms = vec![marker(Stage::A, 0, 1000, 500, None)];
    let r = calculate_rapport(&segs, &ms, &cfg);
    assert_eq!(r[0].value, 750_000);
    cfg.weights.a = i32::MIN;
    let r = calculate_rapport(&segs, &ms, &cfg);
    assert_eq!(r[0].value, -1_000_000);
}

#[test]
fn markers_carry_their_explanations() {
    let cfg = AnalysisConfig::default_config();
    let run = run_pipeline(&exchange_session(), &cfg).unwrap();
    for m in &run.markers {
        let expected = match m.marker_type {
            Stage::A => "prompt take-up of the floor by another speaker",
            Stage::B => "evaluative language",
            Stage::C => "reciprocal evaluative exchange",
            Stage::D => "recurring reciprocal exchanges across the session",
        };
        assert_eq!(m.explanation, expected);
    }
}

#[test]
fn record_stage_takes_stages_in_order() {
    let id = "s1".to_string();
    let mut reg = JobRegistry::new();
    assert!(!reg.record_stage(&id, Stage::A, Ok(Vec::new())));
    reg.start_job(id.clone()).unwrap();
    assert!(!reg.record_stage(&id, Stage::B, Ok(Vec::new())));
    assert!(reg.record_stage(&id, Stage::A, Ok(Vec::new())));
    assert!(!reg.record_stage(&id, Stage::A, Ok(Vec::new())));
    assert_eq!(reg.get_progress(&id).unwrap().current_stage, Phase::B);
}

#[test]
fn clear_discards_only_that_session() {
    let mut reg = JobRegistry::new();
    assert!(matches!(reg.clear(&"s1".to_string()), Err(AnalysisError::NotFound)));
    reg.start_job("s1".to_string()).unwrap();
    reg.start_job("s2".to_string()).unwrap();
    assert!(reg.clear(&"s1".to_string()).is_ok());
    assert!(matches!(reg.get_progress(&"s1".to_string()), Err(AnalysisError::NotFound)));
    assert!(reg.get_progress(&"s2".to_string()).is_ok());
    assert!(reg.start_job("s1".to_string()).is_ok());
}

#[test]
fn malformed_segments_are_reported() {
    let segs = vec![
        seg("X", 0, 1000, "hello", 800),
        seg("Y", 1200, 1100, "bad", 700),
        seg("Y", 2000, 3000, "", 700),
        seg("X", 4000, 5000, "fine", 1200),
    ];
    assert_eq!(malformed_segments(&segs), vec![1, 2, 3]);
    assert!(malformed_segments(&exchange_session()).is_empty());
}
