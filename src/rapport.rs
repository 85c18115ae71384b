use vstd::prelude::*;
use crate::segment::{SpeakerSegment, max_end, min_start, session_span};
use crate::marker::{Stage, MarkerId, MarkerEvent, MarkerView, views};
use crate::config::AnalysisConfig;

verus! {

/// A rapport value of one, in millionths.
pub const FULL_RAPPORT: i64 = 1_000_000;

/// Direction of a rapport sample against the one before it.
#[derive(PartialEq, Eq, Structural, Clone, Copy, Debug)]
pub enum Trend {
    Increasing,
    Decreasing,
    Stable,
}

/// One sample of the rapport series.
pub struct RapportIndicator {
    /// Midpoint of the window, in milliseconds.
    pub timestamp: u64,
    /// Signed rapport, in millionths: negative is friction, positive alignment.
    pub value: i64,
    pub trend: Trend,
    /// Markers whose interval meets the window, in stream order.
    pub contributing_markers: Vec<MarkerId>,
}

pub ghost struct RapportView {
    pub timestamp: int,
    pub value: int,
    pub trend: Trend,
    pub contributing: Seq<MarkerId>,
}

impl View for RapportIndicator {
    type V = RapportView;

    open spec fn view(&self) -> RapportView {
        RapportView {
            timestamp: self.timestamp as int,
            value: self.value as int,
            trend: self.trend,
            contributing: self.contributing_markers@,
        }
    }
}

pub open spec fn rapport_views(v: Seq<RapportIndicator>) -> Seq<RapportView> {
    v.map_values(|r: RapportIndicator| r@)
}

pub open spec fn weight_of(cfg: AnalysisConfig, st: Stage) -> int {
    match st {
        Stage::A => cfg.weights.a as int,
        Stage::B => cfg.weights.b as int,
        Stage::C => cfg.weights.c as int,
        Stage::D => cfg.weights.d as int,
    }
}

/// The marker's interval meets the window `[ws, we)`.
pub open spec fn meets(m: MarkerView, ws: int, we: int) -> bool {
    m.start_time < we && m.end_time >= ws
}

/// Sum of confidence times category weight over the markers that meet the
/// window, in millionths.
pub open spec fn window_sum(ms: Seq<MarkerView>, ws: int, we: int, cfg: AnalysisConfig) -> int
    decreases ms.len(),
{
    if ms.len() == 0 {
        0
    } else {
        let m = ms.last();
        window_sum(ms.drop_last(), ws, we, cfg)
            + if meets(m, ws, we) { m.confidence * weight_of(cfg, m.marker_type) } else { 0 }
    }
}

/// Identifiers of the markers that meet the window, in stream order.
pub open spec fn contributors(ms: Seq<MarkerView>, ws: int, we: int) -> Seq<MarkerId>
    decreases ms.len(),
{
    if ms.len() == 0 {
        Seq::empty()
    } else {
        let p = contributors(ms.drop_last(), ws, we);
        if meets(ms.last(), ws, we) { p.push(ms.last().id) } else { p }
    }
}

pub open spec fn clamp_rapport(x: int) -> int {
    if x > FULL_RAPPORT { FULL_RAPPORT as int } else if x < -FULL_RAPPORT { -FULL_RAPPORT } else { x }
}

pub open spec fn trend_of(prev: Option<int>, v: int, band: int) -> Trend {
    match prev {
        None => Trend::Stable,
        Some(p) => if v - p > band { Trend::Increasing } else if p - v > band { Trend::Decreasing } else { Trend::Stable },
    }
}

pub open spec fn step_of(cfg: AnalysisConfig) -> int {
    if cfg.rapport_step == 0 { 1 } else { cfg.rapport_step as int }
}

/// The sample of the window starting at `ws`.
pub open spec fn indicator(ms: Seq<MarkerView>, ws: int, cfg: AnalysisConfig, prev: Option<int>) -> RapportView {
    let we = ws + cfg.rapport_window;
    let v = clamp_rapport(window_sum(ms, ws, we, cfg));
    RapportView {
        timestamp: ws + cfg.rapport_window / 2,
        value: v,
        trend: trend_of(prev, v, cfg.trend_band as int),
        contributing: contributors(ms, ws, we),
    }
}

/// Samples of the windows starting at `ws`, `ws + step`, ... before `hi`.
pub open spec fn series_from(ms: Seq<MarkerView>, ws: int, hi: int, cfg: AnalysisConfig, prev: Option<int>) -> Seq<RapportView>
    decreases if ws >= hi { 0 } else { hi - ws },
{
    if ws >= hi {
        Seq::empty()
    } else {
        let ind = indicator(ms, ws, cfg, prev);
        seq![ind] + series_from(ms, ws + step_of(cfg), hi, cfg, Some(ind.value))
    }
}

/// The rapport series of a session: windows from the session's first start
/// until its last end.
pub open spec fn rapport_series(segs: Seq<SpeakerSegment>, ms: Seq<MarkerView>, cfg: AnalysisConfig) -> Seq<RapportView> {
    if segs.len() == 0 {
        Seq::empty()
    } else {
        series_from(ms, min_start(segs), max_end(segs), cfg, None)
    }
}

/// Largest magnitude of one marker's term: a `u32` confidence times an `i32` weight.
pub const TERM_LIMIT: i128 = 9223372034707292160;

/// Scores one window: its clamped value and its contributing markers.
fn score_window(ms: &Vec<MarkerEvent>, ws: u64, we: u64, cfg: &AnalysisConfig) -> (r: (i64, Vec<MarkerId>))
    requires
        cfg.wf(),
    ensures
        r.0 == clamp_rapport(window_sum(views(ms@), ws as int, we as int, *cfg)),
        r.1@ == contributors(views(ms@), ws as int, we as int),
{
    let ghost mv = views(ms@);
    let mut sum: i128 = 0;
    let mut ids: Vec<MarkerId> = Vec::new();
    let mut j: usize = 0;
    while j < ms.len()
        invariant
            j <= ms.len(),
            cfg.wf(),
            mv == views(ms@),
            sum == window_sum(mv.take(j as int), ws as int, we as int, *cfg),
            -(j as int) * 9223372034707292160 <= sum <= (j as int) * 9223372034707292160,
            ids@ == contributors(mv.take(j as int), ws as int, we as int),
        decreases ms.len() - j,
    {
        let m = &ms[j];
        proof {
            assert(mv.take(j + 1).drop_last() =~= mv.take(j as int));
            assert(mv.take(j + 1).last() == m@);
        }
        if m.start_time < we && m.end_time >= ws {
            let w: i32 = match m.marker_type {
                Stage::A => cfg.weights.a,
                Stage::B => cfg.weights.b,
                Stage::C => cfg.weights.c,
                Stage::D => cfg.weights.d,
            };
            proof {
                let c = m.confidence as int;
                assert(-TERM_LIMIT <= c * w <= TERM_LIMIT) by (nonlinear_arith)
                    requires 0 <= c <= 0xffff_ffff, -0x8000_0000 <= w <= 0x7fff_ffff;
            }
            let term = (m.confidence as i128) * (w as i128);
            assert(-TERM_LIMIT <= term <= TERM_LIMIT);
            sum = sum + term;
            ids.push(m.id);
        }
        j = j + 1;
    }
    proof {
        assert(mv.take(ms.len() as int) =~= mv);
    }
    let v: i64 = if sum > FULL_RAPPORT as i128 {
        FULL_RAPPORT
    } else if sum < -(FULL_RAPPORT as i128) {
        -FULL_RAPPORT
    } else {
        sum as i64
    };
    (v, ids)
}

fn trend_against(prev: Option<i64>, v: i64, band: u64) -> (r: Trend)
    requires
        prev is Some ==> -FULL_RAPPORT <= prev->Some_0 <= FULL_RAPPORT,
        -FULL_RAPPORT <= v <= FULL_RAPPORT,
    ensures
        r == trend_of(match prev { Some(p) => Some(p as int), None => None }, v as int, band as int),
{
    match prev {
        None => Trend::Stable,
        Some(p) => {
            let d = v as i128 - p as i128;
            if d > band as i128 {
                Trend::Increasing
            } else if -d > band as i128 {
                Trend::Decreasing
            } else {
                Trend::Stable
            }
        },
    }
}

/// Rapport engine: one indicator per window of the configured length,
/// stepping from the session's first start while the window starts before
/// the session's last end.
pub fn calculate_rapport(segs: &Vec<SpeakerSegment>, markers: &Vec<MarkerEvent>, cfg: &AnalysisConfig) -> (r: Vec<RapportIndicator>)
    requires
        cfg.wf(),
        segs.len() > 0 ==> max_end(segs@) + cfg.rapport_window <= u64::MAX,
    ensures
        rapport_views(r@) == rapport_series(segs@, views(markers@), *cfg),
{
    let mut out: Vec<RapportIndicator> = Vec::new();
    if segs.len() == 0 {
        proof {
            assert(rapport_views(out@) =~= Seq::<RapportView>::empty());
        }
        return out;
    }
    let (lo, hi) = session_span(segs);
    let ghost mv = views(markers@);
    let ghost total = series_from(mv, lo as int, hi as int, *cfg, None);
    let mut ws: u64 = lo;
    let mut prev: Option<i64> = None;
    proof {
        assert(rapport_views(out@) + series_from(mv, ws as int, hi as int, *cfg, None) =~= total);
        assert(total == rapport_series(segs@, views(markers@), *cfg));
    }
    while ws < hi
        invariant
            cfg.wf(),
            mv == views(markers@),
            total == rapport_series(segs@, views(markers@), *cfg),
            hi as int + cfg.rapport_window <= u64::MAX,
            prev is Some ==> -FULL_RAPPORT <= prev->Some_0 <= FULL_RAPPORT,
            rapport_views(out@) + series_from(mv, ws as int, hi as int, *cfg,
                match prev { Some(p) => Some(p as int), None => None }) == total,
        decreases hi - ws,
    {
        let we = ws + cfg.rapport_window;
        let (v, ids) = score_window(markers, ws, we, cfg);
        let t = trend_against(prev, v, cfg.trend_band);
        let ind = RapportIndicator {
            timestamp: ws + cfg.rapport_window / 2,
            value: v,
            trend: t,
            contributing_markers: ids,
        };
        let ghost pv = match prev { Some(p) => Some(p as int), None => None };
        proof {
            assert(ind@ == indicator(mv, ws as int, *cfg, pv));
        }
        let ghost old_out = rapport_views(out@);
        out.push(ind);
        prev = Some(v);
        if hi - ws <= cfg.rapport_step {
            proof {
                assert(series_from(mv, ws + step_of(*cfg), hi as int, *cfg, Some(v as int)) =~= Seq::<RapportView>::empty());
                assert(rapport_views(out@) =~= old_out.push(indicator(mv, ws as int, *cfg, pv)));
                assert(rapport_views(out@) =~= total);
            }
            return out;
        }
        proof {
            assert(rapport_views(out@) =~= old_out.push(indicator(mv, ws as int, *cfg, pv)));
            assert(rapport_views(out@) + series_from(mv, ws + step_of(*cfg), hi as int, *cfg, Some(v as int)) =~= total);
        }
        ws = ws + cfg.rapport_step;
    }
    proof {
        assert(rapport_views(out@) =~= total);
    }
    out
}

} // verus!

verus! {

/// A copy of a rapport series.
pub fn copy_series(v: &Vec<RapportIndicator>) -> (r: Vec<RapportIndicator>)
    ensures
        rapport_views(r@) == rapport_views(v@),
{
    let mut out: Vec<RapportIndicator> = Vec::new();
    let mut i: usize = 0;
    while i < v.len()
        invariant
            i <= v.len(),
            rapport_views(out@) =~= rapport_views(v@).take(i as int),
        decreases v.len() - i,
    {
        let x = &v[i];
        let mut ids: Vec<MarkerId> = Vec::new();
        let mut j: usize = 0;
        while j < x.contributing_markers.len()
            invariant
                j <= x.contributing_markers.len(),
                ids@ =~= x.contributing_markers@.take(j as int),
            decreases x.contributing_markers.len() - j,
        {
            ids.push(x.contributing_markers[j]);
            j = j + 1;
        }
        proof {
            assert(x.contributing_markers@.take(x.contributing_markers.len() as int) =~= x.contributing_markers@);
        }
        let ghost before = out@;
        out.push(RapportIndicator { timestamp: x.timestamp, value: x.value, trend: x.trend, contributing_markers: ids });
        proof {
            assert(rapport_views(out@) =~= rapport_views(before).push(v@[i as int]@));
            assert(rapport_views(v@).take(i + 1) =~= rapport_views(v@).take(i as int).push(v@[i as int]@));
        }
        i = i + 1;
    }
    proof {
        assert(rapport_views(v@).take(v.len() as int) =~= rapport_views(v@));
    }
    out
}

} // verus!

verus! {

/// Every rapport value lies within one of zero; timestamps strictly
/// increase, so no two samples share one; and a series that starts with no
/// predecessor starts `Stable`.
pub proof fn law_series_shape(ms: Seq<MarkerView>, ws: int, hi: int, cfg: AnalysisConfig, prev: Option<int>)
    requires
        cfg.wf(),
    ensures
        forall|i: int| 0 <= i < series_from(ms, ws, hi, cfg, prev).len()
            ==> -FULL_RAPPORT <= (#[trigger] series_from(ms, ws, hi, cfg, prev)[i]).value <= FULL_RAPPORT,
        forall|i: int, j: int| 0 <= i < j < series_from(ms, ws, hi, cfg, prev).len()
            ==> (#[trigger] series_from(ms, ws, hi, cfg, prev)[i]).timestamp < (#[trigger] series_from(ms, ws, hi, cfg, prev)[j]).timestamp,
        forall|i: int| 0 <= i < series_from(ms, ws, hi, cfg, prev).len()
            ==> (#[trigger] series_from(ms, ws, hi, cfg, prev)[i]).timestamp >= ws + cfg.rapport_window / 2,
        prev is None && series_from(ms, ws, hi, cfg, prev).len() > 0
            ==> series_from(ms, ws, hi, cfg, prev)[0].trend == Trend::Stable,
    decreases if ws >= hi { 0 } else { hi - ws },
{
    if ws < hi {
        let ind = indicator(ms, ws, cfg, prev);
        let rest = series_from(ms, ws + step_of(cfg), hi, cfg, Some(ind.value));
        law_series_shape(ms, ws + step_of(cfg), hi, cfg, Some(ind.value));
        let s = series_from(ms, ws, hi, cfg, prev);
        assert(s == seq![ind] + rest);
        assert forall|i: int| 0 < i < s.len() implies s[i] == rest[i - 1] by {}
    }
}

/// The laws above, for the series of a whole session.
pub proof fn law_rapport_series_shape(segs: Seq<SpeakerSegment>, ms: Seq<MarkerView>, cfg: AnalysisConfig)
    requires
        cfg.wf(),
    ensures
        forall|i: int| 0 <= i < rapport_series(segs, ms, cfg).len()
            ==> -FULL_RAPPORT <= (#[trigger] rapport_series(segs, ms, cfg)[i]).value <= FULL_RAPPORT,
        forall|i: int, j: int| 0 <= i < j < rapport_series(segs, ms, cfg).len()
            ==> (#[trigger] rapport_series(segs, ms, cfg)[i]).timestamp < (#[trigger] rapport_series(segs, ms, cfg)[j]).timestamp,
        rapport_series(segs, ms, cfg).len() > 0 ==> rapport_series(segs, ms, cfg)[0].trend == Trend::Stable,
{
    if segs.len() > 0 {
        law_series_shape(ms, min_start(segs), max_end(segs), cfg, None);
    }
}

} // verus!
