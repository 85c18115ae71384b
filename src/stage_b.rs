use vstd::prelude::*;
use crate::segment::{SpeakerSegment, FULL_CONFIDENCE, segment_ok, segment_is_ok, text_bytes};
use crate::marker::{Stage, MarkerId, MarkerEvent, MarkerView, views, add_candidate, numbered, add_candidate_marker, lemma_add_candidate_numbered};
use crate::config::AnalysisConfig;

verus! {

/// ASCII upper-case letters folded to lower case; other bytes kept.
pub open spec fn fold(b: u8) -> u8 {
    if 65 <= b <= 90 { (b + 32) as u8 } else { b }
}

/// `k` occurs in `t` at `i`, ignoring ASCII case.
pub open spec fn occurs_at(t: Seq<u8>, k: Seq<u8>, i: int) -> bool {
    &&& 0 <= i
    &&& i + k.len() <= t.len()
    &&& forall|j: int| 0 <= j < k.len() ==> fold(#[trigger] t[i + j]) == fold(k[j])
}

pub open spec fn contains_term(t: Seq<u8>, k: Seq<u8>) -> bool {
    exists|i: int| occurs_at(t, k, i)
}

/// Index of the first term of `terms` found in `t`, or -1.
pub open spec fn first_term(t: Seq<u8>, terms: Seq<String>) -> int
    decreases terms.len(),
{
    if terms.len() == 0 {
        -1
    } else {
        let k = first_term(t, terms.drop_last());
        if k >= 0 {
            k
        } else if contains_term(t, vstd::utf8::encode_utf8(terms.last()@)) {
            terms.len() - 1
        } else {
            -1
        }
    }
}

/// Some Stage A marker lies within `prox` of the segment's interval.
pub open spec fn near_orientation(a: Seq<MarkerView>, s: SpeakerSegment, prox: int) -> bool {
    exists|k: int| 0 <= k < a.len()
        && (#[trigger] a[k]).start_time <= s.end_time + prox
        && s.start_time <= a[k].end_time + prox
}

pub open spec fn boosted(conf: int, boost: int) -> int {
    if conf + boost > FULL_CONFIDENCE { FULL_CONFIDENCE as int } else { conf + boost }
}

/// The evaluative marker a segment gives when it holds `term`.
pub open spec fn evaluative_candidate(s: SpeakerSegment, term: Seq<char>, near: bool, boost: int) -> MarkerView {
    MarkerView {
        id: MarkerId { stage: Stage::B, number: 0 },
        marker_type: Stage::B,
        start_time: s.start_time as int,
        end_time: s.end_time as int,
        confidence: if near { boosted(s.confidence as int, boost) } else { s.confidence as int },
        evidence: term,
        explanation: "evaluative language"@,
        speaker: Some(s.speaker_id@),
    }
}

/// Stage B output over the first `n` segments.
pub open spec fn stage_b_upto(segs: Seq<SpeakerSegment>, a: Seq<MarkerView>, cfg: AnalysisConfig, n: int) -> Seq<MarkerView>
    decreases n,
{
    if n <= 0 {
        Seq::empty()
    } else {
        let p = stage_b_upto(segs, a, cfg, n - 1);
        let s = segs[n - 1];
        let k = first_term(text_bytes(s), cfg.evaluative_terms@);
        if segment_ok(s) && k >= 0 {
            add_candidate(p, evaluative_candidate(s, cfg.evaluative_terms@[k]@,
                near_orientation(a, s, cfg.proximity as int), cfg.proximity_boost as int))
        } else {
            p
        }
    }
}

pub open spec fn stage_b(segs: Seq<SpeakerSegment>, a: Seq<MarkerView>, cfg: AnalysisConfig) -> Seq<MarkerView> {
    stage_b_upto(segs, a, cfg, segs.len() as int)
}

/// Whether `k` occurs in `t`, ignoring ASCII case.
pub fn contains_folded(t: &[u8], k: &[u8]) -> (r: bool)
    ensures
        r == contains_term(t@, k@),
{
    if k.len() > t.len() {
        return false;
    }
    if k.len() == 0 {
        assert(occurs_at(t@, k@, 0));
        return true;
    }
    let tl = t.len();
    let last = tl - k.len();
    let mut i: usize = 0;
    while i <= last
        invariant
            last == t@.len() - k@.len(),
            tl == t@.len(),
            0 < k@.len() <= t@.len(),
            forall|p: int| 0 <= p < i ==> !occurs_at(t@, k@, p),
        decreases last + 1 - i,
    {
        let mut j: usize = 0;
        let mut ok = true;
        while j < k.len()
            invariant
                i <= last,
                last == t@.len() - k@.len(),
                tl == t@.len(),
                k@.len() <= t@.len(),
                j <= k@.len(),
                ok ==> forall|q: int| 0 <= q < j ==> fold(#[trigger] t@[i + q]) == fold(k@[q]),
                !ok ==> !occurs_at(t@, k@, i as int),
            decreases k.len() - j,
        {
            assert(i + j < t@.len());
            let x = t[i + j];
            let y = k[j];
            let fx = if 65 <= x && x <= 90 { x + 32 } else { x };
            let fy = if 65 <= y && y <= 90 { y + 32 } else { y };
            if fx != fy {
                ok = false;
                assert(fold(t@[i + j]) != fold(k@[j as int]));
            }
            j = j + 1;
        }
        if ok {
            assert(occurs_at(t@, k@, i as int));
            return true;
        }
        i = i + 1;
    }
    proof {
        assert forall|p: int| !occurs_at(t@, k@, p) by {
            if 0 <= p && p + k@.len() <= t@.len() {
                assert(p <= last);
            }
        }
    }
    false
}

/// Index of the first evaluative term that the text holds.
fn find_term(text: &String, terms: &Vec<String>) -> (r: Option<usize>)
    ensures
        match r {
            Some(k) => first_term(vstd::utf8::encode_utf8(text@), terms@) == k,
            None => first_term(vstd::utf8::encode_utf8(text@), terms@) == -1,
        },
{
    let t = text.as_str().as_bytes();
    let ghost tb = vstd::utf8::encode_utf8(text@);
    let mut i: usize = 0;
    while i < terms.len()
        invariant
            i <= terms.len(),
            t@ == tb,
            tb == vstd::utf8::encode_utf8(text@),
            first_term(tb, terms@.take(i as int)) == -1,
        decreases terms.len() - i,
    {
        proof {
            assert(terms@.take(i + 1).drop_last() =~= terms@.take(i as int));
            assert(terms@.take(i + 1).last() == terms@[i as int]);
        }
        if contains_folded(t, terms[i].as_str().as_bytes()) {
            proof {
                assert(first_term(tb, terms@.take(i + 1)) == i);
                lemma_first_term_prefix(tb, terms@, i + 1);
                assert(first_term(tb, terms@) == i);
                assert(tb == vstd::utf8::encode_utf8(text@));
            }
            return Some(i);
        }
        i = i + 1;
    }
    proof {
        assert(terms@.take(terms.len() as int) =~= terms@);
    }
    None
}

proof fn lemma_first_term_prefix(t: Seq<u8>, terms: Seq<String>, n: int)
    requires
        0 <= n <= terms.len(),
        first_term(t, terms.take(n)) >= 0,
    ensures
        first_term(t, terms) == first_term(t, terms.take(n)),
    decreases terms.len() - n,
{
    if n < terms.len() {
        assert(terms.take(n + 1).drop_last() =~= terms.take(n));
        lemma_first_term_prefix(t, terms, n + 1);
    } else {
        assert(terms.take(n) =~= terms);
    }
}

pub proof fn lemma_first_term_bounds(t: Seq<u8>, terms: Seq<String>)
    ensures
        -1 <= first_term(t, terms) < terms.len(),
    decreases terms.len(),
{
    if terms.len() > 0 {
        lemma_first_term_bounds(t, terms.drop_last());
    }
}

/// Whether some Stage A marker lies within `prox` of the segment.
fn is_near_orientation(a: &Vec<MarkerEvent>, s: &SpeakerSegment, prox: u64) -> (r: bool)
    ensures
        r == near_orientation(views(a@), *s, prox as int),
{
    let mut k: usize = 0;
    while k < a.len()
        invariant
            k <= a.len(),
            forall|q: int| 0 <= q < k ==> !({
                let m = #[trigger] views(a@)[q];
                m.start_time <= s.end_time + prox && s.start_time <= m.end_time + prox
            }),
        decreases a.len() - k,
    {
        let m = &a[k];
        let before = m.start_time <= s.end_time || m.start_time - s.end_time <= prox;
        let after = s.start_time <= m.end_time || s.start_time - m.end_time <= prox;
        if before && after {
            assert(views(a@)[k as int] == a@[k as int]@);
            return true;
        }
        assert(views(a@)[k as int] == a@[k as int]@);
        k = k + 1;
    }
    false
}

/// Stage B: one evaluative marker for each segment that holds an evaluative
/// term, its evidence the first such term of the configuration; the
/// confidence is boosted near a Stage A marker. A malformed segment is skipped.
pub fn detect_evaluative(segs: &Vec<SpeakerSegment>, a: &Vec<MarkerEvent>, cfg: &AnalysisConfig) -> (r: Vec<MarkerEvent>)
    ensures
        views(r@) == stage_b(segs@, views(a@), *cfg),
        numbered(views(r@), Stage::B),
        r.len() <= segs.len(),
{
    let mut out: Vec<MarkerEvent> = Vec::new();
    let mut i: usize = 0;
    proof {
        assert(views(out@) =~= Seq::<MarkerView>::empty());
    }
    while i < segs.len()
        invariant
            i <= segs.len(),
            views(out@) == stage_b_upto(segs@, views(a@), *cfg, i as int),
            numbered(views(out@), Stage::B),
            out.len() <= i,
        decreases segs.len() - i,
    {
        let s = &segs[i];
        if segment_is_ok(s) {
            let found = find_term(&s.text, &cfg.evaluative_terms);
            proof {
                lemma_first_term_bounds(text_bytes(*s), cfg.evaluative_terms@);
            }
            match found {
                Some(k) => {
                    let near = is_near_orientation(a, s, cfg.proximity);
                    let conf = if near {
                        if s.confidence as u64 + cfg.proximity_boost as u64 > FULL_CONFIDENCE as u64 {
                            FULL_CONFIDENCE
                        } else {
                            s.confidence + cfg.proximity_boost
                        }
                    } else {
                        s.confidence
                    };
                    let c = MarkerEvent {
                        id: MarkerId { stage: Stage::B, number: 0 },
                        marker_type: Stage::B,
                        start_time: s.start_time,
                        end_time: s.end_time,
                        confidence: conf,
                        evidence: cfg.evaluative_terms[k].clone(),
                        explanation: "evaluative language".to_string(),
                        speaker: Some(s.speaker_id.clone()),
                    };
                    proof {
                        assert(c@ == evaluative_candidate(segs@[i as int], cfg.evaluative_terms@[k as int]@,
                            near_orientation(views(a@), segs@[i as int], cfg.proximity as int), cfg.proximity_boost as int));
                        lemma_add_candidate_numbered(views(out@), c@, Stage::B);
                    }
                    add_candidate_marker(&mut out, c);
                },
                None => {},
            }
        }
        i = i + 1;
    }
    out
}

} // verus!
