use vstd::prelude::*;

verus! {

/// The four detection passes, in the order in which they run.
#[derive(PartialEq, Eq, Structural, Clone, Copy, Debug)]
pub enum Stage {
    /// Attention and orientation cues.
    A,
    /// Evaluative language.
    B,
    /// Clusters of reciprocal evaluative exchanges.
    C,
    /// Session-wide meta-patterns.
    D,
}

/// Identifier of a marker: its stage and its one-based number within that stage.
#[derive(PartialEq, Eq, Structural, Clone, Copy, Debug)]
pub struct MarkerId {
    pub stage: Stage,
    pub number: usize,
}

/// One detected phenomenon.
pub struct MarkerEvent {
    pub id: MarkerId,
    pub marker_type: Stage,
    /// Start of the evidenced interval, in milliseconds.
    pub start_time: u64,
    /// End of the evidenced interval, in milliseconds.
    pub end_time: u64,
    /// Confidence, in permille.
    pub confidence: u32,
    pub evidence: String,
    pub explanation: String,
    pub speaker: Option<String>,
}

/// What the contracts say of a marker.
pub ghost struct MarkerView {
    pub id: MarkerId,
    pub marker_type: Stage,
    pub start_time: int,
    pub end_time: int,
    pub confidence: int,
    pub evidence: Seq<char>,
    pub explanation: Seq<char>,
    pub speaker: Option<Seq<char>>,
}

pub open spec fn opt_view(s: Option<String>) -> Option<Seq<char>> {
    match s {
        Some(x) => Some(x@),
        None => None,
    }
}

impl View for MarkerEvent {
    type V = MarkerView;

    open spec fn view(&self) -> MarkerView {
        MarkerView {
            id: self.id,
            marker_type: self.marker_type,
            start_time: self.start_time as int,
            end_time: self.end_time as int,
            confidence: self.confidence as int,
            evidence: self.evidence@,
            explanation: self.explanation@,
            speaker: opt_view(self.speaker),
        }
    }
}

pub open spec fn views(v: Seq<MarkerEvent>) -> Seq<MarkerView> {
    v.map_values(|m: MarkerEvent| m@)
}

/// Candidate and marker occupy the same time interval.
pub open spec fn same_interval(m: MarkerView, c: MarkerView) -> bool {
    m.start_time == c.start_time && m.end_time == c.end_time
}

/// Index of the first marker of `s` on the interval of `c`, or -1.
pub open spec fn slot_of(s: Seq<MarkerView>, c: MarkerView) -> int
    decreases s.len(),
{
    if s.len() == 0 {
        -1
    } else {
        let k = slot_of(s.drop_last(), c);
        if k >= 0 {
            k
        } else if same_interval(s.last(), c) {
            s.len() - 1
        } else {
            -1
        }
    }
}

pub open spec fn with_id(c: MarkerView, id: MarkerId) -> MarkerView {
    MarkerView { id: id, ..c }
}

/// Adds a candidate to a stage's output. A candidate on a fresh interval is
/// appended under the next number; one on an occupied interval replaces the
/// marker there only with a strictly higher confidence, so on a tie the
/// earlier rule keeps its place.
pub open spec fn add_candidate(s: Seq<MarkerView>, c: MarkerView) -> Seq<MarkerView> {
    let k = slot_of(s, c);
    if k < 0 {
        s.push(with_id(c, MarkerId { stage: c.marker_type, number: (s.len() + 1) as usize }))
    } else if c.confidence > s[k].confidence {
        s.update(k, with_id(c, s[k].id))
    } else {
        s
    }
}

/// Markers of one stage, numbered from one in order and sharing no interval.
pub open spec fn numbered(s: Seq<MarkerView>, stage: Stage) -> bool {
    &&& forall|i: int| 0 <= i < s.len() ==> (#[trigger] s[i]).id == MarkerId { stage: stage, number: (i + 1) as usize }
    &&& forall|i: int| 0 <= i < s.len() ==> (#[trigger] s[i]).marker_type == stage
    &&& forall|i: int, j: int| 0 <= i < j < s.len() ==> !same_interval(#[trigger] s[i], #[trigger] s[j])
}

pub proof fn lemma_slot_of(s: Seq<MarkerView>, c: MarkerView)
    ensures
        -1 <= slot_of(s, c) < s.len(),
        slot_of(s, c) >= 0 ==> same_interval(s[slot_of(s, c)], c),
        slot_of(s, c) < 0 ==> forall|i: int| 0 <= i < s.len() ==> !same_interval(#[trigger] s[i], c),
    decreases s.len(),
{
    if s.len() > 0 {
        lemma_slot_of(s.drop_last(), c);
        assert forall|i: int| 0 <= i < s.len() - 1 implies s[i] == s.drop_last()[i] by {}
    }
}

pub proof fn lemma_add_candidate_numbered(s: Seq<MarkerView>, c: MarkerView, stage: Stage)
    requires
        numbered(s, stage),
        c.marker_type == stage,
        s.len() + 1 <= usize::MAX,
    ensures
        numbered(add_candidate(s, c), stage),
        add_candidate(s, c).len() <= s.len() + 1,
{
    lemma_slot_of(s, c);
    let r = add_candidate(s, c);
    let k = slot_of(s, c);
    if k < 0 {
        assert forall|i: int, j: int| 0 <= i < j < r.len() implies !same_interval(#[trigger] r[i], #[trigger] r[j]) by {
            if j == s.len() {
                assert(!same_interval(s[i], c));
            }
        }
    } else if c.confidence > s[k].confidence {
        assert forall|i: int, j: int| 0 <= i < j < r.len() implies !same_interval(#[trigger] r[i], #[trigger] r[j]) by {
            assert(!same_interval(s[i], s[j]));
            if i == k {
                assert(!same_interval(s[k], s[j]));
            }
            if j == k {
                assert(!same_interval(s[i], s[k]));
            }
        }
    }
}

/// Finds where a candidate on the interval `[start, end]` would go.
fn find_slot(out: &Vec<MarkerEvent>, start: u64, end: u64, c: Ghost<MarkerView>) -> (r: Option<usize>)
    requires
        c@.start_time == start,
        c@.end_time == end,
    ensures
        match r {
            Some(k) => slot_of(views(out@), c@) == k,
            None => slot_of(views(out@), c@) == -1,
        },
{
    let mut i: usize = 0;
    while i < out.len()
        invariant
            i <= out.len(),
            c@.start_time == start,
            c@.end_time == end,
            slot_of(views(out@).take(i as int), c@) == -1,
        decreases out.len() - i,
    {
        proof {
            let t = views(out@).take(i + 1);
            assert(t.drop_last() =~= views(out@).take(i as int));
            assert(views(out@)[i as int] == out@[i as int]@);
            assert(t.last() == views(out@)[i as int]);
            assert(slot_of(t, c@) == if same_interval(t.last(), c@) { i as int } else { -1 });
        }
        if out[i].start_time == start && out[i].end_time == end {
            proof {
                let t = views(out@).take(i + 1);
                assert(t.last() == views(out@)[i as int]);
                assert(views(out@)[i as int] == out@[i as int]@);
                assert(same_interval(t.last(), c@));
                assert(slot_of(t, c@) == i);
                lemma_slot_prefix(views(out@), c@, i + 1);
            }
            return Some(i);
        }
        i = i + 1;
    }
    proof {
        assert(views(out@).take(out.len() as int) =~= views(out@));
    }
    None
}

/// A slot found in a prefix is the slot of the whole sequence.
proof fn lemma_slot_prefix(s: Seq<MarkerView>, c: MarkerView, n: int)
    requires
        0 <= n <= s.len(),
        slot_of(s.take(n), c) >= 0,
    ensures
        slot_of(s, c) == slot_of(s.take(n), c),
    decreases s.len() - n,
{
    if n < s.len() {
        assert(s.take(n + 1).drop_last() =~= s.take(n));
        lemma_slot_prefix(s, c, n + 1);
    } else {
        assert(s.take(n) =~= s);
    }
}

/// Adds a candidate marker to a stage's output under the tie-break rule.
pub fn add_candidate_marker(out: &mut Vec<MarkerEvent>, c: MarkerEvent)
    requires
        old(out).len() + 1 <= usize::MAX,
    ensures
        views(final(out)@) == add_candidate(views(old(out)@), c@),
{
    let ghost cv = c@;
    let ghost before = views(out@);
    let slot = find_slot(out, c.start_time, c.end_time, Ghost(cv));
    proof {
        lemma_slot_of(before, cv);
    }
    match slot {
        None => {
            let n = out.len() + 1;
            let m = MarkerEvent { id: MarkerId { stage: c.marker_type, number: n }, ..c };
            out.push(m);
            proof {
                assert(views(out@) =~= add_candidate(before, cv));
            }
        },
        Some(k) => {
            if c.confidence > out[k].confidence {
                let id = out[k].id;
                let m = MarkerEvent { id: id, ..c };
                out[k] = m;
                proof {
                    assert(views(out@) =~= add_candidate(before, cv));
                }
            }
        },
    }
}

} // verus!

verus! {

/// A copy of a marker.
pub fn copy_marker(m: &MarkerEvent) -> (r: MarkerEvent)
    ensures
        r@ == m@,
{
    let speaker = match &m.speaker {
        Some(s) => Some(s.clone()),
        None => None,
    };
    MarkerEvent {
        id: m.id,
        marker_type: m.marker_type,
        start_time: m.start_time,
        end_time: m.end_time,
        confidence: m.confidence,
        evidence: m.evidence.clone(),
        explanation: m.explanation.clone(),
        speaker: speaker,
    }
}

/// A copy of a sequence of markers.
pub fn copy_markers(v: &Vec<MarkerEvent>) -> (r: Vec<MarkerEvent>)
    ensures
        views(r@) == views(v@),
{
    let mut out: Vec<MarkerEvent> = Vec::new();
    let mut i: usize = 0;
    while i < v.len()
        invariant
            i <= v.len(),
            views(out@) =~= views(v@).take(i as int),
        decreases v.len() - i,
    {
        let ghost before = out@;
        out.push(copy_marker(&v[i]));
        proof {
            assert(views(out@) =~= views(before).push(v@[i as int]@));
            assert(views(v@).take(i + 1) =~= views(v@).take(i as int).push(v@[i as int]@));
        }
        i = i + 1;
    }
    proof {
        assert(views(v@).take(v.len() as int) =~= views(v@));
    }
    out
}

} // verus!
