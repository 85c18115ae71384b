use vstd::prelude::*;

verus! {

/// Signed weight of each marker category in the rapport value, in permille.
#[derive(Clone, Copy, Debug)]
pub struct CategoryWeights {
    pub a: i32,
    pub b: i32,
    pub c: i32,
    pub d: i32,
}

/// Tunable parameters of the pipeline; times in milliseconds.
pub struct AnalysisConfig {
    /// Stage A: largest pause before a change of speaker that counts as a prompt take-up.
    pub turn_gap: u64,
    /// Stage B: how near a Stage A marker must be for the boost to apply.
    pub proximity: u64,
    /// Stage B: confidence added near a Stage A marker, in permille.
    pub proximity_boost: u32,
    /// Stage B: evaluative terms, matched ignoring ASCII case.
    pub evaluative_terms: Vec<String>,
    /// Stage C: largest gap between the two turns of a reciprocal exchange.
    pub reciprocity_gap: u64,
    /// Stage C: longest span of a cluster, from the first turn's start to the second's end.
    pub cluster_window: u64,
    /// Stage D: fewest clusters that make a session-wide pattern.
    pub min_clusters: usize,
    /// Rapport engine: window length.
    pub rapport_window: u64,
    /// Rapport engine: distance between consecutive window starts.
    pub rapport_step: u64,
    /// Rapport engine: dead band of the trend, in millionths.
    pub trend_band: u64,
    pub weights: CategoryWeights,
}

/// The default evaluative terms.
pub open spec fn default_terms() -> Seq<Seq<char>> {
    seq![
        "great"@, "agree"@, "exactly"@, "good"@, "love"@,
        "wonderful"@, "right"@, "thank"@, "excellent"@, "helpful"@,
    ]
}

impl AnalysisConfig {
    /// Rapport windows that have a length and advance.
    pub open spec fn wf(&self) -> bool {
        &&& self.rapport_window > 0
        &&& self.rapport_step > 0
    }

    /// Checks `wf`.
    pub fn is_valid(&self) -> (r: bool)
        ensures
            r == self.wf(),
    {
        self.rapport_window > 0 && self.rapport_step > 0
    }

    /// The stated defaults: 1 s take-up gap, 5 s proximity with a 0.1 boost,
    /// 3 s reciprocity gap in a 30 s cluster window, two clusters for a
    /// session pattern, 60 s rapport windows every 30 s, a 0.05 dead band.
    pub fn default_config() -> (r: AnalysisConfig)
        ensures
            r.wf(),
            r.turn_gap == 1000,
            r.proximity == 5000,
            r.proximity_boost == 100,
            r.reciprocity_gap == 3000,
            r.cluster_window == 30000,
            r.min_clusters == 2,
            r.rapport_window == 60000,
            r.rapport_step == 30000,
            r.trend_band == 50000,
            r.weights.a == 200 && r.weights.b == 400 && r.weights.c == 600 && r.weights.d == 300,
            r.evaluative_terms@.map_values(|t: String| t@) == default_terms(),
    {
        let mut terms: Vec<String> = Vec::new();
        terms.push("great".to_string());
        terms.push("agree".to_string());
        terms.push("exactly".to_string());
        terms.push("good".to_string());
        terms.push("love".to_string());
        terms.push("wonderful".to_string());
        terms.push("right".to_string());
        terms.push("thank".to_string());
        terms.push("excellent".to_string());
        terms.push("helpful".to_string());
        proof {
            assert(terms@.map_values(|t: String| t@) =~= default_terms());
        }
        AnalysisConfig {
            turn_gap: 1000,
            proximity: 5000,
            proximity_boost: 100,
            evaluative_terms: terms,
            reciprocity_gap: 3000,
            cluster_window: 30000,
            min_clusters: 2,
            rapport_window: 60000,
            rapport_step: 30000,
            trend_band: 50000,
            weights: CategoryWeights { a: 200, b: 400, c: 600, d: 300 },
        }
    }
}

} // verus!
