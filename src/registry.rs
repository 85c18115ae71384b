use vstd::prelude::*;
use crate::marker::{Stage, MarkerEvent, MarkerView, views, copy_markers, opt_view};
use crate::rapport::{RapportIndicator, RapportView, rapport_views, copy_series};
use crate::error::AnalysisError;
use crate::pipeline::Phase;

verus! {

/// Status of a session's job.
#[derive(PartialEq, Eq, Structural, Clone, Copy, Debug)]
pub enum JobStatus {
    Running,
    Complete,
    Failed(AnalysisError),
    Cancelled,
}

/// The tracked state of one session's run.
pub struct AnalysisJob {
    pub session_id: String,
    pub status: JobStatus,
    pub phase: Phase,
    pub markers: Vec<MarkerEvent>,
    pub rapport: Vec<RapportIndicator>,
    pub cancel_requested: bool,
    /// Why the job failed, once it has.
    pub message: Option<String>,
}

pub ghost struct JobView {
    pub session_id: Seq<char>,
    pub status: JobStatus,
    pub phase: Phase,
    pub markers: Seq<MarkerView>,
    pub rapport: Seq<RapportView>,
    pub cancel_requested: bool,
    pub message: Option<Seq<char>>,
}

impl View for AnalysisJob {
    type V = JobView;

    open spec fn view(&self) -> JobView {
        JobView {
            session_id: self.session_id@,
            status: self.status,
            phase: self.phase,
            markers: views(self.markers@),
            rapport: rapport_views(self.rapport@),
            cancel_requested: self.cancel_requested,
            message: opt_view(self.message),
        }
    }
}

/// A snapshot of a job's progress.
pub struct AnalysisProgress {
    pub session_id: String,
    /// Fraction of the run done, in permille.
    pub progress: u32,
    pub current_stage: Phase,
    pub markers_detected: usize,
    pub status: JobStatus,
    /// Why the job failed, once it has.
    pub message: Option<String>,
}

/// Markers and rapport series handed out for a session.
pub struct AnalysisResult {
    pub markers: Vec<MarkerEvent>,
    pub rapport: Vec<RapportIndicator>,
}

/// A job just started: Stage A next, nothing found yet.
pub open spec fn fresh_job(id: Seq<char>) -> JobView {
    JobView {
        session_id: id,
        status: JobStatus::Running,
        phase: Phase::A,
        markers: Seq::empty(),
        rapport: Seq::empty(),
        cancel_requested: false,
        message: None,
    }
}

/// The message attached to a failure of the given kind.
pub open spec fn message_of(e: AnalysisError) -> Seq<char> {
    match e {
        AnalysisError::InvalidInput => "malformed segment set"@,
        AnalysisError::StageDependencyError => "a stage ran without the output of a stage it depends on"@,
        AnalysisError::JobAlreadyRunning => "the session already has a running job"@,
        AnalysisError::NotFound => "no job was started for the session"@,
        AnalysisError::NotReady => "the job has not completed"@,
    }
}

/// A readable message for a failure.
pub fn failure_message(e: AnalysisError) -> (r: String)
    ensures
        r@ == message_of(e),
{
    match e {
        AnalysisError::InvalidInput => "malformed segment set".to_string(),
        AnalysisError::StageDependencyError => "a stage ran without the output of a stage it depends on".to_string(),
        AnalysisError::JobAlreadyRunning => "the session already has a running job".to_string(),
        AnalysisError::NotFound => "no job was started for the session".to_string(),
        AnalysisError::NotReady => "the job has not completed".to_string(),
    }
}

/// The phase in which a job waits for the given stage.
pub open spec fn phase_of(st: Stage) -> Phase {
    match st {
        Stage::A => Phase::A,
        Stage::B => Phase::B,
        Stage::C => Phase::C,
        Stage::D => Phase::D,
    }
}

/// Progress in permille on entering a phase: each finished step is a fifth.
pub open spec fn progress_of(p: Phase) -> int {
    match p {
        Phase::A => 0,
        Phase::B => 200,
        Phase::C => 400,
        Phase::D => 600,
        Phase::Rapport => 800,
        Phase::Complete => 1000,
    }
}

pub open spec fn next_phase(p: Phase) -> Phase {
    match p {
        Phase::A => Phase::B,
        Phase::B => Phase::C,
        Phase::C => Phase::D,
        _ => Phase::Rapport,
    }
}

/// The job after the stage it was waiting for ended: a failure fails the
/// job with the failure's message and keeps its markers; a success appends the stage's markers and
/// moves on, unless a cancellation was asked for meanwhile.
pub open spec fn after_stage(j: JobView, outcome: Result<Seq<MarkerView>, AnalysisError>) -> JobView {
    match outcome {
        Err(e) => JobView { status: JobStatus::Failed(e), message: Some(message_of(e)), ..j },
        Ok(ms) => JobView {
            markers: j.markers + ms,
            phase: next_phase(j.phase),
            status: if j.cancel_requested { JobStatus::Cancelled } else { JobStatus::Running },
            ..j
        },
    }
}

/// The job after the rapport engine ended.
pub open spec fn after_rapport(j: JobView, series: Seq<RapportView>) -> JobView {
    if j.cancel_requested {
        JobView { status: JobStatus::Cancelled, ..j }
    } else {
        JobView { status: JobStatus::Complete, phase: Phase::Complete, rapport: series, ..j }
    }
}

pub open spec fn outcome_view(o: Result<Vec<MarkerEvent>, AnalysisError>) -> Result<Seq<MarkerView>, AnalysisError> {
    match o {
        Ok(v) => Ok(views(v@)),
        Err(e) => Err(e),
    }
}

/// Index of the first job of the session `id`, or -1.
pub open spec fn find_job(s: Seq<JobView>, id: Seq<char>) -> int
    decreases s.len(),
{
    if s.len() == 0 {
        -1
    } else {
        let k = find_job(s.drop_last(), id);
        if k >= 0 {
            k
        } else if s.last().session_id == id {
            s.len() - 1
        } else {
            -1
        }
    }
}

pub open spec fn lookup(s: Seq<JobView>, id: Seq<char>) -> Option<JobView> {
    let k = find_job(s, id);
    if 0 <= k < s.len() { Some(s[k]) } else { None }
}

proof fn lemma_find_job(s: Seq<JobView>, id: Seq<char>)
    ensures
        -1 <= find_job(s, id) < s.len(),
        find_job(s, id) >= 0 ==> s[find_job(s, id)].session_id == id,
        find_job(s, id) < 0 ==> forall|i: int| 0 <= i < s.len() ==> (#[trigger] s[i]).session_id != id,
    decreases s.len(),
{
    if s.len() > 0 {
        lemma_find_job(s.drop_last(), id);
        assert forall|i: int| 0 <= i < s.len() - 1 implies s[i] == s.drop_last()[i] by {}
    }
}

/// Sequences with the same sessions at the same places find alike.
proof fn lemma_find_same_ids(s: Seq<JobView>, t: Seq<JobView>, id: Seq<char>)
    requires
        s.len() == t.len(),
        forall|i: int| 0 <= i < s.len() ==> (#[trigger] s[i]).session_id == t[i].session_id,
    ensures
        find_job(s, id) == find_job(t, id),
    decreases s.len(),
{
    if s.len() > 0 {
        assert forall|i: int| 0 <= i < s.len() - 1 implies (#[trigger] s.drop_last()[i]).session_id == t.drop_last()[i].session_id by {
            assert(s.drop_last()[i] == s[i] && t.drop_last()[i] == t[i]);
        }
        lemma_find_same_ids(s.drop_last(), t.drop_last(), id);
    }
}

proof fn lemma_update_lookup(s: Seq<JobView>, k: int, x: JobView)
    requires
        0 <= k < s.len(),
        find_job(s, x.session_id) == k,
    ensures
        forall|id: Seq<char>| #[trigger] lookup(s.update(k, x), id) == if id == x.session_id { Some(x) } else { lookup(s, id) },
{
    let t = s.update(k, x);
    lemma_find_job(s, x.session_id);
    assert forall|i: int| 0 <= i < s.len() implies (#[trigger] s[i]).session_id == t[i].session_id by {}
    assert forall|id: Seq<char>| #[trigger] lookup(t, id) == if id == x.session_id { Some(x) } else { lookup(s, id) } by {
        lemma_find_same_ids(s, t, id);
        lemma_find_job(s, id);
        lemma_find_job(s, x.session_id);
    }
}

proof fn lemma_push_lookup(s: Seq<JobView>, x: JobView)
    requires
        find_job(s, x.session_id) < 0,
    ensures
        forall|id: Seq<char>| #[trigger] lookup(s.push(x), id) == if id == x.session_id { Some(x) } else { lookup(s, id) },
{
    let t = s.push(x);
    assert(t.drop_last() =~= s);
    assert forall|id: Seq<char>| #[trigger] lookup(t, id) == if id == x.session_id { Some(x) } else { lookup(s, id) } by {
        lemma_find_job(s, id);
    }
}

/// The jobs of all sessions, one per session id.
pub struct JobRegistry {
    jobs: Vec<AnalysisJob>,
}

impl JobRegistry {
    pub closed spec fn jobs_view(&self) -> Seq<JobView> {
        self.jobs@.map_values(|j: AnalysisJob| j@)
    }

    /// The job of a session, if one was ever started.
    pub closed spec fn job(&self, id: Seq<char>) -> Option<JobView> {
        lookup(self.jobs_view(), id)
    }

    pub fn new() -> (r: JobRegistry)
        ensures
            forall|id: Seq<char>| #[trigger] r.job(id) is None,
    {
        let r = JobRegistry { jobs: Vec::new() };
        proof {
            assert forall|id: Seq<char>| #[trigger] r.job(id) is None by {
                assert(r.jobs_view().len() == 0);
            }
        }
        r
    }

    fn find(&self, id: &String) -> (r: Option<usize>)
        ensures
            match r {
                Some(k) => find_job(self.jobs_view(), id@) == k && k < self.jobs.len(),
                None => find_job(self.jobs_view(), id@) == -1,
            },
    {
        let ghost s = self.jobs_view();
        let mut i: usize = 0;
        while i < self.jobs.len()
            invariant
                i <= self.jobs.len(),
                s == self.jobs_view(),
                find_job(s.take(i as int), id@) == -1,
            decreases self.jobs.len() - i,
        {
            proof {
                assert(s.take(i + 1).drop_last() =~= s.take(i as int));
                assert(s.take(i + 1).last() == self.jobs@[i as int]@);
            }
            if self.jobs[i].session_id == *id {
                proof {
                    assert(find_job(s.take(i + 1), id@) == i);
                    lemma_find_prefix(s, id@, i + 1);
                }
                return Some(i);
            }
            i = i + 1;
        }
        proof {
            assert(s.take(self.jobs.len() as int) =~= s);
        }
        None
    }

    /// Puts `job` back at `k`, where its session's job stood.
    fn put_back(&mut self, k: usize, job: AnalysisJob, before: Ghost<Seq<JobView>>)
        requires
            k <= old(self).jobs.len(),
            0 <= k < before@.len(),
            find_job(before@, job.session_id@) == k,
            before@ == old(self).jobs_view().insert(k as int, before@[k as int]),
        ensures
            forall|id: Seq<char>| #[trigger] final(self).job(id)
                == if id == job.session_id@ { Some(job@) } else { lookup(before@, id) },
    {
        let ghost jv = job@;
        self.jobs.insert(k, job);
        proof {
            assert(self.jobs_view() =~= before@.update(k as int, jv));
            lemma_update_lookup(before@, k as int, jv);
        }
    }

    /// Starts a job for the session. Fails with `JobAlreadyRunning` while the
    /// session's job is running; otherwise a fresh job replaces any earlier one.
    pub fn start_job(&mut self, session_id: String) -> (r: Result<(), AnalysisError>)
        ensures
            match old(self).job(session_id@) {
                Some(j) => j.status == JobStatus::Running,
                None => false,
            } <==> r is Err,
            r is Err ==> r->Err_0 == AnalysisError::JobAlreadyRunning,
            r is Err ==> forall|id: Seq<char>| #[trigger] final(self).job(id) == old(self).job(id),
            r is Ok ==> forall|id: Seq<char>| #[trigger] final(self).job(id)
                == if id == session_id@ { Some(fresh_job(session_id@)) } else { old(self).job(id) },
    {
        let job = AnalysisJob {
            session_id,
            status: JobStatus::Running,
            phase: Phase::A,
            markers: Vec::new(),
            rapport: Vec::new(),
            cancel_requested: false,
            message: None,
        };
        proof {
            assert(views(job.markers@) =~= Seq::<MarkerView>::empty());
            assert(rapport_views(job.rapport@) =~= Seq::<RapportView>::empty());
        }
        let ghost before = self.jobs_view();
        match self.find(&job.session_id) {
            Some(k) => {
                proof {
                    lemma_find_job(before, job.session_id@);
                }
                if self.jobs[k].status == JobStatus::Running {
                    return Err(AnalysisError::JobAlreadyRunning);
                }
                self.jobs.remove(k);
                proof {
                    assert(before =~= self.jobs_view().insert(k as int, before[k as int]));
                }
                self.put_back(k, job, Ghost(before));
            },
            None => {
                let ghost jv = job@;
                self.jobs.push(job);
                proof {
                    assert(self.jobs_view() =~= before.push(jv));
                    lemma_push_lookup(before, jv);
                }
            },
        }
        Ok(())
    }

    /// The latest snapshot of the session's job; `NotFound` when no job
    /// was ever started for it.
    pub fn get_progress(&self, session_id: &String) -> (r: Result<AnalysisProgress, AnalysisError>)
        ensures
            self.job(session_id@) is None <==> r is Err,
            r is Err ==> r->Err_0 == AnalysisError::NotFound,
            r is Ok ==> ({
                let j = self.job(session_id@)->Some_0;
                let p = r->Ok_0;
                &&& p.session_id@ == session_id@
                &&& p.current_stage == j.phase
                &&& p.progress == progress_of(j.phase)
                &&& p.markers_detected == j.markers.len()
                &&& p.status == j.status
                &&& opt_view(p.message) == j.message
            }),
    {
        match self.find(session_id) {
            None => Err(AnalysisError::NotFound),
            Some(k) => {
                let j = &self.jobs[k];
                proof {
                    assert(self.jobs_view()[k as int] == j@);
                }
                let progress: u32 = match j.phase {
                    Phase::A => 0,
                    Phase::B => 200,
                    Phase::C => 400,
                    Phase::D => 600,
                    Phase::Rapport => 800,
                    Phase::Complete => 1000,
                };
                Ok(AnalysisProgress {
                    session_id: session_id.clone(),
                    progress,
                    current_stage: j.phase,
                    markers_detected: j.markers.len(),
                    status: j.status,
                    message: match &j.message {
                        Some(m) => Some(m.clone()),
                        None => None,
                    },
                })
            },
        }
    }

    /// Status of the session's job; `NotFound` when no job was ever started for it.
    pub fn get_status(&self, session_id: &String) -> (r: Result<JobStatus, AnalysisError>)
        ensures
            match self.job(session_id@) {
                None => r == Err::<JobStatus, AnalysisError>(AnalysisError::NotFound),
                Some(j) => r == Ok::<JobStatus, AnalysisError>(j.status),
            },
    {
        match self.find(session_id) {
            None => Err(AnalysisError::NotFound),
            Some(k) => {
                proof {
                    assert(self.jobs_view()[k as int] == self.jobs@[k as int]@);
                }
                Ok(self.jobs[k].status)
            },
        }
    }

    /// Asks the session's running job to stop at its next stage boundary.
    pub fn cancel(&mut self, session_id: &String) -> (r: Result<(), AnalysisError>)
        ensures
            old(self).job(session_id@) is None <==> r is Err,
            r is Err ==> r->Err_0 == AnalysisError::NotFound,
            forall|id: Seq<char>| #[trigger] final(self).job(id) == if id == session_id@ && r is Ok
                && old(self).job(id)->Some_0.status == JobStatus::Running {
                Some(JobView { cancel_requested: true, ..old(self).job(id)->Some_0 })
            } else {
                old(self).job(id)
            },
    {
        let ghost before = self.jobs_view();
        match self.find(session_id) {
            None => Err(AnalysisError::NotFound),
            Some(k) => {
                proof {
                    lemma_find_job(before, session_id@);
                }
                if self.jobs[k].status != JobStatus::Running {
                    return Ok(());
                }
                let mut job = self.jobs.remove(k);
                proof {
                    assert(before =~= self.jobs_view().insert(k as int, before[k as int]));
                }
                job.cancel_requested = true;
                self.put_back(k, job, Ghost(before));
                Ok(())
            },
        }
    }

    /// Records how `stage` ended for the session's job. Applies only to a
    /// running job that waits for that very stage, so stages are taken in
    /// order A, B, C, D; says whether it applied.
    pub fn record_stage(&mut self, session_id: &String, stage: Stage, outcome: Result<Vec<MarkerEvent>, AnalysisError>) -> (r: bool)
        ensures
            r <==> match old(self).job(session_id@) {
                Some(j) => j.status == JobStatus::Running && j.phase == phase_of(stage),
                None => false,
            },
            forall|id: Seq<char>| #[trigger] final(self).job(id) == if id == session_id@ && r {
                Some(after_stage(old(self).job(id)->Some_0, outcome_view(outcome)))
            } else {
                old(self).job(id)
            },
    {
        let ghost before = self.jobs_view();
        match self.find(session_id) {
            None => false,
            Some(k) => {
                proof {
                    lemma_find_job(before, session_id@);
                }
                let ph = self.jobs[k].phase;
                let wanted = match stage {
                    Stage::A => Phase::A,
                    Stage::B => Phase::B,
                    Stage::C => Phase::C,
                    Stage::D => Phase::D,
                };
                if self.jobs[k].status != JobStatus::Running || ph != wanted {
                    return false;
                }
                let mut job = self.jobs.remove(k);
                proof {
                    assert(before =~= self.jobs_view().insert(k as int, before[k as int]));
                    assert(job@ == before[k as int]);
                }
                let ghost jv = job@;
                match outcome {
                    Err(e) => {
                        job.status = JobStatus::Failed(e);
                        job.message = Some(failure_message(e));
                    },
                    Ok(ms) => {
                        let mut ms = ms;
                        let ghost mv = views(ms@);
                        job.markers.append(&mut ms);
                        proof {
                            assert(views(job.markers@) =~= jv.markers + mv);
                        }
                        job.phase = match ph {
                            Phase::A => Phase::B,
                            Phase::B => Phase::C,
                            Phase::C => Phase::D,
                            _ => Phase::Rapport,
                        };
                        job.status = if job.cancel_requested { JobStatus::Cancelled } else { JobStatus::Running };
                    },
                }
                proof {
                    assert(job@ == after_stage(jv, outcome_view(outcome)));
                }
                self.put_back(k, job, Ghost(before));
                true
            },
        }
    }

    /// Records the rapport series of the session's job once its four stages
    /// are done. Applies only to a running job waiting for the rapport
    /// engine; says whether it applied.
    pub fn record_rapport(&mut self, session_id: &String, series: Vec<RapportIndicator>) -> (r: bool)
        ensures
            r <==> match old(self).job(session_id@) {
                Some(j) => j.status == JobStatus::Running && j.phase == Phase::Rapport,
                None => false,
            },
            forall|id: Seq<char>| #[trigger] final(self).job(id) == if id == session_id@ && r {
                Some(after_rapport(old(self).job(id)->Some_0, rapport_views(series@)))
            } else {
                old(self).job(id)
            },
    {
        let ghost before = self.jobs_view();
        match self.find(session_id) {
            None => false,
            Some(k) => {
                proof {
                    lemma_find_job(before, session_id@);
                }
                if self.jobs[k].status != JobStatus::Running || self.jobs[k].phase != Phase::Rapport {
                    return false;
                }
                let mut job = self.jobs.remove(k);
                proof {
                    assert(before =~= self.jobs_view().insert(k as int, before[k as int]));
                    assert(job@ == before[k as int]);
                }
                let ghost jv = job@;
                if job.cancel_requested {
                    job.status = JobStatus::Cancelled;
                } else {
                    job.status = JobStatus::Complete;
                    job.phase = Phase::Complete;
                    job.rapport = series;
                }
                proof {
                    assert(job@ == after_rapport(jv, rapport_views(series@)));
                }
                self.put_back(k, job, Ghost(before));
                true
            },
        }
    }

    /// Discards every job of the session, finished or not; `NotFound` when
    /// it has none.
    pub fn clear(&mut self, session_id: &String) -> (r: Result<(), AnalysisError>)
        ensures
            old(self).job(session_id@) is None <==> r is Err,
            r is Err ==> r->Err_0 == AnalysisError::NotFound,
            forall|id: Seq<char>| #[trigger] final(self).job(id) == if id == session_id@ { None } else { old(self).job(id) },
    {
        let ghost start = self.jobs_view();
        let mut found = false;
        loop
            invariant
                start == old(self).jobs_view(),
                found ==> lookup(start, session_id@) is Some,
                !found ==> self.jobs_view() == start,
                forall|id: Seq<char>| id != session_id@ ==> #[trigger] lookup(self.jobs_view(), id) == lookup(start, id),
            ensures
                start == old(self).jobs_view(),
                found ==> lookup(start, session_id@) is Some,
                !found ==> self.jobs_view() == start,
                forall|id: Seq<char>| id != session_id@ ==> #[trigger] lookup(self.jobs_view(), id) == lookup(start, id),
                lookup(self.jobs_view(), session_id@) is None,
            decreases self.jobs.len(),
        {
            match self.find(session_id) {
                None => {
                    proof {
                        assert(self.job(session_id@) is None);
                    }
                    break;
                },
                Some(k) => {
                    let ghost before = self.jobs_view();
                    proof {
                        assert forall|id: Seq<char>| id != session_id@ implies
                            #[trigger] lookup(before.remove(k as int), id) == lookup(before, id) by {
                            lemma_remove_lookup(before, session_id@, id);
                        }
                        lemma_find_job(before, session_id@);
                    }
                    self.jobs.remove(k);
                    proof {
                        assert(self.jobs_view() =~= before.remove(k as int));
                        assert forall|id: Seq<char>| id != session_id@ implies #[trigger] lookup(self.jobs_view(), id) == lookup(start, id) by {
                            assert(lookup(before.remove(k as int), id) == lookup(before, id));
                            assert(lookup(before, id) == lookup(start, id));
                        }
                        if !found {
                            assert(before == start);
                            assert(lookup(start, session_id@) is Some);
                        }
                    }
                    found = true;
                },
            }
        }
        proof {
            assert forall|id: Seq<char>| #[trigger] self.job(id) == if id == session_id@ { None } else { old(self).job(id) } by {
                if id != session_id@ {
                    assert(lookup(self.jobs_view(), id) == lookup(start, id));
                }
            }
            assert(old(self).job(session_id@) == lookup(start, session_id@));
        }
        if found { Ok(()) } else { Err(AnalysisError::NotFound) }
    }

    /// The markers and rapport series of the session's completed job;
    /// `NotFound` without a job, `NotReady` until it completes.
    pub fn get_result(&self, session_id: &String) -> (r: Result<AnalysisResult, AnalysisError>)
        ensures
            match self.job(session_id@) {
                None => r == Err::<AnalysisResult, AnalysisError>(AnalysisError::NotFound),
                Some(j) => if j.status == JobStatus::Complete {
                    r is Ok && views(r->Ok_0.markers@) == j.markers && rapport_views(r->Ok_0.rapport@) == j.rapport
                } else {
                    r == Err::<AnalysisResult, AnalysisError>(AnalysisError::NotReady)
                },
            },
    {
        match self.find(session_id) {
            None => Err(AnalysisError::NotFound),
            Some(k) => {
                let j = &self.jobs[k];
                proof {
                    assert(self.jobs_view()[k as int] == j@);
                }
                if j.status != JobStatus::Complete {
                    return Err(AnalysisError::NotReady);
                }
                Ok(AnalysisResult { markers: copy_markers(&j.markers), rapport: copy_series(&j.rapport) })
            },
        }
    }

    /// Best-effort result: whatever the session's job has so far, completed
    /// or not; `NotFound` without a job.
    pub fn get_partial_result(&self, session_id: &String) -> (r: Result<AnalysisResult, AnalysisError>)
        ensures
            match self.job(session_id@) {
                None => r == Err::<AnalysisResult, AnalysisError>(AnalysisError::NotFound),
                Some(j) => r is Ok && views(r->Ok_0.markers@) == j.markers && rapport_views(r->Ok_0.rapport@) == j.rapport,
            },
    {
        match self.find(session_id) {
            None => Err(AnalysisError::NotFound),
            Some(k) => {
                let j = &self.jobs[k];
                proof {
                    assert(self.jobs_view()[k as int] == j@);
                }
                Ok(AnalysisResult { markers: copy_markers(&j.markers), rapport: copy_series(&j.rapport) })
            },
        }
    }
}

/// `j` is the first index of the session `id`, or -1 when it has none.
proof fn lemma_find_char(s: Seq<JobView>, id: Seq<char>, j: int)
    requires
        (j == -1 && forall|i: int| 0 <= i < s.len() ==> (#[trigger] s[i]).session_id != id)
        || (0 <= j < s.len() && s[j].session_id == id && forall|i: int| 0 <= i < j ==> (#[trigger] s[i]).session_id != id),
    ensures
        find_job(s, id) == j,
    decreases s.len(),
{
    if s.len() > 0 {
        let p = s.drop_last();
        if j == s.len() - 1 || j == -1 {
            lemma_find_char(p, id, -1);
        } else {
            lemma_find_char(p, id, j);
        }
    }
}

/// Removing the first job of one session leaves the other sessions' jobs as they were.
proof fn lemma_remove_lookup(s: Seq<JobView>, id: Seq<char>, o: Seq<char>)
    requires
        find_job(s, id) >= 0,
        o != id,
    ensures
        lookup(s.remove(find_job(s, id)), o) == lookup(s, o),
{
    let k = find_job(s, id);
    lemma_find_job(s, id);
    lemma_find_job(s, o);
    let t = s.remove(k);
    let j = find_job(s, o);
    if j < 0 {
        lemma_find_char(t, o, -1);
    } else {
        lemma_find_first(s, o);
        assert(j != k);
        if j < k {
            assert(t[j] == s[j]);
            lemma_find_char(t, o, j);
        } else {
            assert(t[j - 1] == s[j]);
            assert forall|i: int| 0 <= i < j - 1 implies (#[trigger] t[i]).session_id != o by {
                if i < k { assert(t[i] == s[i]); } else { assert(t[i] == s[i + 1]); }
            }
            lemma_find_char(t, o, j - 1);
        }
    }
}

/// No job of the session stands before its first one.
proof fn lemma_find_first(s: Seq<JobView>, id: Seq<char>)
    ensures
        forall|i: int| 0 <= i < find_job(s, id) ==> (#[trigger] s[i]).session_id != id,
    decreases s.len(),
{
    if s.len() > 0 {
        let p = s.drop_last();
        lemma_find_first(p, id);
        lemma_find_job(p, id);
        assert forall|i: int| 0 <= i < find_job(s, id) implies (#[trigger] s[i]).session_id != id by {
            assert(s[i] == p[i]);
        }
    }
}

proof fn lemma_find_prefix(s: Seq<JobView>, id: Seq<char>, n: int)
    requires
        0 <= n <= s.len(),
        find_job(s.take(n), id) >= 0,
    ensures
        find_job(s, id) == find_job(s.take(n), id),
    decreases s.len() - n,
{
    if n < s.len() {
        assert(s.take(n + 1).drop_last() =~= s.take(n));
        lemma_find_prefix(s, id, n + 1);
    } else {
        assert(s.take(n) =~= s);
    }
}

} // verus!

verus! {

/// When Stages A and B succeed and Stage C fails, the job is failed with the
/// failure's message, keeps
/// exactly the markers of Stages A and B, and holds no rapport series; its
/// best-effort result is those markers and an empty series.
pub proof fn law_partial_failure(id: Seq<char>, a: Seq<MarkerView>, b: Seq<MarkerView>, e: AnalysisError)
    ensures
        ({
            let j = after_stage(after_stage(after_stage(fresh_job(id), Ok(a)), Ok(b)), Err(e));
            &&& j.status == JobStatus::Failed(e)
            &&& j.phase == Phase::C
            &&& j.message == Some(message_of(e))
            &&& j.markers == a + b
            &&& j.rapport.len() == 0
        }),
{
    assert(Seq::<MarkerView>::empty() + a + b =~= a + b);
}

} // verus!
