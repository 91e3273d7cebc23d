//! The job store and application state: one submission-ordered sequence of
//! jobs with unique ids, the retained conversion history (capped at the
//! most recent 100 entries), the settings record, and the scheduler's own
//! flags. Keeping the records and their order in a single sequence makes
//! every read of "the jobs, in submission order" consistent by
//! construction: a job can never be present in one structure and absent
//! from the other.

use vstd::prelude::*;

verus! {

use crate::ffmpeg::ConversionJob;
use crate::ffmpeg::JobStatus;
use crate::ffmpeg::clone_opt_string;
use crate::ffmpeg::is_terminal;
use crate::text::str_eq;

/// Flat settings record, loaded at startup and saved on every update by
/// the surrounding application.
#[derive(Debug, Clone)]
pub struct AppSettings {
    pub output_directory: String,
    pub use_subdirectory: bool,
    pub subdirectory_name: String,
    pub file_name_pattern: String,
    pub zoomed_thumbnails: bool,
}

impl AppSettings {
    /// An exact copy; written out so the copy is known equal to the source.
    pub fn duplicate(&self) -> (r: Self)
        ensures
            r == *self,
    {
        AppSettings {
            output_directory: self.output_directory.clone(),
            use_subdirectory: self.use_subdirectory,
            subdirectory_name: self.subdirectory_name.clone(),
            file_name_pattern: self.file_name_pattern.clone(),
            zoomed_thumbnails: self.zoomed_thumbnails,
        }
    }
}

impl Default for AppSettings {
    /// The out-of-the-box settings: convert into a `converted`
    /// subdirectory next to the source, with a `_converted` name suffix.
    fn default() -> (r: Self)
        ensures
            r.output_directory@ == Seq::<char>::empty(),
            r.use_subdirectory == true,
            r.subdirectory_name@ == "converted"@,
            r.file_name_pattern@ == "{name}_converted"@,
            r.zoomed_thumbnails == false,
    {
        AppSettings {
            output_directory: String::new(),
            use_subdirectory: true,
            subdirectory_name: "converted".to_owned(),
            file_name_pattern: "{name}_converted".to_owned(),
            zoomed_thumbnails: false,
        }
    }
}

/// A retained record of one finished conversion. `duration_ms` is the
/// probed duration of the source in milliseconds.
#[derive(Debug, Clone)]
pub struct ConversionHistory {
    pub id: String,
    pub input_path: String,
    pub output_path: String,
    pub preset_name: String,
    pub completed_at: String,
    pub file_size_before: u64,
    pub file_size_after: u64,
    pub duration_ms: u64,
}

impl ConversionHistory {
    /// An exact copy; written out so the copy is known equal to the source.
    pub fn duplicate(&self) -> (r: Self)
        ensures
            r == *self,
    {
        ConversionHistory {
            id: self.id.clone(),
            input_path: self.input_path.clone(),
            output_path: self.output_path.clone(),
            preset_name: self.preset_name.clone(),
            completed_at: self.completed_at.clone(),
            file_size_before: self.file_size_before,
            file_size_after: self.file_size_after,
            duration_ms: self.duration_ms,
        }
    }
}

/// No two stored jobs share an id.
pub open spec fn ids_unique(jobs: Seq<ConversionJob>) -> bool {
    forall|k: int, l: int|
        0 <= k < l < jobs.len() ==> (#[trigger] jobs[k]).id@ != (#[trigger] jobs[l]).id@
}

/// Never are two jobs being converted at once: the store's mutual
/// exclusion invariant.
pub open spec fn at_most_one_processing(jobs: Seq<ConversionJob>) -> bool {
    forall|k: int, l: int|
        0 <= k < l < jobs.len() ==> !((#[trigger] jobs[k]).status is Processing
            && (#[trigger] jobs[l]).status is Processing)
}

/// Some stored job carries this id.
pub open spec fn has_job(jobs: Seq<ConversionJob>, id: Seq<char>) -> bool {
    exists|k: int| 0 <= k < jobs.len() && (#[trigger] jobs[k]).id@ == id
}

/// A job that still awaits work: submitted, or probed and ready.
pub open spec fn is_waiting(j: ConversionJob) -> bool {
    j.status is Queued || j.status is Ready
}

/// The store after one submission: a known id updates its record in
/// place, a new id is appended to the queue.
pub open spec fn submit_spec(jobs: Seq<ConversionJob>, job: ConversionJob) -> Seq<ConversionJob> {
    if has_job(jobs, job.id@) {
        let k = choose|k: int| 0 <= k < jobs.len() && (#[trigger] jobs[k]).id@ == job.id@;
        jobs.update(k, job)
    } else {
        jobs.push(job)
    }
}

/// The live state: jobs in submission order, history, settings, and the
/// scheduler's flags (whether its polling loop runs, and whether any job
/// was ever submitted, the key of the fast-track policy).
pub struct AppState {
    pub jobs: Vec<ConversionJob>,
    pub history: Vec<ConversionHistory>,
    pub settings: AppSettings,
    pub processor_running: bool,
    pub any_submitted: bool,
}

impl AppState {
    /// Well-formedness: unique ids, at most one job converting, progress
    /// within its percent range, and the history within its cap.
    pub open spec fn wf(&self) -> bool {
        &&& ids_unique(self.jobs@)
        &&& at_most_one_processing(self.jobs@)
        &&& (forall|k: int| 0 <= k < self.jobs@.len() ==> (#[trigger] self.jobs@[k]).progress <= 100)
        &&& self.history@.len() <= 100
    }

    /// A permissible new record: a job under conversion may only be
    /// written where no other job is under conversion.
    pub open spec fn may_store(&self, job: ConversionJob) -> bool {
        &&& job.progress <= 100
        &&& (job.status is Processing ==> forall|k: int|
            0 <= k < self.jobs@.len() ==> ((#[trigger] self.jobs@[k]).status is Processing
                ==> self.jobs@[k].id@ == job.id@))
    }

    /// An empty store: no jobs, no history, default settings, no polling
    /// loop running, nothing ever submitted.
    pub fn new() -> (r: Self)
        ensures
            r.wf(),
            r.jobs@.len() == 0,
            r.history@.len() == 0,
            r.settings.output_directory@ == Seq::<char>::empty(),
            r.settings.use_subdirectory == true,
            r.settings.subdirectory_name@ == "converted"@,
            r.settings.file_name_pattern@ == "{name}_converted"@,
            r.settings.zoomed_thumbnails == false,
            r.processor_running == false,
            r.any_submitted == false,
    {
        AppState {
            jobs: Vec::new(),
            history: Vec::new(),
            settings: AppSettings::default(),
            processor_running: false,
            any_submitted: false,
        }
    }

    /// Index of the job with this id, if it is stored.
    fn find_job_index(&self, id: &str) -> (r: Option<usize>)
        ensures
            match r {
                Some(k) => k < self.jobs@.len() && self.jobs@[k as int].id@ == id@,
                None => !has_job(self.jobs@, id@),
            },
    {
        let mut k: usize = 0;
        while k < self.jobs.len()
            invariant
                k <= self.jobs@.len(),
                forall|l: int| 0 <= l < k ==> (#[trigger] self.jobs@[l]).id@ != id@,
            decreases self.jobs@.len() - k,
        {
            if str_eq(self.jobs[k].id.as_str(), id) {
                return Some(k);
            }
            k += 1;
        }
        None
    }

    /// Stores a submission: a job with a known id replaces that record in
    /// place without a second queue position; a new id is appended.
    pub fn add_job(&mut self, job: ConversionJob)
        requires
            old(self).wf(),
            old(self).may_store(job),
        ensures
            final(self).wf(),
            final(self).jobs@ == submit_spec(old(self).jobs@, job),
            final(self).jobs@.len() == if has_job(old(self).jobs@, job.id@) {
                old(self).jobs@.len()
            } else {
                old(self).jobs@.len() + 1
            },
            has_job(final(self).jobs@, job.id@),
            final(self).history == old(self).history,
            final(self).settings == old(self).settings,
            final(self).processor_running == old(self).processor_running,
            final(self).any_submitted == old(self).any_submitted,
    {
        let found = self.find_job_index(job.id.as_str());
        match found {
            Some(k) => {
                proof {
                    let c = choose|c: int|
                        0 <= c < self.jobs@.len() && (#[trigger] self.jobs@[c]).id@ == job.id@;
                    assert(self.jobs@[k as int].id@ == job.id@);
                    assert(c == k);
                }
                let ghost before = self.jobs@;
                self.jobs[k] = job;
                proof {
                    assert forall|a: int, b: int| 0 <= a < b < self.jobs@.len() implies (
                    #[trigger] self.jobs@[a]).id@ != (#[trigger] self.jobs@[b]).id@ by {
                        assert(before[a].id@ != before[b].id@);
                    }
                    assert(has_job(self.jobs@, job.id@));
                }
            },
            None => {
                let ghost before = self.jobs@;
                self.jobs.push(job);
                proof {
                    assert(self.jobs@[self.jobs@.len() - 1].id@ == job.id@);
                    assert(has_job(self.jobs@, job.id@));
                }
            },
        }
    }

    /// Replaces the record of a stored id; an absent id is a detectable
    /// no-op. Returns whether the id was found.
    pub fn update_job(&mut self, job: ConversionJob) -> (r: bool)
        requires
            old(self).wf(),
            old(self).may_store(job),
        ensures
            final(self).wf(),
            r == has_job(old(self).jobs@, job.id@),
            final(self).jobs@ == if has_job(old(self).jobs@, job.id@) {
                submit_spec(old(self).jobs@, job)
            } else {
                old(self).jobs@
            },
            final(self).history == old(self).history,
            final(self).settings == old(self).settings,
            final(self).processor_running == old(self).processor_running,
            final(self).any_submitted == old(self).any_submitted,
    {
        let found = self.find_job_index(job.id.as_str());
        match found {
            Some(k) => {
                proof {
                    let c = choose|c: int|
                        0 <= c < self.jobs@.len() && (#[trigger] self.jobs@[c]).id@ == job.id@;
                    assert(self.jobs@[k as int].id@ == job.id@);
                    assert(c == k);
                }
                let ghost before = self.jobs@;
                self.jobs[k] = job;
                proof {
                    assert forall|a: int, b: int| 0 <= a < b < self.jobs@.len() implies (
                    #[trigger] self.jobs@[a]).id@ != (#[trigger] self.jobs@[b]).id@ by {
                        assert(before[a].id@ != before[b].id@);
                    }
                }
                true
            },
            None => false,
        }
    }

    /// The first job, in submission order, that still awaits work: queued
    /// or ready. Tells whether background work remains.
    pub fn get_next_queued_job(&self) -> (r: Option<String>)
        ensures
            match r {
                Some(id) => exists|k: int|
                    0 <= k < self.jobs@.len() && is_waiting(#[trigger] self.jobs@[k]) && id@
                        == self.jobs@[k].id@ && (forall|l: int|
                        0 <= l < k ==> !is_waiting(#[trigger] self.jobs@[l])),
                None => forall|k: int|
                    0 <= k < self.jobs@.len() ==> !is_waiting(#[trigger] self.jobs@[k]),
            },
    {
        let mut k: usize = 0;
        while k < self.jobs.len()
            invariant
                k <= self.jobs@.len(),
                forall|l: int| 0 <= l < k ==> !is_waiting(#[trigger] self.jobs@[l]),
            decreases self.jobs@.len() - k,
        {
            let st = self.jobs[k].status;
            if st == JobStatus::Queued || st == JobStatus::Ready {
                return Some(self.jobs[k].id.clone());
            }
            k += 1;
        }
        None
    }

    /// The first job, in submission order, whose status is exactly Ready:
    /// the dispatch candidate.
    pub fn get_next_ready_job(&self) -> (r: Option<String>)
        ensures
            match r {
                Some(id) => has_job(self.jobs@, id@) && exists|k: int|
                    0 <= k < self.jobs@.len() && (#[trigger] self.jobs@[k]).status is Ready && id@
                        == self.jobs@[k].id@ && (forall|l: int|
                        0 <= l < k ==> !((#[trigger] self.jobs@[l]).status is Ready)),
                None => forall|k: int|
                    0 <= k < self.jobs@.len() ==> !((#[trigger] self.jobs@[k]).status is Ready),
            },
    {
        let mut k: usize = 0;
        while k < self.jobs.len()
            invariant
                k <= self.jobs@.len(),
                forall|l: int| 0 <= l < k ==> !((#[trigger] self.jobs@[l]).status is Ready),
            decreases self.jobs@.len() - k,
        {
            if self.jobs[k].status == JobStatus::Ready {
                proof {
                    assert(has_job(self.jobs@, self.jobs@[k as int].id@));
                }
                return Some(self.jobs[k].id.clone());
            }
            k += 1;
        }
        None
    }

    /// Whether any stored job is being converted right now: the mutual
    /// exclusion gate of the scheduler.
    pub fn is_any_job_processing(&self) -> (r: bool)
        ensures
            r == exists|k: int|
                0 <= k < self.jobs@.len() && (#[trigger] self.jobs@[k]).status is Processing,
    {
        let mut k: usize = 0;
        while k < self.jobs.len()
            invariant
                k <= self.jobs@.len(),
                forall|l: int| 0 <= l < k ==> !((#[trigger] self.jobs@[l]).status is Processing),
            decreases self.jobs@.len() - k,
        {
            if self.jobs[k].status == JobStatus::Processing {
                return true;
            }
            k += 1;
        }
        false
    }

    /// Sets the status of the job with this id and touches nothing else;
    /// an absent id is a no-op.
    pub fn update_job_status(&mut self, id: &str, status: JobStatus)
        requires
            old(self).wf(),
            status is Processing ==> forall|k: int|
                0 <= k < old(self).jobs@.len() ==> ((#[trigger] old(self).jobs@[k]).status
                    is Processing ==> old(self).jobs@[k].id@ == id@),
        ensures
            final(self).wf(),
            final(self).jobs@.len() == old(self).jobs@.len(),
            forall|k: int|
                0 <= k < old(self).jobs@.len() ==> final(self).jobs@[k] == (if (
                #[trigger] old(self).jobs@[k]).id@ == id@ {
                    ConversionJob { status, ..old(self).jobs@[k] }
                } else {
                    old(self).jobs@[k]
                }),
            final(self).history == old(self).history,
            final(self).settings == old(self).settings,
            final(self).processor_running == old(self).processor_running,
            final(self).any_submitted == old(self).any_submitted,
    {
        let found = self.find_job_index(id);
        match found {
            Some(k) => {
                let ghost before = self.jobs@;
                let mut job = self.jobs[k].duplicate();
                job.status = status;
                self.jobs[k] = job;
                proof {
                    assert forall|a: int, b: int| 0 <= a < b < self.jobs@.len() implies (
                    #[trigger] self.jobs@[a]).id@ != (#[trigger] self.jobs@[b]).id@ by {
                        assert(before[a].id@ != before[b].id@);
                    }
                    assert forall|a: int| 0 <= a < before.len() implies final(self).jobs@[a] == (
                    if (#[trigger] before[a]).id@ == id@ {
                        ConversionJob { status, ..before[a] }
                    } else {
                        before[a]
                    }) by {
                        if a != k {
                            assert(before[a].id@ != id@);
                        }
                    }
                }
            },
            None => {},
        }
    }

    /// Sets the progress percentage of the job with this id and touches
    /// nothing else; an absent id is a no-op.
    pub fn update_job_progress(&mut self, id: &str, progress: u32)
        requires
            old(self).wf(),
            progress <= 100,
        ensures
            final(self).wf(),
            final(self).jobs@.len() == old(self).jobs@.len(),
            forall|k: int|
                0 <= k < old(self).jobs@.len() ==> final(self).jobs@[k] == (if (
                #[trigger] old(self).jobs@[k]).id@ == id@ {
                    ConversionJob { progress, ..old(self).jobs@[k] }
                } else {
                    old(self).jobs@[k]
                }),
            final(self).history == old(self).history,
            final(self).settings == old(self).settings,
            final(self).processor_running == old(self).processor_running,
            final(self).any_submitted == old(self).any_submitted,
    {
        let found = self.find_job_index(id);
        match found {
            Some(k) => {
                let ghost before = self.jobs@;
                let mut job = self.jobs[k].duplicate();
                job.progress = progress;
                self.jobs[k] = job;
                proof {
                    assert forall|a: int, b: int| 0 <= a < b < self.jobs@.len() implies (
                    #[trigger] self.jobs@[a]).id@ != (#[trigger] self.jobs@[b]).id@ by {
                        assert(before[a].id@ != before[b].id@);
                    }
                    assert forall|a: int, b: int|
                        0 <= a < b < self.jobs@.len() implies !((#[trigger] self.jobs@[a]).status
                        is Processing && (#[trigger] self.jobs@[b]).status is Processing) by {
                        assert(!(before[a].status is Processing && before[b].status
                            is Processing));
                    }
                    assert forall|a: int| 0 <= a < before.len() implies final(self).jobs@[a] == (
                    if (#[trigger] before[a]).id@ == id@ {
                        ConversionJob { progress, ..before[a] }
                    } else {
                        before[a]
                    }) by {
                        if a != k {
                            assert(before[a].id@ != id@);
                        }
                    }
                }
            },
            None => {},
        }
    }

    /// Sets the human-readable status message of the job with this id and
    /// touches nothing else; an absent id is a no-op.
    pub fn update_job_status_message(&mut self, id: &str, message: String)
        requires
            old(self).wf(),
        ensures
            final(self).wf(),
            final(self).jobs@.len() == old(self).jobs@.len(),
            forall|k: int|
                0 <= k < old(self).jobs@.len() ==> final(self).jobs@[k] == (if (
                #[trigger] old(self).jobs@[k]).id@ == id@ {
                    ConversionJob { status_message: Some(message), ..old(self).jobs@[k] }
                } else {
                    old(self).jobs@[k]
                }),
            final(self).history == old(self).history,
            final(self).settings == old(self).settings,
            final(self).processor_running == old(self).processor_running,
            final(self).any_submitted == old(self).any_submitted,
    {
        let found = self.find_job_index(id);
        match found {
            Some(k) => {
                let ghost before = self.jobs@;
                let mut job = self.jobs[k].duplicate();
                job.status_message = Some(message);
                self.jobs[k] = job;
                proof {
                    assert forall|a: int, b: int| 0 <= a < b < self.jobs@.len() implies (
                    #[trigger] self.jobs@[a]).id@ != (#[trigger] self.jobs@[b]).id@ by {
                        assert(before[a].id@ != before[b].id@);
                    }
                    assert forall|a: int, b: int|
                        0 <= a < b < self.jobs@.len() implies !((#[trigger] self.jobs@[a]).status
                        is Processing && (#[trigger] self.jobs@[b]).status is Processing) by {
                        assert(!(before[a].status is Processing && before[b].status
                            is Processing));
                    }
                    assert forall|a: int| 0 <= a < before.len() implies final(self).jobs@[a] == (
                    if (#[trigger] before[a]).id@ == id@ {
                        ConversionJob { status_message: Some(message), ..before[a] }
                    } else {
                        before[a]
                    }) by {
                        if a != k {
                            assert(before[a].id@ != id@);
                        }
                    }
                }
            },
            None => {},
        }
    }

    /// The record of the job with this id, if it is stored.
    pub fn get_job(&self, id: &str) -> (r: Option<ConversionJob>)
        ensures
            match r {
                Some(j) => has_job(self.jobs@, id@) && j.id@ == id@ && exists|k: int|
                    0 <= k < self.jobs@.len() && #[trigger] self.jobs@[k] == j,
                None => !has_job(self.jobs@, id@),
            },
    {
        let found = self.find_job_index(id);
        match found {
            Some(k) => {
                let j = self.jobs[k].duplicate();
                proof {
                    assert(has_job(self.jobs@, id@));
                    assert(self.jobs@[k as int] == j);
                }
                Some(j)
            },
            None => None,
        }
    }

    /// Every stored job, in submission order.
    pub fn get_all_jobs(&self) -> (r: Vec<ConversionJob>)
        ensures
            r@ == self.jobs@,
    {
        let mut out: Vec<ConversionJob> = Vec::new();
        let mut k: usize = 0;
        while k < self.jobs.len()
            invariant
                k <= self.jobs@.len(),
                out@ == self.jobs@.subrange(0, k as int),
            decreases self.jobs@.len() - k,
        {
            out.push(self.jobs[k].duplicate());
            proof {
                assert(out@ =~= self.jobs@.subrange(0, k + 1));
            }
            k += 1;
        }
        proof {
            assert(self.jobs@.subrange(0, self.jobs@.len() as int) =~= self.jobs@);
        }
        out
    }
}

/// Jobs that survive a clear: everything not in a terminal status.
pub open spec fn live_pred() -> spec_fn(ConversionJob) -> bool {
    |j: ConversionJob| !is_terminal(j.status)
}

/// Every element of a filtered sequence comes from the original.
proof fn lemma_filter_element_from<A>(s: Seq<A>, pred: spec_fn(A) -> bool, i: int)
    requires
        0 <= i < s.filter(pred).len(),
    ensures
        exists|j: int| 0 <= j < s.len() && #[trigger] s[j] == s.filter(pred)[i],
    decreases s.len(),
{
    reveal(Seq::filter);
    if s.len() > 0 {
        let dl = s.drop_last();
        if pred(s.last()) && i == s.filter(pred).len() - 1 {
            assert(s[s.len() - 1] == s.filter(pred)[i]);
        } else {
            lemma_filter_element_from(dl, pred, i);
            let j = choose|j: int| 0 <= j < dl.len() && #[trigger] dl[j] == dl.filter(pred)[i];
            assert(s[j] == s.filter(pred)[i]);
        }
    }
}

/// Uniqueness of ids and mutual exclusion survive dropping jobs.
proof fn lemma_live_jobs_wf(s: Seq<ConversionJob>)
    requires
        ids_unique(s),
        at_most_one_processing(s),
        forall|k: int| 0 <= k < s.len() ==> (#[trigger] s[k]).progress <= 100,
    ensures
        ids_unique(s.filter(live_pred())),
        at_most_one_processing(s.filter(live_pred())),
        forall|k: int|
            0 <= k < s.filter(live_pred()).len() ==> (#[trigger] s.filter(
                live_pred(),
            )[k]).progress <= 100,
{
    let out = s.filter(live_pred());
    assert forall|a: int, b: int| 0 <= a < b < out.len() implies (#[trigger] out[a]).id@ != (
    #[trigger] out[b]).id@ && !(out[a].status is Processing && out[b].status is Processing) by {
        lemma_filter_element_from(s, live_pred(), a);
        lemma_filter_element_from(s, live_pred(), b);
        let ja = choose|j: int| 0 <= j < s.len() && #[trigger] s[j] == out[a];
        let jb = choose|j: int| 0 <= j < s.len() && #[trigger] s[j] == out[b];
        lemma_filter_distinct_sources(s, live_pred(), a, b);
    }
    assert forall|k: int| 0 <= k < out.len() implies (#[trigger] out[k]).progress <= 100 by {
        lemma_filter_element_from(s, live_pred(), k);
    }
}

/// Distinct positions of a filtered sequence come from distinct positions
/// of the original.
proof fn lemma_filter_distinct_sources<A>(s: Seq<A>, pred: spec_fn(A) -> bool, a: int, b: int)
    requires
        0 <= a < b < s.filter(pred).len(),
    ensures
        exists|ja: int, jb: int|
            0 <= ja < jb < s.len() && #[trigger] s[ja] == s.filter(pred)[a] && #[trigger] s[jb]
                == s.filter(pred)[b],
    decreases s.len(),
{
    reveal(Seq::filter);
    if s.len() > 0 {
        let dl = s.drop_last();
        let out = s.filter(pred);
        if pred(s.last()) && b == out.len() - 1 {
            lemma_filter_element_from(dl, pred, a);
            let ja = choose|j: int| 0 <= j < dl.len() && #[trigger] dl[j] == dl.filter(pred)[a];
            assert(s[ja] == out[a] && s[s.len() - 1] == out[b]);
        } else {
            lemma_filter_distinct_sources(dl, pred, a, b);
            let (ja, jb) = choose|ja: int, jb: int|
                0 <= ja < jb < dl.len() && #[trigger] dl[ja] == dl.filter(pred)[a]
                    && #[trigger] dl[jb] == dl.filter(pred)[b];
            assert(s[ja] == out[a] && s[jb] == out[b]);
        }
    }
}

impl AppState {
    /// Removes every completed or failed job from the store, and with it
    /// from listing and dispatch consideration alike; running and waiting
    /// jobs keep their relative order.
    pub fn clear_completed_jobs(&mut self)
        requires
            old(self).wf(),
        ensures
            final(self).wf(),
            final(self).jobs@ == old(self).jobs@.filter(live_pred()),
            final(self).history == old(self).history,
            final(self).settings == old(self).settings,
            final(self).processor_running == old(self).processor_running,
            final(self).any_submitted == old(self).any_submitted,
    {
        let ghost before = self.jobs@;
        let mut kept: Vec<ConversionJob> = Vec::new();
        let mut k: usize = 0;
        proof {
            reveal(Seq::filter);
            assert(before.subrange(0, 0) =~= Seq::<ConversionJob>::empty());
            assert(kept@ == before.subrange(0, 0).filter(live_pred()));
        }
        while k < self.jobs.len()
            invariant
                self.jobs@ == before,
                k <= before.len(),
                kept@ == before.subrange(0, k as int).filter(live_pred()),
            decreases before.len() - k,
        {
            let st = self.jobs[k].status;
            let keep = !(st == JobStatus::Completed || st == JobStatus::Failed);
            if keep {
                kept.push(self.jobs[k].duplicate());
            }
            proof {
                reveal(Seq::filter);
                let p = before.subrange(0, k + 1);
                assert(p.drop_last() =~= before.subrange(0, k as int));
                assert(p.last() == before[k as int]);
                assert(kept@ == p.filter(live_pred()));
            }
            k += 1;
        }
        proof {
            assert(before.subrange(0, before.len() as int) =~= before);
            lemma_live_jobs_wf(before);
        }
        self.jobs = kept;
    }

    /// Appends a finished conversion to the history, evicting the oldest
    /// entry when the cap of 100 is exceeded.
    pub fn add_to_history(&mut self, item: ConversionHistory)
        requires
            old(self).wf(),
        ensures
            final(self).wf(),
            final(self).history@ == if old(self).history@.len() < 100 {
                old(self).history@.push(item)
            } else {
                old(self).history@.push(item).drop_first()
            },
            final(self).jobs == old(self).jobs,
            final(self).settings == old(self).settings,
            final(self).processor_running == old(self).processor_running,
            final(self).any_submitted == old(self).any_submitted,
    {
        let ghost before = self.history@;
        self.history.push(item);
        if self.history.len() > 100 {
            self.history.remove(0);
            proof {
                assert(final(self).history@ =~= before.push(item).drop_first());
            }
        }
    }

    /// The retained history, oldest first.
    pub fn get_history(&self) -> (r: Vec<ConversionHistory>)
        ensures
            r@ == self.history@,
    {
        let mut out: Vec<ConversionHistory> = Vec::new();
        let mut k: usize = 0;
        while k < self.history.len()
            invariant
                k <= self.history@.len(),
                out@ == self.history@.subrange(0, k as int),
            decreases self.history@.len() - k,
        {
            out.push(self.history[k].duplicate());
            proof {
                assert(out@ =~= self.history@.subrange(0, k + 1));
            }
            k += 1;
        }
        proof {
            assert(self.history@.subrange(0, self.history@.len() as int) =~= self.history@);
        }
        out
    }

    /// Empties the history.
    pub fn clear_history(&mut self)
        requires
            old(self).wf(),
        ensures
            final(self).wf(),
            final(self).history@.len() == 0,
            final(self).jobs == old(self).jobs,
            final(self).settings == old(self).settings,
            final(self).processor_running == old(self).processor_running,
            final(self).any_submitted == old(self).any_submitted,
    {
        self.history.clear();
    }

    /// The current settings record.
    pub fn get_settings(&self) -> (r: AppSettings)
        ensures
            r == self.settings,
    {
        self.settings.duplicate()
    }

    /// Replaces the settings record; persisting it is the caller's side.
    pub fn update_settings(&mut self, settings: AppSettings)
        requires
            old(self).wf(),
        ensures
            final(self).wf(),
            final(self).settings == settings,
            final(self).jobs == old(self).jobs,
            final(self).history == old(self).history,
            final(self).processor_running == old(self).processor_running,
            final(self).any_submitted == old(self).any_submitted,
    {
        self.settings = settings;
    }
}

/// Re-submission is idempotent in the queue and last-writer-wins in the
/// record: submitting twice under one id leaves the store exactly as one
/// submission of the second record would, with a single queue position.
pub proof fn lemma_resubmit_applies_second(
    jobs: Seq<ConversionJob>,
    first: ConversionJob,
    second: ConversionJob,
)
    requires
        ids_unique(jobs),
        first.id@ == second.id@,
    ensures
        submit_spec(submit_spec(jobs, first), second) == submit_spec(jobs, second),
        submit_spec(submit_spec(jobs, first), second).len() == submit_spec(jobs, first).len(),
{
    let once = submit_spec(jobs, first);
    if has_job(jobs, first.id@) {
        let k = choose|k: int| 0 <= k < jobs.len() && (#[trigger] jobs[k]).id@ == first.id@;
        assert(once == jobs.update(k, first));
        assert(once[k].id@ == second.id@);
        assert(has_job(once, second.id@));
        let k2 = choose|c: int| 0 <= c < once.len() && (#[trigger] once[c]).id@ == second.id@;
        if k2 != k {
            assert(once[k2] == jobs[k2]);
            assert(jobs[k2].id@ == jobs[k].id@);
            assert(false);
        }
        let k3 = choose|c: int| 0 <= c < jobs.len() && (#[trigger] jobs[c]).id@ == second.id@;
        if k3 != k {
            assert(jobs[k3].id@ == jobs[k].id@);
            assert(false);
        }
        assert(submit_spec(once, second) =~= submit_spec(jobs, second));
    } else {
        assert(once == jobs.push(first));
        assert(once[jobs.len() as int].id@ == second.id@);
        assert(has_job(once, second.id@));
        let k2 = choose|c: int| 0 <= c < once.len() && (#[trigger] once[c]).id@ == second.id@;
        if k2 != jobs.len() {
            assert(once[k2] == jobs[k2]);
            assert(has_job(jobs, first.id@));
            assert(false);
        }
        assert(!has_job(jobs, second.id@));
        assert(submit_spec(once, second) =~= submit_spec(jobs, second));
    }
}

/// Clearing removes a terminal job for good: its id is afterwards absent
/// from the store, and with it from every listing and from dispatch
/// consideration, both of which read the same sequence.
pub proof fn lemma_clear_removes_terminal(jobs: Seq<ConversionJob>, id: Seq<char>)
    requires
        ids_unique(jobs),
        exists|k: int|
            0 <= k < jobs.len() && (#[trigger] jobs[k]).id@ == id && is_terminal(jobs[k].status),
    ensures
        !has_job(jobs.filter(live_pred()), id),
{
    let k = choose|k: int|
        0 <= k < jobs.len() && (#[trigger] jobs[k]).id@ == id && is_terminal(jobs[k].status);
    let out = jobs.filter(live_pred());
    assert forall|c: int| 0 <= c < out.len() implies (#[trigger] out[c]).id@ != id by {
        broadcast use vstd::seq_lib::group_filter_ensures;

        lemma_filter_element_from(jobs, live_pred(), c);
        let j = choose|j: int| 0 <= j < jobs.len() && #[trigger] jobs[j] == out[c];
        assert(live_pred()(out[c]));
        if j == k {
            assert(!is_terminal(out[c].status));
        }
    }
}

} // verus!
