//! The dispatch policy. The first job ever submitted is fast-tracked:
//! probed and dispatched at once, without waiting on any queue check.
//! Every later job is only probed in the background and left ready; a
//! polling loop, of which at most one runs at a time, dispatches the
//! oldest ready job whenever no conversion is active, and stops itself
//! once no job is waiting. The surrounding application performs the
//! probing, process running and sleeping; every decision is made here.

use vstd::prelude::*;

verus! {

use crate::ffmpeg::ConversionJob;
use crate::ffmpeg::JobStatus;
use crate::ffmpeg::VideoPreset;
use crate::state::AppState;
use crate::state::has_job;
use crate::state::is_waiting;
use crate::state::submit_spec;
use crate::trusted::new_job_id;
use crate::trusted::now_rfc3339;
use crate::state::ConversionHistory;

pub open spec fn any_processing(jobs: Seq<ConversionJob>) -> bool {
    exists|k: int| 0 <= k < jobs.len() && (#[trigger] jobs[k]).status is Processing
}

pub open spec fn any_ready(jobs: Seq<ConversionJob>) -> bool {
    exists|k: int| 0 <= k < jobs.len() && (#[trigger] jobs[k]).status is Ready
}

pub open spec fn any_waiting(jobs: Seq<ConversionJob>) -> bool {
    exists|k: int| 0 <= k < jobs.len() && is_waiting(#[trigger] jobs[k])
}

/// The id names the oldest ready job: it is stored, every record under it
/// is Ready, and no job submitted earlier is Ready.
pub open spec fn oldest_ready(jobs: Seq<ConversionJob>, id: Seq<char>) -> bool {
    &&& has_job(jobs, id)
    &&& (forall|k: int|
        0 <= k < jobs.len() && (#[trigger] jobs[k]).id@ == id ==> jobs[k].status is Ready)
    &&& (forall|k: int, l: int|
        0 <= l < k < jobs.len() && (#[trigger] jobs[k]).id@ == id ==> !((
        #[trigger] jobs[l]).status is Ready))
}

/// With unique ids, the first Ready job of the queue is the oldest ready
/// job under its id.
proof fn lemma_first_ready_is_oldest(jobs: Seq<ConversionJob>, id: Seq<char>, k: int)
    requires
        crate::state::ids_unique(jobs),
        0 <= k < jobs.len(),
        jobs[k].status is Ready,
        jobs[k].id@ == id,
        forall|l: int| 0 <= l < k ==> !((#[trigger] jobs[l]).status is Ready),
    ensures
        oldest_ready(jobs, id),
{
    assert(has_job(jobs, id));
    assert forall|k2: int|
        0 <= k2 < jobs.len() && (#[trigger] jobs[k2]).id@ == id implies jobs[k2].status
        is Ready by {
        if k2 != k {
            assert(jobs[k].id@ != jobs[k2].id@);
        }
    }
    assert forall|k2: int, l: int|
        0 <= l < k2 < jobs.len() && (#[trigger] jobs[k2]).id@ == id implies !((
    #[trigger] jobs[l]).status is Ready) by {
        if k2 != k {
            assert(jobs[k].id@ != jobs[k2].id@);
        }
    }
}

/// The record a fresh submission stores: queued, unstarted, with the
/// waiting message and nothing probed yet.
pub open spec fn is_new_submission(
    j: ConversionJob,
    id: Seq<char>,
    input: Seq<char>,
    output: Seq<char>,
    preset: VideoPreset,
) -> bool {
    &&& j.id@ == id
    &&& j.input_path@ == input
    &&& j.output_path@ == output
    &&& j.preset == preset
    &&& j.status is Queued
    &&& j.progress == 0
    &&& j.duration_ms is None
    &&& j.error is None
    &&& (match j.status_message {
        Some(m) => m@ == "Waiting in queue..."@,
        None => false,
    })
    &&& j.thumbnail_path is None
}

/// `j` is `o` handed to the encoder: status Processing, the converting
/// message, everything else untouched.
pub open spec fn dispatched_job(j: ConversionJob, o: ConversionJob) -> bool {
    &&& j.id == o.id
    &&& j.input_path == o.input_path
    &&& j.output_path == o.output_path
    &&& j.preset == o.preset
    &&& j.status is Processing
    &&& j.progress == o.progress
    &&& j.duration_ms == o.duration_ms
    &&& j.error == o.error
    &&& (match j.status_message {
        Some(m) => m@ == "Converting video..."@,
        None => false,
    })
    &&& j.thumbnail_path == o.thumbnail_path
}

/// `j` is `o` after a probe: duration and thumbnail filled in where the
/// probe produced them, and, when `promote` says so, moved to Ready with
/// the ready message.
pub open spec fn probed_job(
    j: ConversionJob,
    o: ConversionJob,
    duration_ms: Option<u64>,
    thumbnail_path: Option<String>,
    promote: bool,
) -> bool {
    &&& j.id == o.id
    &&& j.input_path == o.input_path
    &&& j.output_path == o.output_path
    &&& j.preset == o.preset
    &&& j.progress == o.progress
    &&& j.error == o.error
    &&& j.duration_ms == (if duration_ms is Some {
        duration_ms
    } else {
        o.duration_ms
    })
    &&& j.thumbnail_path == (if thumbnail_path is Some {
        thumbnail_path
    } else {
        o.thumbnail_path
    })
    &&& (if promote {
        j.status is Ready && (match j.status_message {
            Some(m) => m@ == "Ready to convert"@,
            None => false,
        })
    } else {
        j.status == o.status && j.status_message == o.status_message
    })
}

/// `j` is `o` brought to its terminal state: completed, or failed with
/// the given error text.
pub open spec fn finished_job(j: ConversionJob, o: ConversionJob, error: Option<String>) -> bool {
    match error {
        None => j == ConversionJob { status: JobStatus::Completed, ..o },
        Some(e) => j == ConversionJob { status: JobStatus::Failed, error: Some(e), ..o },
    }
}

/// What one turn of the polling loop decided: run this job now, idle
/// until the next tick, or shut the loop down.
#[derive(Debug)]
pub enum PollAction {
    Convert(String),
    Wait,
    Stop,
}

impl AppState {
    /// Stores one submission under the given id and decides its path:
    /// true means fast-track (probe and convert at once, granted only to
    /// the first submission ever), false means background probe.
    pub fn submit_job(
        &mut self,
        id: String,
        input_path: String,
        output_path: String,
        preset: VideoPreset,
    ) -> (fast: bool)
        requires
            old(self).wf(),
        ensures
            final(self).wf(),
            fast == !old(self).any_submitted,
            final(self).any_submitted == true,
            final(self).jobs@.len() == if has_job(old(self).jobs@, id@) {
                old(self).jobs@.len()
            } else {
                old(self).jobs@.len() + 1
            },
            has_job(final(self).jobs@, id@),
            old(self).jobs@.len() <= final(self).jobs@.len(),
            forall|k: int|
                0 <= k < old(self).jobs@.len() && (#[trigger] old(self).jobs@[k]).id@ != id@
                    ==> final(self).jobs@[k] == old(self).jobs@[k],
            forall|k: int|
                0 <= k < final(self).jobs@.len() && (#[trigger] final(self).jobs@[k]).id@ == id@
                    ==> is_new_submission(
                    final(self).jobs@[k],
                    id@,
                    input_path@,
                    output_path@,
                    preset,
                ),
            final(self).history == old(self).history,
            final(self).settings == old(self).settings,
            final(self).processor_running == old(self).processor_running,
    {
        let fast = !self.any_submitted;
        self.any_submitted = true;
        let ghost id_view = id@;
        let job = ConversionJob {
            id,
            input_path,
            output_path,
            preset,
            status: JobStatus::Queued,
            progress: 0,
            duration_ms: None,
            error: None,
            status_message: Some("Waiting in queue...".to_owned()),
            thumbnail_path: None,
        };
        let ghost job_ghost = job;
        let ghost before = self.jobs@;
        self.add_job(job);
        proof {
            assert(self.jobs@ == submit_spec(before, job_ghost));
            if has_job(before, id_view) {
                let c = choose|c: int|
                    0 <= c < before.len() && (#[trigger] before[c]).id@ == job_ghost.id@;
                assert(self.jobs@ == before.update(c, job_ghost));
                assert forall|k: int|
                    0 <= k < self.jobs@.len() && (#[trigger] self.jobs@[k]).id@
                        == id_view implies is_new_submission(
                    self.jobs@[k],
                    id_view,
                    job_ghost.input_path@,
                    job_ghost.output_path@,
                    job_ghost.preset,
                ) by {
                    if k != c {
                        assert(before[k].id@ == id_view);
                        assert(before[c].id@ == id_view);
                    }
                }
            } else {
                assert forall|k: int|
                    0 <= k < self.jobs@.len() && (#[trigger] self.jobs@[k]).id@
                        == id_view implies is_new_submission(
                    self.jobs@[k],
                    id_view,
                    job_ghost.input_path@,
                    job_ghost.output_path@,
                    job_ghost.preset,
                ) by {
                    if k < before.len() {
                        assert(!has_job(before, id_view));
                        assert(before[k].id@ != id_view);
                    }
                }
            }
        }
        fast
    }

    /// Submits a conversion under a freshly generated id, which is
    /// returned together with the fast-track decision.
    pub fn add_conversion_job(
        &mut self,
        input_path: String,
        output_path: String,
        preset: VideoPreset,
    ) -> (r: (String, bool))
        requires
            old(self).wf(),
        ensures
            final(self).wf(),
            r.0@.len() == 36,
            r.1 == !old(self).any_submitted,
            final(self).any_submitted == true,
            has_job(final(self).jobs@, r.0@),
            old(self).jobs@.len() <= final(self).jobs@.len() <= old(self).jobs@.len() + 1,
            forall|k: int|
                0 <= k < old(self).jobs@.len() && (#[trigger] old(self).jobs@[k]).id@ != r.0@
                    ==> final(self).jobs@[k] == old(self).jobs@[k],
            forall|k: int|
                0 <= k < final(self).jobs@.len() && (#[trigger] final(self).jobs@[k]).id@ == r.0@
                    ==> is_new_submission(
                    final(self).jobs@[k],
                    r.0@,
                    input_path@,
                    output_path@,
                    preset,
                ),
            final(self).history == old(self).history,
            final(self).settings == old(self).settings,
            final(self).processor_running == old(self).processor_running,
    {
        let id = new_job_id();
        let id_out = id.clone();
        let fast = self.submit_job(id, input_path, output_path, preset);
        (id_out, fast)
    }

    /// Claims the right to run the polling loop: true exactly when no
    /// loop was running, in which case the flag is now taken. A second
    /// start while one loop is active is a no-op.
    pub fn try_start_processor(&mut self) -> (r: bool)
        requires
            old(self).wf(),
        ensures
            final(self).wf(),
            r == !old(self).processor_running,
            final(self).processor_running == true,
            final(self).jobs == old(self).jobs,
            final(self).history == old(self).history,
            final(self).settings == old(self).settings,
            final(self).any_submitted == old(self).any_submitted,
    {
        let r = !self.processor_running;
        self.processor_running = true;
        r
    }

    /// Hands the job with this id to the encoder, gated by mutual
    /// exclusion: it succeeds exactly when the id is stored and no job is
    /// converting, and then marks the job Processing. Never are two jobs
    /// Processing at once.
    pub fn begin_conversion(&mut self, id: &str) -> (r: bool)
        requires
            old(self).wf(),
        ensures
            final(self).wf(),
            r == (has_job(old(self).jobs@, id@) && !any_processing(old(self).jobs@)),
            final(self).jobs@.len() == old(self).jobs@.len(),
            r ==> forall|k: int|
                0 <= k < old(self).jobs@.len() ==> (if (#[trigger] old(self).jobs@[k]).id@ == id@ {
                    dispatched_job(final(self).jobs@[k], old(self).jobs@[k])
                } else {
                    final(self).jobs@[k] == old(self).jobs@[k]
                }),
            !r ==> final(self).jobs == old(self).jobs,
            final(self).history == old(self).history,
            final(self).settings == old(self).settings,
            final(self).processor_running == old(self).processor_running,
            final(self).any_submitted == old(self).any_submitted,
    {
        let found = self.get_job(id);
        match found {
            None => false,
            Some(_) => {
                if self.is_any_job_processing() {
                    false
                } else {
                    self.update_job_status(id, JobStatus::Processing);
                    self.update_job_status_message(id, "Converting video...".to_owned());
                    true
                }
            },
        }
    }

    /// What the polling loop should do now, from the store alone:
    /// dispatch the oldest ready job if no conversion is active, stop once
    /// nothing is queued or ready, else wait.
    fn poll_decision(&self) -> (r: PollAction)
        requires
            crate::state::ids_unique(self.jobs@),
        ensures
            r matches PollAction::Convert(id) ==> !any_processing(self.jobs@) && oldest_ready(
                self.jobs@,
                id@,
            ),
            r is Wait ==> any_waiting(self.jobs@) && (any_ready(self.jobs@) ==> any_processing(
                self.jobs@,
            )),
            r is Stop ==> !any_waiting(self.jobs@),
    {
        let next_ready = self.get_next_ready_job();
        match next_ready {
            Some(id) => {
                let ghost k = choose|k: int|
                    0 <= k < self.jobs@.len() && (#[trigger] self.jobs@[k]).status is Ready && id@
                        == self.jobs@[k].id@ && (forall|l: int|
                        0 <= l < k ==> !((#[trigger] self.jobs@[l]).status is Ready));
                if self.is_any_job_processing() {
                    proof {
                        assert(is_waiting(self.jobs@[k]));
                    }
                    PollAction::Wait
                } else {
                    proof {
                        lemma_first_ready_is_oldest(self.jobs@, id@, k);
                    }
                    PollAction::Convert(id)
                }
            },
            None => {
                let more = self.get_next_queued_job();
                match more {
                    Some(_) => {
                        proof {
                            assert(!any_ready(self.jobs@));
                        }
                        PollAction::Wait
                    },
                    None => {
                        proof {
                            assert forall|k: int|
                                0 <= k < self.jobs@.len() implies !is_waiting(
                                #[trigger] self.jobs@[k],
                            ) by {}
                        }
                        PollAction::Stop
                    },
                }
            },
        }
    }

    /// One turn of the polling loop: dispatch the oldest ready job if no
    /// conversion is active; stop the loop, releasing its flag, once
    /// nothing is queued or ready; otherwise wait for the next tick.
    pub fn poll_step(&mut self) -> (r: PollAction)
        requires
            old(self).wf(),
        ensures
            final(self).wf(),
            final(self).history == old(self).history,
            final(self).settings == old(self).settings,
            final(self).any_submitted == old(self).any_submitted,
            match r {
                PollAction::Convert(id) => {
                    &&& !any_processing(old(self).jobs@)
                    &&& oldest_ready(old(self).jobs@, id@)
                    &&& final(self).jobs@.len() == old(self).jobs@.len()
                    &&& forall|k: int|
                        0 <= k < old(self).jobs@.len() ==> (if (#[trigger] old(
                            self,
                        ).jobs@[k]).id@ == id@ {
                            dispatched_job(final(self).jobs@[k], old(self).jobs@[k])
                        } else {
                            final(self).jobs@[k] == old(self).jobs@[k]
                        })
                    &&& final(self).processor_running == old(self).processor_running
                },
                PollAction::Wait => {
                    &&& final(self).jobs == old(self).jobs
                    &&& final(self).processor_running == old(self).processor_running
                    &&& any_waiting(old(self).jobs@)
                    &&& (any_ready(old(self).jobs@) ==> any_processing(old(self).jobs@))
                },
                PollAction::Stop => {
                    &&& final(self).jobs == old(self).jobs
                    &&& !any_waiting(old(self).jobs@)
                    &&& final(self).processor_running == false
                },
            },
    {
        let decision = self.poll_decision();
        match decision {
            PollAction::Convert(id) => {
                let ghost pre = *self;
                let ok = self.begin_conversion(id.as_str());
                proof {
                    assert(ok);
                    assert forall|k: int| 0 <= k < pre.jobs@.len() implies (if (
                    #[trigger] pre.jobs@[k]).id@ == id@ {
                        dispatched_job(self.jobs@[k], pre.jobs@[k])
                    } else {
                        self.jobs@[k] == pre.jobs@[k]
                    }) by {}
                }
                PollAction::Convert(id)
            },
            PollAction::Wait => PollAction::Wait,
            PollAction::Stop => {
                self.processor_running = false;
                PollAction::Stop
            },
        }
    }

    /// Records the outcome of a fast-track probe: duration and thumbnail
    /// where the probe got them, and the job promoted to Ready in every
    /// case, so that a failed probe degrades the job but never blocks it.
    pub fn finish_priority_probe(
        &mut self,
        id: &str,
        duration_ms: Option<u64>,
        thumbnail_path: Option<String>,
    )
        requires
            old(self).wf(),
        ensures
            final(self).wf(),
            final(self).jobs@.len() == old(self).jobs@.len(),
            forall|k: int|
                0 <= k < old(self).jobs@.len() ==> (if (#[trigger] old(self).jobs@[k]).id@ == id@ {
                    probed_job(
                        final(self).jobs@[k],
                        old(self).jobs@[k],
                        duration_ms,
                        thumbnail_path,
                        true,
                    )
                } else {
                    final(self).jobs@[k] == old(self).jobs@[k]
                }),
            final(self).history == old(self).history,
            final(self).settings == old(self).settings,
            final(self).processor_running == old(self).processor_running,
            final(self).any_submitted == old(self).any_submitted,
    {
        self.apply_probe(id, duration_ms, thumbnail_path, true);
    }

    /// Records the outcome of a background probe: duration and thumbnail
    /// where the probe got them; only a job still waiting in the queue is
    /// promoted to Ready, so a job already dispatched is not demoted.
    pub fn finish_background_probe(
        &mut self,
        id: &str,
        duration_ms: Option<u64>,
        thumbnail_path: Option<String>,
    )
        requires
            old(self).wf(),
        ensures
            final(self).wf(),
            final(self).jobs@.len() == old(self).jobs@.len(),
            forall|k: int|
                0 <= k < old(self).jobs@.len() ==> (if (#[trigger] old(self).jobs@[k]).id@ == id@ {
                    probed_job(
                        final(self).jobs@[k],
                        old(self).jobs@[k],
                        duration_ms,
                        thumbnail_path,
                        old(self).jobs@[k].status is Queued,
                    )
                } else {
                    final(self).jobs@[k] == old(self).jobs@[k]
                }),
            final(self).history == old(self).history,
            final(self).settings == old(self).settings,
            final(self).processor_running == old(self).processor_running,
            final(self).any_submitted == old(self).any_submitted,
    {
        self.apply_probe(id, duration_ms, thumbnail_path, false);
    }

    /// Shared probe bookkeeping; `force_ready` distinguishes the
    /// fast-track path (promote always) from the background path
    /// (promote only out of Queued).
    fn apply_probe(
        &mut self,
        id: &str,
        duration_ms: Option<u64>,
        thumbnail_path: Option<String>,
        force_ready: bool,
    )
        requires
            old(self).wf(),
        ensures
            final(self).wf(),
            final(self).jobs@.len() == old(self).jobs@.len(),
            forall|k: int|
                0 <= k < old(self).jobs@.len() ==> (if (#[trigger] old(self).jobs@[k]).id@ == id@ {
                    probed_job(
                        final(self).jobs@[k],
                        old(self).jobs@[k],
                        duration_ms,
                        thumbnail_path,
                        force_ready || old(self).jobs@[k].status is Queued,
                    )
                } else {
                    final(self).jobs@[k] == old(self).jobs@[k]
                }),
            final(self).history == old(self).history,
            final(self).settings == old(self).settings,
            final(self).processor_running == old(self).processor_running,
            final(self).any_submitted == old(self).any_submitted,
    {
        let found = self.get_job(id);
        match found {
            None => {
                proof {
                    assert forall|k: int|
                        0 <= k < old(self).jobs@.len() implies (#[trigger] old(
                        self,
                    ).jobs@[k]).id@ != id@ by {
                        if old(self).jobs@[k].id@ == id@ {
                            assert(has_job(old(self).jobs@, id@));
                        }
                    }
                }
            },
            Some(job) => {
                let mut job = job;
                match duration_ms {
                    Some(d) => {
                        job.duration_ms = Some(d);
                    },
                    None => {},
                }
                match thumbnail_path {
                    Some(t) => {
                        job.thumbnail_path = Some(t);
                    },
                    None => {},
                }
                let promote = force_ready || job.status == JobStatus::Queued;
                if promote {
                    job.status = JobStatus::Ready;
                    job.status_message = Some("Ready to convert".to_owned());
                }
                let ghost before = self.jobs@;
                let updated = self.update_job(job);
                proof {
                    assert(updated);
                    let c = choose|c: int|
                        0 <= c < before.len() && (#[trigger] before[c]).id@ == id@;
                    assert forall|k: int|
                        0 <= k < before.len() implies (if (#[trigger] before[k]).id@ == id@ {
                        probed_job(
                            final(self).jobs@[k],
                            before[k],
                            duration_ms,
                            thumbnail_path,
                            force_ready || before[k].status is Queued,
                        )
                    } else {
                        final(self).jobs@[k] == before[k]
                    }) by {
                        if before[k].id@ == id@ {
                            assert(k == c);
                        }
                    }
                }
            },
        }
    }

    /// Records the outcome of a conversion: completed on success, failed
    /// with the runner's error text otherwise; nothing else of the job
    /// changes, and no other job is touched.
    pub fn finish_conversion(&mut self, id: &str, error: Option<String>)
        requires
            old(self).wf(),
        ensures
            final(self).wf(),
            final(self).jobs@.len() == old(self).jobs@.len(),
            forall|k: int|
                0 <= k < old(self).jobs@.len() ==> (if (#[trigger] old(self).jobs@[k]).id@ == id@ {
                    finished_job(final(self).jobs@[k], old(self).jobs@[k], error)
                } else {
                    final(self).jobs@[k] == old(self).jobs@[k]
                }),
            final(self).history == old(self).history,
            final(self).settings == old(self).settings,
            final(self).processor_running == old(self).processor_running,
            final(self).any_submitted == old(self).any_submitted,
    {
        let found = self.get_job(id);
        match found {
            None => {
                proof {
                    assert forall|k: int|
                        0 <= k < old(self).jobs@.len() implies (#[trigger] old(
                        self,
                    ).jobs@[k]).id@ != id@ by {
                        if old(self).jobs@[k].id@ == id@ {
                            assert(has_job(old(self).jobs@, id@));
                        }
                    }
                }
            },
            Some(job) => {
                let mut job = job;
                match error {
                    None => {
                        job.status = JobStatus::Completed;
                    },
                    Some(e) => {
                        job.status = JobStatus::Failed;
                        job.error = Some(e);
                    },
                }
                let ghost before = self.jobs@;
                let updated = self.update_job(job);
                proof {
                    assert(updated);
                    let c = choose|c: int|
                        0 <= c < before.len() && (#[trigger] before[c]).id@ == id@;
                    assert forall|k: int|
                        0 <= k < before.len() implies (if (#[trigger] before[k]).id@ == id@ {
                        finished_job(final(self).jobs@[k], before[k], error)
                    } else {
                        final(self).jobs@[k] == before[k]
                    }) by {
                        if before[k].id@ == id@ {
                            assert(k == c);
                        }
                    }
                }
            },
        }
    }
}

/// A history entry for one finished conversion: the job's paths and
/// preset name, the sizes the caller measured, the probed duration, a
/// fresh entry id and the present moment as its timestamp.
pub fn make_history_entry(
    job: &ConversionJob,
    file_size_before: u64,
    file_size_after: u64,
) -> (r: ConversionHistory)
    ensures
        r.id@.len() == 36,
        r.input_path@ == job.input_path@,
        r.output_path@ == job.output_path@,
        r.preset_name@ == job.preset.name@,
        r.file_size_before == file_size_before,
        r.file_size_after == file_size_after,
        r.duration_ms == (match job.duration_ms {
            Some(d) => d,
            None => 0,
        }),
{
    ConversionHistory {
        id: new_job_id(),
        input_path: job.input_path.clone(),
        output_path: job.output_path.clone(),
        preset_name: job.preset.name.clone(),
        completed_at: now_rfc3339(),
        file_size_before,
        file_size_after,
        duration_ms: match job.duration_ms {
            Some(d) => d,
            None => 0,
        },
    }
}

} // verus!
