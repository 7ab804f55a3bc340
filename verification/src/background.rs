use vstd::prelude::*;
use crate::function_invocations::FunctionInvocations;

verus! {

/// What the reconciler asks of its caller next.
#[derive(Clone, Copy, Debug, PartialEq, Eq, Structural)]
pub enum JobStep {
    /// Sleep for `millis` milliseconds, then call `wake`.
    Sleep { millis: u64 },
    /// The job was cancelled: leave the loop.
    Stop,
}

/// The reconciler over plain values: its interval in milliseconds, whether
/// its cancellation was requested, and whether it sleeps.
pub struct JobModel {
    pub time: u64,
    pub cancelled: bool,
    pub asleep: bool,
}

/// The top of the loop. This is the one place where the cancellation is
/// looked at: a cancelled job stops, any other goes to sleep for its
/// interval.
pub open spec fn job_start(job: JobModel) -> (JobModel, JobStep) {
    if job.cancelled {
        (JobModel { asleep: false, ..job }, JobStep::Stop)
    } else {
        (JobModel { asleep: true, ..job }, JobStep::Sleep { millis: job.time })
    }
}

/// A request to cancel. It is only noted: a job that sleeps goes on
/// sleeping.
pub open spec fn job_stop(job: JobModel) -> JobModel {
    JobModel { cancelled: true, ..job }
}

/// The end of a sleep: the job is awake again, and it always makes its
/// observation pass, over all of `ids`.
pub open spec fn job_wake(job: JobModel, ids: Seq<Seq<char>>) -> (JobModel, Seq<Seq<char>>) {
    (JobModel { asleep: false, ..job }, if job.asleep {
        ids
    } else {
        Seq::empty()
    })
}

/// The periodic task that looks over the registry. It is a loop that its
/// owner runs: `start` at the top of each round, the sleep it asks for,
/// then `wake`.
pub struct BackgroundJob {
    time: u64,
    cancelled: bool,
    asleep: bool,
}

impl View for BackgroundJob {
    type V = JobModel;

    closed spec fn view(&self) -> JobModel {
        JobModel { time: self.time, cancelled: self.cancelled, asleep: self.asleep }
    }
}

impl BackgroundJob {
    /// A job that sleeps `time` milliseconds in each round. It is neither
    /// cancelled nor asleep.
    pub fn new(time: u64) -> (job: Self)
        ensures
            job@ == (JobModel { time, cancelled: false, asleep: false }),
    {
        Self { time, cancelled: false, asleep: false }
    }

    /// Enters a round of the loop, at its top.
    pub fn start(&mut self) -> (step: JobStep)
        ensures
            (final(self)@, step) == job_start(old(self)@),
    {
        if self.cancelled {
            self.asleep = false;
            JobStep::Stop
        } else {
            self.asleep = true;
            JobStep::Sleep { millis: self.time }
        }
    }

    /// Ends the sleep of a round and makes the observation pass: the
    /// identifiers to look at are all that `registry` holds, in its order.
    /// Without a sleep before it there is nothing to look at.
    pub fn wake(&mut self, registry: &FunctionInvocations) -> (observed: Vec<String>)
        ensures
            final(self)@ == job_wake(old(self)@, registry.ids()).0,
            observed@.map_values(|id: String| id@) == job_wake(old(self)@, registry.ids()).1,
    {
        let was_asleep = self.asleep;
        self.asleep = false;
        if was_asleep {
            let observed = registry.keys();
            assert(observed@.map_values(|id: String| id@) =~= registry.ids());
            observed
        } else {
            let observed: Vec<String> = Vec::new();
            assert(observed@.map_values(|id: String| id@) =~= Seq::<Seq<char>>::empty());
            observed
        }
    }

    /// Requests the cancellation of the job.
    pub fn stop(&mut self)
        ensures
            final(self)@ == job_stop(old(self)@),
    {
        self.cancelled = true;
    }
}

/// The job after `rounds` more rounds of its loop, none of them cut short,
/// with `ids` in the registry throughout.
pub open spec fn job_after(job: JobModel, ids: Seq<Seq<char>>, rounds: nat) -> JobModel
    decreases rounds,
{
    if rounds == 0 {
        job
    } else {
        let before = job_after(job, ids, (rounds - 1) as nat);
        let started = job_start(before).0;
        if started.asleep {
            job_wake(started, ids).0
        } else {
            started
        }
    }
}

/// A job that is cancelled and awake stays so, whatever rounds follow.
proof fn lemma_cancelled_stays(job: JobModel, ids: Seq<Seq<char>>, rounds: nat)
    requires
        job.cancelled,
        !job.asleep,
    ensures
        job_after(job, ids, rounds).cancelled,
        !job_after(job, ids, rounds).asleep,
    decreases rounds,
{
    if rounds > 0 {
        lemma_cancelled_stays(job, ids, (rounds - 1) as nat);
    }
}

/// A cancellation that is requested while the job sleeps does not end that
/// sleep, and the observation pass after it is still made; but the top of
/// the next round, and of every round after it, stops the job. So a job
/// winds down within one interval of the request, and not at once.
pub proof fn law_stop_takes_one_interval(job: JobModel, ids: Seq<Seq<char>>, rounds: nat)
    requires
        !job.cancelled,
    ensures
        job_start(job).1 == (JobStep::Sleep { millis: job.time }),
        job_stop(job_start(job).0).asleep,
        job_wake(job_stop(job_start(job).0), ids).1 == ids,
        job_start(job_after(job_wake(job_stop(job_start(job).0), ids).0, ids, rounds)).1
            == JobStep::Stop,
{
    lemma_cancelled_stays(job_wake(job_stop(job_start(job).0), ids).0, ids, rounds);
}

/// A job that is cancelled before it starts never sleeps.
pub proof fn law_stop_before_start(job: JobModel)
    ensures
        job_start(job_stop(job)).1 == JobStep::Stop,
{
}

} // verus!
