//! Backend-neutral completion state of submitted GPU work.
use vstd::prelude::*;

verus! {

/// Backend-neutral state of an asynchronous GPU submission.
#[derive(Clone, Copy, Debug, PartialEq, Eq, Structural)]
pub enum JobStatus {
    Pending,
    Complete,
}

impl JobStatus {
    pub fn is_complete(self) -> (r: bool)
        ensures
            r == (self == JobStatus::Complete),
    {
        match self {
            JobStatus::Complete => true,
            JobStatus::Pending => false,
        }
    }
}

/// Backend-neutral completion contract for submitted GPU work.
pub trait Job {
    type Error;

    /// Whether `r` is an outcome that one poll of `status` may report.
    spec fn status_outcome(&self, r: Result<JobStatus, Self::Error>) -> bool;

    /// Whether `r` is an outcome that `wait` may report.
    spec fn wait_outcome(&self, r: Result<(), Self::Error>) -> bool;

    /// Poll once without blocking.
    fn status(&self) -> (r: Result<JobStatus, Self::Error>)
        ensures
            self.status_outcome(r),
    ;

    /// Wait for at most `timeout` and return the resulting state.
    fn wait_timeout(&self, timeout: std::time::Duration) -> Result<JobStatus, Self::Error>;

    /// Wait until the submission has completed.
    fn wait(&self) -> (r: Result<(), Self::Error>)
        ensures
            self.wait_outcome(r),
    ;

    /// Whether one poll finds the work complete: the status a poll reports,
    /// read as complete or not, or the error it reports.
    fn is_complete(&self) -> (r: Result<bool, Self::Error>)
        ensures
            match r {
                Ok(b) => exists|s: JobStatus|
                    #[trigger] self.status_outcome(Ok(s)) && b == (s == JobStatus::Complete),
                Err(e) => self.status_outcome(Err(e)),
            },
    {
        match self.status() {
            Ok(status) => Ok(status.is_complete()),
            Err(error) => Err(error),
        }
    }
}

/// Backend-neutral device contract for dispatch descriptions and asynchronous jobs.
pub trait Device {
    type Error;
    type Dispatch<'resources>;
    type Job<'device>: Job<Error = Self::Error> where Self: 'device;

    /// Whether `r` is an outcome that `submit` may report for `dispatches`.
    spec fn submit_outcome<'device, 'resources>(
        &'device self,
        dispatches: &[Self::Dispatch<'resources>],
        r: Result<Self::Job<'device>, Self::Error>,
    ) -> bool;

    fn submit<'device, 'resources>(
        &'device self,
        dispatches: &[Self::Dispatch<'resources>],
    ) -> (r: Result<Self::Job<'device>, Self::Error>)
        ensures
            self.submit_outcome(dispatches, r),
    ;

    /// Submit the dispatches and wait for them: the error of the submission,
    /// or else what waiting on the submitted job reports.
    fn dispatch<'device, 'resources>(
        &'device self,
        dispatches: &[Self::Dispatch<'resources>],
    ) -> (r: Result<(), Self::Error>)
        ensures
            (r matches Err(e) && self.submit_outcome(dispatches, Err(e))) || exists|
                job: Self::Job<'device>,
            | #[trigger] self.submit_outcome(dispatches, Ok(job)) && job.wait_outcome(r),
    {
        match self.submit(dispatches) {
            Ok(job) => {
                let r = job.wait();
                proof {
                    assert(self.submit_outcome(dispatches, Ok(job)) && job.wait_outcome(r));
                }
                r
            },
            Err(error) => Err(error),
        }
    }
}

} // verus!
