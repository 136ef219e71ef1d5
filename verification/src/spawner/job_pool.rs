//! The builder of a pool of workers that all run the same job.

use std::marker::PhantomData;
use std::path::PathBuf;
use vstd::prelude::*;

verus! {

/// `std::path::PathBuf`, which is passed on unread.
#[verifier::external_type_specification]
#[verifier::external_body]
pub struct ExPathBuf(PathBuf);

/// Marks a builder that has no job yet.
pub struct NoneJob;

/// Marks a builder whose job is set.
pub struct DefinedJob;

/// A job that can be shared among the workers of a pool.
pub trait Job<T>: Send + Sync {
    /// Does the job on one item.
    fn run(&self, item: T) -> Result<(), String>;
}

/// The job of a pool: what each worker does with an item.
pub type JobFn<T> = Box<dyn Job<T>>;

/// A pool of workers that all run the same job.
pub struct SIJPool<T> {
    _type_phantom: PhantomData<T>,
}

/// The settings of a pool that is being put together. `J` tells whether the
/// job is set.
#[verifier::reject_recursive_types(T)]
pub struct SIJPoolBuilder<T, J> {
    job: Option<JobFn<T>>,
    worker_no: usize,
    path_report: Option<PathBuf>,
    _job_define: PhantomData<J>,
}

impl<T> SIJPool<T> {
    /// Begins a pool of `worker_no` workers, without a job and without a
    /// path for reports.
    pub fn new(worker_no: usize) -> (r: SIJPoolBuilder<T, NoneJob>)
        ensures
            r.spec_worker_no() == worker_no,
            r.spec_job() is None,
            r.spec_path_report() is None,
    {
        SIJPoolBuilder::<T, NoneJob> {
            job: None,
            worker_no,
            path_report: None,
            _job_define: PhantomData,
        }
    }
}

impl<T, J> SIJPoolBuilder<T, J> {
    /// The number of workers.
    pub closed spec fn spec_worker_no(&self) -> usize {
        self.worker_no
    }

    /// The job, once it is set.
    pub closed spec fn spec_job(&self) -> Option<JobFn<T>> {
        self.job
    }

    /// The path under which reports go, once it is set.
    pub closed spec fn spec_path_report(&self) -> Option<PathBuf> {
        self.path_report
    }

    /// The number of workers.
    #[verifier::when_used_as_spec(spec_worker_no)]
    pub fn worker_no(&self) -> (r: usize)
        ensures
            r == self.spec_worker_no(),
    {
        self.worker_no
    }

    /// Whether the job is set.
    pub fn has_job(&self) -> (r: bool)
        ensures
            r == self.spec_job() is Some,
    {
        self.job.is_some()
    }

    /// The path under which reports go, once it is set.
    pub fn path_report(&self) -> (r: Option<&PathBuf>)
        ensures
            r is Some == self.spec_path_report() is Some,
            r matches Some(path) ==> *path == self.spec_path_report()->0,
    {
        self.path_report.as_ref()
    }

    /// Sets the path under which reports go, and keeps the rest.
    pub fn report_path(self, path: PathBuf) -> (r: SIJPoolBuilder<T, J>)
        ensures
            r.spec_path_report() == Some(path),
            r.spec_worker_no() == self.spec_worker_no(),
            r.spec_job() === self.spec_job(),
    {
        SIJPoolBuilder::<T, J> {
            job: self.job,
            worker_no: self.worker_no,
            path_report: Some(path),
            _job_define: PhantomData,
        }
    }
}

impl<T> SIJPoolBuilder<T, NoneJob> {
    /// Sets the job, and keeps the rest.
    pub fn set_job(self, op: JobFn<T>) -> (r: SIJPoolBuilder<T, DefinedJob>)
        ensures
            r.spec_job() === Some(op),
            r.spec_worker_no() == self.spec_worker_no(),
            r.spec_path_report() == self.spec_path_report(),
    {
        SIJPoolBuilder::<T, DefinedJob> {
            job: Some(op),
            worker_no: self.worker_no,
            path_report: self.path_report,
            _job_define: PhantomData,
        }
    }
}

} // verus!
