use vstd::prelude::*;

verus! {

/// How far the background work has got: `done` of `total` files handled.
#[derive(Clone, Copy)]
pub struct Progress {
    pub done: u64,
    pub total: u64,
}

/// The state of the background work that moves culled files away.
pub enum Status {
    Pass,
    Processing(Progress),
    NotStarted,
}

/// What the application observes of its worker thread.
pub enum Worker {
    /// No worker was started, or its result was already collected.
    Absent,
    /// The worker is still running.
    Running,
    /// The worker has finished and this is the result it returned.
    Finished(Status),
}

/// The status to report: nothing started, the progress while the worker
/// runs, or the worker's own result once it is done.
pub fn status(worker: Worker, progress: Progress) -> (r: Status)
    ensures
        worker is Absent ==> r is NotStarted,
        worker is Running ==> r == Status::Processing(progress),
        worker matches Worker::Finished(s) ==> r == s,
{
    match worker {
        Worker::Absent => Status::NotStarted,
        Worker::Running => Status::Processing(progress),
        Worker::Finished(s) => s,
    }
}

/// The progress overlay is drawn exactly while the work is in progress.
pub fn overlay_progress(status: &Status) -> (r: Option<Progress>)
    ensures
        *status matches Status::Processing(p) ==> r == Some(p),
        !(*status is Processing) ==> r is None,
{
    match status {
        Status::Processing(p) => Some(*p),
        _ => None,
    }
}

/// Work is started only for a non-empty list of files.
pub fn should_start(file_count: usize) -> (r: bool)
    ensures
        r == (file_count > 0),
{
    file_count > 0
}

/// The progress reported before handling file `index` of `total`.
pub fn progress_at(index: u64, total: u64) -> (r: Progress)
    ensures
        r.done == index,
        r.total == total,
{
    Progress { done: index, total }
}

} // verus!
