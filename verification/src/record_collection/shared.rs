//! The record store as the threads of a run share it.

use super::collection::{CompiledRecord, StoreData, TestRecord};
use super::model::RecordView;
use super::{ProcessInfo, RecordErr};
use crate::spawner::spawner_linux::{fill_spawn_pool, SpawnErr, SpawnPool};
use std::sync::Arc;
use vstd::prelude::*;
use vstd::rwlock::{RwLock, RwLockPredicate};

verus! {

/// What the lock around the store keeps true of it: the store is well-formed.
pub struct WellFormed;

impl RwLockPredicate<TestRecord> for WellFormed {
    /// The store is well-formed.
    open spec fn inv(self, v: TestRecord) -> bool {
        v.wf()
    }
}

/// `Arc::clone` returns another handle to the same value.
#[verifier::external_body]
fn arc_clone<T>(a: &Arc<T>) -> (r: Arc<T>)
    ensures
        r == *a,
{
    Arc::clone(a)
}

/// `Arc::into_inner` returns the value if this was the last handle to it.
#[verifier::external_body]
fn arc_into_inner<T>(a: Arc<T>) -> (r: Option<T>)
    ensures
        r matches Some(value) ==> value == *a,
{
    Arc::into_inner(a)
}

/// A handle to a record store that many threads work on. Every handle that
/// is cloned from it leads to the same store.
pub struct SharedRecord {
    inner: Arc<RwLock<TestRecord, WellFormed>>,
}

impl SharedRecord {
    /// A handle to a new store with nothing registered.
    pub fn new() -> Self {
        SharedRecord { inner: Arc::new(RwLock::new(TestRecord::new(), Ghost(WellFormed))) }
    }

    /// Registers a program in the store, as `TestRecord::register_process`
    /// does on the store as it is at that moment. What other threads have
    /// done to the store by then is not known here, only that it is
    /// well-formed.
    pub fn register_process(&self, process_name: String) -> (r: Result<(), RecordErr>)
        ensures
            exists|store: RecordView| store.wf() && r == #[trigger] store.process_outcome(process_name@),
    {
        let (mut record, handle) = self.inner.acquire_write();
        let ghost store = record@;
        let r = record.register_process(process_name);
        handle.release_write(record);
        assert(r == store.process_outcome(process_name@));
        r
    }

    /// Applies one event to the store, as `TestRecord::apply` does on the
    /// store as it is at that moment, and says whether it was taken. What
    /// other threads have done to the store by then is not known here, only
    /// that it is well-formed.
    pub fn apply(&self, data: ProcessInfo) -> (r: Result<(), RecordErr>)
        ensures
            exists|store: RecordView| store.wf() && r == #[trigger] store.outcome(data@),
    {
        let (mut record, handle) = self.inner.acquire_write();
        let ghost store = record@;
        let r = record.apply(data);
        handle.release_write(record);
        assert(r == store.outcome(data@));
        r
    }

    /// Takes note of an attempt to start an executable, as `fill_spawn_pool`
    /// does with the pool and with the store as it is at that moment: a
    /// child that was started takes its slot, and its program is registered.
    pub fn fill_spawn_pool(&self, pool: &mut SpawnPool, outcome: Result<i32, SpawnErr>, path: &str)
        requires
            old(pool).wf(),
            old(pool)@.at_spawn(),
        ensures
            final(pool).wf(),
            final(pool)@ == old(pool)@.after_spawn(
                match outcome {
                    Ok(pid) => Some(pid),
                    Err(_) => None,
                },
            ),
    {
        let (mut record, handle) = self.inner.acquire_write();
        fill_spawn_pool(pool, outcome, path, &mut record);
        handle.release_write(record);
    }

    /// Freezes the store into a report, if this is the last handle to it.
    /// Whatever the threads did to the store, and in whatever order, the
    /// report is well-formed: its two arrays are equally long, and every
    /// test in it has a valid index of its own.
    pub fn compile(self) -> (r: Result<CompiledRecord, ()>)
        ensures
            r matches Ok(report) ==> report.wf(),
    {
        let last = match arc_into_inner(self.inner) {
            Some(lock) => Some(lock.into_inner()),
            None => None,
        };
        SharedRecord::compile_last(last)
    }

    /// Freezes the store of a handle that was given up: `last` is the store
    /// if that handle was the last one, and `None` if the store is still
    /// shared. The report is made exactly in the first case, and holds what
    /// the store held.
    pub fn compile_last(last: Option<TestRecord>) -> (r: Result<CompiledRecord, ()>)
        requires
            last matches Some(store) ==> store.wf(),
        ensures
            r is Ok <==> last is Some,
            r matches Ok(report) ==> report.wf() && report@ == last->0@,
    {
        match last {
            Some(store) => store.compile(),
            None => Err(()),
        }
    }
}

impl Clone for SharedRecord {
    /// Another handle to the same store.
    fn clone(&self) -> (r: Self)
        ensures
            r == *self,
    {
        SharedRecord { inner: arc_clone(&self.inner) }
    }
}

impl StoreData for SharedRecord {
    type T = ProcessInfo;

    type U = ();

    /// Applies one event to the store, and drops an event that is turned down.
    fn store(&self, data: ProcessInfo) -> (r: Result<(), ()>)
        ensures
            r is Ok,
    {
        let _ = self.apply(data);
        Ok(())
    }
}

} // verus!
