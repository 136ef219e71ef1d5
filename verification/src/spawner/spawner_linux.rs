//! Decisions of the process pool executor on POSIX systems.

use crate::record_collection::collection::TestRecord;
use crate::util::{spec_trim, trim};
use vstd::prelude::*;

verus! {

/// What a non-blocking wait learned about a child process.
#[derive(Clone, Copy, Debug, PartialEq, Eq, Structural)]
pub enum ChildStatus {
    /// The child is still alive.
    Running,
    /// The child returned from `main` with this exit code.
    Exited(i32),
    /// The child was killed by this signal.
    Signaled(i32),
    /// The child was stopped by this signal.
    Stopped(i32),
    /// The wait status fits none of the above.
    Unknown,
}

/// The termination signal field of a wait status: its low seven bits.
pub open spec fn term_bits(status: i32) -> i32 {
    status & 0x7f
}

/// The second byte of a wait status, which holds the exit code or the stop signal.
pub open spec fn high_bits(status: i32) -> i32 {
    (status >> 8) & 0xff
}

/// `WIFEXITED` of libc tells whether the termination signal field is zero.
pub assume_specification[ nix::libc::WIFEXITED ](status: nix::libc::c_int) -> (r: bool)
    ensures
        r == (term_bits(status) == 0),
;

/// `WEXITSTATUS` of libc returns the second byte of the status.
pub assume_specification[ nix::libc::WEXITSTATUS ](status: nix::libc::c_int) -> (r:
    nix::libc::c_int)
    ensures
        r == high_bits(status),
;

/// `WIFSIGNALED` of libc adds one to the termination signal field, narrows the
/// sum to a signed byte and asks for at least two: that holds for the fields
/// from 1 to 126, since 0 gives 1 and 127 wraps to -128.
pub assume_specification[ nix::libc::WIFSIGNALED ](status: nix::libc::c_int) -> (r: bool)
    ensures
        r == (1 <= term_bits(status) <= 126),
;

/// `WTERMSIG` of libc returns the termination signal field.
pub assume_specification[ nix::libc::WTERMSIG ](status: nix::libc::c_int) -> (r:
    nix::libc::c_int)
    ensures
        r == term_bits(status),
;

/// `WIFSTOPPED` of libc tells whether the low byte of the status is `0x7f`.
pub assume_specification[ nix::libc::WIFSTOPPED ](status: nix::libc::c_int) -> (r: bool)
    ensures
        r == ((status & 0xff) == 0x7f),
;

/// `WSTOPSIG` of libc returns the second byte of the status.
pub assume_specification[ nix::libc::WSTOPSIG ](status: nix::libc::c_int) -> (r:
    nix::libc::c_int)
    ensures
        r == high_bits(status),
;

/// The state of a child, given what `waitpid` with `WNOHANG` returned and the
/// status word it filled in.
///
/// A return of zero means that the child has not changed state. Any other
/// return is read through the status word alone.
pub open spec fn spec_child_status(wait_ret: i32, status: i32) -> ChildStatus {
    if wait_ret == 0 {
        ChildStatus::Running
    } else if term_bits(status) == 0 {
        ChildStatus::Exited(high_bits(status))
    } else if term_bits(status) <= 126 {
        ChildStatus::Signaled(term_bits(status))
    } else if (status & 0xff) == 0x7f {
        ChildStatus::Stopped(high_bits(status))
    } else {
        ChildStatus::Unknown
    }
}

impl ChildStatus {
    /// Whether the child has left its slot: true of everything but `Running`.
    pub open spec fn spec_is_terminated(&self) -> bool {
        !(self is Running)
    }

    /// Whether the child has left its slot.
    #[verifier::when_used_as_spec(spec_is_terminated)]
    pub fn is_terminated(&self) -> (r: bool)
        ensures
            r == self.spec_is_terminated(),
    {
        match self {
            ChildStatus::Running => false,
            _ => true,
        }
    }
}

/// Classifies the outcome of a non-blocking wait on a child.
pub fn read_pid_status(wait_ret: i32, status: i32) -> (r: ChildStatus)
    ensures
        r == spec_child_status(wait_ret, status),
{
    if wait_ret == 0 {
        return ChildStatus::Running;
    }
    assert(0 <= status & 0x7f) by (bit_vector);
    if nix::libc::WIFEXITED(status) {
        ChildStatus::Exited(nix::libc::WEXITSTATUS(status))
    } else if nix::libc::WIFSIGNALED(status) {
        ChildStatus::Signaled(nix::libc::WTERMSIG(status))
    } else if nix::libc::WIFSTOPPED(status) {
        ChildStatus::Stopped(nix::libc::WSTOPSIG(status))
    } else {
        ChildStatus::Unknown
    }
}

/// Why a child could not be started.
#[derive(Clone, Copy, Debug, PartialEq, Eq, Structural)]
pub enum SpawnErr {
    /// The path of the executable holds a NUL byte.
    FailedToConvertCChar,
    /// The system refused to create the process.
    SpawnChildFailed,
}

/// A child in a slot of the pool: its process id, and the place of its
/// executable in the work list.
#[derive(Clone, Copy, Debug, PartialEq, Eq, Structural)]
pub struct Child {
    pub pid: i32,
    pub index: usize,
}

/// What the executor is to do next.
#[derive(Clone, Copy, Debug, PartialEq, Eq, Structural)]
pub enum PoolAction {
    /// Start the executable at `index` of the work list for the empty slot
    /// `slot`, then report through `fill_spawn_pool` or `spawned`.
    Spawn { slot: usize, index: usize },
    /// Wait without blocking for the child in `slot`, then report through `reap`.
    Wait { slot: usize, pid: i32, index: usize },
    /// Every executable has been started and every child is gone.
    Finish,
}

/// The first empty slot at or after `from`, or the number of slots where
/// there is none.
pub open spec fn next_empty(slots: Seq<Option<Child>>, from: int) -> int
    decreases slots.len() - from,
{
    if from < 0 || from >= slots.len() {
        slots.len() as int
    } else if slots[from] is None {
        from
    } else {
        next_empty(slots, from + 1)
    }
}

/// The first occupied slot at or after `from`, or the number of slots where
/// there is none.
pub open spec fn next_occupied(slots: Seq<Option<Child>>, from: int) -> int
    decreases slots.len() - from,
{
    if from < 0 || from >= slots.len() {
        slots.len() as int
    } else if slots[from] is Some {
        from
    } else {
        next_occupied(slots, from + 1)
    }
}

/// The number of occupied slots.
pub open spec fn occupied(slots: Seq<Option<Child>>) -> nat
    decreases slots.len(),
{
    if slots.len() == 0 {
        0
    } else {
        occupied(slots.drop_last()) + if slots.last() is Some {
            1nat
        } else {
            0nat
        }
    }
}

/// The state of the process pool.
pub struct PoolView {
    /// The slot table.
    pub slots: Seq<Option<Child>>,
    /// The place in the work list of the next executable to start.
    pub next: nat,
    /// The length of the work list.
    pub total: nat,
    /// The executables that are neither done nor given up: those not yet
    /// started, and those that run.
    pub left: nat,
    /// Whether the executor is in its reap pass, or else in its fill pass.
    pub reaping: bool,
    /// The slot at which the current pass goes on.
    pub cursor: nat,
}

impl PoolView {
    /// The invariant of the pool.
    pub open spec fn wf(self) -> bool {
        &&& self.slots.len() <= usize::MAX
        &&& self.slots.len() == 0 ==> self.total == 0
        &&& self.cursor <= self.slots.len()
        &&& self.next <= self.total <= usize::MAX
        &&& self.left == self.total - self.next + occupied(self.slots)
        &&& forall|i: int|
            0 <= i < self.slots.len() ==> (#[trigger] self.slots[i] matches Some(child)
                ==> child.index < self.next)
        &&& forall|i: int, j: int|
            0 <= i < j < self.slots.len() ==> (#[trigger] self.slots[i] matches Some(a) ==> (
            #[trigger] self.slots[j] matches Some(b) ==> a.index != b.index))
    }

    /// The action to start the next executable for `slot`.
    pub open spec fn spawn_at(self, slot: int) -> PoolAction {
        PoolAction::Spawn { slot: slot as usize, index: self.next as usize }
    }

    /// The action to wait for the child in `slot`.
    pub open spec fn wait_at(self, slot: int) -> PoolAction {
        PoolAction::Wait {
            slot: slot as usize,
            pid: self.slots[slot]->0.pid,
            index: self.slots[slot]->0.index,
        }
    }

    /// What the executor is to do next.
    ///
    /// The fill pass goes through the slots in order and starts the next
    /// executable for each empty one, until the slots or the work list run
    /// out. The reap pass then goes through the slots in order and waits for
    /// the child of each occupied one. After the reap pass the next round
    /// begins with a fill pass from the first slot, unless nothing is left.
    pub open spec fn action(self) -> PoolAction {
        let count = self.slots.len();
        if !self.reaping && self.next < self.total && next_empty(self.slots, self.cursor as int)
            < count {
            self.spawn_at(next_empty(self.slots, self.cursor as int))
        } else {
            let from = if self.reaping {
                self.cursor as int
            } else {
                0
            };
            if next_occupied(self.slots, from) < count {
                self.wait_at(next_occupied(self.slots, from))
            } else if self.next < self.total && next_empty(self.slots, 0) < count {
                self.spawn_at(next_empty(self.slots, 0))
            } else if next_occupied(self.slots, 0) < count {
                self.wait_at(next_occupied(self.slots, 0))
            } else {
                PoolAction::Finish
            }
        }
    }

    /// Whether the pass stands at an empty slot for which the next executable
    /// is to be started.
    pub open spec fn at_spawn(self) -> bool {
        &&& !self.reaping
        &&& self.cursor < self.slots.len()
        &&& self.slots[self.cursor as int] is None
        &&& self.next < self.total
    }

    /// Whether the pass stands at an occupied slot whose child is to be waited for.
    pub open spec fn at_wait(self) -> bool {
        &&& self.reaping
        &&& self.cursor < self.slots.len()
        &&& self.slots[self.cursor as int] is Some
    }

    /// The pool with its pass moved on to the slot of the next action.
    pub open spec fn settled(self) -> PoolView {
        match self.action() {
            PoolAction::Spawn { slot, .. } => PoolView { reaping: false, cursor: slot as nat, ..self },
            PoolAction::Wait { slot, .. } => PoolView { reaping: true, cursor: slot as nat, ..self },
            PoolAction::Finish => self,
        }
    }

    /// The pool after an attempt to start the next executable for the slot at
    /// the cursor. The executable is used up either way; the slot holds the
    /// child if there is one.
    pub open spec fn after_spawn(self, pid: Option<i32>) -> PoolView {
        let slot = self.cursor as int;
        match pid {
            Some(pid) => PoolView {
                slots: self.slots.update(slot, Some(Child { pid, index: self.next as usize })),
                next: self.next + 1,
                cursor: self.cursor + 1,
                ..self
            },
            None => PoolView {
                next: self.next + 1,
                left: (self.left - 1) as nat,
                cursor: self.cursor + 1,
                ..self
            },
        }
    }

    /// The pool after a wait for the child in the slot at the cursor: a child
    /// that still runs keeps its slot, any other leaves it.
    pub open spec fn after_wait(self, status: ChildStatus) -> PoolView {
        let slot = self.cursor as int;
        if status is Running {
            PoolView { cursor: self.cursor + 1, ..self }
        } else {
            PoolView {
                slots: self.slots.update(slot, None),
                left: (self.left - 1) as nat,
                cursor: self.cursor + 1,
                ..self
            }
        }
    }
}

/// `next_empty` lies between `from` and the number of slots, skips occupied
/// slots only, and stops at an empty one.
pub proof fn lemma_next_empty(slots: Seq<Option<Child>>, from: int)
    requires
        0 <= from <= slots.len(),
    ensures
        from <= next_empty(slots, from) <= slots.len(),
        forall|j: int| from <= j < next_empty(slots, from) ==> (#[trigger] slots[j]) is Some,
        next_empty(slots, from) < slots.len() ==> slots[next_empty(slots, from)] is None,
    decreases slots.len() - from,
{
    if from < slots.len() && slots[from] is Some {
        lemma_next_empty(slots, from + 1);
    }
}

/// `next_occupied` lies between `from` and the number of slots, skips empty
/// slots only, and stops at an occupied one.
pub proof fn lemma_next_occupied(slots: Seq<Option<Child>>, from: int)
    requires
        0 <= from <= slots.len(),
    ensures
        from <= next_occupied(slots, from) <= slots.len(),
        forall|j: int| from <= j < next_occupied(slots, from) ==> (#[trigger] slots[j]) is None,
        next_occupied(slots, from) < slots.len() ==> slots[next_occupied(slots, from)] is Some,
    decreases slots.len() - from,
{
    if from < slots.len() && slots[from] is None {
        lemma_next_occupied(slots, from + 1);
    }
}

/// Filling or freeing one slot changes the number of occupied slots by that slot.
pub proof fn lemma_occupied_update(slots: Seq<Option<Child>>, at: int, value: Option<Child>)
    requires
        0 <= at < slots.len(),
    ensures
        occupied(slots.update(at, value)) + (if slots[at] is Some {
            1nat
        } else {
            0nat
        }) == occupied(slots) + (if value is Some {
            1nat
        } else {
            0nat
        }),
    decreases slots.len(),
{
    let changed = slots.update(at, value);
    if at == slots.len() - 1 {
        assert(changed.drop_last() =~= slots.drop_last());
    } else {
        lemma_occupied_update(slots.drop_last(), at, value);
        assert(changed.drop_last() =~= slots.drop_last().update(at, value));
    }
}

/// No slot is occupied exactly when every slot is empty.
pub proof fn lemma_occupied_zero(slots: Seq<Option<Child>>)
    ensures
        occupied(slots) == 0 <==> forall|i: int| 0 <= i < slots.len() ==> (#[trigger] slots[i]) is None,
    decreases slots.len(),
{
    if slots.len() > 0 {
        let head = slots.drop_last();
        lemma_occupied_zero(head);
        if occupied(slots) == 0 {
            assert forall|i: int| 0 <= i < slots.len() implies (#[trigger] slots[i]) is None by {
                if i < head.len() {
                    assert(head[i] is None);
                }
            }
        }
        if forall|i: int| 0 <= i < slots.len() ==> (#[trigger] slots[i]) is None {
            assert forall|i: int| 0 <= i < head.len() implies (#[trigger] head[i]) is None by {
                assert(slots[i] is None);
            }
            assert(slots.last() == slots[slots.len() - 1]);
        }
    }
}

/// When the pool says that it has finished, every executable has been
/// started and no child is left.
pub proof fn lemma_finish(pool: PoolView)
    requires
        pool.wf(),
        pool.action() is Finish,
    ensures
        pool.next == pool.total,
        pool.left == 0,
        forall|i: int| 0 <= i < pool.slots.len() ==> (#[trigger] pool.slots[i]) is None,
{
    let slots = pool.slots;
    lemma_next_occupied(slots, 0);
    lemma_next_empty(slots, 0);
    lemma_occupied_zero(slots);
    if slots.len() > 0 {
        assert(slots[0] is None);
    }
}

/// Every executable is started at most once: the pool hands the executables
/// out in the order of the work list, and the one it hands out next is in no slot.
pub proof fn lemma_spawn_fresh(pool: PoolView)
    requires
        pool.wf(),
        pool.action() is Spawn,
    ensures
        pool.action()->Spawn_index == pool.next,
        pool.next < pool.total,
        pool.slots[pool.action()->Spawn_slot as int] is None,
        forall|i: int|
            0 <= i < pool.slots.len() ==> (#[trigger] pool.slots[i] matches Some(child)
                ==> child.index != pool.next),
{
    lemma_settled(pool);
}

/// What the executor reports back after an action of the pool.
pub enum PoolStep {
    /// An executable was to be started: the child, if there is one.
    Spawned(Option<i32>),
    /// A child was waited for: what became of it.
    Waited(ChildStatus),
}

impl PoolView {
    /// Whether `step` answers the action that the pool asks for.
    pub open spec fn fits(self, step: PoolStep) -> bool {
        match self.action() {
            PoolAction::Spawn { .. } => step is Spawned,
            PoolAction::Wait { .. } => step is Waited,
            PoolAction::Finish => false,
        }
    }

    /// The pool after it has asked for its next action and got `step` back.
    pub open spec fn step(self, step: PoolStep) -> PoolView {
        match step {
            PoolStep::Spawned(pid) => self.settled().after_spawn(pid),
            PoolStep::Waited(status) => self.settled().after_wait(status),
        }
    }

    /// The pool after a sequence of actions with these reports.
    pub open spec fn run(self, steps: Seq<PoolStep>) -> PoolView
        decreases steps.len(),
    {
        if steps.len() == 0 {
            self
        } else {
            self.run(steps.drop_last()).step(steps.last())
        }
    }

    /// Whether each report of `steps` answers the action that the pool asks
    /// for at that point.
    pub open spec fn follows(self, steps: Seq<PoolStep>) -> bool
        decreases steps.len(),
    {
        steps.len() > 0 ==> self.follows(steps.drop_last()) && self.run(steps.drop_last()).fits(
            steps.last(),
        )
    }

    /// The places in the work list of the executables that the pool asks to
    /// start in the course of `steps`, in the order in which it asks.
    pub open spec fn started(self, steps: Seq<PoolStep>) -> Seq<nat>
        decreases steps.len(),
    {
        if steps.len() == 0 {
            Seq::empty()
        } else {
            let earlier = self.started(steps.drop_last());
            let before = self.run(steps.drop_last());
            if before.action() is Spawn {
                earlier.push(before.action()->Spawn_index as nat)
            } else {
                earlier
            }
        }
    }
}

/// One action with its report keeps the pool well-formed, and moves on in
/// the work list by one executable if the action was to start one.
pub proof fn lemma_step(pool: PoolView, step: PoolStep)
    requires
        pool.wf(),
        pool.fits(step),
    ensures
        pool.step(step).wf(),
        pool.step(step).total == pool.total,
        pool.step(step).next == pool.next + if pool.action() is Spawn {
            1nat
        } else {
            0nat
        },
{
    lemma_settled(pool);
    let at = pool.settled();
    match step {
        PoolStep::Spawned(pid) => {
            if pid is Some {
                lemma_occupied_update(
                    at.slots,
                    at.cursor as int,
                    Some(Child { pid: pid->0, index: at.next as usize }),
                );
            }
        },
        PoolStep::Waited(status) => {
            if !(status is Running) {
                lemma_occupied_update(at.slots, at.cursor as int, None);
            }
        },
    }
}

/// Every executable is started exactly once: in any run the pool asks for
/// the executables one by one in the order of the work list, and when it
/// says that it has finished it has asked for each of them.
pub proof fn lemma_each_started_once(pool: PoolView, steps: Seq<PoolStep>)
    requires
        pool.wf(),
        pool.follows(steps),
    ensures
        pool.run(steps).wf(),
        pool.run(steps).total == pool.total,
        pool.next <= pool.run(steps).next,
        pool.started(steps) == Seq::new(
            (pool.run(steps).next - pool.next) as nat,
            |k: int| (pool.next + k) as nat,
        ),
        pool.run(steps).action() is Finish ==> pool.started(steps) == Seq::new(
            (pool.total - pool.next) as nat,
            |k: int| (pool.next + k) as nat,
        ),
    decreases steps.len(),
{
    if steps.len() == 0 {
        assert(pool.started(steps) =~= Seq::new(0, |k: int| (pool.next + k) as nat));
    } else {
        let head = steps.drop_last();
        let before = pool.run(head);
        lemma_each_started_once(pool, head);
        lemma_step(before, steps.last());
        let earlier = pool.started(head);
        if before.action() is Spawn {
            lemma_spawn_fresh(before);
            assert(pool.started(steps) == earlier.push(before.next));
            assert(earlier.len() == before.next - pool.next);
        } else {
            assert(pool.started(steps) == earlier);
        }
        assert(pool.started(steps) =~= Seq::new(
            (pool.run(steps).next - pool.next) as nat,
            |k: int| (pool.next + k) as nat,
        ));
    }
    if pool.run(steps).action() is Finish {
        lemma_finish(pool.run(steps));
    }
}

/// A pool with an empty work list and no child has finished before it starts.
pub proof fn lemma_empty_work_list(pool: PoolView)
    requires
        pool.wf(),
        pool.total == 0,
        forall|i: int| 0 <= i < pool.slots.len() ==> (#[trigger] pool.slots[i]) is None,
    ensures
        pool.action() is Finish,
        pool.left == 0,
{
    lemma_next_occupied(pool.slots, 0);
    lemma_next_occupied(pool.slots, pool.cursor as int);
    lemma_occupied_zero(pool.slots);
}

/// While an executable is not yet started or a child is left, the pool does
/// not finish.
pub proof fn lemma_no_early_finish(pool: PoolView)
    requires
        pool.wf(),
        pool.left > 0,
    ensures
        !(pool.action() is Finish),
{
    if pool.action() is Finish {
        lemma_finish(pool);
    }
}

/// The process pool of the executor: a fixed table of slots, and the place
/// that the executor has reached in the work list and in its passes.
#[derive(Debug)]
pub struct SpawnPool {
    slots: Vec<Option<Child>>,
    next: usize,
    total: usize,
    executable_left: usize,
    reaping: bool,
    cursor: usize,
}

impl View for SpawnPool {
    type V = PoolView;

    /// The state of the pool.
    closed spec fn view(&self) -> PoolView {
        PoolView {
            slots: self.slots@,
            next: self.next as nat,
            total: self.total as nat,
            left: self.executable_left as nat,
            reaping: self.reaping,
            cursor: self.cursor as nat,
        }
    }
}

impl SpawnPool {
    /// The invariant of the pool.
    pub open spec fn wf(&self) -> bool {
        self@.wf()
    }

    /// A pool of `pool_limit` empty slots for a work list of `executables`.
    /// A pool without slots can start nothing, and is for an empty work list only.
    pub fn new(pool_limit: usize, executables: usize) -> (r: Self)
        requires
            pool_limit > 0 || executables == 0,
        ensures
            r.wf(),
            r@ == (PoolView {
                slots: Seq::new(pool_limit as nat, |i: int| None::<Child>),
                next: 0,
                total: executables as nat,
                left: executables as nat,
                reaping: false,
                cursor: 0,
            }),
    {
        let mut slots: Vec<Option<Child>> = Vec::new();
        while slots.len() < pool_limit
            invariant
                slots@.len() <= pool_limit,
                forall|i: int| 0 <= i < slots@.len() ==> (#[trigger] slots@[i]) is None,
            decreases pool_limit - slots@.len(),
        {
            slots.push(None);
        }
        proof {
            lemma_occupied_zero(slots@);
            assert(slots@ =~= Seq::new(pool_limit as nat, |i: int| None::<Child>));
        }
        SpawnPool {
            slots,
            next: 0,
            total: executables,
            executable_left: executables,
            reaping: false,
            cursor: 0,
        }
    }

    /// The executables that are neither done nor given up.
    pub fn executable_left(&self) -> (r: usize)
        ensures
            r == self@.left,
    {
        self.executable_left
    }

    /// Finds the first empty slot at or after `from`.
    fn find_empty(&self, from: usize) -> (r: usize)
        requires
            from <= self.slots@.len(),
        ensures
            r == next_empty(self.slots@, from as int),
            from <= r <= self.slots@.len(),
    {
        let mut at = from;
        while at < self.slots.len() && self.slots[at].is_some()
            invariant
                from <= at <= self.slots@.len(),
                next_empty(self.slots@, from as int) == next_empty(self.slots@, at as int),
            decreases self.slots@.len() - at,
        {
            at += 1;
        }
        at
    }

    /// Finds the first occupied slot at or after `from`.
    fn find_occupied(&self, from: usize) -> (r: usize)
        requires
            from <= self.slots@.len(),
        ensures
            r == next_occupied(self.slots@, from as int),
            from <= r <= self.slots@.len(),
    {
        let mut at = from;
        while at < self.slots.len() && self.slots[at].is_none()
            invariant
                from <= at <= self.slots@.len(),
                next_occupied(self.slots@, from as int) == next_occupied(self.slots@, at as int),
            decreases self.slots@.len() - at,
        {
            at += 1;
        }
        at
    }

    /// Moves the fill pass to `slot` and asks for the next executable.
    fn spawn_at(&mut self, slot: usize) -> (r: PoolAction)
        requires
            old(self).wf(),
            slot < old(self)@.slots.len(),
        ensures
            r == old(self)@.spawn_at(slot as int),
            final(self)@ == (PoolView { reaping: false, cursor: slot as nat, ..old(self)@ }),
            final(self).wf(),
    {
        self.reaping = false;
        self.cursor = slot;
        PoolAction::Spawn { slot, index: self.next }
    }

    /// Moves the reap pass to `slot` and asks for its child to be waited for.
    fn wait_at(&mut self, slot: usize) -> (r: PoolAction)
        requires
            old(self).wf(),
            slot < old(self)@.slots.len(),
            old(self)@.slots[slot as int] is Some,
        ensures
            r == old(self)@.wait_at(slot as int),
            final(self)@ == (PoolView { reaping: true, cursor: slot as nat, ..old(self)@ }),
            final(self).wf(),
    {
        self.reaping = true;
        self.cursor = slot;
        match self.slots[slot] {
            Some(child) => PoolAction::Wait { slot, pid: child.pid, index: child.index },
            None => PoolAction::Finish,
        }
    }

    /// Says what the executor is to do next, and moves the pass on to the
    /// slot of that action.
    pub fn next_action(&mut self) -> (r: PoolAction)
        requires
            old(self).wf(),
        ensures
            final(self).wf(),
            r == old(self)@.action(),
            final(self)@ == old(self)@.settled(),
            final(self)@.action() == r,
            r is Spawn ==> final(self)@.at_spawn(),
            r is Wait ==> final(self)@.at_wait(),
    {
        let count = self.slots.len();
        proof {
            lemma_settled(self@);
            lemma_next_occupied(self.slots@, 0);
            lemma_next_occupied(self.slots@, self.cursor as int);
        }
        if !self.reaping && self.next < self.total {
            let slot = self.find_empty(self.cursor);
            if slot < count {
                return self.spawn_at(slot);
            }
        }
        let from = if self.reaping {
            self.cursor
        } else {
            0
        };
        let slot = self.find_occupied(from);
        if slot < count {
            return self.wait_at(slot);
        }
        if self.next < self.total {
            let slot = self.find_empty(0);
            if slot < count {
                return self.spawn_at(slot);
            }
        }
        let slot = self.find_occupied(0);
        if slot < count {
            return self.wait_at(slot);
        }
        PoolAction::Finish
    }
}

impl SpawnPool {
    /// Takes note of an attempt to start the executable that the last action
    /// asked for, and says whether a child was started. A child that was
    /// started takes the slot. The executable is used up either way.
    pub fn spawned(&mut self, outcome: Result<i32, SpawnErr>) -> (started: bool)
        requires
            old(self).wf(),
            old(self)@.at_spawn(),
        ensures
            final(self).wf(),
            started == outcome is Ok,
            final(self)@ == old(self)@.after_spawn(
                match outcome {
                    Ok(pid) => Some(pid),
                    Err(_) => None,
                },
            ),
    {
        let ghost before = self@;
        let slot = self.cursor;
        let index = self.next;
        let started = match outcome {
            Ok(pid) => {
                self.slots[slot] = Some(Child { pid, index });
                proof {
                    lemma_occupied_update(before.slots, slot as int, Some(Child { pid, index }));
                }
                true
            },
            Err(_) => {
                self.executable_left = self.executable_left - 1;
                false
            },
        };
        self.next = index + 1;
        self.cursor = slot + 1;
        started
    }

    /// Takes note of the wait that the last action asked for, and says what
    /// became of the child. A child that is no longer running leaves its slot.
    pub fn reap(&mut self, wait_ret: i32, status: i32) -> (r: ChildStatus)
        requires
            old(self).wf(),
            old(self)@.at_wait(),
        ensures
            final(self).wf(),
            r == spec_child_status(wait_ret, status),
            final(self)@ == old(self)@.after_wait(r),
    {
        let ghost before = self@;
        let slot = self.cursor;
        let state = read_pid_status(wait_ret, status);
        if state.is_terminated() {
            proof {
                lemma_occupied_update(before.slots, slot as int, None);
            }
            self.slots[slot] = None;
            self.executable_left = self.executable_left - 1;
        }
        self.cursor = slot + 1;
        state
    }
}

/// The name under which the program at `path` is registered: the path
/// without the whitespace around it.
pub fn program_key(path: &str) -> (r: String)
    ensures
        r@ == spec_trim(path@),
{
    trim(path).to_owned()
}

/// Takes note of an attempt to start the executable that the last action of
/// the pool asked for. A child that was started takes its slot, and the
/// program at `path` is registered in the record store under its key, where
/// it may have been registered before. A failed attempt leaves the slot
/// empty and the store as it was. The executable is used up either way.
pub fn fill_spawn_pool(
    pool: &mut SpawnPool,
    outcome: Result<i32, SpawnErr>,
    path: &str,
    shared_collection: &mut TestRecord,
)
    requires
        old(pool).wf(),
        old(pool)@.at_spawn(),
        old(shared_collection).wf(),
    ensures
        final(pool).wf(),
        final(pool)@ == old(pool)@.after_spawn(
            match outcome {
                Ok(pid) => Some(pid),
                Err(_) => None,
            },
        ),
        final(shared_collection).wf(),
        final(shared_collection)@ == if outcome is Ok {
            old(shared_collection)@.with_process(spec_trim(path@))
        } else {
            old(shared_collection)@
        },
{
    if pool.spawned(outcome) {
        let _ = shared_collection.register_process(program_key(path));
    }
}

/// Once the pass has moved on to the slot of the next action, the pool is
/// still well-formed and the action is the same.
pub proof fn lemma_settled(pool: PoolView)
    requires
        pool.wf(),
    ensures
        pool.settled().wf(),
        pool.settled().action() == pool.action(),
        pool.action() is Spawn ==> pool.settled().at_spawn(),
        pool.action() is Wait ==> pool.settled().at_wait(),
{
    let slots = pool.slots;
    lemma_next_empty(slots, 0);
    lemma_next_empty(slots, pool.cursor as int);
    lemma_next_occupied(slots, 0);
    lemma_next_occupied(slots, pool.cursor as int);
    match pool.action() {
        PoolAction::Spawn { slot, .. } => {
            lemma_next_empty(slots, slot as int);
        },
        PoolAction::Wait { slot, .. } => {
            lemma_next_occupied(slots, slot as int);
        },
        PoolAction::Finish => {},
    }
}

} // verus!
