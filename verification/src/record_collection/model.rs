//! The mathematical model of the record store, and what holds of it.

use super::{spec_log_line, spec_name, Event, LogLine, RecordErr, StatusType};
use vstd::prelude::*;

verus! {

/// What a record store holds.
pub struct RecordView {
    /// For each registered program, the index of each of its tests.
    pub programs: Map<Seq<char>, Map<Seq<char>, usize>>,
    /// The status of each test, by index.
    pub statuses: Seq<StatusType>,
    /// The log of each test, by index; `None` until the test logs its first line.
    pub logs: Seq<Option<Seq<LogLine>>>,
}

impl RecordView {
    /// The store with nothing registered.
    pub open spec fn empty() -> RecordView {
        RecordView { programs: Map::empty(), statuses: Seq::empty(), logs: Seq::empty() }
    }

    /// Whether `function` is registered under `program`.
    pub open spec fn has_test(self, program: Seq<char>, function: Seq<char>) -> bool {
        self.programs.contains_key(program) && self.programs[program].contains_key(function)
    }

    /// The two arrays are equally long, and the registered tests number them:
    /// every test has a valid index, no two tests share one, and every index
    /// belongs to a test.
    pub open spec fn wf(self) -> bool {
        &&& self.statuses.len() == self.logs.len()
        &&& forall|p: Seq<char>, f: Seq<char>| #[trigger]
            self.has_test(p, f) ==> self.programs[p][f] < self.statuses.len()
        &&& forall|p: Seq<char>, f: Seq<char>, q: Seq<char>, g: Seq<char>|
            #[trigger] self.has_test(p, f) && #[trigger] self.has_test(q, g)
                && self.programs[p][f] == self.programs[q][g] ==> p == q && f == g
        &&& forall|i: int| 0 <= i < self.statuses.len() ==> #[trigger] self.has_owner(i)
    }

    /// Whether some registered test has index `i`.
    pub open spec fn has_owner(self, i: int) -> bool {
        exists|p: Seq<char>, f: Seq<char>| #[trigger] self.has_test(p, f) && self.programs[p][f] == i
    }

    /// What `register_process` answers for `program`.
    pub open spec fn process_outcome(self, program: Seq<char>) -> Result<(), RecordErr> {
        if self.programs.contains_key(program) {
            Err(RecordErr::AlreadyExists)
        } else {
            Ok(())
        }
    }

    /// The store after `register_process` for `program`: a program that is
    /// new gets an entry without tests, one that is known changes nothing.
    pub open spec fn with_process(self, program: Seq<char>) -> RecordView {
        if self.programs.contains_key(program) {
            self
        } else {
            RecordView { programs: self.programs.insert(program, Map::empty()), ..self }
        }
    }

    /// The index of the test that an event names by the two raw fields, or
    /// the reason why they name none.
    pub open spec fn target(self, program: Seq<u8>, function: Seq<u8>) -> Result<usize, RecordErr> {
        match (spec_name(program), spec_name(function)) {
            (Some(p), Some(f)) => if !self.programs.contains_key(p) {
                Err(RecordErr::ProgramNotExist)
            } else if !self.programs[p].contains_key(f) {
                Err(RecordErr::TestNotExist)
            } else {
                Ok(self.programs[p][f])
            },
            _ => Err(RecordErr::Utf8ConvertionErr),
        }
    }

    /// What the store answers to an event.
    ///
    /// A registration needs two well-formed names, a known program and a
    /// test that the program does not have yet. A status or a log needs two
    /// well-formed names of a registered test. A log needs a well-formed
    /// message too, which is looked at once its test is found: a log for an
    /// unknown program or test is turned down for that, whatever its message.
    pub open spec fn outcome(self, event: Event) -> Result<(), RecordErr> {
        match event {
            Event::Register { program, function } => match self.target(program, function) {
                Ok(_) => Err(RecordErr::AlreadyExists),
                Err(RecordErr::TestNotExist) => Ok(()),
                Err(e) => Err(e),
            },
            Event::Status { program, function, .. } => match self.target(program, function) {
                Ok(_) => Ok(()),
                Err(e) => Err(e),
            },
            Event::Log { program, function, msg, .. } => match self.target(program, function) {
                Ok(_) => if spec_name(msg) is None {
                    Err(RecordErr::Utf8ConvertionErr)
                } else {
                    Ok(())
                },
                Err(e) => Err(e),
            },
        }
    }

    /// The store after an event. An event that is turned down changes nothing.
    ///
    /// A registration appends a failed status and an absent log, and gives
    /// the new test their index. A status overwrites the status of its test.
    /// A log appends its line to the log of its test, which it creates if absent.
    pub open spec fn apply(self, event: Event) -> RecordView {
        match event {
            Event::Register { program, function } => match self.outcome(event) {
                Ok(_) => {
                    let p = spec_name(program)->0;
                    let f = spec_name(function)->0;
                    RecordView {
                        programs: self.programs.insert(
                            p,
                            self.programs[p].insert(f, self.statuses.len() as usize),
                        ),
                        statuses: self.statuses.push(StatusType::Fail),
                        logs: self.logs.push(None),
                    }
                },
                Err(_) => self,
            },
            Event::Status { program, function, status } => match self.target(program, function) {
                Ok(i) => RecordView { statuses: self.statuses.update(i as int, status), ..self },
                Err(_) => self,
            },
            Event::Log { program, function, msg, kind } => match self.outcome(event) {
                Ok(_) => {
                    let i = self.target(program, function)->Ok_0;
                    let line = spec_log_line(msg, kind);
                    let lines = match self.logs[i as int] {
                        Some(lines) => lines.push(line),
                        None => seq![line],
                    };
                    RecordView { logs: self.logs.update(i as int, Some(lines)), ..self }
                },
                Err(_) => self,
            },
        }
    }

    /// The store after a sequence of events, applied in order.
    pub open spec fn apply_all(self, events: Seq<Event>) -> RecordView
        decreases events.len(),
    {
        if events.len() == 0 {
            self
        } else {
            self.apply_all(events.drop_last()).apply(events.last())
        }
    }
}

/// In a well-formed store the index that an event resolves to is in range.
pub proof fn lemma_target_in_range(s: RecordView, program: Seq<u8>, function: Seq<u8>)
    requires
        s.wf(),
    ensures
        s.target(program, function) matches Ok(i) ==> i < s.statuses.len() && s.has_test(
            spec_name(program)->0,
            spec_name(function)->0,
        ),
{
    if s.target(program, function) is Ok {
        assert(s.has_test(spec_name(program)->0, spec_name(function)->0));
    }
}

/// A store that differs from a well-formed one only in what its arrays hold,
/// not in their length, is well-formed.
pub proof fn lemma_same_tests_wf(s: RecordView, t: RecordView)
    requires
        s.wf(),
        t.programs == s.programs,
        t.statuses.len() == s.statuses.len(),
        t.logs.len() == s.logs.len(),
    ensures
        t.wf(),
{
    lemma_same_tests_wf_by_tests(s, t);
}

/// Registering a new test under a known program keeps the store well-formed.
pub proof fn lemma_register_wf(s: RecordView, p: Seq<char>, f: Seq<char>)
    requires
        s.wf(),
        s.statuses.len() <= usize::MAX,
        s.programs.contains_key(p),
        !s.programs[p].contains_key(f),
    ensures
        (RecordView {
            programs: s.programs.insert(p, s.programs[p].insert(f, s.statuses.len() as usize)),
            statuses: s.statuses.push(StatusType::Fail),
            logs: s.logs.push(None),
        }).wf(),
{
    let t = RecordView {
        programs: s.programs.insert(p, s.programs[p].insert(f, s.statuses.len() as usize)),
        statuses: s.statuses.push(StatusType::Fail),
        logs: s.logs.push(None),
    };
    assert forall|q: Seq<char>, g: Seq<char>| #[trigger] t.has_test(q, g) implies (q == p && g
        == f) || (s.has_test(q, g) && t.programs[q][g] == s.programs[q][g]) by {}
    assert forall|q: Seq<char>, g: Seq<char>| #[trigger] s.has_test(q, g) implies t.has_test(q, g)
        && t.programs[q][g] == s.programs[q][g] by {}
    assert(t.has_test(p, f) && t.programs[p][f] == s.statuses.len());
    assert forall|i: int| 0 <= i < t.statuses.len() implies #[trigger] t.has_owner(i) by {
        if i < s.statuses.len() {
            assert(s.has_owner(i));
            let (q, g) = choose|q: Seq<char>, g: Seq<char>| #[trigger]
                s.has_test(q, g) && s.programs[q][g] == i;
            assert(t.has_test(q, g));
        }
    }
}

/// An event keeps a well-formed store well-formed, as long as the index of a
/// new test still fits the machine word.
pub proof fn lemma_apply_wf(s: RecordView, event: Event)
    requires
        s.wf(),
        s.statuses.len() <= usize::MAX,
    ensures
        s.apply(event).wf(),
        s.statuses.len() <= s.apply(event).statuses.len() <= s.statuses.len() + 1,
{
    match event {
        Event::Register { program, function } => {
            if s.outcome(event) is Ok {
                lemma_register_wf(s, spec_name(program)->0, spec_name(function)->0);
            }
        },
        Event::Status { program, function, .. } => {
            lemma_target_in_range(s, program, function);
            lemma_same_tests_wf(s, s.apply(event));
        },
        Event::Log { program, function, .. } => {
            lemma_target_in_range(s, program, function);
            lemma_same_tests_wf(s, s.apply(event));
        },
    }
}

/// An event leaves every registered test registered, under the index it has.
pub proof fn lemma_apply_keeps_tests(s: RecordView, event: Event, p: Seq<char>, f: Seq<char>)
    requires
        s.has_test(p, f),
    ensures
        s.apply(event).has_test(p, f),
        s.apply(event).programs[p][f] == s.programs[p][f],
{
}

/// The two arrays of a store are equally long after any sequence of events,
/// and every registered test has a valid index into both.
///
/// The bound keeps the indices of new tests within the machine word.
pub proof fn lemma_apply_all_wf(s: RecordView, events: Seq<Event>)
    requires
        s.wf(),
        s.statuses.len() + events.len() <= usize::MAX,
    ensures
        s.apply_all(events).wf(),
        s.apply_all(events).statuses.len() == s.apply_all(events).logs.len(),
        s.statuses.len() <= s.apply_all(events).statuses.len() <= s.statuses.len() + events.len(),
    decreases events.len(),
{
    if events.len() > 0 {
        lemma_apply_all_wf(s, events.drop_last());
        lemma_apply_wf(s.apply_all(events.drop_last()), events.last());
    }
}

/// A test keeps its index: once it is registered, at the start or by one of
/// the first `k` events, it stays registered under the same index whatever
/// events follow, and that index is valid in both arrays at the end.
pub proof fn lemma_index_stable(
    s: RecordView,
    events: Seq<Event>,
    k: int,
    p: Seq<char>,
    f: Seq<char>,
)
    requires
        s.wf(),
        s.statuses.len() + events.len() <= usize::MAX,
        0 <= k <= events.len(),
        s.apply_all(events.take(k)).has_test(p, f),
    ensures
        s.apply_all(events).has_test(p, f),
        s.apply_all(events).programs[p][f] == s.apply_all(events.take(k)).programs[p][f],
        s.apply_all(events).programs[p][f] < s.apply_all(events).statuses.len(),
        s.apply_all(events).programs[p][f] < s.apply_all(events).logs.len(),
    decreases events.len() - k,
{
    lemma_apply_all_wf(s, events);
    if k == events.len() {
        assert(events.take(k) =~= events);
    } else {
        let head = events.take(events.len() - 1);
        assert(head =~= events.drop_last());
        assert(head.take(k) =~= events.take(k));
        if k < events.len() - 1 {
            lemma_index_stable(s, head, k, p, f);
        } else {
            assert(head.take(k) =~= head);
        }
        lemma_apply_keeps_tests(s.apply_all(head), events.last(), p, f);
    }
}

/// A registration that the store takes gives the test the next free index,
/// a failed status and no log.
pub proof fn lemma_registered(s: RecordView, program: Seq<u8>, function: Seq<u8>)
    requires
        s.wf(),
        s.statuses.len() <= usize::MAX,
        s.outcome(Event::Register { program, function }) is Ok,
    ensures
        ({
            let t = s.apply(Event::Register { program, function });
            let p = spec_name(program)->0;
            let f = spec_name(function)->0;
            &&& t.has_test(p, f)
            &&& t.programs[p][f] == s.statuses.len()
            &&& t.statuses == s.statuses.push(StatusType::Fail)
            &&& t.logs == s.logs.push(None)
        }),
{
}

/// Whether `event` is a status for the test with index `i` in the store `s`.
pub open spec fn is_status_for(s: RecordView, event: Event, i: usize) -> bool {
    event matches Event::Status { program, function, .. } && s.target(program, function) == Ok::<
        usize,
        RecordErr,
    >(i)
}

/// Whether `event` is a log line that the store `s` takes for the test with
/// index `i`.
pub open spec fn is_log_for(s: RecordView, event: Event, i: usize) -> bool {
    event matches Event::Log { program, function, msg, .. } && spec_name(msg) is Some && s.target(
        program,
        function,
    ) == Ok::<usize, RecordErr>(i)
}

/// The last status wins: after a sequence of statuses for one test, the test
/// has the status of the last of them, and nothing else has changed.
pub proof fn lemma_last_status_wins(s: RecordView, events: Seq<Event>, i: usize)
    requires
        s.wf(),
        events.len() > 0,
        forall|k: int| 0 <= k < events.len() ==> is_status_for(s, #[trigger] events[k], i),
    ensures
        s.apply_all(events).statuses == s.statuses.update(i as int, events.last()->status),
        s.apply_all(events).statuses[i as int] == events.last()->status,
        s.apply_all(events).programs == s.programs,
        s.apply_all(events).logs == s.logs,
    decreases events.len(),
{
    let head = events.drop_last();
    let last = events.last();
    assert(is_status_for(s, last, i));
    lemma_target_in_range(s, last->Status_program, last->Status_function);
    if head.len() > 0 {
        assert forall|k: int| 0 <= k < head.len() implies is_status_for(s, #[trigger] head[k], i) by {
            assert(head[k] == events[k]);
        }
        lemma_last_status_wins(s, head, i);
        let mid = s.apply_all(head);
        assert(mid.target(last->Status_program, last->Status_function) == s.target(
            last->Status_program,
            last->Status_function,
        ));
        assert(mid.apply(last).statuses =~= s.statuses.update(i as int, last->status));
    } else {
        assert(s.apply_all(head) == s);
    }
}

/// The lines that a sequence of log events carries, in order.
pub open spec fn lines_of(events: Seq<Event>) -> Seq<LogLine> {
    Seq::new(events.len(), |k: int| spec_log_line(events[k]->msg, events[k]->kind))
}

/// The lines of a log, none for a log that is absent.
pub open spec fn lines_in(log: Option<Seq<LogLine>>) -> Seq<LogLine> {
    match log {
        Some(lines) => lines,
        None => Seq::empty(),
    }
}

/// The log of a test keeps the order of its events: after a sequence of log
/// events for one test, the log of the test is what it was, followed by the
/// lines of the events in their order, and nothing else has changed.
pub proof fn lemma_log_order(s: RecordView, events: Seq<Event>, i: usize)
    requires
        s.wf(),
        events.len() > 0,
        forall|k: int| 0 <= k < events.len() ==> is_log_for(s, #[trigger] events[k], i),
    ensures
        s.apply_all(events).logs == s.logs.update(
            i as int,
            Some(lines_in(s.logs[i as int]) + lines_of(events)),
        ),
        s.apply_all(events).logs[i as int] == Some(lines_in(s.logs[i as int]) + lines_of(events)),
        s.apply_all(events).programs == s.programs,
        s.apply_all(events).statuses == s.statuses,
    decreases events.len(),
{
    let head = events.drop_last();
    let last = events.last();
    let line = spec_log_line(last->msg, last->kind);
    assert(is_log_for(s, last, i));
    lemma_target_in_range(s, last->Log_program, last->Log_function);
    assert(lines_of(events) =~= lines_of(head).push(line));
    if head.len() > 0 {
        assert forall|k: int| 0 <= k < head.len() implies is_log_for(s, #[trigger] head[k], i) by {
            assert(head[k] == events[k]);
        }
        lemma_log_order(s, head, i);
        let mid = s.apply_all(head);
        assert(mid.target(last->Log_program, last->Log_function) == s.target(
            last->Log_program,
            last->Log_function,
        ));
        let prior = lines_in(s.logs[i as int]) + lines_of(head);
        assert(mid.logs[i as int] == Some(prior));
        assert(prior.push(line) =~= lines_in(s.logs[i as int]) + lines_of(events));
        assert(mid.apply(last).logs =~= s.logs.update(
            i as int,
            Some(lines_in(s.logs[i as int]) + lines_of(events)),
        ));
    } else {
        assert(s.apply_all(head) == s);
        assert(lines_of(head) =~= Seq::empty());
        assert(seq![line] =~= Seq::<LogLine>::empty() + lines_of(events));
        assert(lines_in(s.logs[i as int]).push(line) =~= lines_in(s.logs[i as int]) + lines_of(
            events,
        ));
    }
}

/// The lines that the log events among `events` add to the log of the test
/// with index `i`, in the order of the events, when the events meet the store
/// `s` one after another.
pub open spec fn logged(s: RecordView, events: Seq<Event>, i: usize) -> Seq<LogLine>
    decreases events.len(),
{
    if events.len() == 0 {
        Seq::empty()
    } else {
        let earlier = logged(s, events.drop_last(), i);
        let last = events.last();
        if is_log_for(s.apply_all(events.drop_last()), last, i) {
            earlier.push(spec_log_line(last->msg, last->kind))
        } else {
            earlier
        }
    }
}

/// The log of a test keeps the order of its events, whatever other events
/// come in between: after any sequence of events, the log of a test is what
/// it was, followed by the lines of the log events for that test in their order.
pub proof fn lemma_log_order_interleaved(s: RecordView, events: Seq<Event>, i: usize)
    requires
        s.wf(),
        s.statuses.len() + events.len() <= usize::MAX,
        i < s.logs.len(),
    ensures
        i < s.apply_all(events).logs.len(),
        lines_in(s.apply_all(events).logs[i as int]) == lines_in(s.logs[i as int]) + logged(
            s,
            events,
            i,
        ),
        logged(s, events, i).len() == 0 ==> s.apply_all(events).logs[i as int] == s.logs[i as int],
    decreases events.len(),
{
    if events.len() == 0 {
        assert(lines_in(s.logs[i as int]) + Seq::<LogLine>::empty() =~= lines_in(s.logs[i as int]));
    } else {
        let head = events.drop_last();
        let last = events.last();
        let mid = s.apply_all(head);
        lemma_log_order_interleaved(s, head, i);
        lemma_apply_all_wf(s, head);
        match last {
            Event::Register { .. } => {},
            Event::Status { .. } => {},
            Event::Log { program, function, msg, kind } => {
                lemma_target_in_range(mid, program, function);
                if is_log_for(mid, last, i) {
                    let line = spec_log_line(msg, kind);
                    assert(lines_in(mid.logs[i as int]).push(line) =~= lines_in(s.logs[i as int])
                        + logged(s, events, i));
                }
            },
        }
    }
}

/// The status that the test with index `i` has after `events` have met the
/// store `s` one after another: that of the last status event for the test,
/// or the status it had where there is none.
pub open spec fn last_status(s: RecordView, events: Seq<Event>, i: usize) -> StatusType
    decreases events.len(),
{
    if events.len() == 0 {
        s.statuses[i as int]
    } else if is_status_for(s.apply_all(events.drop_last()), events.last(), i) {
        events.last()->status
    } else {
        last_status(s, events.drop_last(), i)
    }
}

/// The last status wins, whatever other events come in between: after any
/// sequence of events, a test has the status of the last status event for
/// it, or the status it had where no status event was for it.
pub proof fn lemma_last_status_interleaved(s: RecordView, events: Seq<Event>, i: usize)
    requires
        s.wf(),
        s.statuses.len() + events.len() <= usize::MAX,
        i < s.statuses.len(),
    ensures
        i < s.apply_all(events).statuses.len(),
        s.apply_all(events).statuses[i as int] == last_status(s, events, i),
    decreases events.len(),
{
    if events.len() > 0 {
        let head = events.drop_last();
        let last = events.last();
        let mid = s.apply_all(head);
        lemma_last_status_interleaved(s, head, i);
        lemma_apply_all_wf(s, head);
        match last {
            Event::Status { program, function, .. } => {
                lemma_target_in_range(mid, program, function);
            },
            _ => {},
        }
    }
}

/// One thing that happens to the store in a run: the executor registers a
/// program, or a child reports an event.
pub enum StoreStep {
    Process(Seq<char>),
    Event(Event),
}

impl RecordView {
    /// The store after one step of a run.
    pub open spec fn step(self, step: StoreStep) -> RecordView {
        match step {
            StoreStep::Process(name) => self.with_process(name),
            StoreStep::Event(event) => self.apply(event),
        }
    }

    /// The store after the steps of a run, in order.
    pub open spec fn run(self, steps: Seq<StoreStep>) -> RecordView
        decreases steps.len(),
    {
        if steps.len() == 0 {
            self
        } else {
            self.run(steps.drop_last()).step(steps.last())
        }
    }
}

/// The programs that the executor registers in the course of `steps`.
pub open spec fn processes(steps: Seq<StoreStep>) -> Set<Seq<char>> {
    Set::new(
        |name: Seq<char>|
            exists|k: int| 0 <= k < steps.len() && #[trigger] steps[k] == StoreStep::Process(name),
    )
}

/// Registering a program adds it to the programs of the store, and changes
/// nothing else: not the arrays, and no test of a program that was there.
pub proof fn lemma_with_process(s: RecordView, name: Seq<char>)
    requires
        s.wf(),
    ensures
        s.with_process(name).wf(),
        s.with_process(name).programs.dom() == s.programs.dom().insert(name),
        s.with_process(name).statuses == s.statuses,
        s.with_process(name).logs == s.logs,
        forall|p: Seq<char>| #[trigger]
            s.programs.contains_key(p) ==> s.with_process(name).programs[p] == s.programs[p],
        !s.programs.contains_key(name) ==> s.with_process(name).programs[name] == Map::<
            Seq<char>,
            usize,
        >::empty(),
{
    let t = s.with_process(name);
    assert(t.programs.dom() =~= s.programs.dom().insert(name));
    if !s.programs.contains_key(name) {
        assert forall|p: Seq<char>, f: Seq<char>| #[trigger] t.has_test(p, f) == s.has_test(
            p,
            f,
        ) by {}
        lemma_same_tests_wf_by_tests(s, t);
    }
}

/// A store that has the tests of a well-formed one under the same indices,
/// and arrays of the same length, is well-formed.
pub proof fn lemma_same_tests_wf_by_tests(s: RecordView, t: RecordView)
    requires
        s.wf(),
        t.statuses.len() == s.statuses.len(),
        t.logs.len() == s.logs.len(),
        forall|p: Seq<char>, f: Seq<char>| #[trigger] t.has_test(p, f) == s.has_test(p, f),
        forall|p: Seq<char>, f: Seq<char>| #[trigger]
            s.has_test(p, f) ==> t.programs[p][f] == s.programs[p][f],
    ensures
        t.wf(),
{
    assert forall|p: Seq<char>, f: Seq<char>| #[trigger] t.has_test(p, f) implies t.programs[p][f]
        < t.statuses.len() by {
        assert(s.has_test(p, f));
    }
    assert forall|p: Seq<char>, f: Seq<char>, q: Seq<char>, g: Seq<char>| #[trigger]
        t.has_test(p, f) && #[trigger] t.has_test(q, g) && t.programs[p][f]
            == t.programs[q][g] implies p == q && f == g by {
        assert(s.has_test(p, f) && s.has_test(q, g));
    }
    assert forall|i: int| 0 <= i < t.statuses.len() implies #[trigger] t.has_owner(i) by {
        assert(s.has_owner(i));
        let (p, f) = choose|p: Seq<char>, f: Seq<char>| #[trigger]
            s.has_test(p, f) && s.programs[p][f] == i;
        assert(t.has_test(p, f));
    }
}

/// An event neither adds a program to the store nor takes one away.
pub proof fn lemma_apply_keeps_programs(s: RecordView, event: Event)
    ensures
        s.apply(event).programs.dom() == s.programs.dom(),
{
    assert(s.apply(event).programs.dom() =~= s.programs.dom());
}

/// The programs of a report are exactly those that the executor registered:
/// after any run, the store has the programs that it had, and those that
/// the steps of the run registered, whatever the children reported.
pub proof fn lemma_programs_are_processes(s: RecordView, steps: Seq<StoreStep>)
    requires
        s.wf(),
        s.statuses.len() + steps.len() <= usize::MAX,
    ensures
        s.run(steps).wf(),
        s.run(steps).statuses.len() <= s.statuses.len() + steps.len(),
        s.run(steps).programs.dom() == s.programs.dom().union(processes(steps)),
    decreases steps.len(),
{
    if steps.len() == 0 {
        assert(s.programs.dom().union(processes(steps)) =~= s.programs.dom());
    } else {
        let head = steps.drop_last();
        let mid = s.run(head);
        lemma_programs_are_processes(s, head);
        match steps.last() {
            StoreStep::Process(name) => {
                lemma_with_process(mid, name);
            },
            StoreStep::Event(event) => {
                lemma_apply_wf(mid, event);
                lemma_apply_keeps_programs(mid, event);
            },
        }
        assert forall|name: Seq<char>| #[trigger]
            processes(steps).contains(name) <==> processes(head).contains(name) || steps.last()
                == StoreStep::Process(name) by {
            if processes(head).contains(name) {
                let k = choose|k: int|
                    0 <= k < head.len() && #[trigger] head[k] == StoreStep::Process(name);
                assert(steps[k] == StoreStep::Process(name));
            }
            if steps.last() == StoreStep::Process(name) {
                assert(steps[steps.len() - 1] == StoreStep::Process(name));
            }
            if processes(steps).contains(name) {
                let k = choose|k: int|
                    0 <= k < steps.len() && #[trigger] steps[k] == StoreStep::Process(name);
                if k < head.len() {
                    assert(head[k] == StoreStep::Process(name));
                }
            }
        }
        assert(s.run(steps).programs.dom() =~= s.programs.dom().union(processes(steps)));
    }
}

/// An event that the store turns down is discarded: the store stays as it is.
pub proof fn lemma_turned_down(s: RecordView, event: Event)
    requires
        s.outcome(event) is Err,
    ensures
        s.apply(event) == s,
{
}

/// Whether the two names of `event` are well-formed UTF-8 up to their first NUL.
pub open spec fn well_formed_names(event: Event) -> bool {
    match event {
        Event::Register { program, function } => spec_name(program) is Some && spec_name(
            function,
        ) is Some,
        Event::Status { program, function, .. } => spec_name(program) is Some && spec_name(
            function,
        ) is Some,
        Event::Log { program, function, .. } => spec_name(program) is Some && spec_name(
            function,
        ) is Some,
    }
}

/// Whether `event` is a log whose message is not well-formed UTF-8 up to its
/// first NUL.
pub open spec fn corrupt_message(event: Event) -> bool {
    event matches Event::Log { msg, .. } && spec_name(msg) is None
}

/// Text that is not well-formed UTF-8 has its event discarded, whatever is
/// registered. An event with such a name is turned down with the conversion
/// error by every store. A log with such a message is turned down by every
/// store too: with the error of the lookup where its test is not found, and
/// with the conversion error where it is. No other event gets that error.
pub proof fn lemma_corrupt_text(s: RecordView, event: Event)
    ensures
        !well_formed_names(event) ==> s.outcome(event) == Err::<(), RecordErr>(
            RecordErr::Utf8ConvertionErr,
        ),
        corrupt_message(event) ==> s.outcome(event) is Err,
        corrupt_message(event) && well_formed_names(event) ==> (s.outcome(event) == Err::<
            (),
            RecordErr,
        >(RecordErr::Utf8ConvertionErr) <==> s.has_test(
            spec_name(event->Log_program)->0,
            spec_name(event->Log_function)->0,
        )),
        s.outcome(event) == Err::<(), RecordErr>(RecordErr::Utf8ConvertionErr)
            ==> !well_formed_names(event) || corrupt_message(event),
        !well_formed_names(event) || corrupt_message(event) ==> s.apply(event) == s,
{
}

/// Whether none of `events` is a status for the test with index `i`, when
/// the events meet the store `s` one after another.
pub open spec fn no_status_for(s: RecordView, events: Seq<Event>, i: usize) -> bool {
    forall|k: int|
        0 <= k < events.len() ==> !is_status_for(
            s.apply_all(#[trigger] events.take(k)),
            events[k],
            i,
        )
}

/// A status that no event reports stands: where none of the events is a
/// status for a test, `last_status` is the status that the test had.
pub proof fn lemma_no_status(s: RecordView, events: Seq<Event>, i: usize)
    requires
        no_status_for(s, events, i),
    ensures
        last_status(s, events, i) == s.statuses[i as int],
    decreases events.len(),
{
    if events.len() > 0 {
        let head = events.drop_last();
        assert(events.take(events.len() - 1) =~= head);
        assert forall|k: int| 0 <= k < head.len() implies !is_status_for(
            s.apply_all(#[trigger] head.take(k)),
            head[k],
            i,
        ) by {
            assert(head.take(k) =~= events.take(k));
        }
        lemma_no_status(s, head, i);
    }
}

/// The default stands: a test that is registered and that no later event
/// reports a status for is still registered after those events, under the
/// index it was given, and has failed. So the test of a child that is
/// killed before it reports stays in the report as failed.
///
/// The bound keeps the indices of new tests within the machine word.
pub proof fn lemma_default_stands(
    s: RecordView,
    program: Seq<u8>,
    function: Seq<u8>,
    events: Seq<Event>,
)
    requires
        s.wf(),
        s.statuses.len() + 1 + events.len() <= usize::MAX,
        s.outcome(Event::Register { program, function }) is Ok,
        no_status_for(
            s.apply(Event::Register { program, function }),
            events,
            s.statuses.len() as usize,
        ),
    ensures
        ({
            let end = s.apply(Event::Register { program, function }).apply_all(events);
            let p = spec_name(program)->0;
            let f = spec_name(function)->0;
            &&& end.wf()
            &&& end.has_test(p, f)
            &&& end.programs[p][f] == s.statuses.len()
            &&& end.programs[p][f] < end.statuses.len()
            &&& end.statuses[s.statuses.len() as int] == StatusType::Fail
        }),
{
    let register = Event::Register { program, function };
    let t = s.apply(register);
    let i = s.statuses.len() as usize;
    let p = spec_name(program)->0;
    let f = spec_name(function)->0;
    lemma_registered(s, program, function);
    lemma_apply_wf(s, register);
    lemma_apply_all_wf(t, events);
    assert(events.take(0) =~= Seq::<Event>::empty());
    lemma_index_stable(t, events, 0, p, f);
    lemma_last_status_interleaved(t, events, i);
    lemma_no_status(t, events, i);
}

/// A run without events leaves a new store empty.
pub proof fn lemma_empty_run()
    ensures
        RecordView::empty().wf(),
        RecordView::empty().apply_all(Seq::empty()) == RecordView::empty(),
{
}

} // verus!
