//! The record store: the registry of programs and their tests, with a status
//! and a log for each test.

use super::model::{
    lemma_register_wf, lemma_same_tests_wf, lemma_target_in_range, lemma_with_process, RecordView,
};
use super::name_map::{sorted, NameMap};
use super::{
    Log, LogLine, LogTypeMessage, ProcessInfo, ProgramData, RecordErr, Register, Status,
    StatusType,
};
use crate::util::bytes_to_trimmed_string;
use vstd::prelude::*;

verus! {

/// The tests of one program: the index of each by its name.
pub type TestKeys = NameMap<usize>;

/// The logs of a store as the model has them.
pub open spec fn view_logs(logs: Seq<Option<Vec<LogTypeMessage>>>) -> Seq<Option<Seq<LogLine>>> {
    Seq::new(
        logs.len(),
        |i: int|
            match logs[i] {
                Some(lines) => Some(lines@.map_values(|line: LogTypeMessage| line@)),
                None => None,
            },
    )
}

/// The registry of a store as the model has it.
pub open spec fn view_tree(tree: Map<Seq<char>, TestKeys>) -> Map<Seq<char>, Map<Seq<char>, usize>> {
    tree.map_values(|tests: TestKeys| tests@)
}

/// Whether the registry and each of its programs keep their names in order.
pub open spec fn tree_wf(tree: NameMap<TestKeys>) -> bool {
    &&& tree.wf()
    &&& forall|i: int| 0 <= i < tree.values().len() ==> (#[trigger] tree.values()[i]).wf()
}

/// A sink for the events of a run, which many threads may feed.
pub trait StoreData {
    /// The events that the sink takes.
    type T;

    /// The error of the sink.
    type U;

    /// Takes one event.
    fn store(&self, data: Self::T) -> Result<(), Self::U>;
}

/// The store of a run: every registered program with its tests, and for each
/// test a status and a log.
#[derive(Debug)]
pub struct TestRecord {
    test_map: NameMap<TestKeys>,
    test_status: Vec<StatusType>,
    test_logs: Vec<Option<Vec<LogTypeMessage>>>,
}

impl View for TestRecord {
    type V = RecordView;

    /// What the store holds.
    closed spec fn view(&self) -> RecordView {
        RecordView {
            programs: view_tree(self.test_map@),
            statuses: self.test_status@,
            logs: view_logs(self.test_logs@),
        }
    }
}

impl TestRecord {
    /// Whether the registry and each of its programs keep their names in order.
    pub closed spec fn ordered(&self) -> bool {
        tree_wf(self.test_map)
    }

    /// The invariant of the store: its lists are in order, and what it holds
    /// is well-formed.
    pub open spec fn wf(&self) -> bool {
        &&& self.ordered()
        &&& self@.wf()
    }

    /// A store with nothing registered.
    pub fn new() -> (r: Self)
        ensures
            r.wf(),
            r@ == RecordView::empty(),
    {
        let r = TestRecord {
            test_map: NameMap::new(),
            test_status: Vec::new(),
            test_logs: Vec::new(),
        };
        assert(r@.programs =~= Map::empty());
        assert(r@.logs =~= Seq::empty());
        r
    }

    /// Registers a program, so that its tests can register.
    ///
    /// A program that is registered already is turned down, and keeps its tests.
    pub fn register_process(&mut self, process_name: String) -> (r: Result<(), RecordErr>)
        requires
            old(self).wf(),
        ensures
            final(self).wf(),
            r == old(self)@.process_outcome(process_name@),
            final(self)@ == old(self)@.with_process(process_name@),
    {
        let ghost before = *self;
        let ghost name = process_name@;
        match self.test_map.search(process_name.as_str()) {
            Ok(at) => {
                proof {
                    self.test_map.lemma_position(at as int);
                }
                Err(RecordErr::AlreadyExists)
            },
            Err(at) => {
                self.test_map.insert_at(at, process_name, NameMap::new());
                proof {
                    assert(self@.programs =~= before@.programs.insert(name, Map::empty()));
                    lemma_with_process(before@, name);
                }
                Ok(())
            },
        }
    }
}

impl TestRecord {
    /// Finds the index of the test that the two raw name fields of an event
    /// name, or says why they name none.
    pub fn resolve(&self, program: &[u8], function: &[u8]) -> (r: Result<usize, RecordErr>)
        requires
            self.wf(),
        ensures
            r == self@.target(program@, function@),
    {
        let program_name = match bytes_to_trimmed_string(program) {
            Ok(name) => name,
            Err(_) => {
                return Err(RecordErr::Utf8ConvertionErr);
            },
        };
        let function_name = match bytes_to_trimmed_string(function) {
            Ok(name) => name,
            Err(_) => {
                return Err(RecordErr::Utf8ConvertionErr);
            },
        };
        let tests = match self.test_map.get(program_name.as_str()) {
            Some(tests) => tests,
            None => {
                return Err(RecordErr::ProgramNotExist);
            },
        };
        proof {
            let at = self.test_map.names().index_of(program_name@);
            self.test_map.lemma_position(at);
        }
        match tests.get(function_name.as_str()) {
            Some(index) => Ok(*index),
            None => Err(RecordErr::TestNotExist),
        }
    }

    /// Extends both arrays by one test that has failed and has no log, and
    /// returns its index.
    fn new_test_entry(&mut self) -> (index: usize)
        requires
            old(self).test_status@.len() == old(self).test_logs@.len(),
        ensures
            index == old(self).test_status@.len(),
            final(self).test_status@ == old(self).test_status@.push(StatusType::Fail),
            final(self).test_logs@ == old(self).test_logs@.push(None),
            final(self).test_map == old(self).test_map,
    {
        let index = self.test_status.len();
        self.test_status.push(StatusType::Fail);
        self.test_logs.push(None);
        index
    }

    /// Registers a test under its program, with a failed status and no log.
    pub fn register_test(&mut self, test_data: Register) -> (r: Result<(), RecordErr>)
        requires
            old(self).wf(),
        ensures
            final(self).wf(),
            r == old(self)@.outcome(test_data@),
            final(self)@ == old(self)@.apply(test_data@),
    {
        let ghost before = *self;
        let program_name = match bytes_to_trimmed_string(&test_data.program_name) {
            Ok(name) => name,
            Err(_) => {
                return Err(RecordErr::Utf8ConvertionErr);
            },
        };
        let function_name = match bytes_to_trimmed_string(&test_data.function_name) {
            Ok(name) => name,
            Err(_) => {
                return Err(RecordErr::Utf8ConvertionErr);
            },
        };
        let at = match self.test_map.search(program_name.as_str()) {
            Ok(at) => at,
            Err(_) => {
                return Err(RecordErr::ProgramNotExist);
            },
        };
        proof {
            self.test_map.lemma_position(at as int);
        }
        let slot = match self.test_map.value_at(at).search(function_name.as_str()) {
            Ok(_) => {
                return Err(RecordErr::AlreadyExists);
            },
            Err(slot) => slot,
        };
        let ghost p = program_name@;
        let ghost f = function_name@;
        let entry_index = self.new_test_entry();
        self.test_map.value_at_mut(at).insert_at(slot, function_name, entry_index);
        proof {
            NameMap::lemma_value_changed(before.test_map, self.test_map, at as int);
            let tests = before.test_map.values()[at as int]@.insert(f, entry_index);
            assert(self@.programs =~= before@.programs.insert(p, tests));
            assert(self@.logs =~= before@.logs.push(None));
            assert(self@ == before@.apply(test_data@));
            assert forall|i: int| 0 <= i < self.test_map.values().len() implies (
            #[trigger] self.test_map.values()[i]).wf() by {
                if i != at {
                    assert(self.test_map.values()[i] == before.test_map.values()[i]);
                }
            }
            lemma_register_wf(before@, p, f);
        }
        Ok(())
    }
}

impl TestRecord {
    /// Overwrites the status of a registered test.
    pub fn update_test_status(&mut self, stat: Status) -> (r: Result<(), RecordErr>)
        requires
            old(self).wf(),
        ensures
            final(self).wf(),
            r == old(self)@.outcome(stat@),
            final(self)@ == old(self)@.apply(stat@),
    {
        let ghost before = *self;
        let test_index = match self.resolve(&stat.program_name, &stat.function_name) {
            Ok(index) => index,
            Err(e) => {
                return Err(e);
            },
        };
        proof {
            lemma_target_in_range(before@, stat.program_name@, stat.function_name@);
        }
        self.test_status[test_index] = stat.t;
        proof {
            lemma_same_tests_wf(before@, self@);
        }
        Ok(())
    }

    /// Appends a line to the log of a registered test. The test is found
    /// first; the message of a log for a registered test must be well-formed
    /// UTF-8, or the log is turned down.
    pub fn append_test_logs(&mut self, log: Log) -> (r: Result<(), RecordErr>)
        requires
            old(self).wf(),
        ensures
            final(self).wf(),
            r == old(self)@.outcome(log@),
            final(self)@ == old(self)@.apply(log@),
    {
        let ghost before = *self;
        let test_index = match self.resolve(&log.program_name, &log.function_name) {
            Ok(index) => index,
            Err(e) => {
                return Err(e);
            },
        };
        let line = match LogTypeMessage::from_log(log) {
            Ok(line) => line,
            Err(e) => {
                return Err(e);
            },
        };
        proof {
            lemma_target_in_range(before@, log.program_name@, log.function_name@);
        }
        let ghost old_lines = before@.logs[test_index as int];
        match &mut self.test_logs[test_index] {
            Some(lines) => {
                lines.push(line);
            },
            slot => {
                let mut lines = Vec::new();
                lines.push(line);
                *slot = Some(lines);
            },
        }
        proof {
            let new_lines = match old_lines {
                Some(lines) => lines.push(line@),
                None => seq![line@],
            };
            assert(self.test_logs@[test_index as int]->0@.map_values(
                |line: LogTypeMessage| line@,
            ) =~= new_lines);
            assert(self@.logs =~= before@.logs.update(test_index as int, Some(new_lines)));
            lemma_same_tests_wf(before@, self@);
        }
        Ok(())
    }

    /// Applies one event to the store and says whether it was taken.
    pub fn apply(&mut self, data: ProcessInfo) -> (r: Result<(), RecordErr>)
        requires
            old(self).wf(),
        ensures
            final(self).wf(),
            r == old(self)@.outcome(data@),
            final(self)@ == old(self)@.apply(data@),
    {
        match data.data {
            ProgramData::Reg(reg) => self.register_test(reg),
            ProgramData::Stat(stat) => self.update_test_status(stat),
            ProgramData::Log(log) => self.append_test_logs(log),
        }
    }
}

impl TestRecord {
    /// Applies one event to the store. An event that the store turns down is
    /// dropped: the store stays as it is, and the answer is `Ok` all the same.
    pub fn store(&mut self, data: ProcessInfo) -> (r: Result<(), ()>)
        requires
            old(self).wf(),
        ensures
            final(self).wf(),
            r is Ok,
            final(self)@ == old(self)@.apply(data@),
    {
        let _ = self.apply(data);
        Ok(())
    }
}

/// The report of a run: what the store held when it was compiled.
#[derive(Debug)]
pub struct CompiledRecord {
    test_tree: NameMap<TestKeys>,
    test_status: Vec<StatusType>,
    test_logs: Vec<Option<Vec<LogTypeMessage>>>,
}

impl View for CompiledRecord {
    type V = RecordView;

    /// What the report holds.
    closed spec fn view(&self) -> RecordView {
        RecordView {
            programs: view_tree(self.test_tree@),
            statuses: self.test_status@,
            logs: view_logs(self.test_logs@),
        }
    }
}

impl TestRecord {
    /// Freezes the store into a report that holds what the store held.
    ///
    /// A store that is owned outright can always be compiled.
    pub fn compile(self) -> (r: Result<CompiledRecord, ()>)
        requires
            self.wf(),
        ensures
            r matches Ok(report) && report.wf() && report@ == self@,
    {
        Ok(
            CompiledRecord {
                test_tree: self.test_map,
                test_status: self.test_status,
                test_logs: self.test_logs,
            },
        )
    }
}

impl CompiledRecord {
    /// Whether the registry and each of its programs keep their names in order.
    pub closed spec fn ordered(&self) -> bool {
        tree_wf(self.test_tree)
    }

    /// The invariant of a report: its lists are in order, and what it holds
    /// is well-formed.
    pub open spec fn wf(&self) -> bool {
        &&& self.ordered()
        &&& self@.wf()
    }

    /// The status of each test, by index.
    pub fn statuses(&self) -> (r: &Vec<StatusType>)
        ensures
            r@ == self@.statuses,
    {
        &self.test_status
    }

    /// The log of each test, by index.
    pub fn logs(&self) -> (r: &Vec<Option<Vec<LogTypeMessage>>>)
        ensures
            view_logs(r@) == self@.logs,
    {
        &self.test_logs
    }

    /// The index of a test, where its program has registered it.
    pub fn test_index(&self, program: &str, function: &str) -> (r: Option<usize>)
        requires
            self.wf(),
        ensures
            match r {
                Some(i) => self@.has_test(program@, function@) && self@.programs[program@][function@]
                    == i && i < self@.statuses.len(),
                None => !self@.has_test(program@, function@),
            },
    {
        let tests = match self.test_tree.get(program) {
            Some(tests) => tests,
            None => {
                return None;
            },
        };
        proof {
            let at = self.test_tree.names().index_of(program@);
            self.test_tree.lemma_position(at);
        }
        match tests.get(function) {
            Some(index) => {
                assert(self@.has_test(program@, function@));
                Some(*index)
            },
            None => None,
        }
    }

    /// The names of the programs, in the order of names.
    pub fn programs(&self) -> (r: Vec<String>)
        requires
            self.wf(),
        ensures
            sorted(r.deep_view()),
            forall|name: Seq<char>|
                self@.programs.contains_key(name) <==> r.deep_view().contains(name),
    {
        let names = self.test_tree.keys();
        proof {
            assert(names.deep_view() =~= self.test_tree.names());
            assert(self@.programs.dom() =~= self.test_tree@.dom());
        }
        names
    }

    /// The tests of a program with their indices, in the order of their names.
    ///
    /// Returns `None` for a program that is not registered.
    pub fn tests(&self, program: &str) -> (r: Option<Vec<(String, usize)>>)
        requires
            self.wf(),
        ensures
            r is Some <==> self@.programs.contains_key(program@),
            r matches Some(pairs) ==> {
                &&& sorted(pair_names(pairs@))
                &&& forall|i: int|
                    0 <= i < pairs@.len() ==> self@.programs[program@].contains_pair(
                        #[trigger] pair_names(pairs@)[i],
                        pairs@[i].1,
                    )
                &&& forall|name: Seq<char>| #[trigger]
                    self@.programs[program@].contains_key(name) ==> pair_names(pairs@).contains(
                        name,
                    )
            },
    {
        let tests = match self.test_tree.get(program) {
            Some(tests) => tests,
            None => {
                return None;
            },
        };
        proof {
            let at = self.test_tree.names().index_of(program@);
            self.test_tree.lemma_position(at);
        }
        let mut pairs: Vec<(String, usize)> = Vec::new();
        let mut i: usize = 0;
        while i < tests.len()
            invariant
                tests.wf(),
                i <= tests.names().len(),
                pairs@.len() == i,
                forall|k: int|
                    0 <= k < i ==> (#[trigger] pairs@[k]).0@ == tests.names()[k] && pairs@[k].1
                        == tests.values()[k],
            decreases tests.names().len() - i,
        {
            pairs.push((tests.name_at(i).to_owned(), *tests.value_at(i)));
            i += 1;
        }
        proof {
            assert(self@.programs[program@] == tests@);
            assert(pair_names(pairs@) =~= tests.names());
            assert forall|i: int| 0 <= i < pairs@.len() implies tests@.contains_pair(
                #[trigger] pair_names(pairs@)[i],
                pairs@[i].1,
            ) by {
                tests.lemma_position(i);
            }
        }
        Some(pairs)
    }
}

/// The names of a list of tests with their indices.
pub open spec fn pair_names(pairs: Seq<(String, usize)>) -> Seq<Seq<char>> {
    Seq::new(pairs.len(), |i: int| pairs[i].0@)
}

} // verus!
