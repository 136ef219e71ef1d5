use test_runner::record_collection::collection::{CompiledRecord, TestRecord};
use test_runner::record_collection::{
    decode_frame, ByteOrder, LogTypeMessage, ProcessInfo, ProgramData, RecordErr, StatusType,
    FRAME_SIZE,
};

fn put(frame: &mut [u8; FRAME_SIZE], at: usize, bytes: &[u8]) {
    frame[at..at + bytes.len()].copy_from_slice(bytes);
}

fn word(frame: &mut [u8; FRAME_SIZE], at: usize, value: u32) {
    put(frame, at, &value.to_le_bytes());
}

fn event(frame: &[u8; FRAME_SIZE]) -> ProcessInfo {
    decode_frame(frame, ByteOrder::Little).expect("the frame encodes an event")
}

fn register(program: &str, function: &str) -> ProcessInfo {
    let mut frame = [0u8; FRAME_SIZE];
    put(&mut frame, 0, program.as_bytes());
    put(&mut frame, 64, function.as_bytes());
    word(&mut frame, 164, 0);
    event(&frame)
}

fn status(program: &str, function: &str, t: StatusType) -> ProcessInfo {
    let mut frame = [0u8; FRAME_SIZE];
    put(&mut frame, 0, program.as_bytes());
    put(&mut frame, 64, function.as_bytes());
    word(&mut frame, 96, if t == StatusType::Success { 0 } else { 1 });
    word(&mut frame, 164, 1);
    event(&frame)
}

fn log(program: &str, function: &str, kind: u32, msg: &[u8]) -> ProcessInfo {
    let mut frame = [0u8; FRAME_SIZE];
    put(&mut frame, 0, program.as_bytes());
    put(&mut frame, 64, function.as_bytes());
    put(&mut frame, 96, msg);
    word(&mut frame, 160, kind);
    word(&mut frame, 164, 2);
    event(&frame)
}

fn store_with(programs: &[&str]) -> TestRecord {
    let mut record = TestRecord::new();
    for program in programs {
        assert_eq!(record.register_process(program.to_string()), Ok(()));
    }
    record
}

fn compile(record: TestRecord) -> CompiledRecord {
    record.compile().expect("a store that is owned outright compiles")
}

#[test]
fn empty_store_compiles_to_empty_report() {
    let report = compile(TestRecord::new());
    assert!(report.programs().is_empty());
    assert!(report.statuses().is_empty());
    assert!(report.logs().is_empty());
    assert_eq!(report.tests("anything"), None);
    assert_eq!(report.test_index("anything", "at all"), None);
}

#[test]
fn single_passing_test() {
    let mut record = store_with(&["progA"]);
    assert_eq!(record.store(register("progA", "t1")), Ok(()));
    assert_eq!(record.store(status("progA", "t1", StatusType::Success)), Ok(()));
    let report = compile(record);
    assert_eq!(report.programs(), vec!["progA".to_string()]);
    assert_eq!(report.tests("progA"), Some(vec![("t1".to_string(), 0)]));
    assert_eq!(report.statuses(), &vec![StatusType::Success]);
    assert_eq!(report.logs(), &vec![None]);
}

#[test]
fn mixed_statuses() {
    let mut record = store_with(&["p"]);
    record.store(register("p", "a")).unwrap();
    record.store(register("p", "b")).unwrap();
    record.store(status("p", "b", StatusType::Success)).unwrap();
    let report = compile(record);
    assert_eq!(report.statuses(), &vec![StatusType::Fail, StatusType::Success]);
    assert_eq!(
        report.tests("p"),
        Some(vec![("a".to_string(), 0), ("b".to_string(), 1)])
    );
    assert_eq!(report.test_index("p", "a"), Some(0));
    assert_eq!(report.test_index("p", "b"), Some(1));
}

#[test]
fn logs_then_status() {
    let mut record = store_with(&["p"]);
    record.store(register("p", "x")).unwrap();
    record.store(log("p", "x", 0, b"hi")).unwrap();
    record.store(log("p", "x", 1, b"ok")).unwrap();
    record.store(status("p", "x", StatusType::Success)).unwrap();
    let report = compile(record);
    assert_eq!(
        report.logs()[0],
        Some(vec![
            LogTypeMessage::Debug("hi".to_string()),
            LogTypeMessage::Info("ok".to_string()),
        ])
    );
    assert_eq!(report.statuses()[0], StatusType::Success);
}

#[test]
fn unknown_test_is_discarded() {
    let mut record = store_with(&["p"]);
    record.store(register("p", "known")).unwrap();
    assert_eq!(record.store(status("p", "missing", StatusType::Success)), Ok(()));
    assert_eq!(
        record.apply(status("p", "missing", StatusType::Success)),
        Err(RecordErr::TestNotExist)
    );
    let report = compile(record);
    assert_eq!(report.statuses(), &vec![StatusType::Fail]);
    assert_eq!(report.test_index("p", "missing"), None);
}

#[test]
fn status_for_unknown_test_leaves_empty_arrays() {
    let mut record = store_with(&["p"]);
    assert_eq!(record.store(status("p", "missing", StatusType::Success)), Ok(()));
    let report = compile(record);
    assert!(report.statuses().is_empty());
    assert!(report.logs().is_empty());
    assert_eq!(report.tests("p"), Some(vec![]));
}

#[test]
fn register_process_twice_is_turned_down() {
    let mut record = TestRecord::new();
    assert_eq!(record.register_process("p".to_string()), Ok(()));
    record.store(register("p", "t")).unwrap();
    assert_eq!(
        record.register_process("p".to_string()),
        Err(RecordErr::AlreadyExists)
    );
    let report = compile(record);
    assert_eq!(report.tests("p"), Some(vec![("t".to_string(), 0)]));
}

#[test]
fn register_under_unknown_program() {
    let mut record = TestRecord::new();
    assert_eq!(
        record.apply(register("nobody", "t")),
        Err(RecordErr::ProgramNotExist)
    );
    assert_eq!(
        record.apply(status("nobody", "t", StatusType::Success)),
        Err(RecordErr::ProgramNotExist)
    );
    assert_eq!(
        record.apply(log("nobody", "t", 0, b"x")),
        Err(RecordErr::ProgramNotExist)
    );
    let report = compile(record);
    assert!(report.statuses().is_empty());
    assert!(report.programs().is_empty());
}

#[test]
fn duplicate_registration_changes_nothing() {
    let mut record = store_with(&["p"]);
    assert_eq!(record.apply(register("p", "t")), Ok(()));
    record.store(status("p", "t", StatusType::Success)).unwrap();
    assert_eq!(record.apply(register("p", "t")), Err(RecordErr::AlreadyExists));
    let report = compile(record);
    assert_eq!(report.statuses(), &vec![StatusType::Success]);
    assert_eq!(report.logs().len(), 1);
    assert_eq!(report.test_index("p", "t"), Some(0));
}

#[test]
fn names_that_are_not_utf8() {
    let mut record = store_with(&["p"]);
    let mut frame = [0u8; FRAME_SIZE];
    put(&mut frame, 0, b"p");
    put(&mut frame, 64, &[0xff, 0xfe]);
    word(&mut frame, 164, 0);
    assert_eq!(record.apply(event(&frame)), Err(RecordErr::Utf8ConvertionErr));
    let mut frame = [0u8; FRAME_SIZE];
    put(&mut frame, 0, &[0xc3]);
    put(&mut frame, 64, b"t");
    word(&mut frame, 164, 1);
    assert_eq!(record.apply(event(&frame)), Err(RecordErr::Utf8ConvertionErr));
    let mut frame = [0u8; FRAME_SIZE];
    put(&mut frame, 0, &[0x80]);
    put(&mut frame, 64, b"t");
    word(&mut frame, 164, 2);
    assert_eq!(record.apply(event(&frame)), Err(RecordErr::Utf8ConvertionErr));
    assert!(compile(record).statuses().is_empty());
}

#[test]
fn names_end_at_the_first_nul() {
    let mut record = store_with(&["prog"]);
    let mut frame = [0u8; FRAME_SIZE];
    put(&mut frame, 0, b"prog\0junk\xff");
    put(&mut frame, 64, b"test\0more");
    word(&mut frame, 164, 0);
    assert_eq!(record.apply(event(&frame)), Ok(()));
    let report = compile(record);
    assert_eq!(report.test_index("prog", "test"), Some(0));
}

#[test]
fn names_may_fill_their_fields() {
    let program = "p".repeat(64);
    let function = "f".repeat(32);
    let mut record = store_with(&[&program]);
    assert_eq!(record.apply(register(&program, &function)), Ok(()));
    assert_eq!(
        record.apply(log(&program, &function, 2, "m".repeat(64).as_bytes())),
        Ok(())
    );
    let report = compile(record);
    assert_eq!(report.test_index(&program, &function), Some(0));
    assert_eq!(
        report.logs()[0],
        Some(vec![LogTypeMessage::Warning("m".repeat(64))])
    );
}

#[test]
fn corrupt_log_message_is_discarded() {
    let mut record = store_with(&["p"]);
    record.store(register("p", "t")).unwrap();
    assert_eq!(
        record.apply(log("p", "t", 1, &[b'a', 0xff, b'b'])),
        Err(RecordErr::Utf8ConvertionErr)
    );
    assert_eq!(record.store(log("p", "t", 1, &[0xff])), Ok(()));
    assert_eq!(record.apply(log("p", "t", 0, b"kept")), Ok(()));
    assert_eq!(
        record.apply(log("p", "t", 2, &[0xc3, 0x28])),
        Err(RecordErr::Utf8ConvertionErr)
    );
    assert_eq!(record.apply(log("p", "t", 2, b"ok\0\xff")), Ok(()));
    let report = compile(record);
    assert_eq!(report.statuses(), &vec![StatusType::Fail]);
    assert_eq!(
        report.logs(),
        &vec![Some(vec![
            LogTypeMessage::Debug("kept".to_string()),
            LogTypeMessage::Warning("ok".to_string()),
        ])]
    );
}

#[test]
fn log_for_an_unknown_test_is_turned_down_for_that_whatever_its_message() {
    let mut record = store_with(&["p"]);
    assert_eq!(
        record.apply(log("nobody", "t", 0, &[0xff])),
        Err(RecordErr::ProgramNotExist)
    );
    assert_eq!(
        record.apply(log("p", "missing", 0, &[0xff])),
        Err(RecordErr::TestNotExist)
    );
    assert_eq!(
        record.apply(log("nobody", "t", 0, b"fine")),
        Err(RecordErr::ProgramNotExist)
    );
    assert_eq!(
        record.apply(log("p", "missing", 0, b"fine")),
        Err(RecordErr::TestNotExist)
    );
    let mut frame = [0u8; FRAME_SIZE];
    put(&mut frame, 0, &[0xff]);
    put(&mut frame, 64, b"t");
    put(&mut frame, 96, &[0xff]);
    word(&mut frame, 164, 2);
    assert_eq!(record.apply(event(&frame)), Err(RecordErr::Utf8ConvertionErr));
    let report = compile(record);
    assert!(report.logs().is_empty());
    assert_eq!(report.tests("p"), Some(vec![]));
}

#[test]
fn corrupt_log_message_leaves_an_absent_log_absent() {
    let mut record = store_with(&["p"]);
    record.store(register("p", "t")).unwrap();
    assert_eq!(
        record.apply(log("p", "t", 0, &[0x80])),
        Err(RecordErr::Utf8ConvertionErr)
    );
    let report = compile(record);
    assert_eq!(report.logs(), &vec![None]);
}

#[test]
fn log_for_unknown_test() {
    let mut record = store_with(&["p"]);
    assert_eq!(
        record.apply(log("p", "missing", 0, b"x")),
        Err(RecordErr::TestNotExist)
    );
    assert!(compile(record).logs().is_empty());
}

#[test]
fn last_status_wins() {
    let mut record = store_with(&["p"]);
    record.store(register("p", "a")).unwrap();
    record.store(register("p", "b")).unwrap();
    for t in [
        StatusType::Success,
        StatusType::Fail,
        StatusType::Success,
        StatusType::Success,
        StatusType::Fail,
        StatusType::Success,
    ] {
        record.store(status("p", "b", t)).unwrap();
    }
    let report = compile(record);
    assert_eq!(report.statuses(), &vec![StatusType::Fail, StatusType::Success]);
}

#[test]
fn log_order_is_kept_per_test() {
    let mut record = store_with(&["p", "q"]);
    record.store(register("p", "a")).unwrap();
    record.store(register("q", "a")).unwrap();
    record.store(log("p", "a", 0, b"one")).unwrap();
    record.store(log("q", "a", 2, b"other")).unwrap();
    record.store(log("p", "a", 1, b"two")).unwrap();
    record.store(status("p", "a", StatusType::Success)).unwrap();
    record.store(log("p", "a", 2, b"three")).unwrap();
    let report = compile(record);
    let p = report.test_index("p", "a").unwrap();
    let q = report.test_index("q", "a").unwrap();
    assert_eq!(
        report.logs()[p],
        Some(vec![
            LogTypeMessage::Debug("one".to_string()),
            LogTypeMessage::Info("two".to_string()),
            LogTypeMessage::Warning("three".to_string()),
        ])
    );
    assert_eq!(
        report.logs()[q],
        Some(vec![LogTypeMessage::Warning("other".to_string())])
    );
}

#[test]
fn indices_are_stable_and_arrays_parallel() {
    let mut record = store_with(&["zeta", "alpha", "mid"]);
    let order = [
        ("zeta", "t1"),
        ("alpha", "t1"),
        ("mid", "x"),
        ("alpha", "t0"),
        ("zeta", "t0"),
        ("alpha", "t2"),
    ];
    for (i, (program, function)) in order.iter().enumerate() {
        record.store(register(program, function)).unwrap();
        record.store(status(program, function, StatusType::Success)).unwrap();
        assert_eq!(record.resolve(&name64(program), &name32(function)), Ok(i));
        for (j, (p, f)) in order.iter().enumerate().take(i + 1) {
            assert_eq!(record.resolve(&name64(p), &name32(f)), Ok(j));
        }
    }
    let report = compile(record);
    assert_eq!(report.statuses().len(), order.len());
    assert_eq!(report.logs().len(), order.len());
    for (i, (program, function)) in order.iter().enumerate() {
        assert_eq!(report.test_index(program, function), Some(i));
    }
    assert_eq!(
        report.programs(),
        vec!["alpha".to_string(), "mid".to_string(), "zeta".to_string()]
    );
    assert_eq!(
        report.tests("alpha"),
        Some(vec![
            ("t0".to_string(), 3),
            ("t1".to_string(), 1),
            ("t2".to_string(), 5),
        ])
    );
}

fn name64(name: &str) -> [u8; 64] {
    let mut field = [0u8; 64];
    field[..name.len()].copy_from_slice(name.as_bytes());
    field
}

fn name32(name: &str) -> [u8; 32] {
    let mut field = [0u8; 32];
    field[..name.len()].copy_from_slice(name.as_bytes());
    field
}

#[test]
fn programs_come_in_byte_order() {
    let record = store_with(&["b", "a", "", "ab", "B", "é", "a\u{10000}", "aé"]);
    let report = compile(record);
    let mut expected: Vec<String> = ["b", "a", "", "ab", "B", "é", "a\u{10000}", "aé"]
        .iter()
        .map(|s| s.to_string())
        .collect();
    expected.sort();
    assert_eq!(report.programs(), expected);
}

#[test]
fn handlers_answer_as_apply_does() {
    let mut record = store_with(&["p"]);
    let reg = match register("p", "t").data {
        ProgramData::Reg(reg) => reg,
        _ => unreachable!(),
    };
    assert_eq!(record.register_test(reg), Ok(()));
    assert_eq!(record.register_test(reg), Err(RecordErr::AlreadyExists));
    let stat = match status("p", "t", StatusType::Success).data {
        ProgramData::Stat(stat) => stat,
        _ => unreachable!(),
    };
    assert_eq!(record.update_test_status(stat), Ok(()));
    let line = match log("p", "t", 2, b"careful").data {
        ProgramData::Log(line) => line,
        _ => unreachable!(),
    };
    assert_eq!(record.append_test_logs(line), Ok(()));
    assert_eq!(
        LogTypeMessage::from_log(line),
        Ok(LogTypeMessage::Warning("careful".to_string()))
    );
    let mut corrupt = line;
    corrupt.msg[0] = 0xff;
    assert_eq!(
        LogTypeMessage::from_log(corrupt),
        Err(RecordErr::Utf8ConvertionErr)
    );
    let report = compile(record);
    assert_eq!(report.statuses(), &vec![StatusType::Success]);
    assert_eq!(
        report.logs(),
        &vec![Some(vec![LogTypeMessage::Warning("careful".to_string())])]
    );
}
