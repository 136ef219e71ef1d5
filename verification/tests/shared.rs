use std::sync::mpsc;
use test_runner::record_collection::collection::{StoreData, TestRecord};
use test_runner::record_collection::shared::SharedRecord;
use threadpool::ThreadPool;
use test_runner::record_collection::{
    decode_frame, ByteOrder, LogTypeMessage, ProcessInfo, RecordErr, StatusType, FRAME_SIZE,
};

fn event(tag: u32, program: &str, function: &str, word: u32, msg: &str) -> ProcessInfo {
    let mut frame = [0u8; FRAME_SIZE];
    frame[..program.len()].copy_from_slice(program.as_bytes());
    frame[64..64 + function.len()].copy_from_slice(function.as_bytes());
    if tag == 2 {
        frame[96..96 + msg.len()].copy_from_slice(msg.as_bytes());
        frame[160..164].copy_from_slice(&word.to_le_bytes());
    } else {
        frame[96..100].copy_from_slice(&word.to_le_bytes());
    }
    frame[164..168].copy_from_slice(&tag.to_le_bytes());
    decode_frame(&frame, ByteOrder::Little).unwrap()
}

#[test]
fn shared_store_compiles_once_it_is_alone() {
    let record = SharedRecord::new();
    let other = record.clone();
    assert_eq!(record.register_process("p".to_string()), Ok(()));
    assert_eq!(
        other.register_process("p".to_string()),
        Err(RecordErr::AlreadyExists)
    );
    assert_eq!(other.store(event(0, "p", "t", 0, "")), Ok(()));
    assert_eq!(record.apply(event(0, "p", "t", 0, "")), Err(RecordErr::AlreadyExists));
    assert_eq!(record.apply(event(1, "p", "t", 0, "")), Ok(()));
    let still_shared = record.clone();
    assert!(record.compile().is_err());
    assert!(still_shared.compile().is_err());
    let report = other.compile().unwrap();
    assert_eq!(report.statuses(), &vec![StatusType::Success]);
    assert_eq!(report.test_index("p", "t"), Some(0));
}

#[test]
fn empty_shared_store() {
    let report = SharedRecord::new().compile().unwrap();
    assert!(report.programs().is_empty());
    assert!(report.statuses().is_empty());
    assert!(report.logs().is_empty());
}

#[test]
fn workers_on_many_threads_lose_nothing() {
    let record = SharedRecord::new();
    let programs = 4;
    let tests = 25;
    for p in 0..programs {
        record.register_process(format!("prog{}", p)).unwrap();
    }
    let pool = ThreadPool::new(programs);
    let mut senders = Vec::new();
    for _ in 0..programs {
        let (tx, rx) = mpsc::channel::<ProcessInfo>();
        let store = record.clone();
        senders.push(tx);
        pool.execute(move || {
            for item in rx {
                store.store(item).unwrap();
            }
        });
    }
    for t in 0..tests {
        for (p, tx) in senders.iter().enumerate() {
            let program = format!("prog{}", p);
            let function = format!("test{}", t);
            tx.send(event(0, &program, &function, 0, "")).unwrap();
            tx.send(event(2, &program, &function, 0, "begin")).unwrap();
            tx.send(event(1, &program, &function, 1, "")).unwrap();
            tx.send(event(2, &program, &function, 1, "end")).unwrap();
            tx.send(event(1, &program, &function, (t % 2) as u32, "")).unwrap();
        }
    }
    drop(senders);
    pool.join();
    assert_eq!(pool.panic_count(), 0);
    drop(pool);
    let report = record.compile().unwrap();
    assert_eq!(report.statuses().len(), programs * tests);
    assert_eq!(report.logs().len(), programs * tests);
    let mut seen = vec![false; programs * tests];
    for p in 0..programs {
        let listed = report.tests(&format!("prog{}", p)).unwrap();
        assert_eq!(listed.len(), tests);
        for t in 0..tests {
            let index = report
                .test_index(&format!("prog{}", p), &format!("test{}", t))
                .unwrap();
            assert!(!seen[index]);
            seen[index] = true;
            let expected = if t % 2 == 0 { StatusType::Success } else { StatusType::Fail };
            assert_eq!(report.statuses()[index], expected);
            assert_eq!(
                report.logs()[index],
                Some(vec![
                    LogTypeMessage::Debug("begin".to_string()),
                    LogTypeMessage::Info("end".to_string()),
                ])
            );
        }
    }
    assert!(seen.iter().all(|&s| s));
}

#[test]
fn a_store_that_is_still_shared_gives_no_report() {
    assert!(SharedRecord::compile_last(None).is_err());
}

#[test]
fn the_last_handle_gives_the_report_of_its_store() {
    let mut store = TestRecord::new();
    store.register_process("p".to_string()).unwrap();
    store.apply(event(0, "p", "t", 0, "")).unwrap();
    store.apply(event(2, "p", "t", 1, "line")).unwrap();
    store.apply(event(1, "p", "t", 0, "")).unwrap();
    let report = SharedRecord::compile_last(Some(store)).unwrap();
    assert_eq!(report.programs(), vec!["p".to_string()]);
    assert_eq!(report.tests("p"), Some(vec![("t".to_string(), 0)]));
    assert_eq!(report.statuses(), &vec![StatusType::Success]);
    assert_eq!(
        report.logs(),
        &vec![Some(vec![LogTypeMessage::Info("line".to_string())])]
    );
    let empty = SharedRecord::compile_last(Some(TestRecord::new())).unwrap();
    assert!(empty.programs().is_empty());
    assert!(empty.statuses().is_empty());
}
