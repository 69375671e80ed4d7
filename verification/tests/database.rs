use std::sync::atomic::{AtomicBool, Ordering};
use std::sync::{Arc, Mutex};

use zed_web::database::{
    check_image, default_write_queue, foreign_keys_enabled, initialize_step, is_schema_lock_error,
    is_success, judge_image, parse_alter_table, prepare_image, restore_image_into,
    restore_main_from, restore_outcome, serialize_main, shared_memory_uri, wasm_lock_queue,
    BackupCodes, BackupFault, ImageFault, ImageFindings, InitStep, MigrationRun, QueueRegistry,
    RestoreOutcome, RestoreStages, ScanStep, SerializeOutcome, StepBudget, SyntaxScan, WasmLock,
    WriteFlag, WriteGeneration, WriteQueueKind, MAX_IMAGE_BYTES, SCRATCH_STEP_BUDGET,
};

fn header(len: usize) -> Vec<u8> {
    let mut image = vec![0; len];
    image[..16].copy_from_slice(b"SQLite format 3\0");
    image
}

#[test]
fn restore_rejects_garbage() {
    assert_eq!(check_image(b"nope"), Err(ImageFault::TooShort));
    assert_eq!(check_image(&vec![0; 200]), Err(ImageFault::NoHeader));
    assert_eq!(check_image(&header(100)), Ok(()));
    assert_eq!(check_image(&vec![0; MAX_IMAGE_BYTES + 1]), Err(ImageFault::TooLarge));
    assert!(ImageFault::TooLarge.message(MAX_IMAGE_BYTES + 1).contains("over the"));
    assert_eq!(ImageFault::TooShort.message(4), "database image is too short (4 bytes)");
}

#[test]
fn images_of_another_journal_can_be_opened() {
    let mut image = header(200);
    image[18] = 2;
    image[19] = 2;
    let prepared = prepare_image(image.clone()).unwrap();
    assert_eq!((prepared[18], prepared[19]), (1, 1));
    assert_eq!(prepared[..18], image[..18]);
    assert_eq!(prepared[20..], image[20..]);
    assert_eq!(prepare_image(vec![]), Err(ImageFault::TooShort));
}

#[test]
fn images_are_judged_by_what_is_in_them() {
    let findings = |check: Result<Option<&str>, &str>, foreign: Option<i64>| ImageFindings {
        schema: Ok(()),
        quick_check: check.map(|word| word.map(str::to_owned)).map_err(str::to_owned),
        foreign_objects: foreign,
    };
    assert!(judge_image(findings(Ok(Some("ok")), Some(0))).is_ok());
    assert!(judge_image(findings(Ok(Some("ok")), None)).is_ok());
    assert_eq!(
        judge_image(findings(Ok(Some("ok")), Some(2))).err().unwrap(),
        "database image carries 2 schema object(s) other than tables and indexes"
    );
    assert_eq!(
        judge_image(findings(Ok(Some("row 1 missing")), Some(0))).err().unwrap(),
        "database image failed quick_check: row 1 missing"
    );
    assert_eq!(
        judge_image(findings(Ok(None), Some(0))).err().unwrap(),
        "database image failed quick_check: "
    );
    assert_eq!(
        judge_image(findings(Err("malformed"), Some(0))).err().unwrap(),
        "database image could not be checked: malformed"
    );
    let mut unreadable = findings(Ok(Some("ok")), Some(0));
    unreadable.schema = Err("short".to_owned());
    assert_eq!(judge_image(unreadable).err().unwrap(), "database image is unreadable: short");
}

#[test]
fn limited_scratch_interrupts_runaway_statements() {
    let mut budget = StepBudget::limit_steps(25_000);
    assert_eq!(budget.remaining, 3);
    assert!(!budget.tick());
    assert!(!budget.tick());
    assert!(!budget.tick());
    assert!(budget.tick());
    assert!(budget.tick(), "every later statement fails at once");
    assert_eq!(StepBudget::limit_steps(SCRATCH_STEP_BUDGET).remaining, 20_000);
    assert_eq!(StepBudget::limit_steps(0).remaining, 0);
}

#[test]
fn test_alter_table_syntax() {
    let altered = |sql: &str| parse_alter_table(sql);
    let pair = |a: &str, b: &str| Some((a.to_owned(), b.to_owned()));
    let place_holder = "__place_holder_column_for_syntax_checking";
    assert_eq!(altered("ALTER TABLE test ADD x TEXT"), pair("test", place_holder));
    assert_eq!(altered("ALTER TABLE test AAD x TEXT"), pair("test", place_holder));
    assert_eq!(altered("alter table T\nRename Column Old TO new"), pair("t", "old"));
    assert_eq!(altered("ALTER TABLE t DROP COLUMN c"), pair("t", "c"));
    assert_eq!(altered("ALTER TABLE"), None);
    assert_eq!(altered("CREATE TABLE t(c)"), None);
    // Characters of several bytes before a keyword move the word that is taken.
    assert_eq!(altered("alter éé table abc"), pair("bc", place_holder));
}

#[test]
fn test_sql_has_syntax_errors() {
    let first = "CREATE TABLE kv_store(key TEXT PRIMARY KEY, value TEXT NOT NULL) STRICT ;";
    let second = "SELECT FROM";
    let sql = format!("{first}\n{second}");
    let mut scan = SyntaxScan::new(&sql);
    assert!(matches!(scan.next(), ScanStep::Prepare));
    assert!(scan.prepared(0, -1, "not an error".into(), format!("\n{second}")).is_none());
    assert!(matches!(scan.next(), ScanStep::Prepare));
    let error = scan.prepared(1, 1 + 7, "near \"FROM\": syntax error".into(), String::new());
    assert_eq!(error.unwrap().1, first.len() + 1 + 7);
    for done in ["", " \n", ";", " ; "] {
        assert!(matches!(SyntaxScan::new(done).next(), ScanStep::Done), "{done:?}");
    }
    match SyntaxScan::new(" ALTER TABLE test ADD x TEXT").next() {
        ScanStep::PrepareWithTable { table, .. } => assert_eq!(table, "test"),
        other => panic!("{other:?}"),
    }
    assert!(scan.prepared(1, -1, "no such table".into(), String::new()).is_none());
    assert!(matches!(scan.next(), ScanStep::Done));
}

#[test]
fn the_engine_is_asked_for_an_image() {
    assert_eq!(serialize_main(SerializeOutcome::Image(vec![1]), None), Ok(vec![1]));
    assert_eq!(serialize_main(SerializeOutcome::Nothing { size: 0 }, None), Ok(vec![]));
    assert_eq!(
        serialize_main(SerializeOutcome::Nothing { size: 0 }, Some("busy".into())),
        Err(Some("busy".to_owned()))
    );
    assert_eq!(serialize_main(SerializeOutcome::Nothing { size: 9 }, None), Err(None));
    let copied = |begun, step, finish| restore_main_from(BackupCodes { begun, step, finish });
    assert_eq!(copied(true, 101, 0), Ok(()));
    assert_eq!(copied(false, 101, 0), Err(BackupFault::NotBegun));
    assert_eq!(copied(true, 5, 0), Err(BackupFault::Step(5)));
    assert_eq!(copied(true, 101, 8), Err(BackupFault::Finish(8)));
    assert!(is_success(0) && is_success(100) && !is_success(1));
    assert_eq!(shared_memory_uri("x"), "file:x?mode=memory&cache=shared");
}

#[test]
fn build_with_outcome_skips_unmigratable_image() {
    assert!(matches!(restore_outcome(None), RestoreOutcome::NoImage));
    let stages = |opened: bool, migrated: bool, copied: bool| {
        let stage = |ok: bool| if ok { Ok(()) } else { Err("why".to_owned()) };
        restore_image_into(RestoreStages {
            opened: stage(opened),
            migrated: stage(migrated),
            copied: stage(copied),
        })
    };
    assert!(matches!(restore_outcome(Some(stages(true, true, true))), RestoreOutcome::Restored));
    for (result, reason) in [
        (stages(false, false, false), "why"),
        (stages(true, false, false), "migrating the restored image: why"),
        (stages(true, true, false), "copying the restored image into the database: why"),
    ] {
        match restore_outcome(Some(result)) {
            RestoreOutcome::Skipped(text) => assert_eq!(text, reason),
            other => panic!("{other:?}"),
        }
    }
}

#[test]
fn migrations_are_retried() {
    let mut run = MigrationRun::new();
    let mut tries = 0;
    while run.again() {
        tries += 1;
        run.tried(false);
    }
    assert_eq!(tries, 10);
    assert!(!run.succeeded);
    let mut run = MigrationRun::new();
    run.tried(false);
    run.tried(true);
    assert!(!run.again() && run.succeeded);
    assert!(foreign_keys_enabled(Some(1)));
    assert!(!foreign_keys_enabled(Some(0)));
    assert!(!foreign_keys_enabled(None));
}

#[test]
fn connection_initialize_query_retries_transient_schema_lock() {
    assert_eq!(initialize_step(0, None), InitStep::Done);
    assert_eq!(initialize_step(0, Some("database schema is locked: main")), InitStep::Retry);
    assert_eq!(initialize_step(49, Some("database is locked")), InitStep::Fail);
    assert_eq!(initialize_step(0, Some("syntax error")), InitStep::Fail);
    assert!(is_schema_lock_error("code 6: database schema is locked"));
    assert!(!is_schema_lock_error("database schema locked"));
}

#[test]
fn write_bumps_generation() {
    let mut generation = WriteGeneration { count: 0 };
    generation.completed(true);
    generation.completed(false);
    assert_eq!(generation.write_generation(), 1);
    let mut last = WriteGeneration { count: u64::MAX };
    last.completed(true);
    assert_eq!(last.write_generation(), 0);
}

#[test]
fn writes_nest() {
    let mut flag = WriteFlag { writable: false };
    let seen = flag.with_write(|writable| writable);
    assert!(seen);
    assert!(!flag.can_write());
    let mut outer = WriteFlag { writable: true };
    outer.with_write(|_| ());
    assert!(outer.can_write(), "the outer write goes on");
}

#[test]
fn every_database_has_one_queue() {
    assert_eq!(default_write_queue(true), WriteQueueKind::WasmLock);
    assert_eq!(default_write_queue(false), WriteQueueKind::BackgroundThread);
    let mut registry = QueueRegistry { queues: vec![] };
    assert!(registry.initialize_queues("a", Some(WriteQueueKind::Locking), false));
    assert!(!registry.initialize_queues("a", None, true));
    assert!(registry.initialize_queues("b", None, true));
    assert_eq!(registry.queue("a"), Some(WriteQueueKind::Locking));
    assert_eq!(registry.queue("b"), Some(WriteQueueKind::WasmLock));
    assert_eq!(registry.queue("c"), None);
}

#[test]
fn reentrant_same_thread() {
    let mut lock = WasmLock::new();
    assert!(!lock.is_held_by(7));
    assert!(lock.try_lock(7));
    assert!(lock.is_held_by(7));
    assert!(lock.try_lock(7));
    assert!(!lock.try_lock(8), "another thread has to wait");
    lock.unlock();
    assert!(lock.is_held_by(7), "dropping the inner guard must not release the lock");
    lock.unlock();
    assert!(!lock.is_held_by(7));
    assert!(lock.try_lock(8));
}

/// Carries out a write under a lock that threads share, once it is free.
fn run_shared(shared: &Mutex<WasmLock>, me: u64, write: impl FnOnce()) {
    let mut state = loop {
        let state = shared.lock().unwrap();
        if state.is_free_for(me) {
            break state;
        }
        drop(state);
        std::hint::spin_loop();
    };
    let mut lock = WasmLock { owner: state.owner, depth: state.depth };
    wasm_lock_queue(&mut lock, me, move |held| {
        *state = WasmLock { owner: held.owner, depth: held.depth };
        drop(state);
        write();
        held
    });
    *shared.lock().unwrap() = lock;
}

#[test]
fn wasm_lock_queue_runs_writes_inline_and_reentrantly() {
    let mut lock = WasmLock::new();
    let mut rows = Vec::new();
    // A write issued from inside another write's closure completes.
    wasm_lock_queue(&mut lock, 7, |mut held| {
        assert!(held.is_held_by(7) && held.depth == 1);
        assert!(!held.is_free_for(8) && !held.try_lock(8), "no other thread gets the lock");
        rows.push(1);
        wasm_lock_queue(&mut held, 7, |inner| {
            assert!(inner.is_held_by(7) && inner.depth == 2);
            rows.push(2);
            inner
        });
        // The outer closure is still the writer after the nested write returned.
        assert!(held.is_held_by(7) && held.depth == 1);
        rows.push(4);
        held
    });
    assert!(!lock.is_held_by(7) && lock.is_free_for(8));
    assert_eq!(rows, [1, 2, 4]);

    let shared = Arc::new(Mutex::new(lock));
    let rows = Arc::new(Mutex::new(rows));
    let busy = Arc::new(AtomicBool::new(false));
    let runtime = tokio::runtime::Builder::new_multi_thread().build().unwrap();
    let handles: Vec<_> = (1..=2u64)
        .map(|me| {
            let (shared, rows, busy) = (shared.clone(), rows.clone(), busy.clone());
            runtime.spawn_blocking(move || {
                for _ in 0..1_000 {
                    run_shared(&shared, me, || {
                        assert!(!busy.swap(true, Ordering::SeqCst), "two writes overlap");
                        rows.lock().unwrap().push(3);
                        run_shared(&shared, me, || assert!(busy.load(Ordering::SeqCst)));
                        busy.store(false, Ordering::SeqCst);
                    });
                }
            })
        })
        .collect();
    for handle in handles {
        runtime.block_on(handle).unwrap();
    }
    assert_eq!(rows.lock().unwrap().len(), 2_003);
    assert_eq!(shared.lock().unwrap().owner, 0);
}
