use mukti::{Batch, Checksums, FetchError, FetchOutcome, Progress};

fn ok(body: &[u8]) -> FetchOutcome {
    Ok(Checksums::compute(body))
}

fn err(text: &str) -> FetchOutcome {
    Err(FetchError { message: text.to_owned() })
}

#[test]
fn an_empty_batch_is_finished_at_once() {
    let mut batch = Batch::new(0, 4);
    assert_eq!(batch.total(), 0);
    assert!(batch.is_finished());
    assert_eq!(batch.start_next(), None);
    assert_eq!(batch.into_outcomes().unwrap().len(), 0);
}

#[test]
fn tasks_start_in_order_up_to_the_limit() {
    let mut batch = Batch::new(5, 2);
    assert_eq!(batch.start_next(), Some(0));
    assert_eq!(batch.start_next(), Some(1));
    assert_eq!(batch.start_next(), None);
    assert_eq!(batch.in_flight(), 2);

    assert_eq!(batch.complete(1, ok(b"1")), Some(Progress { succeeded: 1, failed: 0, total: 5 }));
    assert_eq!(batch.in_flight(), 1);
    assert_eq!(batch.start_next(), Some(2));
    assert_eq!(batch.start_next(), None);

    assert_eq!(batch.complete(0, err("0")), Some(Progress { succeeded: 1, failed: 1, total: 5 }));
    assert_eq!(batch.complete(2, ok(b"2")), Some(Progress { succeeded: 2, failed: 1, total: 5 }));
    assert_eq!(batch.in_flight(), 0);
    assert!(!batch.is_finished());
    assert_eq!(batch.start_next(), Some(3));
    assert_eq!(batch.start_next(), Some(4));
    assert_eq!(batch.start_next(), None);
    assert_eq!(batch.complete(4, err("4")), Some(Progress { succeeded: 2, failed: 2, total: 5 }));
    assert!(!batch.is_finished());
    assert_eq!(batch.complete(3, ok(b"3")), Some(Progress { succeeded: 3, failed: 2, total: 5 }));
    assert!(batch.is_finished());
    assert_eq!(batch.start_next(), None);
}

#[test]
fn outcomes_come_out_in_the_order_of_the_inputs() {
    let mut batch = Batch::new(3, 3);
    while batch.start_next().is_some() {}
    batch.complete(2, ok(b"two")).unwrap();
    batch.complete(0, ok(b"zero")).unwrap();
    batch.complete(1, err("one")).unwrap();
    let outcomes = batch.into_outcomes().unwrap();
    assert_eq!(outcomes[0].as_ref().unwrap().sha256_hex(), Checksums::compute(b"zero").sha256_hex());
    assert_eq!(outcomes[1].as_ref().unwrap_err().message, "one");
    assert_eq!(outcomes[2].as_ref().unwrap().sha256_hex(), Checksums::compute(b"two").sha256_hex());
}

#[test]
fn only_a_task_in_flight_can_end() {
    let mut batch = Batch::new(3, 1);
    assert_eq!(batch.complete(0, ok(b"early")), None);
    assert_eq!(batch.start_next(), Some(0));
    assert_eq!(batch.complete(1, ok(b"not started")), None);
    assert_eq!(batch.complete(7, ok(b"no such task")), None);
    assert_eq!(batch.complete(0, ok(b"0")), Some(Progress { succeeded: 1, failed: 0, total: 3 }));
    assert_eq!(batch.complete(0, err("twice")), None);
    assert_eq!(batch.in_flight(), 0);
    assert!(!batch.is_finished());
    assert!(batch.into_outcomes().is_none());
}

#[test]
fn a_limit_above_the_number_of_tasks_starts_them_all() {
    let mut batch = Batch::new(2, 64);
    assert_eq!(batch.start_next(), Some(0));
    assert_eq!(batch.start_next(), Some(1));
    assert_eq!(batch.start_next(), None);
    assert_eq!(batch.in_flight(), 2);
}
