use cacache::async_write::{LastOp, Step, TaskEnd, WriterState};
use cacache::errors::{io_error, Error, IoFailure, IoKind};
use cacache::put::persist_outcome;

fn is_start<T>(s: &Step<T>) -> bool {
    matches!(s, Step::Start)
}

fn is_await<T>(s: &Step<T>) -> bool {
    matches!(s, Step::Await)
}

#[test]
fn write_starts_one_task_and_hands_back_its_count() {
    let mut st = WriterState::new();
    assert!(is_start(&st.poll_write(5)));
    assert!(matches!(st, WriterState::Busy));
    assert!(is_await(&st.poll_write(5)));
    assert!(is_await(&st.poll_flush()));
    assert!(is_await(&st.poll_close()));
    st.finish(TaskEnd::Kept(LastOp::Write(Ok(5))));
    match st.poll_write(5) {
        Step::Ready(Ok(5)) => {}
        _ => panic!("expected the finished count"),
    }
    assert!(matches!(st, WriterState::Open(None)));
}

#[test]
fn oversized_count_is_retried() {
    let mut st = WriterState::Open(Some(LastOp::Write(Ok(9))));
    assert!(is_start(&st.poll_write(4)));
    assert!(matches!(st, WriterState::Busy));
}

#[test]
fn write_failure_is_reported_once() {
    let mut st = WriterState::Open(Some(LastOp::Write(Err(io_error("disk full")))));
    match st.poll_write(1) {
        Step::Ready(Err(e)) => assert_eq!(e.message, "disk full"),
        _ => panic!("expected the failure"),
    }
    assert!(is_start(&st.poll_write(1)));
}

#[test]
fn flush_collects_flush_result() {
    let mut st = WriterState::new();
    assert!(is_start(&st.poll_flush()));
    st.finish(TaskEnd::Kept(LastOp::Flush(Ok(()))));
    assert!(matches!(st.poll_flush(), Step::Ready(Ok(()))));
    let mut other = WriterState::Open(Some(LastOp::Write(Ok(1))));
    assert!(is_start(&other.poll_flush()));
}

#[test]
fn closed_writer_refuses_writes_and_commits() {
    let mut st = WriterState::new();
    assert!(is_start(&st.poll_close()));
    st.finish(TaskEnd::Released);
    assert!(matches!(st, WriterState::Closed));
    match st.poll_write(3) {
        Step::Ready(Err(e)) => {
            assert_eq!(e.kind, IoKind::Other);
            assert_eq!(e.message, "file closed");
        }
        _ => panic!("a closed writer cannot write"),
    }
    assert!(matches!(st.poll_flush(), Step::Ready(Ok(()))));
    assert!(matches!(st.poll_close(), Step::Ready(Ok(()))));
    assert!(matches!(st.poll_commit(), Step::Ready(Err(_))));
}

#[test]
fn failed_task_closes_writer() {
    let mut st = WriterState::new();
    assert!(is_start(&st.poll_commit()));
    st.finish(TaskEnd::Failed);
    assert!(matches!(st, WriterState::Closed));
    let mut other = WriterState::new();
    other.abandon();
    assert!(matches!(other, WriterState::Closed));
}

#[test]
fn persist_race_with_identical_content_succeeds() {
    let lost: Result<(), IoFailure> = Err(IoFailure { kind: IoKind::AlreadyExists, message: String::from("exists") });
    assert_eq!(persist_outcome(lost.clone(), true, String::from("ctx")), Ok(()));
    assert_eq!(persist_outcome(Ok(()), false, String::from("ctx")), Ok(()));
    match persist_outcome(lost, false, String::from("ctx")) {
        Err(Error::IoError(e, ctx)) => {
            assert_eq!(e.kind, IoKind::AlreadyExists);
            assert_eq!(ctx, "ctx");
        }
        _ => panic!("a failed move without a destination is an error"),
    }
}
