use mysql_samp::cache::CacheEntry;
use mysql_samp::connection::QueryError;
use mysql_samp::transaction::{TxDriver, TxSend};

fn ok(q: &str) -> Result<CacheEntry, QueryError> {
    Ok(CacheEntry::empty(q.to_string()))
}

fn fail(code: u16) -> Result<CacheEntry, QueryError> {
    Err(QueryError { code, message: "boom".to_string() })
}

#[test]
fn every_step_then_commit() {
    let mut d = TxDriver::new(2);
    assert_eq!(d.next(), Some(TxSend::Begin));
    d.record(ok("START TRANSACTION"));
    assert_eq!(d.next(), Some(TxSend::Step(0)));
    d.record(ok("a"));
    assert_eq!(d.next(), Some(TxSend::Step(1)));
    d.record(ok("b"));
    assert_eq!(d.next(), Some(TxSend::Commit));
    d.record(ok("COMMIT"));
    assert_eq!(d.next(), None);
    let last = d.finish().expect("committed");
    assert_eq!(last.query_string(), "b", "the last step's cache comes back");
}

#[test]
fn a_failed_step_rolls_back_and_stops() {
    let mut d = TxDriver::new(3);
    d.record(ok("START TRANSACTION"));
    d.record(ok("a"));
    assert_eq!(d.next(), Some(TxSend::Step(1)));
    d.record(fail(1062));
    assert_eq!(d.next(), Some(TxSend::Rollback));
    d.record(ok("ROLLBACK"));
    assert_eq!(d.next(), None);
    let err = d.finish().err().expect("failed");
    assert_eq!(err.code, 1062);
}

#[test]
fn a_failed_begin_sends_nothing_more() {
    let mut d = TxDriver::new(1);
    d.record(fail(0));
    assert_eq!(d.next(), None);
    assert_eq!(d.finish().err().expect("failed").code, 0);
}

#[test]
fn a_failed_rollback_keeps_the_first_error() {
    let mut d = TxDriver::new(1);
    d.record(ok("START TRANSACTION"));
    d.record(fail(1213));
    d.record(fail(2013));
    assert_eq!(d.next(), None);
    assert_eq!(d.finish().err().expect("failed").code, 1213);
}

#[test]
fn an_empty_batch_commits_and_reports_an_empty_cache() {
    let mut d = TxDriver::new(0);
    d.record(ok("START TRANSACTION"));
    assert_eq!(d.next(), Some(TxSend::Commit));
    d.record(ok("COMMIT"));
    assert_eq!(d.finish().expect("committed").query_string(), "START TRANSACTION");
}

#[test]
fn control_statements_have_their_sql() {
    assert_eq!(TxSend::Begin.control_sql(), Some("START TRANSACTION"));
    assert_eq!(TxSend::Commit.control_sql(), Some("COMMIT"));
    assert_eq!(TxSend::Rollback.control_sql(), Some("ROLLBACK"));
    assert_eq!(TxSend::Step(0).control_sql(), None);
}
