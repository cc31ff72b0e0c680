use fibers::coroutine::{async_main, Coroutine0, PollError, PollState, Request, State0, Step};

fn ready(text: &str) -> Option<PollState<String>> {
    Some(PollState::Ready(text.to_string()))
}

fn resolved() -> Coroutine0 {
    let mut c = async_main();
    c.poll(None).unwrap();
    c.poll(ready("one")).unwrap();
    c.poll(ready("two")).unwrap();
    c
}

#[test]
fn requests_name_their_paths() {
    assert_eq!(Request::First.path(), "/600/HelloAsyncAwait");
    assert_eq!(Request::Second.path(), "/400/HelloAsyncAwait");
}

#[test]
fn new_coroutine_has_not_started() {
    let c = Coroutine0::new();
    assert_eq!(c.state(), State0::Start);
    assert_eq!(c.counter(), None);
    let m = async_main();
    assert_eq!(m.state(), State0::Start);
    assert_eq!(m.counter(), None);
}

#[test]
fn first_poll_starts_the_first_request() {
    let mut c = async_main();
    assert_eq!(c.poll(None), Ok(Step::Started { request: Request::First }));
    assert_eq!(c.state(), State0::Wait1);
    assert_eq!(c.counter(), Some(0));

    let mut d = Coroutine0::new();
    assert_eq!(d.poll(ready("ignored")), Ok(Step::Started { request: Request::First }));
    assert_eq!(d.state(), State0::Wait1);
    assert_eq!(d.counter(), Some(0));
}

#[test]
fn pending_request_keeps_the_coroutine_waiting() {
    let mut c = async_main();
    c.poll(None).unwrap();
    assert_eq!(c.poll(Some(PollState::NotReady)), Ok(Step::Pending));
    assert_eq!(c.poll(Some(PollState::NotReady)), Ok(Step::Pending));
    assert_eq!(c.state(), State0::Wait1);
    assert_eq!(c.counter(), Some(0));
    c.poll(ready("one")).unwrap();
    assert_eq!(c.poll(Some(PollState::NotReady)), Ok(Step::Pending));
    assert_eq!(c.state(), State0::Wait2);
    assert_eq!(c.counter(), Some(1));
}

#[test]
fn a_poll_without_an_outcome_keeps_the_coroutine_waiting() {
    let mut c = async_main();
    c.poll(None).unwrap();
    assert_eq!(c.poll(None), Ok(Step::Pending));
    assert_eq!(c.state(), State0::Wait1);
    assert_eq!(c.counter(), Some(0));
    c.poll(ready("one")).unwrap();
    assert_eq!(c.poll(None), Ok(Step::Pending));
    assert_eq!(c.state(), State0::Wait2);
    assert_eq!(c.counter(), Some(1));
}

#[test]
fn coroutine_runs_through_both_requests() {
    let mut c = async_main();
    assert_eq!(c.poll(None), Ok(Step::Started { request: Request::First }));
    assert_eq!(
        c.poll(ready("HelloAsyncAwait 1")),
        Ok(Step::Received { text: "HelloAsyncAwait 1".to_string(), request: Request::Second })
    );
    assert_eq!(c.state(), State0::Wait2);
    assert_eq!(c.counter(), Some(1));
    assert_eq!(
        c.poll(ready("HelloAsyncAwait 2")),
        Ok(Step::Finished {
            text: "HelloAsyncAwait 2".to_string(),
            responses: 2,
            value: String::new()
        })
    );
    assert_eq!(c.state(), State0::Resolved);
    assert_eq!(c.counter(), None);
}

#[test]
fn a_resolved_coroutine_refuses_every_poll() {
    let mut c = resolved();
    assert_eq!(c.state(), State0::Resolved);
    for child in [None, Some(PollState::NotReady), ready("three")] {
        for _ in 0..3 {
            assert_eq!(c.poll(child.clone()), Err(PollError::Resolved));
            assert_eq!(c.state(), State0::Resolved);
            assert_eq!(c.counter(), None);
        }
    }
}
