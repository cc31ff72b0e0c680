//! A stackless coroutine, written out as the state machine it stands for.
//!
//! The coroutine greets, awaits a first request, awaits a second request, and
//! reports how many responses it received. Between two awaits it keeps its one
//! local variable, the count of responses, in a [`Stack0`].
//!
//! The coroutine does not hold the requests it awaits and does not print:
//! [`Coroutine0::poll`] is told how the awaited request fared and answers with
//! the [`Step`] that its caller has to carry out.
use vstd::prelude::*;

verus! {

/// The outcome of polling something that may not be finished.
#[derive(Clone, Debug, PartialEq, Eq)]
pub enum PollState<T> {
    Ready(T),
    NotReady,
}

/// The points at which the coroutine can be suspended.
#[derive(Clone, Copy, Debug, PartialEq, Eq, Structural)]
pub enum State0 {
    /// Not polled yet.
    Start,
    /// Awaiting the first request.
    Wait1,
    /// Awaiting the second request.
    Wait2,
    /// Finished.
    Resolved,
}

/// The requests that the coroutine awaits.
#[derive(Clone, Copy, Debug, PartialEq, Eq, Structural)]
pub enum Request {
    First,
    Second,
}

impl Request {
    /// The path that the request asks for.
    pub open spec fn spec_path(self) -> Seq<char> {
        match self {
            Request::First => "/600/HelloAsyncAwait"@,
            Request::Second => "/400/HelloAsyncAwait"@,
        }
    }

    /// The path that the request asks for.
    pub fn path(self) -> (path: &'static str)
        ensures
            path@ == self.spec_path(),
    {
        match self {
            Request::First => "/600/HelloAsyncAwait",
            Request::Second => "/400/HelloAsyncAwait",
        }
    }
}

/// The local variables that live across an await.
pub struct Stack0 {
    counter: Option<usize>,
}

/// The coroutine: where it is suspended, and its saved variables.
pub struct Coroutine0 {
    stack: Stack0,
    state: State0,
}

/// What a [`Coroutine0`] holds, as plain values.
pub struct CoroutineView {
    /// Where the coroutine is suspended.
    pub state: State0,
    /// The saved count of responses, while there is one.
    pub counter: Option<usize>,
}

/// Why a coroutine could not be polled.
#[derive(Clone, Copy, Debug, PartialEq, Eq, Structural)]
pub enum PollError {
    /// The coroutine is finished.
    Resolved,
}

/// What the caller of [`Coroutine0::poll`] has to do next.
#[derive(Clone, Debug, PartialEq, Eq)]
pub enum Step {
    /// The coroutine has started. Print the greeting, issue `request`, poll
    /// it, and poll the coroutine again with the outcome.
    Started { request: Request },
    /// A response has arrived. Print `text`, issue `request`, poll it, and
    /// poll the coroutine again with the outcome.
    Received { text: String, request: Request },
    /// The awaited request is not finished, and so neither is the coroutine.
    Pending,
    /// The last response has arrived. Print `text` and the number of
    /// `responses`; the coroutine is finished with the result `value`.
    Finished { text: String, responses: usize, value: String },
}

impl CoroutineView {
    /// The invariant of the coroutine: the count of responses is saved while
    /// the coroutine awaits a request, and it is the number of requests that
    /// came before.
    pub open spec fn wf(self) -> bool {
        self.counter == match self.state {
            State0::Start => None::<usize>,
            State0::Wait1 => Some(0usize),
            State0::Wait2 => Some(1usize),
            State0::Resolved => None::<usize>,
        }
    }

    /// The coroutine as it is before the first poll.
    pub open spec fn initial() -> CoroutineView {
        CoroutineView { state: State0::Start, counter: None }
    }

    /// The coroutine after a poll in which the awaited request fared as
    /// `child` says. A coroutine that has not started awaits nothing and
    /// starts; one that awaits a request moves on if the request is ready and
    /// stays where it is if not; one that is finished stays finished.
    pub open spec fn polled(self, child: Option<PollState<String>>) -> CoroutineView {
        match self.state {
            State0::Start => CoroutineView { state: State0::Wait1, counter: Some(0) },
            State0::Wait1 => match child {
                Some(PollState::Ready(_)) => CoroutineView {
                    state: State0::Wait2,
                    counter: Some(1),
                },
                _ => self,
            },
            State0::Wait2 => match child {
                Some(PollState::Ready(_)) => CoroutineView {
                    state: State0::Resolved,
                    counter: None,
                },
                _ => self,
            },
            State0::Resolved => self,
        }
    }
}

impl View for Coroutine0 {
    type V = CoroutineView;

    closed spec fn view(&self) -> CoroutineView {
        CoroutineView { state: self.state, counter: self.stack.counter }
    }
}

impl Coroutine0 {
    /// The invariant that every operation requires and keeps.
    pub open spec fn wf(&self) -> bool {
        self@.wf()
    }

    /// A coroutine that has not been polled yet.
    pub fn new() -> (c: Coroutine0)
        ensures
            c.wf(),
            c@ == CoroutineView::initial(),
    {
        Coroutine0 { state: State0::Start, stack: Stack0 { counter: None } }
    }

    /// Where the coroutine is suspended.
    pub fn state(&self) -> (state: State0)
        ensures
            state == self@.state,
    {
        self.state
    }

    /// The saved count of responses, while there is one.
    pub fn counter(&self) -> (counter: Option<usize>)
        ensures
            counter == self@.counter,
    {
        self.stack.counter
    }

    /// Resumes the coroutine and runs it up to its next await.
    ///
    /// `child` is the outcome of polling the request that the coroutine
    /// awaits. A coroutine that has not started awaits none, and `child` is
    /// not looked at. While the coroutine waits, anything but a ready request
    /// leaves it waiting. A coroutine that is finished has no step left: the
    /// poll fails with `Resolved`, every time, and the coroutine stays as it
    /// is.
    pub fn poll(&mut self, child: Option<PollState<String>>) -> (r: Result<Step, PollError>)
        requires
            old(self).wf(),
        ensures
            final(self).wf(),
            final(self)@ == old(self)@.polled(child),
            match (old(self)@.state, child) {
                (State0::Resolved, _) => r == Err::<Step, PollError>(PollError::Resolved),
                (State0::Start, _) => r == Ok::<Step, PollError>(
                    Step::Started { request: Request::First },
                ),
                (State0::Wait1, Some(PollState::Ready(text))) => r == Ok::<Step, PollError>(
                    Step::Received { text, request: Request::Second },
                ),
                (State0::Wait2, Some(PollState::Ready(text))) => {
                    &&& r matches Ok(Step::Finished { text: printed, responses, value })
                    &&& printed == text
                    &&& responses == 2
                    &&& value@ == Seq::<char>::empty()
                },
                _ => r == Ok::<Step, PollError>(Step::Pending),
            },
    {
        match self.state {
            State0::Start => {
                self.stack.counter = Some(0);
                self.state = State0::Wait1;
                Ok(Step::Started { request: Request::First })
            },
            State0::Wait1 => match child {
                Some(PollState::Ready(text)) => {
                    let counter: usize = self.stack.counter.take().unwrap();
                    self.state = State0::Wait2;
                    self.stack.counter = Some(counter + 1);
                    Ok(Step::Received { text, request: Request::Second })
                },
                _ => Ok(Step::Pending),
            },
            State0::Wait2 => match child {
                Some(PollState::Ready(text)) => {
                    let counter: usize = self.stack.counter.take().unwrap();
                    self.state = State0::Resolved;
                    Ok(Step::Finished { text, responses: counter + 1, value: String::new() })
                },
                _ => Ok(Step::Pending),
            },
            State0::Resolved => Err(PollError::Resolved),
        }
    }
}

/// Polling a finished coroutine is refused for good: the coroutine after the
/// refused poll is the coroutine before it, still finished and with nothing
/// saved, so the next poll is refused in the same way.
pub proof fn lemma_resolved_stays_resolved(
    c: CoroutineView,
    first: Option<PollState<String>>,
    second: Option<PollState<String>>,
)
    requires
        c.wf(),
        c.state == State0::Resolved,
    ensures
        c.polled(first) == c,
        c.polled(first).polled(second) == c,
        c.counter is None,
{
}

/// The coroutine of the program's main task, not yet polled.
pub fn async_main() -> (c: Coroutine0)
    ensures
        c.wf(),
        c@ == CoroutineView::initial(),
{
    Coroutine0::new()
}

} // verus!
