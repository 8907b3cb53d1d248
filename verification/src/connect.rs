//! Client side of a connection: which failures to open a stream are worth another try.

use vstd::prelude::*;

use crate::addr::SocketAddr;

verus! {

/// `std::io::Error`, carried through as it comes.
#[verifier::external_type_specification]
#[verifier::external_body]
pub struct ExIoError(std::io::Error);

/// A byte stream to the server, whatever the transport.
pub trait Connection: Sized {
    /// A second handle on the same stream.
    fn try_clone(&self) -> std::io::Result<Self>;
}

/// A pipe that a client is to open, as a file.
#[derive(Debug)]
pub struct PipeOpenRequest {
    pub path: String,
    pub read: bool,
    pub write: bool,
}

impl PipeOpenRequest {
    /// The request to open the pipe at `path` for reading and writing.
    pub fn new(path: &str) -> (r: Self)
        ensures
            r.path@ == path@,
            r.read,
            r.write,
    {
        PipeOpenRequest { path: path.to_owned(), read: true, write: true }
    }
}

/// All instances of the pipe are busy. The error has no stable kind of its own, so it is known
/// by the code of the operating system.
pub const ERROR_PIPE_BUSY: i32 = 231;

/// How often a busy pipe is tried again.
pub const MAX_RETRIES: u32 = 5;

/// How long to wait before a busy pipe is tried again, in milliseconds.
pub const RETRY_DELAY_MS: u64 = 50;

/// What came of one attempt to open a stream.
#[derive(Debug)]
pub enum OpenOutcome<C, E> {
    Opened(C),
    /// The attempt failed; `raw_os_error` is the code of the operating system, if it gave one.
    Failed { error: E, raw_os_error: Option<i32> },
}

/// What to do after an attempt to open a stream.
#[derive(Debug)]
pub enum ConnectStep<C, E> {
    /// Report this result.
    Finished(Result<C, E>),
    /// Wait, then try to open the same address once more.
    RetryAfter { millis: u64 },
}

/// Whether an attempt failed only because every instance of the pipe was busy.
pub open spec fn is_busy<C, E>(outcome: OpenOutcome<C, E>) -> bool {
    outcome matches OpenOutcome::Failed { raw_os_error, .. } && raw_os_error == Some(
        ERROR_PIPE_BUSY,
    )
}

/// The result that reports an attempt as it went.
pub open spec fn reported<C, E>(outcome: OpenOutcome<C, E>) -> Result<C, E> {
    match outcome {
        OpenOutcome::Opened(stream) => Ok(stream),
        OpenOutcome::Failed { error, .. } => Err(error),
    }
}

/// One decision, after `retries` earlier ones to try again: the step to take, and the retries
/// counted after it. Only a busy pipe is tried again.
pub open spec fn connect_step<C, E>(
    pipe: bool,
    retries: nat,
    outcome: OpenOutcome<C, E>,
) -> (ConnectStep<C, E>, nat) {
    if pipe && is_busy(outcome) && retries < MAX_RETRIES {
        (ConnectStep::RetryAfter { millis: RETRY_DELAY_MS }, retries + 1)
    } else {
        (ConnectStep::Finished(reported(outcome)), retries)
    }
}

/// A whole connection, given what comes of each attempt in turn: how many attempts were made,
/// and the result. `None` where the connection is still going on after the last outcome.
pub open spec fn connect_run<C, E>(
    pipe: bool,
    retries: nat,
    outcomes: Seq<OpenOutcome<C, E>>,
) -> Option<(nat, Result<C, E>)>
    decreases outcomes.len(),
{
    if outcomes.len() == 0 {
        None
    } else {
        match connect_step(pipe, retries, outcomes[0]) {
            (ConnectStep::Finished(result), _) => Some((1, result)),
            (ConnectStep::RetryAfter { .. }, counted) => match connect_run(
                pipe,
                counted,
                outcomes.skip(1),
            ) {
                Some((attempts, result)) => Some((attempts + 1, result)),
                None => None,
            },
        }
    }
}

/// A connection in the making.
#[derive(Debug)]
pub struct ConnectAttempts {
    pipe: bool,
    retries: u32,
}

impl ConnectAttempts {
    /// Whether the address is a named pipe.
    pub closed spec fn pipe(&self) -> bool {
        self.pipe
    }

    /// How often the address is being tried again.
    pub closed spec fn retries(&self) -> nat {
        self.retries as nat
    }

    /// A connection to `addr` before the first attempt.
    pub fn new(addr: &SocketAddr) -> (r: Self)
        ensures
            r.pipe() == (addr@ is Pipe),
            r.retries() == 0,
    {
        ConnectAttempts { pipe: addr.is_pipe(), retries: 0 }
    }

    /// What to do after an attempt.
    ///
    /// A missing pipe is reported at once; a busy one is tried again a few times.
    pub fn step<C, E>(&mut self, outcome: OpenOutcome<C, E>) -> (r: ConnectStep<C, E>)
        ensures
            (r, final(self).retries()) == connect_step(old(self).pipe(), old(self).retries(), outcome),
            final(self).pipe() == old(self).pipe(),
    {
        match outcome {
            OpenOutcome::Opened(stream) => ConnectStep::Finished(Ok(stream)),
            OpenOutcome::Failed { error, raw_os_error } => {
                let busy = match raw_os_error {
                    Some(code) => code == ERROR_PIPE_BUSY,
                    None => false,
                };
                if self.pipe && busy && self.retries < MAX_RETRIES {
                    self.retries += 1;
                    ConnectStep::RetryAfter { millis: RETRY_DELAY_MS }
                } else {
                    ConnectStep::Finished(Err(error))
                }
            },
        }
    }
}

/// Where an attempt went otherwise than busy, or was the last one allowed, and all before it
/// were busy, that attempt is the one reported.
proof fn lemma_run_reports<C, E>(retries: nat, outcomes: Seq<OpenOutcome<C, E>>, last: int)
    requires
        retries <= MAX_RETRIES,
        0 <= last < outcomes.len(),
        last <= MAX_RETRIES - retries,
        forall|i: int| 0 <= i < last ==> is_busy(#[trigger] outcomes[i]),
        is_busy(outcomes[last]) ==> last == MAX_RETRIES - retries,
    ensures
        connect_run(true, retries, outcomes) == Some(
            ((last + 1) as nat, reported(outcomes[last])),
        ),
    decreases last,
{
    if last > 0 {
        assert(is_busy(outcomes[0]));
        let rest = outcomes.skip(1);
        assert forall|i: int| 0 <= i < last - 1 implies is_busy(#[trigger] rest[i]) by {
            assert(rest[i] == outcomes[i + 1]);
        }
        lemma_run_reports(retries + 1, rest, last - 1);
    }
}

/// A pipe is tried until an attempt goes otherwise than busy, and the retries are used up
/// after five; the result reported is that of the attempt made last.
pub proof fn law_pipe_reports_last_attempt<C, E>(outcomes: Seq<OpenOutcome<C, E>>, last: int)
    requires
        0 <= last < outcomes.len(),
        last <= MAX_RETRIES,
        forall|i: int| 0 <= i < last ==> is_busy(#[trigger] outcomes[i]),
        !is_busy(outcomes[last]) || last == MAX_RETRIES,
    ensures
        connect_run(true, 0, outcomes) == Some(((last + 1) as nat, reported(outcomes[last]))),
{
    lemma_run_reports(0, outcomes, last);
}

proof fn lemma_run_is_bounded<C, E>(retries: nat, outcomes: Seq<OpenOutcome<C, E>>)
    requires
        retries <= MAX_RETRIES,
        outcomes.len() > MAX_RETRIES - retries,
    ensures
        connect_run(true, retries, outcomes) matches Some((attempts, _)) && attempts <= MAX_RETRIES
            - retries + 1,
    decreases MAX_RETRIES - retries,
{
    if is_busy(outcomes[0]) && retries < MAX_RETRIES {
        lemma_run_is_bounded(retries + 1, outcomes.skip(1));
    }
}

/// Connecting to a pipe ends after at most one attempt and five retries, whatever comes of
/// each.
pub proof fn law_pipe_attempts_are_bounded<C, E>(outcomes: Seq<OpenOutcome<C, E>>)
    requires
        outcomes.len() > MAX_RETRIES,
    ensures
        connect_run(true, 0, outcomes) matches Some((attempts, _)) && attempts <= MAX_RETRIES + 1,
{
    lemma_run_is_bounded(0, outcomes);
}

/// Any other transport is tried exactly once.
pub proof fn law_other_transports_try_once<C, E>(outcomes: Seq<OpenOutcome<C, E>>)
    requires
        outcomes.len() > 0,
    ensures
        connect_run(false, 0, outcomes) == Some((1nat, reported(outcomes[0]))),
{
}

/// An error other than busy, such as that of a missing pipe, is reported as it comes, however
/// many retries went before it.
pub proof fn law_other_errors_are_final<C, E>(
    pipe: bool,
    retries: nat,
    error: E,
    raw_os_error: Option<i32>,
)
    requires
        raw_os_error != Some(ERROR_PIPE_BUSY),
    ensures
        connect_step::<C, E>(pipe, retries, OpenOutcome::Failed { error, raw_os_error }) == (
            ConnectStep::<C, E>::Finished(Err(error)),
            retries,
        ),
{
}

} // verus!
