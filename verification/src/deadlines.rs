//! How long is waited: for a connection, for the parts of an answer, and for the whole.

use vstd::prelude::*;

verus! {

pub const HTTP_CONNECT_DEADLINE_SECONDS: u64 = 10;
pub const HTTP_HEADER_DEADLINE_SECONDS: u64 = 30;
pub const AUTH_BODY_DEADLINE_SECONDS: u64 = 30;
pub const AUTH_OVERALL_DEADLINE_SECONDS: u64 = 60;
pub const DEVICE_POLL_OVERALL_DEADLINE_SECONDS: u64 = 15 * 60;
pub const RESPONSES_IDLE_DEADLINE_SECONDS: u64 = 120;
pub const RESPONSES_OVERALL_DEADLINE_SECONDS: u64 = 30 * 60;
pub const CANCELLATION_POLL_NANOSECONDS: u64 = 10_000_000;

/// How long is waited, in seconds: for a connection, for the head of an answer, between
/// two reads of it, and for the whole.
#[derive(Clone, Copy, Debug, PartialEq, Eq, Structural)]
pub struct HttpDeadlines {
    pub connect: u64,
    pub header: u64,
    pub read: u64,
    pub overall: u64,
}

/// How long is waited for a credential.
pub fn auth_http_deadlines() -> (deadlines: HttpDeadlines)
    ensures
        deadlines == (HttpDeadlines {
            connect: HTTP_CONNECT_DEADLINE_SECONDS,
            header: HTTP_HEADER_DEADLINE_SECONDS,
            read: AUTH_BODY_DEADLINE_SECONDS,
            overall: AUTH_OVERALL_DEADLINE_SECONDS,
        }),
{
    HttpDeadlines {
        connect: HTTP_CONNECT_DEADLINE_SECONDS,
        header: HTTP_HEADER_DEADLINE_SECONDS,
        read: AUTH_BODY_DEADLINE_SECONDS,
        overall: AUTH_OVERALL_DEADLINE_SECONDS,
    }
}

/// How long is waited for what a model says.
pub fn responses_http_deadlines() -> (deadlines: HttpDeadlines)
    ensures
        deadlines == (HttpDeadlines {
            connect: HTTP_CONNECT_DEADLINE_SECONDS,
            header: HTTP_HEADER_DEADLINE_SECONDS,
            read: RESPONSES_IDLE_DEADLINE_SECONDS,
            overall: RESPONSES_OVERALL_DEADLINE_SECONDS,
        }),
{
    HttpDeadlines {
        connect: HTTP_CONNECT_DEADLINE_SECONDS,
        header: HTTP_HEADER_DEADLINE_SECONDS,
        read: RESPONSES_IDLE_DEADLINE_SECONDS,
        overall: RESPONSES_OVERALL_DEADLINE_SECONDS,
    }
}

/// Why waiting came to an end.
#[derive(Clone, Copy, Debug, PartialEq, Eq, Structural)]
pub enum AwaitInterruption {
    Cancelled,
    DeadlineElapsed,
}

/// How long is waited next, in nanoseconds, before looking again whether to wait: nothing
/// more where it was cancelled, which goes first, or where the time is over.
pub fn await_deadline_or_cancellation(cancelled: bool, elapsed: u64, deadline: u64) -> (wait:
    Result<u64, AwaitInterruption>)
    ensures
        match next_wait(cancelled, elapsed, deadline) {
            Some(next) => wait is Ok && wait->Ok_0 == next,
            None => wait == Err::<u64, AwaitInterruption>(
                if cancelled {
                    AwaitInterruption::Cancelled
                } else {
                    AwaitInterruption::DeadlineElapsed
                },
            ),
        },
{
    if cancelled {
        return Err(AwaitInterruption::Cancelled);
    }
    if elapsed >= deadline {
        return Err(AwaitInterruption::DeadlineElapsed);
    }
    let left: u64 = deadline - elapsed;
    if left < CANCELLATION_POLL_NANOSECONDS {
        Ok(left)
    } else {
        Ok(CANCELLATION_POLL_NANOSECONDS)
    }
}

/// How long is waited next, in nanoseconds.
pub open spec fn next_wait(cancelled: bool, elapsed: u64, deadline: u64) -> Option<int> {
    if cancelled || elapsed >= deadline {
        None
    } else if deadline - elapsed < CANCELLATION_POLL_NANOSECONDS {
        Some(deadline - elapsed)
    } else {
        Some(CANCELLATION_POLL_NANOSECONDS as int)
    }
}

/// Waiting never goes beyond the deadline, and looks whether it was cancelled at least as
/// often as it should.
pub proof fn law_wait_is_bounded(cancelled: bool, elapsed: u64, deadline: u64)
    ensures
        next_wait(cancelled, elapsed, deadline) matches Some(wait) ==> {
            &&& 0 < wait <= CANCELLATION_POLL_NANOSECONDS
            &&& elapsed + wait <= deadline
        },
{
}

/// A wait goes on exactly where nothing was cancelled and the deadline has not come; it takes
/// what is left, but no longer than to the next look.
pub proof fn law_wait_is_what_is_left(cancelled: bool, elapsed: u64, deadline: u64)
    ensures
        next_wait(cancelled, elapsed, deadline) is None <==> cancelled || elapsed >= deadline,
        next_wait(cancelled, elapsed, deadline) is Some ==> {
            let wait = next_wait(cancelled, elapsed, deadline)->0;
            &&& elapsed + wait == deadline || wait == CANCELLATION_POLL_NANOSECONDS
            &&& wait <= deadline - elapsed
        },
{
}

} // verus!
