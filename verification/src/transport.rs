use vstd::prelude::*;

use crate::error::EngineError;

verus! {

/// One observed HTTP response, as the throttling layer sees it: the status
/// code and, when the status is 429, the server-supplied wait parsed from the
/// body and already converted to whole milliseconds (seconds times 1000,
/// truncated toward zero), or `None` when the body could not be parsed.
/// For any other status the wait field is ignored.
#[derive(Clone, Copy, Debug, PartialEq, Eq, Structural)]
pub struct TransportReply {
    pub status: u16,
    pub retry_after_ms: Option<u64>,
}

/// What to do with one response.
#[derive(Clone, Copy, Debug, PartialEq, Eq, Structural)]
pub enum ThrottleStep {
    /// The response is not an error: hand it to the caller.
    Proceed,
    /// A rate-limit response: wait this many milliseconds, rebuild the
    /// request, and send it again.
    Sleep { ms: u64 },
    /// A non-retryable failure: abort with this error.
    Fail { err: EngineError },
}

/// How one response is handled: a 429 is absorbed by sleeping for the
/// server-supplied wait and retrying (or is a protocol error when the wait
/// cannot be read from the body); any other 4xx/5xx fails at once with no
/// retry; everything else is handed to the caller.
pub open spec fn spec_throttle_decision(reply: TransportReply) -> ThrottleStep {
    if reply.status == 429 {
        match reply.retry_after_ms {
            Option::Some(ms) => ThrottleStep::Sleep { ms },
            Option::None => ThrottleStep::Fail { err: EngineError::Protocol },
        }
    } else if 400 <= reply.status && reply.status < 600 {
        ThrottleStep::Fail { err: EngineError::Http { status: reply.status } }
    } else {
        ThrottleStep::Proceed
    }
}

/// Decides what to do with one response.
pub fn throttle_decision(reply: TransportReply) -> (step: ThrottleStep)
    ensures
        step == spec_throttle_decision(reply),
{
    if reply.status == 429 {
        match reply.retry_after_ms {
            Option::Some(ms) => ThrottleStep::Sleep { ms },
            Option::None => ThrottleStep::Fail { err: EngineError::Protocol },
        }
    } else if 400 <= reply.status && reply.status < 600 {
        ThrottleStep::Fail { err: EngineError::Http { status: reply.status } }
    } else {
        ThrottleStep::Proceed
    }
}

/// How one logical request ends.
#[derive(Clone, Copy, Debug, PartialEq, Eq, Structural)]
pub enum ThrottleOutcome {
    /// A response was accepted after every earlier one was a 429.
    Accepted,
    /// A response failed the request for good.
    Refused { err: EngineError },
    /// The scripted replies ran out while the driver still wanted to retry.
    ScriptEnded,
}

/// Replays the retry loop for one logical request against a script of
/// responses: the first component lists the waits slept through, one per
/// absorbed 429 in order; the second says how the request ended. The
/// response accepted or refused is the one after the last absorbed 429.
pub open spec fn spec_drive(replies: Seq<TransportReply>) -> (Seq<u64>, ThrottleOutcome)
    decreases replies.len(),
{
    if replies.len() == 0 {
        (Seq::<u64>::empty(), ThrottleOutcome::ScriptEnded)
    } else {
        match spec_throttle_decision(replies.first()) {
            ThrottleStep::Proceed => (Seq::<u64>::empty(), ThrottleOutcome::Accepted),
            ThrottleStep::Fail { err } => (
                Seq::<u64>::empty(),
                ThrottleOutcome::Refused { err },
            ),
            ThrottleStep::Sleep { ms } => {
                let rest = spec_drive(replies.drop_first());
                (seq![ms] + rest.0, rest.1)
            },
        }
    }
}

fn drive_from(replies: &Vec<TransportReply>, i: usize) -> (r: (Vec<u64>, ThrottleOutcome))
    requires
        i <= replies@.len(),
    ensures
        r.0@ == spec_drive(replies@.skip(i as int)).0,
        r.1 == spec_drive(replies@.skip(i as int)).1,
    decreases replies@.len() - i,
{
    if i == replies.len() {
        proof {
            assert(replies@.skip(i as int) =~= Seq::<TransportReply>::empty());
            assert(Seq::<u64>::empty() =~= spec_drive(replies@.skip(i as int)).0);
        }
        (Vec::new(), ThrottleOutcome::ScriptEnded)
    } else {
        let step = throttle_decision(replies[i]);
        proof {
            assert(replies@.skip(i as int).first() == replies@[i as int]);
            assert(replies@.skip(i as int).drop_first() =~= replies@.skip(i + 1 as int));
        }
        match step {
            ThrottleStep::Proceed => {
                proof {
                    assert(Seq::<u64>::empty() =~= spec_drive(replies@.skip(i as int)).0);
                }
                (Vec::new(), ThrottleOutcome::Accepted)
            },
            ThrottleStep::Fail { err } => {
                proof {
                    assert(Seq::<u64>::empty() =~= spec_drive(replies@.skip(i as int)).0);
                }
                (Vec::new(), ThrottleOutcome::Refused { err })
            },
            ThrottleStep::Sleep { ms } => {
                let r = drive_from(replies, i + 1);
                let mut sleeps = r.0;
                sleeps.insert(0, ms);
                proof {
                    assert(sleeps@ =~= seq![ms] + spec_drive(replies@.skip(i + 1 as int)).0);
                }
                (sleeps, r.1)
            },
        }
    }
}

/// Replays the retry loop for one logical request against scripted
/// responses, absorbing every leading 429.
pub fn drive_throttle(replies: &Vec<TransportReply>) -> (r: (Vec<u64>, ThrottleOutcome))
    ensures
        r.0@ == spec_drive(replies@).0,
        r.1 == spec_drive(replies@).1,
{
    proof {
        assert(replies@.skip(0) =~= replies@);
    }
    drive_from(replies, 0)
}

/// Law: a rate-limit response is never surfaced. Whatever the script, when
/// the driver refuses a request the error is never an HTTP error with
/// status 429: every 429 is either absorbed by a retry or reported as a
/// protocol error about its unreadable body.
pub proof fn lemma_rate_limit_absorbed(replies: Seq<TransportReply>)
    ensures
        spec_drive(replies).1 matches ThrottleOutcome::Refused { err } ==> !(err matches
            EngineError::Http { status } && status == 429),
    decreases replies.len(),
{
    if replies.len() > 0 {
        match spec_throttle_decision(replies.first()) {
            ThrottleStep::Sleep { ms } => {
                lemma_rate_limit_absorbed(replies.drop_first());
            },
            _ => {},
        }
    }
}

} // verus!
