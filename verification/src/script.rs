use vstd::prelude::*;

use crate::engine::{
    spec_next_step, spec_on_applied, spec_on_page, spec_start, Engine, EngineModel, Step,
    PAGE_SIZE_CAP,
};
use crate::error::EngineError;
use crate::snowflake::Snowflake;

verus! {

/// The result of one request, as a transport stub scripts it. A reply
/// stands for the response left after rate-limit retries were absorbed.
#[derive(Debug)]
pub enum StubReply {
    /// A fetch returned this page of item identifiers, newest first.
    Page { items: Vec<Snowflake> },
    /// An action application succeeded.
    Applied,
    /// The request failed for good with this error.
    Broken { err: EngineError },
}

/// One request the engine issued during a run.
#[derive(Clone, Copy, Debug, PartialEq, Eq, Structural)]
pub enum Request {
    /// A page fetch: at most `page_size` items, strictly preceding `before`
    /// when it is set.
    FetchPage { page_size: usize, before: Option<Snowflake> },
    /// One action application to this item.
    Apply { item: Snowflake },
}

/// How a scripted run ended.
#[derive(Clone, Copy, Debug, PartialEq, Eq, Structural)]
pub enum Outcome {
    /// Every owed action was applied.
    Completed,
    /// A fetch returned no items while work remained: the collection is
    /// exhausted and the run ends early, without error.
    EndedEarly,
    /// A request failed; the run aborted there.
    Failed { err: EngineError },
    /// The scripted replies ran out before the run ended.
    ScriptEnded,
}

/// Replays a whole run against a script of replies, one reply per request
/// in order: the first component is the sequence of requests issued, the
/// second how the run ended. A fetch answered by anything but a page, or an
/// application answered by a page, is a malformed response body and fails
/// the run as a protocol error. A request that finds the script empty is
/// not issued.
pub open spec fn spec_run(m: EngineModel, replies: Seq<StubReply>) -> (Seq<Request>, Outcome)
    decreases replies.len(),
{
    match spec_next_step(m) {
        Step::Finished => (
            Seq::<Request>::empty(),
            if m.remaining == 0 {
                Outcome::Completed
            } else {
                Outcome::EndedEarly
            },
        ),
        Step::FetchPage { page_size, before } => {
            if replies.len() == 0 {
                (Seq::<Request>::empty(), Outcome::ScriptEnded)
            } else {
                let req = Request::FetchPage { page_size, before };
                match replies.first() {
                    StubReply::Page { items } => {
                        let rest = spec_run(spec_on_page(m, items@), replies.drop_first());
                        (seq![req] + rest.0, rest.1)
                    },
                    StubReply::Applied => (
                        seq![req],
                        Outcome::Failed { err: EngineError::Protocol },
                    ),
                    StubReply::Broken { err } => (seq![req], Outcome::Failed { err }),
                }
            }
        },
        Step::Apply { item } => {
            if replies.len() == 0 {
                (Seq::<Request>::empty(), Outcome::ScriptEnded)
            } else {
                let req = Request::Apply { item };
                match replies.first() {
                    StubReply::Applied => {
                        let rest = spec_run(spec_on_applied(m), replies.drop_first());
                        (seq![req] + rest.0, rest.1)
                    },
                    StubReply::Page { items } => (
                        seq![req],
                        Outcome::Failed { err: EngineError::Protocol },
                    ),
                    StubReply::Broken { err } => (seq![req], Outcome::Failed { err }),
                }
            }
        },
    }
}

/// Runs a whole bulk action against scripted replies: `limit` actions are
/// owed, `starting` is acted on before any fetch when given, and each
/// request consumes the next scripted reply. Returns the requests issued,
/// in order, and how the run ended.
pub fn run_script(limit: usize, starting: Option<Snowflake>, replies: Vec<StubReply>) -> (r: (
    Vec<Request>,
    Outcome,
))
    ensures
        r.0@ == spec_run(spec_start(limit, starting), replies@).0,
        r.1 == spec_run(spec_start(limit, starting), replies@).1,
{
    let ghost init = spec_start(limit, starting);
    let mut rest = replies;
    let mut engine = Engine::new(limit, starting);
    let mut trace: Vec<Request> = Vec::new();
    loop
        invariant
            engine.wf(),
            spec_run(init, replies@).0 == trace@ + spec_run(engine@, rest@).0,
            spec_run(init, replies@).1 == spec_run(engine@, rest@).1,
            init == spec_start(limit, starting),
        decreases rest@.len(),
    {
        let step = engine.next_step();
        match step {
            Step::Finished => {
                let outcome = if engine.remaining() == 0 {
                    Outcome::Completed
                } else {
                    Outcome::EndedEarly
                };
                proof {
                    assert(trace@ =~= trace@ + spec_run(engine@, rest@).0);
                }
                return (trace, outcome);
            },
            Step::FetchPage { page_size, before } => {
                if rest.len() == 0 {
                    proof {
                        assert(trace@ =~= trace@ + spec_run(engine@, rest@).0);
                    }
                    return (trace, Outcome::ScriptEnded);
                }
                let ghost replies_before = rest@;
                let reply = rest.remove(0);
                proof {
                    assert(rest@ =~= replies_before.drop_first());
                    assert(reply == replies_before.first());
                }
                let req = Request::FetchPage { page_size, before };
                trace.push(req);
                match reply {
                    StubReply::Page { items } => {
                        let ghost m = engine@;
                        engine.on_page(items);
                        proof {
                            assert(spec_run(m, replies_before).0 =~= seq![req] + spec_run(
                                engine@,
                                rest@,
                            ).0);
                            assert(trace@.drop_last() + spec_run(m, replies_before).0 =~= trace@
                                + spec_run(engine@, rest@).0);
                        }
                    },
                    StubReply::Applied => {
                        proof {
                            assert(spec_run(engine@, replies_before).0 =~= seq![req]);
                            assert(spec_run(init, replies@).0 =~= trace@);
                        }
                        return (trace, Outcome::Failed { err: EngineError::Protocol });
                    },
                    StubReply::Broken { err } => {
                        proof {
                            assert(spec_run(engine@, replies_before).0 =~= seq![req]);
                            assert(spec_run(init, replies@).0 =~= trace@);
                        }
                        return (trace, Outcome::Failed { err });
                    },
                }
            },
            Step::Apply { item } => {
                if rest.len() == 0 {
                    proof {
                        assert(trace@ =~= trace@ + spec_run(engine@, rest@).0);
                    }
                    return (trace, Outcome::ScriptEnded);
                }
                let ghost replies_before = rest@;
                let reply = rest.remove(0);
                proof {
                    assert(rest@ =~= replies_before.drop_first());
                    assert(reply == replies_before.first());
                }
                let req = Request::Apply { item };
                trace.push(req);
                match reply {
                    StubReply::Applied => {
                        let ghost m = engine@;
                        engine.on_applied();
                        proof {
                            assert(spec_run(m, replies_before).0 =~= seq![req] + spec_run(
                                engine@,
                                rest@,
                            ).0);
                            assert(trace@.drop_last() + spec_run(m, replies_before).0 =~= trace@
                                + spec_run(engine@, rest@).0);
                        }
                    },
                    StubReply::Page { items } => {
                        proof {
                            assert(spec_run(engine@, replies_before).0 =~= seq![req]);
                            assert(spec_run(init, replies@).0 =~= trace@);
                        }
                        return (trace, Outcome::Failed { err: EngineError::Protocol });
                    },
                    StubReply::Broken { err } => {
                        proof {
                            assert(spec_run(engine@, replies_before).0 =~= seq![req]);
                            assert(spec_run(init, replies@).0 =~= trace@);
                        }
                        return (trace, Outcome::Failed { err });
                    },
                }
            },
        }
    }
}

/// The identifier carried by the last `Apply` request of a trace, if any.
pub open spec fn last_applied(trace: Seq<Request>) -> Option<Snowflake>
    decreases trace.len(),
{
    if trace.len() == 0 {
        Option::None
    } else {
        match trace.last() {
            Request::Apply { item } => Option::Some(item),
            Request::FetchPage { .. } => last_applied(trace.drop_last()),
        }
    }
}

/// The fetch boundary after a trace: the last applied item, or the cursor
/// `c` the trace started from where nothing was applied in it.
pub open spec fn boundary(trace: Seq<Request>, c: Option<Snowflake>) -> Option<Snowflake> {
    match last_applied(trace) {
        Option::Some(s) => Option::Some(s),
        Option::None => c,
    }
}

proof fn lemma_boundary_push_front(r: Request, p: Seq<Request>, c: Option<Snowflake>)
    ensures
        boundary(seq![r] + p, c) == boundary(p, boundary(seq![r], c)),
    decreases p.len(),
{
    assert(seq![r].drop_last() =~= Seq::<Request>::empty());
    if p.len() == 0 {
        assert(seq![r] + p =~= seq![r]);
    } else {
        assert((seq![r] + p).last() == p.last());
        match p.last() {
            Request::Apply { item } => {},
            Request::FetchPage { .. } => {
                assert((seq![r] + p).drop_last() =~= seq![r] + p.drop_last());
                lemma_boundary_push_front(r, p.drop_last(), c);
            },
        }
    }
}

/// Law: the boundary of every fetch is the most recently applied item.
/// In any scripted run, the `before` parameter of each fetch request equals
/// the identifier carried by the last `Apply` request issued before it —
/// whether that item came from a page or was the caller-given starting item
/// — or the cursor the run began with where nothing was applied yet.
pub proof fn lemma_fetch_boundary(m: EngineModel, replies: Seq<StubReply>)
    ensures
        forall|i: int|
            0 <= i < spec_run(m, replies).0.len() && (#[trigger] spec_run(m, replies).0[i])
                is FetchPage ==> spec_run(m, replies).0[i]->before == boundary(
                spec_run(m, replies).0.take(i),
                m.cursor,
            ),
    decreases replies.len(),
{
    let trace = spec_run(m, replies).0;
    assert(trace.take(0) =~= Seq::<Request>::empty());
    match spec_next_step(m) {
        Step::Finished => {},
        Step::FetchPage { page_size, before } => {
            if replies.len() > 0 {
                let req = Request::FetchPage { page_size, before };
                assert(seq![req].drop_last() =~= Seq::<Request>::empty());
                match replies.first() {
                    StubReply::Page { items } => {
                        let m2 = spec_on_page(m, items@);
                        let rest = spec_run(m2, replies.drop_first()).0;
                        lemma_fetch_boundary(m2, replies.drop_first());
                        assert(trace =~= seq![req] + rest);
                        assert forall|i: int|
                            1 <= i < trace.len() && trace[i] is FetchPage implies trace[i]->before
                            == boundary(trace.take(i), m.cursor) by {
                            assert(trace[i] == rest[i - 1]);
                            assert(trace.take(i) =~= seq![req] + rest.take(i - 1));
                            lemma_boundary_push_front(req, rest.take(i - 1), m.cursor);
                            assert(seq![req].last() == req);
                            assert(last_applied(Seq::<Request>::empty()) is None);
                            assert(last_applied(seq![req]) is None);
                            assert(boundary(seq![req], m.cursor) == m.cursor);
                            assert(rest[i - 1] is FetchPage ==> rest[i - 1]->before == boundary(
                                rest.take(i - 1),
                                m2.cursor,
                            ));
                        }
                    },
                    StubReply::Applied => {},
                    StubReply::Broken { err } => {},
                }
            }
        },
        Step::Apply { item } => {
            if replies.len() > 0 {
                let req = Request::Apply { item };
                match replies.first() {
                    StubReply::Applied => {
                        let m2 = spec_on_applied(m);
                        let rest = spec_run(m2, replies.drop_first()).0;
                        lemma_fetch_boundary(m2, replies.drop_first());
                        assert(trace =~= seq![req] + rest);
                        assert(m2.cursor == Option::Some(item));
                        assert forall|i: int|
                            1 <= i < trace.len() && trace[i] is FetchPage implies trace[i]->before
                            == boundary(trace.take(i), m.cursor) by {
                            assert(trace[i] == rest[i - 1]);
                            assert(trace.take(i) =~= seq![req] + rest.take(i - 1));
                            lemma_boundary_push_front(req, rest.take(i - 1), m.cursor);
                            assert(boundary(seq![req], m.cursor) == Option::Some(item));
                            assert(rest[i - 1] is FetchPage ==> rest[i - 1]->before == boundary(
                                rest.take(i - 1),
                                m2.cursor,
                            ));
                        }
                    },
                    StubReply::Page { items } => {},
                    StubReply::Broken { err } => {},
                }
            }
        },
    }
}

/// Law: in a run from the start, where no boundary exists yet, the `before`
/// parameter of every fetch is exactly the identifier of the most recently
/// applied item, and the first fetch, issued before any application, has
/// none.
pub proof fn lemma_fetch_boundary_from_start(
    limit: usize,
    starting: Option<Snowflake>,
    replies: Seq<StubReply>,
)
    ensures
        forall|i: int|
            0 <= i < spec_run(spec_start(limit, starting), replies).0.len() && (#[trigger] spec_run(
                spec_start(limit, starting),
                replies,
            ).0[i]) is FetchPage ==> spec_run(spec_start(limit, starting), replies).0[i]->before
                == last_applied(spec_run(spec_start(limit, starting), replies).0.take(i)),
{
    lemma_fetch_boundary(spec_start(limit, starting), replies);
}

/// How many `Apply` requests a trace holds.
pub open spec fn applied_count(trace: Seq<Request>) -> int
    decreases trace.len(),
{
    if trace.len() == 0 {
        0
    } else {
        applied_count(trace.drop_last()) + if trace.last() is Apply {
            1int
        } else {
            0int
        }
    }
}

proof fn lemma_applied_count_push_front(r: Request, p: Seq<Request>)
    ensures
        applied_count(seq![r] + p) == applied_count(seq![r]) + applied_count(p),
    decreases p.len(),
{
    assert(seq![r].drop_last() =~= Seq::<Request>::empty());
    if p.len() == 0 {
        assert(seq![r] + p =~= seq![r]);
    } else {
        assert((seq![r] + p).last() == p.last());
        assert((seq![r] + p).drop_last() =~= seq![r] + p.drop_last());
        lemma_applied_count_push_front(r, p.drop_last());
    }
}

/// Law: the remaining-work counter bounds the run. A scripted run never
/// applies the action more often than the work still owed at its start, and
/// a run that completes applies it exactly that often.
pub proof fn lemma_limit_is_respected(m: EngineModel, replies: Seq<StubReply>)
    ensures
        applied_count(spec_run(m, replies).0) <= m.remaining,
        spec_run(m, replies).1 == Outcome::Completed ==> applied_count(spec_run(m, replies).0)
            == m.remaining,
    decreases replies.len(),
{
    let trace = spec_run(m, replies).0;
    match spec_next_step(m) {
        Step::Finished => {},
        Step::FetchPage { page_size, before } => {
            if replies.len() > 0 {
                let req = Request::FetchPage { page_size, before };
                assert(seq![req].drop_last() =~= Seq::<Request>::empty());
                assert(seq![req].last() == req);
                assert(applied_count(Seq::<Request>::empty()) == 0);
                assert(applied_count(seq![req]) == 0);
                match replies.first() {
                    StubReply::Page { items } => {
                        let m2 = spec_on_page(m, items@);
                        let rest = spec_run(m2, replies.drop_first()).0;
                        lemma_limit_is_respected(m2, replies.drop_first());
                        lemma_applied_count_push_front(req, rest);
                        assert(trace =~= seq![req] + rest);
                    },
                    StubReply::Applied => {},
                    StubReply::Broken { err } => {},
                }
            }
        },
        Step::Apply { item } => {
            if replies.len() > 0 {
                let req = Request::Apply { item };
                assert(seq![req].drop_last() =~= Seq::<Request>::empty());
                assert(seq![req].last() == req);
                assert(applied_count(Seq::<Request>::empty()) == 0);
                assert(applied_count(seq![req]) == 1);
                match replies.first() {
                    StubReply::Applied => {
                        let m2 = spec_on_applied(m);
                        let rest = spec_run(m2, replies.drop_first()).0;
                        lemma_limit_is_respected(m2, replies.drop_first());
                        lemma_applied_count_push_front(req, rest);
                        assert(trace =~= seq![req] + rest);
                    },
                    StubReply::Page { items } => {},
                    StubReply::Broken { err } => {},
                }
            }
        },
    }
}

/// Law: every fetch is well formed. Whatever the script, each fetch request
/// of a run asks for at least one item and never more than the remote
/// service's page cap.
pub proof fn lemma_fetch_sizes_bounded(m: EngineModel, replies: Seq<StubReply>)
    ensures
        forall|i: int|
            0 <= i < spec_run(m, replies).0.len() && (#[trigger] spec_run(m, replies).0[i])
                is FetchPage ==> 1 <= spec_run(m, replies).0[i]->page_size <= PAGE_SIZE_CAP,
    decreases replies.len(),
{
    let trace = spec_run(m, replies).0;
    match spec_next_step(m) {
        Step::Finished => {},
        Step::FetchPage { page_size, before } => {
            if replies.len() > 0 {
                let req = Request::FetchPage { page_size, before };
                match replies.first() {
                    StubReply::Page { items } => {
                        let rest = spec_run(spec_on_page(m, items@), replies.drop_first()).0;
                        lemma_fetch_sizes_bounded(spec_on_page(m, items@), replies.drop_first());
                        assert(trace =~= seq![req] + rest);
                        assert(forall|i: int|
                            1 <= i < trace.len() ==> trace[i] == #[trigger] rest[i - 1]);
                    },
                    StubReply::Applied => {},
                    StubReply::Broken { err } => {},
                }
            }
        },
        Step::Apply { item } => {
            if replies.len() > 0 {
                let req = Request::Apply { item };
                match replies.first() {
                    StubReply::Applied => {
                        let rest = spec_run(spec_on_applied(m), replies.drop_first()).0;
                        lemma_fetch_sizes_bounded(spec_on_applied(m), replies.drop_first());
                        assert(trace =~= seq![req] + rest);
                        assert(forall|i: int|
                            1 <= i < trace.len() ==> trace[i] == #[trigger] rest[i - 1]);
                    },
                    StubReply::Page { items } => {},
                    StubReply::Broken { err } => {},
                }
            }
        },
    }
}

/// Law: an empty page ends the run at once and without error. When a fetch
/// is due and returns no items, the engine's next step is `Finished`, and
/// however the rest of the script reads, the run issues no further request
/// and ends early rather than refetching the same boundary forever.
pub proof fn lemma_empty_page_ends_run(m: EngineModel, replies: Seq<StubReply>)
    requires
        spec_next_step(m) is FetchPage,
    ensures
        spec_next_step(spec_on_page(m, Seq::<Snowflake>::empty())) is Finished,
        spec_run(spec_on_page(m, Seq::<Snowflake>::empty()), replies).0
            == Seq::<Request>::empty(),
        spec_run(spec_on_page(m, Seq::<Snowflake>::empty()), replies).1 == Outcome::EndedEarly,
{
}

} // verus!

