use vstd::prelude::*;

use crate::snowflake::Snowflake;

verus! {

/// Fixed pacing delay, in milliseconds, that the caller waits after every
/// successful action application, to pre-emptively avoid the rate limit.
pub const ACTION_DELAY_MS: u64 = 500;

/// Hard upper bound the remote service puts on the size of one page.
pub const PAGE_SIZE_CAP: usize = 100;

/// What the engine asks its caller to do next.
#[derive(Clone, Copy, Debug, PartialEq, Eq, Structural)]
pub enum Step {
    /// Fetch one page of item identifiers, newest first: at most `page_size`
    /// items, and only items strictly preceding `before` when it is set.
    /// An absent `before` asks for the most recent page.
    FetchPage { page_size: usize, before: Option<Snowflake> },
    /// Apply the action to this item.
    Apply { item: Snowflake },
    /// The run is over: the limit is used up, or a fetch came back empty.
    Finished,
}

/// The abstract iteration state of one run; the engine's contracts are
/// stated over it.
#[verifier::ext_equal]
pub ghost struct EngineModel {
    /// Actions still owed; the run completes when it reaches zero.
    pub remaining: nat,
    /// Identifier of the most recently applied item, used as the `before`
    /// boundary of the next fetch; `None` means "start from the most recent
    /// item in the collection".
    pub cursor: Option<Snowflake>,
    /// A caller-given item to act on before any fetch, still unapplied.
    pub seed: Option<Snowflake>,
    /// Items fetched and not yet acted on, in the order received.
    pub pending: Seq<Snowflake>,
    /// A fetch returned no items: the collection is exhausted and the run
    /// ends early, without error.
    pub stopped: bool,
}

/// The page size of the next fetch: all the remaining work if it fits in
/// one page, else the hard page cap.
pub open spec fn spec_page_size(remaining: nat) -> usize {
    if remaining < PAGE_SIZE_CAP {
        remaining as usize
    } else {
        PAGE_SIZE_CAP
    }
}

/// The item the next `Apply` step acts on: the caller-given starting item
/// if it is still unapplied, else the first pending fetched item.
pub open spec fn spec_apply_target(m: EngineModel) -> Snowflake
    recommends
        m.seed is Some || m.pending.len() > 0,
{
    match m.seed {
        Option::Some(s) => s,
        Option::None => m.pending.first(),
    }
}

/// What to do next: nothing once the limit is used up or a fetch came back
/// empty; else apply the action to the starting item or to the next pending
/// item; else fetch a page bounded by the remaining work and the page cap,
/// starting strictly before the most recently applied item.
pub open spec fn spec_next_step(m: EngineModel) -> Step {
    if m.remaining == 0 || m.stopped {
        Step::Finished
    } else if m.seed is Some || m.pending.len() > 0 {
        Step::Apply { item: spec_apply_target(m) }
    } else {
        Step::FetchPage { page_size: spec_page_size(m.remaining), before: m.cursor }
    }
}

/// The state right after a fetch returns `items`: an empty page stops the
/// run; otherwise the items become the pending work, in the order received.
/// The cursor does not move on a fetch.
pub open spec fn spec_on_page(m: EngineModel, items: Seq<Snowflake>) -> EngineModel {
    if items.len() == 0 {
        EngineModel { stopped: true, ..m }
    } else {
        EngineModel { pending: items, ..m }
    }
}

/// The state right after the action was applied to `spec_apply_target(m)`:
/// that item is consumed, the cursor moves to it, and one unit of remaining
/// work is paid.
pub open spec fn spec_on_applied(m: EngineModel) -> EngineModel
    recommends
        spec_next_step(m) is Apply,
{
    EngineModel {
        remaining: (m.remaining - 1) as nat,
        cursor: Option::Some(spec_apply_target(m)),
        seed: Option::None,
        pending: if m.seed is Some {
            m.pending
        } else {
            m.pending.drop_first()
        },
        stopped: m.stopped,
    }
}

/// The starting state: the whole caller-given limit is owed, no boundary,
/// and the caller-given starting item (if any) is to be acted on before any
/// fetch.
pub open spec fn spec_start(limit: usize, starting: Option<Snowflake>) -> EngineModel {
    EngineModel {
        remaining: limit as nat,
        cursor: Option::None,
        seed: starting,
        pending: Seq::<Snowflake>::empty(),
        stopped: false,
    }
}

/// The engine of one run: it decides which request to issue next and how
/// the cursor and the remaining-work counter advance when the caller
/// reports the result. It does no I/O of its own.
pub struct Engine {
    remaining: usize,
    cursor: Option<Snowflake>,
    seed: Option<Snowflake>,
    page: Vec<Snowflake>,
    next_idx: usize,
    stopped: bool,
}

impl View for Engine {
    type V = EngineModel;

    closed spec fn view(&self) -> EngineModel {
        EngineModel {
            remaining: self.remaining as nat,
            cursor: self.cursor,
            seed: self.seed,
            pending: self.page@.subrange(self.next_idx as int, self.page@.len() as int),
            stopped: self.stopped,
        }
    }
}

impl Engine {
    /// The representation is sound: the pending window lies inside the
    /// fetched page.
    pub closed spec fn wf(self) -> bool {
        self.next_idx <= self.page@.len()
    }

    /// Starts a run that owes `limit` actions, optionally acting on
    /// `starting` before any fetch.
    pub fn new(limit: usize, starting: Option<Snowflake>) -> (e: Engine)
        ensures
            e.wf(),
            e@ == spec_start(limit, starting),
    {
        let e = Engine {
            remaining: limit,
            cursor: Option::None,
            seed: starting,
            page: Vec::new(),
            next_idx: 0,
            stopped: false,
        };
        proof {
            assert(e@ =~= spec_start(limit, starting));
        }
        e
    }

    /// Actions still owed.
    pub fn remaining(&self) -> (r: usize)
        ensures
            r == self@.remaining,
    {
        self.remaining
    }

    /// The `before` boundary the next fetch would use: the most recently
    /// applied item, if any.
    pub fn cursor(&self) -> (c: Option<Snowflake>)
        ensures
            c == self@.cursor,
    {
        self.cursor
    }

    /// What the caller should do next.
    pub fn next_step(&self) -> (s: Step)
        requires
            self.wf(),
        ensures
            s == spec_next_step(self@),
    {
        if self.remaining == 0 || self.stopped {
            Step::Finished
        } else if let Option::Some(s) = self.seed {
            Step::Apply { item: s }
        } else if self.next_idx < self.page.len() {
            Step::Apply { item: self.page[self.next_idx] }
        } else {
            let page_size = if self.remaining < PAGE_SIZE_CAP {
                self.remaining
            } else {
                PAGE_SIZE_CAP
            };
            Step::FetchPage { page_size, before: self.cursor }
        }
    }

    /// Reports the items one fetch returned, in the order received.
    pub fn on_page(&mut self, items: Vec<Snowflake>)
        requires
            old(self).wf(),
            spec_next_step(old(self)@) is FetchPage,
        ensures
            final(self).wf(),
            final(self)@ == spec_on_page(old(self)@, items@),
    {
        if items.len() == 0 {
            self.stopped = true;
            proof {
                assert(self@ =~= spec_on_page(old(self)@, items@));
            }
        } else {
            self.page = items;
            self.next_idx = 0;
            proof {
                assert(self@.pending =~= self.page@);
                assert(self@ =~= spec_on_page(old(self)@, self.page@));
            }
        }
    }

    /// Reports that the action was applied to the item of the current
    /// `Apply` step: the cursor moves to that item and one unit of
    /// remaining work is paid.
    pub fn on_applied(&mut self)
        requires
            old(self).wf(),
            spec_next_step(old(self)@) is Apply,
        ensures
            final(self).wf(),
            final(self)@ == spec_on_applied(old(self)@),
    {
        if let Option::Some(s) = self.seed {
            self.seed = Option::None;
            self.cursor = Option::Some(s);
        } else {
            proof {
                assert(old(self)@.pending.len() > 0);
            }
            let n = self.page.len();
            assert(self.next_idx < n);
            let item = self.page[self.next_idx];
            self.next_idx = self.next_idx + 1;
            self.cursor = Option::Some(item);
            proof {
                assert(self@.pending =~= old(self)@.pending.drop_first());
            }
        }
        self.remaining = self.remaining - 1;
        proof {
            assert(self@ =~= spec_on_applied(old(self)@));
        }
    }
}

} // verus!
