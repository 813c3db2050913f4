use vstd::prelude::*;

verus! {

/// What a stage reports to the tracker about a unit of work. A unit is born
/// with a request, lives on as that request's response, and either ends or
/// turns into the successor request.
#[derive(Debug, Clone, Copy, PartialEq, Eq)]
pub enum Event {
    /// The seeder put a request on the request queue.
    Seeded,
    /// The seeder has emitted all of its requests.
    SeedingDone,
    /// The fetcher could not read a request's resource.
    FetchFailed,
    /// The extractor emitted a record; `successor` says whether it also put
    /// the next page's request on the request queue.
    Extracted { successor: bool },
    /// The extractor could not decode a response.
    Rejected,
}

/// Counts the units of work still in flight so that the request queue is
/// closed exactly when no stage can produce another request.
#[derive(Debug, Clone, Copy, PartialEq, Eq)]
pub struct WorkTracker {
    pub seeding_done: bool,
    pub outstanding: u64,
}

/// The tracker's state as mathematical values.
pub struct TrackerState {
    pub seeding_done: bool,
    pub outstanding: nat,
}

impl View for WorkTracker {
    type V = TrackerState;

    open spec fn view(&self) -> TrackerState {
        TrackerState { seeding_done: self.seeding_done, outstanding: self.outstanding as nat }
    }
}

/// The events a state accepts: an end of work needs work in flight, and no
/// request is seeded after seeding is done.
pub open spec fn accepts(s: TrackerState, e: Event) -> bool {
    match e {
        Event::Seeded => !s.seeding_done,
        Event::SeedingDone => true,
        Event::FetchFailed | Event::Rejected => s.outstanding > 0,
        Event::Extracted { successor } => s.outstanding > 0,
    }
}

pub open spec fn step(s: TrackerState, e: Event) -> TrackerState {
    match e {
        Event::Seeded => TrackerState { outstanding: s.outstanding + 1, ..s },
        Event::SeedingDone => TrackerState { seeding_done: true, ..s },
        Event::FetchFailed | Event::Rejected => TrackerState {
            outstanding: (s.outstanding - 1) as nat,
            ..s
        },
        Event::Extracted { successor } => if successor {
            s
        } else {
            TrackerState { outstanding: (s.outstanding - 1) as nat, ..s }
        },
    }
}

/// No more requests can come: the request queue may close.
pub open spec fn drained(s: TrackerState) -> bool {
    s.seeding_done && s.outstanding == 0
}

/// Applies the events in order, as far as each is accepted.
pub open spec fn run(s: TrackerState, es: Seq<Event>) -> TrackerState
    decreases es.len(),
{
    if es.len() == 0 {
        s
    } else {
        run(step(s, es[0]), es.drop_first())
    }
}

pub open spec fn runs(s: TrackerState, es: Seq<Event>) -> bool
    decreases es.len(),
{
    es.len() == 0 || (accepts(s, es[0]) && runs(step(s, es[0]), es.drop_first()))
}

/// The events of one chain of `n` pages, after its first request: each page
/// but the last yields a record and a successor, and the last ends the chain
/// with `last`.
pub open spec fn chain_events(n: nat, last: Event) -> Seq<Event>
    decreases n,
{
    if n <= 1 {
        seq![last]
    } else {
        seq![Event::Extracted { successor: true }] + chain_events((n - 1) as nat, last)
    }
}

/// How the last page of a chain can end: a record with no successor, a
/// failed read, or a malformed record.
pub open spec fn ends_chain(e: Event) -> bool {
    e == Event::Extracted { successor: false } || e == Event::FetchFailed || e == Event::Rejected
}

pub open spec fn records(es: Seq<Event>) -> nat
    decreases es.len(),
{
    if es.len() == 0 {
        0
    } else {
        (if es[0] is Extracted { 1nat } else { 0nat }) + records(es.drop_first())
    }
}

pub open spec fn successors(es: Seq<Event>) -> nat
    decreases es.len(),
{
    if es.len() == 0 {
        0
    } else {
        (if es[0] == (Event::Extracted { successor: true }) { 1nat } else { 0nat }) + successors(
            es.drop_first(),
        )
    }
}

impl WorkTracker {
    pub fn new() -> (r: WorkTracker)
        ensures
            !r@.seeding_done,
            r@.outstanding == 0,
    {
        WorkTracker { seeding_done: false, outstanding: 0 }
    }

    /// Records an event; the count of units in flight follows `step`.
    pub fn record(&mut self, e: Event)
        requires
            accepts(old(self)@, e),
            e == Event::Seeded ==> old(self).outstanding < u64::MAX,
        ensures
            final(self)@ == step(old(self)@, e),
    {
        match e {
            Event::Seeded => self.outstanding = self.outstanding + 1,
            Event::SeedingDone => self.seeding_done = true,
            Event::FetchFailed | Event::Rejected => self.outstanding = self.outstanding - 1,
            Event::Extracted { successor } => {
                if !successor {
                    self.outstanding = self.outstanding - 1;
                }
            },
        }
    }

    /// Whether the request queue may be closed.
    pub fn is_drained(&self) -> (r: bool)
        ensures
            r == drained(self@),
    {
        self.seeding_done && self.outstanding == 0
    }
}

/// A chain of `n` pages, started by a request in flight, is accepted in
/// full; when it has run, one unit of work fewer is in flight, and it has
/// emitted `n` records when it ends in a sentinel, and `n - 1` successor
/// requests in every case.
pub proof fn lemma_chain_ends(s: TrackerState, n: nat, last: Event)
    requires
        s.outstanding > 0,
        n >= 1,
        ends_chain(last),
    ensures
        runs(s, chain_events(n, last)),
        run(s, chain_events(n, last)) == (TrackerState {
            outstanding: (s.outstanding - 1) as nat,
            ..s
        }),
        successors(chain_events(n, last)) == n - 1,
        last == (Event::Extracted { successor: false }) ==> records(chain_events(n, last)) == n,
        last != (Event::Extracted { successor: false }) ==> records(chain_events(n, last)) == n - 1,
    decreases n,
{
    let es = chain_events(n, last);
    if n <= 1 {
        assert(es.drop_first() =~= Seq::<Event>::empty());
        assert(es[0] == last);
        assert(step(s, last) == (TrackerState { outstanding: (s.outstanding - 1) as nat, ..s }));
        assert(run(step(s, last), es.drop_first()) == step(s, last));
        assert(runs(step(s, last), es.drop_first()));
        assert(successors(es.drop_first()) == 0 && records(es.drop_first()) == 0);
    } else {
        lemma_chain_ends(s, (n - 1) as nat, last);
        assert(es.drop_first() =~= chain_events((n - 1) as nat, last));
        assert(step(s, es[0]) == s);
    }
}

/// Once seeding is done, `k` chains in flight that each run to an end leave
/// the tracker drained: the request queue closes and the pipeline stops.
pub proof fn lemma_chains_drain(s: TrackerState, lens: Seq<nat>, lasts: Seq<Event>)
    requires
        s.seeding_done,
        s.outstanding == lens.len(),
        lasts.len() == lens.len(),
        forall|i: int| 0 <= i < lens.len() ==> #[trigger] lens[i] >= 1,
        forall|i: int| 0 <= i < lasts.len() ==> ends_chain(#[trigger] lasts[i]),
    ensures
        runs(s, all_chains(lens, lasts)),
        drained(run(s, all_chains(lens, lasts))),
    decreases lens.len(),
{
    if lens.len() > 0 {
        let first = chain_events(lens[0], lasts[0]);
        let rest = all_chains(lens.drop_first(), lasts.drop_first());
        lemma_chain_ends(s, lens[0], lasts[0]);
        let mid = run(s, first);
        assert(lens.drop_first().len() == lens.len() - 1);
        assert forall|i: int| 0 <= i < lens.drop_first().len() implies #[trigger] lens.drop_first()[i] >= 1 by {
            assert(lens.drop_first()[i] == lens[i + 1]);
        }
        assert forall|i: int| 0 <= i < lasts.drop_first().len() implies ends_chain(#[trigger] lasts.drop_first()[i]) by {
            assert(lasts.drop_first()[i] == lasts[i + 1]);
        }
        lemma_chains_drain(mid, lens.drop_first(), lasts.drop_first());
        lemma_run_append(s, first, rest);
    }
}

/// The events of the chains one after another.
pub open spec fn all_chains(lens: Seq<nat>, lasts: Seq<Event>) -> Seq<Event>
    decreases lens.len(),
{
    if lens.len() == 0 || lasts.len() == 0 {
        seq![]
    } else {
        chain_events(lens[0], lasts[0]) + all_chains(lens.drop_first(), lasts.drop_first())
    }
}

/// Running two sequences of events one after the other is running their
/// concatenation.
pub proof fn lemma_run_append(s: TrackerState, a: Seq<Event>, b: Seq<Event>)
    ensures
        run(s, a + b) == run(run(s, a), b),
        runs(s, a) && runs(run(s, a), b) ==> runs(s, a + b),
    decreases a.len(),
{
    if a.len() == 0 {
        assert(a + b =~= b);
    } else {
        assert((a + b).drop_first() =~= a.drop_first() + b);
        lemma_run_append(step(s, a[0]), a.drop_first(), b);
    }
}

} // verus!
