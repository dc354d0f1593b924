use vstd::prelude::*;

verus! {

/// Why one bump cycle ended without a next time.
#[derive(Clone, Copy, Debug, PartialEq, Eq, Structural)]
pub enum BumpError {
    /// The remote could not be reached, or its answer could not be read.
    Remote,
    /// The bump request came back with a status other than 200.
    Status(u16),
    /// The thread showed no cooldown right after a successful bump.
    MissingTimestamp,
}

/// What the outside world reports back to a cycle.
#[derive(Clone, Copy, Debug, PartialEq, Eq)]
pub enum Event {
    /// The thread was fetched; the cooldown's end, if the remote reports one.
    Fetched(Option<i64>),
    /// The bump request returned this HTTP status.
    Bumped(u16),
    /// The last request failed in transport or decoding.
    RemoteFailed,
}

/// What the cycle asks the outside world to do next.
#[derive(Clone, Copy, Debug, PartialEq, Eq)]
pub enum Action {
    FetchThread,
    Bump,
    /// The cycle is over: the next due time and whether a bump was made.
    Finish(Result<(i64, bool), BumpError>),
}

#[derive(Clone, Copy, Debug, PartialEq, Eq, Structural)]
pub enum Phase {
    /// Waiting for the first fetch of the thread.
    Checking,
    /// Waiting for the status of the bump request.
    Bumping,
    /// Waiting for the fetch made after the bump.
    Verifying,
    Done,
}

/// Whether a cycle in `p` can take the event.
pub open spec fn accepts_spec(p: Phase, ev: Event) -> bool {
    match p {
        Phase::Checking => ev is Fetched || ev is RemoteFailed,
        Phase::Bumping => ev is Bumped || ev is RemoteFailed,
        Phase::Verifying => ev is Fetched || ev is RemoteFailed,
        Phase::Done => false,
    }
}

/// One transition: check the cooldown, bump only when there is none, then
/// read the new cooldown.
pub open spec fn step_spec(p: Phase, ev: Event) -> (Phase, Action) {
    match (p, ev) {
        (_, Event::RemoteFailed) => (Phase::Done, Action::Finish(Err(BumpError::Remote))),
        (Phase::Checking, Event::Fetched(Some(t))) => (Phase::Done, Action::Finish(Ok((t, false)))),
        (Phase::Checking, Event::Fetched(None)) => (Phase::Bumping, Action::Bump),
        (Phase::Bumping, Event::Bumped(status)) => if status == 200 {
            (Phase::Verifying, Action::FetchThread)
        } else {
            (Phase::Done, Action::Finish(Err(BumpError::Status(status))))
        },
        (Phase::Verifying, Event::Fetched(Some(t))) => (Phase::Done, Action::Finish(Ok((t, true)))),
        (Phase::Verifying, Event::Fetched(None)) => (
            Phase::Done,
            Action::Finish(Err(BumpError::MissingTimestamp)),
        ),
        _ => (Phase::Done, Action::Finish(Err(BumpError::Remote))),
    }
}

/// The actions that a cycle in `p` asks for, one per event; `None` where an
/// event comes that the cycle cannot take.
pub open spec fn run_from(p: Phase, evs: Seq<Event>) -> Option<Seq<Action>>
    decreases evs.len(),
{
    if evs.len() == 0 {
        Some(Seq::empty())
    } else if !accepts_spec(p, evs[0]) {
        None
    } else {
        let (q, a) = step_spec(p, evs[0]);
        match run_from(q, evs.drop_first()) {
            Some(rest) => Some(seq![a] + rest),
            None => None,
        }
    }
}

/// One bump cycle of one thread. A new cycle first asks for `FetchThread`.
pub struct BumpCycle {
    pub thread_id: i64,
    pub phase: Phase,
}

impl BumpCycle {
    pub fn new(thread_id: i64) -> (r: (Self, Action))
        ensures
            r.0.thread_id == thread_id,
            r.0.phase == Phase::Checking,
            r.1 == Action::FetchThread,
    {
        (BumpCycle { thread_id, phase: Phase::Checking }, Action::FetchThread)
    }

    pub fn is_done(&self) -> (r: bool)
        ensures
            r == (self.phase == Phase::Done),
    {
        self.phase == Phase::Done
    }

    pub fn accepts(&self, ev: Event) -> (r: bool)
        ensures
            r == accepts_spec(self.phase, ev),
    {
        match self.phase {
            Phase::Checking => matches!(ev, Event::Fetched(_) | Event::RemoteFailed),
            Phase::Bumping => matches!(ev, Event::Bumped(_) | Event::RemoteFailed),
            Phase::Verifying => matches!(ev, Event::Fetched(_) | Event::RemoteFailed),
            Phase::Done => false,
        }
    }

    /// Takes the outcome of the last action and returns the next one.
    pub fn on_event(&mut self, ev: Event) -> (a: Action)
        requires
            accepts_spec(old(self).phase, ev),
        ensures
            final(self).thread_id == old(self).thread_id,
            (final(self).phase, a) == step_spec(old(self).phase, ev),
    {
        let (p, a) = match (self.phase, ev) {
            (_, Event::RemoteFailed) => (Phase::Done, Action::Finish(Err(BumpError::Remote))),
            (Phase::Checking, Event::Fetched(Some(t))) => (
                Phase::Done,
                Action::Finish(Ok((t, false))),
            ),
            (Phase::Checking, Event::Fetched(None)) => (Phase::Bumping, Action::Bump),
            (Phase::Bumping, Event::Bumped(status)) => if status == 200 {
                (Phase::Verifying, Action::FetchThread)
            } else {
                (Phase::Done, Action::Finish(Err(BumpError::Status(status))))
            },
            (Phase::Verifying, Event::Fetched(Some(t))) => (
                Phase::Done,
                Action::Finish(Ok((t, true))),
            ),
            (Phase::Verifying, Event::Fetched(None)) => (
                Phase::Done,
                Action::Finish(Err(BumpError::MissingTimestamp)),
            ),
            _ => (Phase::Done, Action::Finish(Err(BumpError::Remote))),
        };
        self.phase = p;
        a
    }
}

/// A finished cycle takes no further event, so it asks for nothing more.
proof fn lemma_done_runs_nothing(evs: Seq<Event>)
    requires
        run_from(Phase::Done, evs) is Some,
    ensures
        evs.len() == 0,
{
}

/// When the first fetch reports a cooldown, the cycle ends with that time and
/// `false`, and no action of the whole run is a bump.
pub proof fn lemma_no_bump_on_cooldown(evs: Seq<Event>, t: i64)
    requires
        evs.len() > 0,
        evs[0] == Event::Fetched(Some(t)),
        run_from(Phase::Checking, evs) is Some,
    ensures
        run_from(Phase::Checking, evs) == Some(seq![Action::Finish(Ok((t, false)))]),
        forall|i: int|
            0 <= i < run_from(Phase::Checking, evs)->0.len() ==> run_from(Phase::Checking, evs)->0[i]
                != Action::Bump,
{
    let rest = evs.drop_first();
    assert(step_spec(Phase::Checking, evs[0]) == (Phase::Done, Action::Finish(Ok((t, false)))));
    assert(run_from(Phase::Done, rest) is Some);
    lemma_done_runs_nothing(rest);
    assert(rest =~= Seq::<Event>::empty());
    assert(run_from(Phase::Done, rest) == Some(Seq::<Action>::empty()));
    assert(seq![Action::Finish(Ok((t, false)))] + Seq::<Action>::empty() =~= seq![
        Action::Finish(Ok((t, false))),
    ]);
}

/// No cooldown, a bump answered with 200, then cooldown `t`: the cycle bumps,
/// fetches again and ends with `(t, true)`.
pub proof fn lemma_bump_then_reschedule(t: i64)
    ensures
        run_from(Phase::Checking, seq![Event::Fetched(None), Event::Bumped(200), Event::Fetched(Some(t))])
            == Some(seq![Action::Bump, Action::FetchThread, Action::Finish(Ok((t, true)))]),
{
    let evs = seq![Event::Fetched(None), Event::Bumped(200), Event::Fetched(Some(t))];
    let e1 = evs.drop_first();
    let e2 = e1.drop_first();
    let e3 = e2.drop_first();
    assert(e3 =~= Seq::<Event>::empty());
    assert(e2 =~= seq![Event::Fetched(Some(t))]);
    assert(e1 =~= seq![Event::Bumped(200), Event::Fetched(Some(t))]);
    assert(run_from(Phase::Done, e3) == Some(Seq::<Action>::empty()));
    assert(e2[0] == Event::Fetched(Some(t)));
    assert(run_from(Phase::Verifying, e2) == Some(seq![Action::Finish(Ok((t, true)))])) by {
        assert(seq![Action::Finish(Ok((t, true)))] + Seq::<Action>::empty() =~= seq![
            Action::Finish(Ok((t, true))),
        ]);
    }
    assert(run_from(Phase::Bumping, e1) == Some(seq![Action::FetchThread, Action::Finish(Ok((t, true)))])) by {
        assert(seq![Action::FetchThread] + seq![Action::Finish(Ok((t, true)))] =~= seq![
            Action::FetchThread,
            Action::Finish(Ok((t, true))),
        ]);
    }
    assert(seq![Action::Bump] + seq![Action::FetchThread, Action::Finish(Ok((t, true)))] =~= seq![
        Action::Bump,
        Action::FetchThread,
        Action::Finish(Ok((t, true))),
    ]);
}

/// No cooldown, a bump answered with 200, then again no cooldown: the cycle
/// ends with `MissingTimestamp` instead of a next time.
pub proof fn lemma_missing_timestamp()
    ensures
        run_from(Phase::Checking, seq![Event::Fetched(None), Event::Bumped(200), Event::Fetched(None)])
            == Some(seq![Action::Bump, Action::FetchThread, Action::Finish(Err(BumpError::MissingTimestamp))]),
{
    let fin = Action::Finish(Err(BumpError::MissingTimestamp));
    let evs = seq![Event::Fetched(None), Event::Bumped(200), Event::Fetched(None)];
    let e1 = evs.drop_first();
    let e2 = e1.drop_first();
    assert(e2.drop_first() =~= Seq::<Event>::empty());
    assert(e2 =~= seq![Event::Fetched(None)]);
    assert(e1 =~= seq![Event::Bumped(200), Event::Fetched(None)]);
    assert(run_from(Phase::Done, e2.drop_first()) == Some(Seq::<Action>::empty()));
    assert(e2[0] == Event::Fetched(None));
    assert(run_from(Phase::Verifying, e2) == Some(seq![fin])) by {
        assert(seq![fin] + Seq::<Action>::empty() =~= seq![fin]);
    }
    assert(run_from(Phase::Bumping, e1) == Some(seq![Action::FetchThread, fin])) by {
        assert(seq![Action::FetchThread] + seq![fin] =~= seq![Action::FetchThread, fin]);
    }
    assert(seq![Action::Bump] + seq![Action::FetchThread, fin] =~= seq![Action::Bump, Action::FetchThread, fin]);
}

} // verus!
