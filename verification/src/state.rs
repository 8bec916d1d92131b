use vstd::prelude::*;

verus! {

/// The mathematical state of a counting semaphore: how many permits are
/// still available, and the limit the semaphore was created with.
pub struct SemView {
    pub available: nat,
    pub limit: nat,
}

/// The two transitions a semaphore state can take: granting a permit to a
/// successful acquisition, and taking a permit back when it is released.
pub enum SemEvent {
    Grant,
    GiveBack,
}

impl SemView {
    /// The state of a freshly created semaphore: all `limit` permits available.
    pub open spec fn initial(limit: nat) -> SemView {
        SemView { available: limit, limit: limit }
    }

    /// The counter invariant: the available permits never leave `[0, limit]`.
    pub open spec fn wf(self) -> bool {
        self.available <= self.limit
    }

    /// The number of permits currently held by callers.
    pub open spec fn outstanding(self) -> nat {
        (self.limit - self.available) as nat
    }

    /// A permit can be granted only while one is available.
    pub open spec fn can_grant(self) -> bool {
        self.available > 0
    }

    /// A permit can come back only while one is outstanding.
    pub open spec fn can_give_back(self) -> bool {
        self.available < self.limit
    }

    /// Whether `event` may fire in this state.
    pub open spec fn enabled(self, event: SemEvent) -> bool {
        match event {
            SemEvent::Grant => self.can_grant(),
            SemEvent::GiveBack => self.can_give_back(),
        }
    }

    /// The state after `event` fires.
    pub open spec fn step(self, event: SemEvent) -> SemView {
        match event {
            SemEvent::Grant => SemView { available: (self.available - 1) as nat, limit: self.limit },
            SemEvent::GiveBack => SemView { available: self.available + 1, limit: self.limit },
        }
    }

    /// The state after every event of `events` has fired, in order.
    pub open spec fn run(self, events: Seq<SemEvent>) -> SemView
        decreases events.len(),
    {
        if events.len() == 0 {
            self
        } else {
            self.step(events[0]).run(events.drop_first())
        }
    }

    /// Whether every event of `events` is enabled when its turn comes.
    pub open spec fn valid_run(self, events: Seq<SemEvent>) -> bool
        decreases events.len(),
    {
        events.len() == 0
            || (self.enabled(events[0]) && self.step(events[0]).valid_run(events.drop_first()))
    }
}

/// A sequence of `n` grant events.
pub open spec fn grants(n: nat) -> Seq<SemEvent> {
    Seq::new(n, |i: int| SemEvent::Grant)
}

/// A sequence of `n` give-back events.
pub open spec fn give_backs(n: nat) -> Seq<SemEvent> {
    Seq::new(n, |i: int| SemEvent::GiveBack)
}

/// One enabled step preserves the counter invariant and never changes the limit.
pub proof fn lemma_step_preserves_wf(s: SemView, event: SemEvent)
    requires
        s.wf(),
        s.enabled(event),
    ensures
        s.step(event).wf(),
        s.step(event).limit == s.limit,
{
}

/// Granting `k` of at least `k` available permits succeeds at every step and
/// leaves exactly `k` fewer permits available.
pub proof fn lemma_grants_run(s: SemView, k: nat)
    requires
        k <= s.available,
    ensures
        s.valid_run(grants(k)),
        s.run(grants(k)).available == s.available - k,
        s.run(grants(k)).limit == s.limit,
    decreases k,
{
    if k > 0 {
        assert(grants(k).drop_first() =~= grants((k - 1) as nat));
        lemma_grants_run(s.step(SemEvent::Grant), (k - 1) as nat);
    }
}

/// Giving back `k` permits while at least `k` are outstanding succeeds at
/// every step and leaves exactly `k` more permits available.
pub proof fn lemma_give_backs_run(s: SemView, k: nat)
    requires
        s.available + k <= s.limit,
    ensures
        s.valid_run(give_backs(k)),
        s.run(give_backs(k)).available == s.available + k,
        s.run(give_backs(k)).limit == s.limit,
    decreases k,
{
    if k > 0 {
        assert(give_backs(k).drop_first() =~= give_backs((k - 1) as nat));
        lemma_give_backs_run(s.step(SemEvent::GiveBack), (k - 1) as nat);
    }
}

/// Running the concatenation of two event sequences is running one after the
/// other.
pub proof fn lemma_run_append(s: SemView, a: Seq<SemEvent>, b: Seq<SemEvent>)
    ensures
        s.run(a + b) == s.run(a).run(b),
    decreases a.len(),
{
    if a.len() == 0 {
        assert(a + b =~= b);
    } else {
        assert((a + b).drop_first() =~= a.drop_first() + b);
        lemma_run_append(s.step(a[0]), a.drop_first(), b);
    }
}

/// A valid run followed by a run that is valid from its end state is one
/// valid run.
pub proof fn lemma_valid_run_append(s: SemView, a: Seq<SemEvent>, b: Seq<SemEvent>)
    requires
        s.valid_run(a),
        s.run(a).valid_run(b),
    ensures
        s.valid_run(a + b),
    decreases a.len(),
{
    if a.len() == 0 {
        assert(a + b =~= b);
    } else {
        assert((a + b).drop_first() =~= a.drop_first() + b);
        lemma_valid_run_append(s.step(a[0]), a.drop_first(), b);
    }
}

/// Every prefix of a valid run is itself a valid run.
pub proof fn lemma_valid_run_prefix(s: SemView, events: Seq<SemEvent>, i: int)
    requires
        0 <= i <= events.len(),
        s.valid_run(events),
    ensures
        s.valid_run(events.take(i)),
    decreases i,
{
    if i > 0 {
        assert(events.take(i).drop_first() =~= events.drop_first().take(i - 1));
        lemma_valid_run_prefix(s.step(events[0]), events.drop_first(), i - 1);
    }
}

/// Along a valid run the counter invariant is preserved and the limit never
/// changes.
pub proof fn lemma_valid_run_preserves_wf(s: SemView, events: Seq<SemEvent>)
    requires
        s.wf(),
        s.valid_run(events),
    ensures
        s.run(events).wf(),
        s.run(events).limit == s.limit,
    decreases events.len(),
{
    if events.len() > 0 {
        lemma_step_preserves_wf(s, events[0]);
        lemma_valid_run_preserves_wf(s.step(events[0]), events.drop_first());
    }
}

/// A fresh semaphore with limit `n` grants exactly `n` permits in sequence:
/// each of the first `n` acquisitions finds a permit available, and the one
/// after that does not.
pub proof fn lemma_fresh_semaphore_exhausts(n: nat)
    ensures
        SemView::initial(n).valid_run(grants(n)),
        SemView::initial(n).run(grants(n)).available == 0,
        !SemView::initial(n).run(grants(n)).can_grant(),
{
    lemma_grants_run(SemView::initial(n), n);
}

/// Round trip: granting `k` of at least `k` available permits and then giving
/// all `k` back is a valid run that restores the state exactly.
pub proof fn lemma_round_trip(s: SemView, k: nat)
    requires
        s.wf(),
        k <= s.available,
    ensures
        s.valid_run(grants(k) + give_backs(k)),
        s.run(grants(k) + give_backs(k)) == s,
{
    lemma_grants_run(s, k);
    lemma_give_backs_run(s.run(grants(k)), k);
    lemma_valid_run_append(s, grants(k), give_backs(k));
    lemma_run_append(s, grants(k), give_backs(k));
}

/// Concurrency bound: starting from a fresh semaphore with limit `k`, at
/// every point of every valid interleaving of grants and give-backs, at most
/// `k` permits are outstanding, and the available count stays within `[0, k]`.
pub proof fn lemma_holders_never_exceed_limit(k: nat, events: Seq<SemEvent>, i: int)
    requires
        0 <= i <= events.len(),
        SemView::initial(k).valid_run(events),
    ensures
        SemView::initial(k).run(events.take(i)).wf(),
        SemView::initial(k).run(events.take(i)).outstanding() <= k,
        SemView::initial(k).run(events.take(i)).available <= k,
{
    lemma_valid_run_prefix(SemView::initial(k), events, i);
    lemma_valid_run_preserves_wf(SemView::initial(k), events.take(i));
}

} // verus!
