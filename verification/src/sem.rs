use vstd::prelude::*;

use crate::state::SemEvent;
use crate::state::SemView;

verus! {

/// Relies on num_cpus::get: the number of logical processors available to
/// this process, which its documentation promises is always at least one.
#[verifier::external_body]
fn cpu_count() -> (n: usize)
    ensures
        1 <= n,
{
    num_cpus::get()
}

/// A counting semaphore: a permit counter that starts at a configured limit.
///
/// Acquiring takes one permit while any is available; releasing a [`Permit`]
/// gives it back. The view of a semaphore is its [`SemView`] model state, and
/// each operation's contract names the model transition it performs.
pub struct Semaphore {
    permits: usize,
    limit: usize,
}

/// One successfully acquired unit of capacity.
///
/// A `Permit` can be obtained only from [`Semaphore::try_acquire`], and
/// [`Semaphore::release`] consumes it by value, so each permit is given back
/// at most once: a double release cannot be written.
pub struct Permit {
    token: (),
}

impl View for Semaphore {
    type V = SemView;

    closed spec fn view(&self) -> SemView {
        SemView { available: self.permits as nat, limit: self.limit as nat }
    }
}

impl Semaphore {
    /// Well-formedness: the available permits never exceed the limit.
    pub open spec fn wf(&self) -> bool {
        self@.wf()
    }

    /// Creates a semaphore with the given limit of permits, all available.
    /// A limit of zero is legal and means that no `try_acquire` can succeed.
    pub fn new(permits: usize) -> (s: Semaphore)
        ensures
            s.wf(),
            s@ == SemView::initial(permits as nat),
    {
        Semaphore { permits, limit: permits }
    }

    /// A snapshot of the number of currently available permits. Purely
    /// observational and never blocking; on a well-formed semaphore the
    /// snapshot lies within `[0, limit]`.
    pub fn available_permits(&self) -> (n: usize)
        ensures
            n == self@.available,
            self.wf() ==> n <= self@.limit,
    {
        self.permits
    }

    /// Non-blocking acquisition: takes one permit and returns it while one is
    /// available, and returns `None` immediately otherwise. Exactly the
    /// `Grant` transition of the model, taken if and only if it is enabled.
    pub fn try_acquire(&mut self) -> (r: Option<Permit>)
        ensures
            old(self).wf() ==> final(self).wf(),
            old(self)@.can_grant() ==> (r is Some && final(self)@ == old(self)@.step(SemEvent::Grant)),
            !old(self)@.can_grant() ==> (r is None && final(self)@ == old(self)@),
    {
        if self.permits != 0 {
            self.permits = self.permits - 1;
            Some(Permit { token: () })
        } else {
            None
        }
    }

    /// Gives one permit back: the `GiveBack` transition of the model.
    ///
    /// The permit is consumed by value, so a caller cannot release the same
    /// permit twice; the precondition asks that a permit is outstanding,
    /// which together rules out ever inflating the counter above the limit.
    pub fn release(&mut self, permit: Permit)
        requires
            old(self)@.can_give_back(),
        ensures
            final(self).wf(),
            final(self)@ == old(self)@.step(SemEvent::GiveBack),
    {
        let Permit { token: _ } = permit;
        self.permits = self.permits + 1;
    }
}

impl Default for Semaphore {
    /// Creates a semaphore whose limit is the number of logical processors
    /// of the host, read once at construction time; that limit is at least one.
    fn default() -> (s: Semaphore)
        ensures
            s.wf(),
            s@.available == s@.limit,
            1 <= s@.limit,
    {
        Semaphore::new(cpu_count())
    }
}

} // verus!
