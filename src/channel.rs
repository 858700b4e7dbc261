//! A state cell paired with a one-slot message, for many producers and one
//! consumer.
//!
//! Each update changes the state and leaves a message; a new message
//! replaces one that was not yet taken, so a slow consumer sees only the
//! latest update, together with the state as that update left it.
//! Suspending until a message arrives belongs to the caller's executor; this
//! type holds what is decided.
use vstd::prelude::*;

verus! {

/// Combines a state value and a message describing updates to it.
pub struct StateAndSignal<S, M> {
    state: S,
    signal: Option<M>,
}

/// What an update that computed state `s` and message `m` leaves, from the
/// channel's view `(state, pending message)`.
pub open spec fn after_update<S, M>(v: (S, Option<M>), s: S, m: M) -> (S, Option<M>) {
    (s, Some(m))
}

/// What a wait observes: the pending message with the current state.
pub open spec fn observe<S, M>(v: (S, Option<M>)) -> Option<(M, S)> {
    match v.1 {
        Some(m) => Some((m, v.0)),
        None => None,
    }
}

/// What a wait leaves: the state, and no message.
pub open spec fn after_wait<S, M>(v: (S, Option<M>)) -> (S, Option<M>) {
    (v.0, None)
}

impl<S, M> View for StateAndSignal<S, M> {
    type V = (S, Option<M>);

    /// The state and the message not yet taken, if any.
    closed spec fn view(&self) -> (S, Option<M>) {
        (self.state, self.signal)
    }
}

impl<S, M> StateAndSignal<S, M> {
    pub fn new(init: S) -> (r: Self)
        ensures
            r@ == (init, None::<M>),
    {
        StateAndSignal { state: init, signal: None }
    }

    /// Computes the new state and a message from the current state with
    /// `ufn`, stores the state and leaves the message, replacing any that
    /// was not taken.
    pub fn update<F>(&mut self, ufn: F) where F: FnOnce(&S) -> (S, M)
        requires
            ufn.requires((&old(self)@.0,)),
        ensures
            final(self)@.1 is Some,
            ufn.ensures((&old(self)@.0,), (final(self)@.0, final(self)@.1->Some_0)),
            final(self)@ == after_update(old(self)@, final(self)@.0, final(self)@.1->Some_0),
    {
        let (s, m) = ufn(&self.state);
        self.state = s;
        self.signal = Some(m);
    }

    /// Takes the pending message, if any, and returns what `hfn` makes of
    /// it and of the current state. The state is left as it is.
    pub fn try_wait<F, T>(&mut self, hfn: F) -> (r: Option<T>) where F: FnOnce(&M, &S) -> T
        requires
            old(self)@.1 is Some ==> hfn.requires((&old(self)@.1->Some_0, &old(self)@.0)),
        ensures
            observe(old(self)@) is None ==> r is None && final(self)@ == old(self)@,
            observe(old(self)@) matches Some((m, s)) ==> {
                &&& r is Some
                &&& hfn.ensures((&m, &s), r->Some_0)
                &&& final(self)@ == after_wait(old(self)@)
            },
    {
        match self.signal.take() {
            None => None,
            Some(m) => Some(hfn(&m, &self.state)),
        }
    }

    /// Whether a message is pending.
    pub fn signaled(&self) -> (r: bool)
        ensures
            r == self@.1 is Some,
    {
        self.signal.is_some()
    }
}

/// Coalescing: after two updates with no wait between them, a wait observes
/// the second update's message and the state as the second update left it;
/// the first message is never delivered.
pub proof fn lemma_last_update_wins<S, M>(v: (S, Option<M>), s1: S, m1: M, s2: S, m2: M)
    ensures
        after_update(after_update(v, s1, m1), s2, m2) == after_update(v, s2, m2),
        observe(after_update(after_update(v, s1, m1), s2, m2)) == Some((m2, s2)),
        after_wait(after_update(after_update(v, s1, m1), s2, m2)) == (s2, None::<M>),
{
}

} // verus!
