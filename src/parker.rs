use vstd::prelude::*;

verus! {

/// The owner is blocked in `park`.
pub const PARKED: i32 = -1;

/// No token and nobody parked.
pub const EMPTY: i32 = 0;

/// An `unpark` left a token.
pub const NOTIFIED: i32 = 1;

/// A one-token wake-up primitive, owned by one thread and unparked by
/// others. Its state is `EMPTY`, `PARKED` or `NOTIFIED`.
pub struct Parker {
    state: i32,
}

/// One step of the parker protocol.
#[derive(Clone, Copy, Debug, PartialEq, Eq, Structural)]
pub enum ParkStep {
    /// The owner starts to park (`NOTIFIED` to `EMPTY`, `EMPTY` to `PARKED`).
    Begin,
    /// The owner was woken from its wait and tries to take the token.
    Woken,
    /// The owner's timed wait ended and it takes whatever is there.
    TimedOut,
    /// Another thread leaves a token.
    Unpark,
}

/// State after a step, and whether the owner's park returns on it.
pub open spec fn step(s: i32, op: ParkStep) -> (i32, bool) {
    match op {
        ParkStep::Begin => if s == NOTIFIED {
            (EMPTY, true)
        } else {
            (PARKED, false)
        },
        ParkStep::Woken => if s == NOTIFIED {
            (EMPTY, true)
        } else {
            (s, false)
        },
        ParkStep::TimedOut => (EMPTY, false),
        ParkStep::Unpark => (NOTIFIED, false),
    }
}

/// State after a run of steps from `s`.
pub open spec fn run_state(s: i32, ops: Seq<ParkStep>) -> i32
    decreases ops.len(),
{
    if ops.len() == 0 {
        s
    } else {
        step(run_state(s, ops.drop_last()), ops.last()).0
    }
}

/// How many times a park returned on a token during a run from `s`.
pub open spec fn wakeups(s: i32, ops: Seq<ParkStep>) -> nat
    decreases ops.len(),
{
    if ops.len() == 0 {
        0
    } else {
        wakeups(s, ops.drop_last()) + if step(run_state(s, ops.drop_last()), ops.last()).1 {
            1nat
        } else {
            0nat
        }
    }
}

/// How many unparks a run holds.
pub open spec fn unparks(ops: Seq<ParkStep>) -> nat
    decreases ops.len(),
{
    if ops.len() == 0 {
        0
    } else {
        unparks(ops.drop_last()) + if ops.last() == ParkStep::Unpark {
            1nat
        } else {
            0nat
        }
    }
}

/// No silent wake: from an empty parker, every return of `park` on a token
/// consumes a token that an `unpark` left, so there are never more such
/// returns than unparks; a token still pending counts against them too.
pub proof fn lemma_no_silent_wake(ops: Seq<ParkStep>)
    ensures
        wakeups(EMPTY, ops) + (if run_state(EMPTY, ops) == NOTIFIED { 1nat } else { 0nat }) <= unparks(ops),
    decreases ops.len(),
{
    if ops.len() > 0 {
        lemma_no_silent_wake(ops.drop_last());
    }
}

impl Parker {
    pub closed spec fn state_spec(&self) -> i32 {
        self.state
    }

    /// An empty parker.
    pub fn new() -> (r: Parker)
        ensures
            r.state_spec() == EMPTY,
    {
        Parker { state: EMPTY }
    }

    /// Start of `park`: consumes a pending token and returns true, or marks
    /// the owner as parked and returns false (it must then wait).
    pub fn park_begin(&mut self) -> (r: bool)
        requires
            old(self).state_spec() != PARKED,
        ensures
            (final(self).state_spec(), r) == step(old(self).state_spec(), ParkStep::Begin),
    {
        let prev = self.state;
        if prev == NOTIFIED {
            self.state = EMPTY;
            true
        } else {
            self.state = PARKED;
            false
        }
    }

    /// After a wake-up from the wait: takes the token if there is one;
    /// false means a spurious wake-up, and the owner waits again.
    pub fn park_woken(&mut self) -> (r: bool)
        ensures
            (final(self).state_spec(), r) == step(old(self).state_spec(), ParkStep::Woken),
    {
        if self.state == NOTIFIED {
            self.state = EMPTY;
            true
        } else {
            false
        }
    }

    /// End of `park_timeout`: the owner returns either way; the result says
    /// whether a token was there.
    pub fn park_timeout_end(&mut self) -> (r: bool)
        ensures
            final(self).state_spec() == step(old(self).state_spec(), ParkStep::TimedOut).0,
            r == (old(self).state_spec() == NOTIFIED),
    {
        let prev = self.state;
        self.state = EMPTY;
        prev == NOTIFIED
    }

    /// Leaves a token. Returns true when the owner was parked and must be
    /// woken.
    pub fn unpark(&mut self) -> (r: bool)
        ensures
            final(self).state_spec() == step(old(self).state_spec(), ParkStep::Unpark).0,
            r == (old(self).state_spec() == PARKED),
    {
        let prev = self.state;
        self.state = NOTIFIED;
        prev == PARKED
    }
}

/// Whether a futex wait on a word holding `value` blocks: only while the
/// word still holds `expected`.
pub fn futex_wait(value: i32, expected: i32) -> (r: bool)
    ensures
        r == (value == expected),
{
    value == expected
}

/// How many of `waiters` blocked threads a futex wake releases: one.
pub fn futex_wake(waiters: usize) -> (r: usize)
    ensures
        r == if waiters > 0 { 1usize } else { 0usize },
{
    if waiters > 0 {
        1
    } else {
        0
    }
}

} // verus!
