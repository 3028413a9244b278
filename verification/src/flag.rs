//! The flag by which the workers of one search tell each other to stop, and
//! what a search knows of the looks it takes at it.
use std::sync::atomic::{AtomicBool, Ordering};
use vstd::prelude::*;

verus! {

/// Whether the flag is raised. Another worker may raise it at any moment, so
/// nothing is known of the answer.
pub fn is_raised(flag: &AtomicBool) -> bool {
    flag.load(Ordering::Relaxed)
}

/// Raises the flag.
pub fn raise(flag: &AtomicBool) {
    flag.store(true, Ordering::Relaxed);
}

/// Lowers the flag.
pub fn lower(flag: &AtomicBool) {
    flag.store(false, Ordering::Relaxed);
}

/// Raises the flag unless it is raised already, in one step: whether the
/// flag was down, so that it is this caller who raised it. Of several callers
/// at once only one is told so. Other workers may have raised the flag at
/// any moment, so nothing is known of the answer.
pub fn claim_flag(flag: &AtomicBool) -> bool {
    flag.compare_exchange(false, true, Ordering::Relaxed, Ordering::Relaxed).is_ok()
}

/// Whether a worker that watches `flag`, if it watches one, is told to stop.
/// A worker that watches no flag never is.
pub fn told_to_stop(flag: Option<&AtomicBool>) -> (r: bool)
    ensures
        flag.is_none() ==> !r,
{
    match flag {
        Some(flag) => is_raised(flag),
        None => false,
    }
}

/// The calm looks that are left after one look: one less, and none once the
/// signal is up. `None` stands for a signal that never comes.
pub open spec fn spec_after_look(calm: Option<nat>) -> Option<nat> {
    match calm {
        Some(n) => if n > 0 {
            Some((n - 1) as nat)
        } else {
            Some(0)
        },
        None => None,
    }
}

/// The calm looks that are left after `looks` looks.
pub open spec fn spec_after_looks(calm: Option<nat>, looks: nat) -> Option<nat> {
    match calm {
        Some(n) => if n >= looks {
            Some((n - looks) as nat)
        } else {
            Some(0)
        },
        None => None,
    }
}

/// Whether a signal with `calm` calm looks left stays down for `looks` looks.
pub open spec fn spec_allows(calm: Option<nat>, looks: nat) -> bool {
    match calm {
        Some(n) => looks <= n,
        None => true,
    }
}

/// Something that tells a search to stop. A search looks at it from time to
/// time, and ends with the first look that finds it up.
///
/// Of a scripted signal it is known how many looks will find it down. Of any
/// other signal, such as a flag that other workers raise, nothing is known.
pub trait StopSignal {
    /// Whether it is known what the looks at the signal will find.
    spec fn spec_scripted(&self) -> bool;

    /// For a scripted signal, the number of looks that will still find it
    /// down; `None` where it never comes up.
    spec fn spec_calm(&self) -> Option<nat>;

    /// Looks at the signal: whether it tells the search to stop.
    fn look(&mut self) -> (stop: bool)
        ensures
            final(self).spec_scripted() == old(self).spec_scripted(),
            old(self).spec_scripted() ==> stop == (old(self).spec_calm() == Some(0nat)),
            old(self).spec_scripted() ==> final(self).spec_calm() == spec_after_look(
                old(self).spec_calm(),
            ),
    ;

    /// The look of a search that has its result: it looks at the signal and,
    /// where the signal is down, brings it up for the others in the same
    /// step. Returns whether the signal tells the search to stop, as `look`
    /// does.
    fn claim(&mut self) -> (stop: bool)
        ensures
            final(self).spec_scripted() == old(self).spec_scripted(),
            old(self).spec_scripted() ==> stop == (old(self).spec_calm() == Some(0nat)),
            old(self).spec_scripted() ==> final(self).spec_calm() == spec_after_look(
                old(self).spec_calm(),
            ),
    ;
}

/// Whether `signal` is known to stay down for the next `looks` looks: a
/// scripted signal with enough calm looks left, or any signal where no look
/// is taken.
pub open spec fn spec_passes<S: StopSignal>(signal: S, looks: nat) -> bool {
    if signal.spec_scripted() {
        spec_allows(signal.spec_calm(), looks)
    } else {
        looks == 0
    }
}

/// Whether `signal` is known to come up within the next `looks` looks.
pub open spec fn spec_halts<S: StopSignal>(signal: S, looks: nat) -> bool {
    signal.spec_scripted() && !spec_allows(signal.spec_calm(), looks)
}

/// A flag, if there is one, is a signal of which nothing is known; no flag is
/// a signal that never comes.
impl<'a> StopSignal for Option<&'a AtomicBool> {
    open spec fn spec_scripted(&self) -> bool {
        self.is_none()
    }

    open spec fn spec_calm(&self) -> Option<nat> {
        None
    }

    fn look(&mut self) -> (stop: bool) {
        told_to_stop(*self)
    }

    fn claim(&mut self) -> (stop: bool) {
        match *self {
            Some(flag) => !claim_flag(flag),
            None => false,
        }
    }
}

/// A signal that is written down in advance: it stays down for `calm` looks
/// and is up from then on, or never comes where `calm` is `None`.
#[derive(Clone, Copy, Debug, PartialEq, Eq)]
pub struct Script {
    pub calm: Option<u64>,
}

impl StopSignal for Script {
    open spec fn spec_scripted(&self) -> bool {
        true
    }

    open spec fn spec_calm(&self) -> Option<nat> {
        match self.calm {
            Some(n) => Some(n as nat),
            None => None,
        }
    }

    fn look(&mut self) -> (stop: bool) {
        match self.calm {
            Some(n) => {
                if n == 0 {
                    true
                } else {
                    self.calm = Some(n - 1);
                    false
                }
            },
            None => false,
        }
    }

    fn claim(&mut self) -> (stop: bool) {
        self.look()
    }
}

/// The steps since the last look after `rounds` rounds of a search that
/// looks at its signal once the count has reached `grain_size`, and starts
/// with the count `counter`.
pub open spec fn spec_counter(grain_size: u32, counter: nat, rounds: nat) -> nat
    decreases rounds,
{
    if rounds == 0 {
        counter
    } else {
        let before = spec_counter(grain_size, counter, (rounds - 1) as nat);
        let kept = if before >= grain_size {
            0
        } else {
            before
        };
        if kept < grain_size {
            kept + 1
        } else {
            kept
        }
    }
}

/// The looks that such a search takes in its first `rounds` rounds: one in
/// every round that begins with a full count.
pub open spec fn spec_looks(grain_size: u32, counter: nat, rounds: nat) -> nat
    decreases rounds,
{
    if rounds == 0 {
        0
    } else {
        spec_looks(grain_size, counter, (rounds - 1) as nat) + if spec_counter(
            grain_size,
            counter,
            (rounds - 1) as nat,
        ) >= grain_size {
            1nat
        } else {
            0nat
        }
    }
}

/// More rounds take no fewer looks.
pub proof fn lemma_looks_grow(grain_size: u32, counter: nat, fewer: nat, more: nat)
    requires
        fewer <= more,
    ensures
        spec_looks(grain_size, counter, fewer) <= spec_looks(grain_size, counter, more),
    decreases more,
{
    if fewer < more {
        lemma_looks_grow(grain_size, counter, fewer, (more - 1) as nat);
    }
}

/// Rounds without a look are few: where a search that starts with a count
/// within the grain takes no look in its first `rounds` rounds, these are at
/// most as many as the count lacks to the grain, and each of them was
/// counted.
pub proof fn lemma_rounds_without_look(grain_size: u32, counter: nat, rounds: nat)
    requires
        counter <= grain_size,
        spec_looks(grain_size, counter, rounds) == 0,
    ensures
        counter + rounds <= grain_size,
        spec_counter(grain_size, counter, rounds) == counter + rounds,
    decreases rounds,
{
    if rounds > 0 {
        lemma_rounds_without_look(grain_size, counter, (rounds - 1) as nat);
    }
}

/// The count never passes the grain that it started within.
pub proof fn lemma_counter_bound(grain_size: u32, counter: nat, rounds: nat)
    requires
        counter <= grain_size,
    ensures
        spec_counter(grain_size, counter, rounds) <= grain_size,
    decreases rounds,
{
    if rounds > 0 {
        lemma_counter_bound(grain_size, counter, (rounds - 1) as nat);
    }
}

} // verus!
