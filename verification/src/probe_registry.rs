//! Cancellation of blocking reachability probes.
//!
//! A probe is named by a number that is used once. Its cancellation may come before the blocking
//! call has registered, while it runs, or after it has returned; only a bounded history of
//! numbers that are done is kept.

use std::collections::{HashMap, VecDeque};
use vstd::prelude::*;

verus! {

broadcast use vstd::std_specs::hash::group_hash_axioms;

pub const MAX_PROBE_TERMINAL_HISTORY: usize = 1024;

#[derive(Debug, Clone, Copy, PartialEq, Eq, Structural)]
pub enum ProbeState {
    /// Cancellation beat the blocking call to registration.
    CancelBeforeStart,
    /// The probe runs; the flag says that it was told to stop.
    Active(bool),
    /// Distinguishes a harmless late cancellation from an early one.
    Completed,
}

#[verifier::ext_equal]
pub struct RegistryView {
    pub probes: Map<u64, ProbeState>,
    pub history: Seq<u64>,
}

/// Whether a number is kept as one that no longer runs.
pub open spec fn is_terminal(probes: Map<u64, ProbeState>, id: u64) -> bool {
    probes.contains_key(id) && !(probes[id] is Active)
}

/// The registry with a number added to the history. Beyond its bound the oldest number is
/// forgotten, unless it runs.
pub open spec fn with_terminal(registry: RegistryView, id: u64) -> RegistryView {
    let history = registry.history.push(id);
    if history.len() <= MAX_PROBE_TERMINAL_HISTORY {
        RegistryView { history, ..registry }
    } else {
        RegistryView {
            history: history.skip(1),
            probes: if registry.probes.contains_key(history[0]) && registry.probes[history[0]]
                is Active {
                registry.probes
            } else {
                registry.probes.remove(history[0])
            },
        }
    }
}

/// The registry after a cancellation.
pub open spec fn cancelled(registry: RegistryView, id: u64) -> RegistryView {
    if !registry.probes.contains_key(id) {
        with_terminal(
            RegistryView {
                probes: registry.probes.insert(id, ProbeState::CancelBeforeStart),
                ..registry
            },
            id,
        )
    } else if registry.probes[id] is Active {
        RegistryView { probes: registry.probes.insert(id, ProbeState::Active(true)), ..registry }
    } else {
        registry
    }
}

/// A registration: the registry after it, and whether the probe was cancelled beforehand; nothing
/// where the number is zero, in use or used up.
pub open spec fn registered(registry: RegistryView, id: u64) -> (RegistryView, Option<bool>) {
    if id == 0 {
        (registry, None)
    } else if !registry.probes.contains_key(id) {
        (
            RegistryView {
                probes: registry.probes.insert(id, ProbeState::Active(false)),
                ..registry
            },
            Some(false),
        )
    } else if registry.probes[id] is CancelBeforeStart {
        (
            RegistryView {
                probes: registry.probes.insert(id, ProbeState::Active(true)),
                history: without(registry.history, id),
            },
            Some(true),
        )
    } else {
        (registry, None)
    }
}

/// The registry once a running probe has returned.
pub open spec fn completed(registry: RegistryView, id: u64) -> RegistryView {
    if registry.probes.contains_key(id) && registry.probes[id] is Active {
        with_terminal(
            RegistryView {
                probes: registry.probes.insert(id, ProbeState::Completed),
                ..registry
            },
            id,
        )
    } else {
        registry
    }
}

/// A list without one number.
pub open spec fn without(list: Seq<u64>, id: u64) -> Seq<u64>
    decreases list.len(),
{
    if list.len() == 0 {
        list
    } else {
        let front = without(list.drop_last(), id);
        if list.last() == id {
            front
        } else {
            front.push(list.last())
        }
    }
}

impl RegistryView {
    /// The history is bounded, names each number once, and names those that no longer run.
    pub open spec fn valid(self) -> bool {
        &&& self.history.len() <= MAX_PROBE_TERMINAL_HISTORY
        &&& self.history.no_duplicates()
        &&& forall|id: u64| #[trigger] self.history.contains(id) <==> is_terminal(self.probes, id)
    }
}

proof fn lemma_without(list: Seq<u64>, id: u64)
    ensures
        without(list, id).len() <= list.len(),
        forall|other: u64| #[trigger] without(list, id).contains(other) <==> list.contains(other)
            && other != id,
        list.no_duplicates() ==> without(list, id).no_duplicates(),
    decreases list.len(),
{
    if list.len() > 0 {
        let front = list.drop_last();
        lemma_without(front, id);
        assert forall|other: u64| #[trigger]
            without(list, id).contains(other) <==> list.contains(other) && other != id by {
            assert(list.contains(other) <==> front.contains(other) || list.last() == other) by {
                if list.contains(other) {
                    let i = choose|i: int| 0 <= i < list.len() && list[i] == other;
                    if i < front.len() {
                        assert(front[i] == other);
                    }
                }
                if front.contains(other) {
                    let i = choose|i: int| 0 <= i < front.len() && front[i] == other;
                    assert(list[i] == other);
                }
                assert(list[list.len() - 1] == list.last());
            }
            if list.last() != id {
                lemma_push_contains(without(front, id), list.last(), other);
            }
        }
        if list.no_duplicates() {
            assert(front.no_duplicates());
            assert(!front.contains(list.last()));
            assert(!without(front, id).contains(list.last()));
            let kept = without(front, id);
            assert forall|i: int, j: int|
                0 <= i < kept.push(list.last()).len() && 0 <= j < kept.push(list.last()).len() && i
                    != j implies kept.push(list.last())[i] != kept.push(list.last())[j] by {
                if i == kept.len() {
                    assert(kept.contains(kept[j]));
                }
                if j == kept.len() {
                    assert(kept.contains(kept[i]));
                }
            }
        }
    }
}

proof fn lemma_push_contains(list: Seq<u64>, last: u64, other: u64)
    ensures
        list.push(last).contains(other) <==> list.contains(other) || last == other,
{
    if list.contains(other) {
        let i = choose|i: int| 0 <= i < list.len() && list[i] == other;
        assert(list.push(last)[i] == other);
    }
    assert(list.push(last)[list.len() as int] == last);
}

proof fn lemma_skip_contains(list: Seq<u64>, other: u64)
    requires
        list.len() > 0,
        list.no_duplicates(),
    ensures
        list.skip(1).contains(other) <==> list.contains(other) && other != list[0],
{
    if list.contains(other) && other != list[0] {
        let i = choose|i: int| 0 <= i < list.len() && list[i] == other;
        assert(list.skip(1)[i - 1] == other);
    }
    if list.skip(1).contains(other) {
        let i = choose|i: int| 0 <= i < list.skip(1).len() && list.skip(1)[i] == other;
        assert(list[i + 1] == other);
    }
}

/// Adding a number that has just become terminal keeps the registry valid.
proof fn lemma_with_terminal(registry: RegistryView, id: u64)
    requires
        registry.history.len() <= MAX_PROBE_TERMINAL_HISTORY,
        registry.history.no_duplicates(),
        !registry.history.contains(id),
        is_terminal(registry.probes, id),
        forall|other: u64|
            other != id ==> (#[trigger] registry.history.contains(other) <==> is_terminal(
                registry.probes,
                other,
            )),
    ensures
        with_terminal(registry, id).valid(),
{
    let history = registry.history.push(id);
    let after = with_terminal(registry, id);
    assert(history.no_duplicates());
    assert forall|other: u64| #[trigger] after.history.contains(other) <==> is_terminal(
        after.probes,
        other,
    ) by {
        lemma_push_contains(registry.history, id, other);
        lemma_push_contains(registry.history, id, history[0]);
        assert(history.contains(history[0]));
        if history.len() > MAX_PROBE_TERMINAL_HISTORY {
            lemma_skip_contains(history, other);
        }
    }
}

/// Every operation keeps the history bounded and exact.
pub proof fn law_history_stays_bounded(registry: RegistryView, id: u64)
    requires
        registry.valid(),
    ensures
        cancelled(registry, id).valid(),
        registered(registry, id).0.valid(),
        completed(registry, id).valid(),
{
    lemma_without(registry.history, id);
    if !registry.probes.contains_key(id) {
        assert(!registry.history.contains(id));
        lemma_with_terminal(
            RegistryView {
                probes: registry.probes.insert(id, ProbeState::CancelBeforeStart),
                ..registry
            },
            id,
        );
    } else if registry.probes[id] is Active {
        assert(!registry.history.contains(id));
        lemma_with_terminal(
            RegistryView {
                probes: registry.probes.insert(id, ProbeState::Completed),
                ..registry
            },
            id,
        );
    }
    let (after, _) = registered(registry, id);
    assert forall|other: u64| #[trigger] after.history.contains(other) <==> is_terminal(
        after.probes,
        other,
    ) by {
        assert(registry.history.contains(other) <==> is_terminal(registry.probes, other));
    }
    let told = cancelled(registry, id);
    if registry.probes.contains_key(id) && registry.probes[id] is Active {
        assert forall|other: u64| #[trigger] told.history.contains(other) <==> is_terminal(
            told.probes,
            other,
        ) by {
            assert(registry.history.contains(other) <==> is_terminal(registry.probes, other));
        }
    }
}

/// A cancellation that comes first still reaches its probe, and one that comes late does not
/// bring a finished probe back: its number stays used up.
pub proof fn law_cancellation_reaches_exactly_its_probe(registry: RegistryView, id: u64)
    requires
        registry.valid(),
        id != 0,
        !registry.probes.contains_key(id),
    ensures
        registered(cancelled(registry, id), id).1 == Some(true),
        ({
            let (running, _) = registered(registry, id);
            let done = completed(running, id);
            registered(cancelled(done, id), id).1 is None
        }),
{
    assert(!registry.history.contains(id));
    let early = registry.history.push(id);
    if early.len() > MAX_PROBE_TERMINAL_HISTORY {
        assert(registry.history.contains(registry.history[0]));
        assert(early[0] == registry.history[0]);
    }
}

pub struct ProbeRegistry {
    probes: HashMap<u64, ProbeState>,
    history: VecDeque<u64>,
}

impl View for ProbeRegistry {
    type V = RegistryView;

    closed spec fn view(&self) -> RegistryView {
        RegistryView { probes: self.probes@, history: self.history@ }
    }
}

impl ProbeRegistry {
    pub fn new() -> (registry: ProbeRegistry)
        ensures
            registry@.valid(),
            registry@.probes == Map::<u64, ProbeState>::empty(),
    {
        ProbeRegistry { probes: HashMap::new(), history: VecDeque::new() }
    }

    fn record_terminal(&mut self, id: u64)
        requires
            old(self)@.history.len() <= MAX_PROBE_TERMINAL_HISTORY,
        ensures
            final(self)@ == with_terminal(old(self)@, id),
    {
        let ghost before = self@;
        self.history.push_back(id);
        if self.history.len() > MAX_PROBE_TERMINAL_HISTORY {
            if let Some(expired) = self.history.pop_front() {
                assert(expired == before.history.push(id)[0]);
                assert(self.history@ =~= before.history.push(id).skip(1));
                let runs = match self.probes.get(&expired) {
                    Some(ProbeState::Active(_)) => true,
                    _ => false,
                };
                if !runs {
                    self.probes.remove(&expired);
                }
            }
        }
    }

    /// Tells a probe to stop, whether it has registered yet or not.
    pub fn cancel(&mut self, id: u64)
        requires
            old(self)@.valid(),
        ensures
            final(self)@ == cancelled(old(self)@, id),
            final(self)@.valid(),
    {
        proof {
            law_history_stays_bounded(self@, id);
        }
        let state = match self.probes.get(&id) {
            Some(state) => Some(*state),
            None => None,
        };
        match state {
            Some(ProbeState::Active(_)) => {
                self.probes.insert(id, ProbeState::Active(true));
            },
            Some(_) => {},
            None => {
                self.probes.insert(id, ProbeState::CancelBeforeStart);
                self.record_terminal(id);
            },
        }
    }

    /// Registers a running probe; the result says whether it was cancelled beforehand.
    pub fn register(&mut self, id: u64) -> (registration: Option<bool>)
        requires
            old(self)@.valid(),
        ensures
            (final(self)@, registration) == registered(old(self)@, id),
            final(self)@.valid(),
    {
        proof {
            law_history_stays_bounded(self@, id);
        }
        if id == 0 {
            return None;
        }
        let state = match self.probes.get(&id) {
            Some(state) => Some(*state),
            None => None,
        };
        match state {
            None => {
                self.probes.insert(id, ProbeState::Active(false));
                Some(false)
            },
            Some(ProbeState::CancelBeforeStart) => {
                self.forget(id);
                self.probes.insert(id, ProbeState::Active(true));
                Some(true)
            },
            Some(_) => None,
        }
    }

    /// Takes a number out of the history, so that its expiry cannot remove a live registration.
    fn forget(&mut self, id: u64)
        ensures
            final(self)@ == (RegistryView {
                history: without(old(self)@.history, id),
                ..old(self)@
            }),
    {
        let mut kept: VecDeque<u64> = VecDeque::new();
        let mut i: usize = 0;
        let ghost all = self.history@;
        assert(all.take(0) =~= Seq::<u64>::empty());
        while i < self.history.len()
            invariant
                i <= self.history@.len(),
                all == self.history@,
                self.probes@ == old(self).probes@,
                kept@ == without(all.take(i as int), id),
            decreases self.history@.len() - i,
        {
            assert(all.take(i + 1).drop_last() =~= all.take(i as int));
            assert(all.take(i + 1).last() == all[i as int]);
            let queued: u64 = self.history[i];
            if queued != id {
                kept.push_back(queued);
            }
            i += 1;
        }
        assert(all.take(all.len() as int) =~= all);
        self.history = kept;
    }

    /// Whether a running probe was told to stop.
    pub fn is_cancelled(&self, id: u64) -> (told: bool)
        ensures
            told == (self@.probes.contains_key(id) && self@.probes[id] == ProbeState::Active(true)),
    {
        match self.probes.get(&id) {
            Some(ProbeState::Active(told)) => *told,
            _ => false,
        }
    }

    /// Ends a registration.
    pub fn complete(&mut self, id: u64)
        requires
            old(self)@.valid(),
        ensures
            final(self)@ == completed(old(self)@, id),
            final(self)@.valid(),
    {
        proof {
            law_history_stays_bounded(self@, id);
        }
        let runs = match self.probes.get(&id) {
            Some(ProbeState::Active(_)) => true,
            _ => false,
        };
        if runs {
            self.probes.insert(id, ProbeState::Completed);
            self.record_terminal(id);
        }
    }
}

/// A fresh number other than zero starts a probe that was not told to stop; no other number
/// notices.
pub proof fn law_fresh_numbers_start_probes(registry: RegistryView, id: u64)
    requires
        id != 0,
        !registry.probes.contains_key(id),
    ensures
        ({
            let (after, cancelled_before) = registered(registry, id);
            &&& cancelled_before == Some(false)
            &&& after.probes.contains_key(id) && after.probes[id] == ProbeState::Active(false)
            &&& after.probes.remove(id) == registry.probes && after.history == registry.history
        }),
{
    assert(registered(registry, id).0.probes.remove(id) =~= registry.probes);
}

/// Zero, a number whose probe runs and a number that is used up start nothing and change
/// nothing.
pub proof fn law_numbers_are_used_once(registry: RegistryView, id: u64)
    requires
        id == 0 || registry.probes.contains_key(id) && (registry.probes[id] is Active
            || registry.probes[id] is Completed),
    ensures
        registered(registry, id) == (registry, None::<bool>),
{
}

/// A number that was cancelled beforehand starts a probe that knows it, and leaves the history;
/// the others stay in it, in their order.
pub proof fn law_cancelled_numbers_start_cancelled(registry: RegistryView, id: u64)
    requires
        id != 0,
        registry.probes.contains_key(id),
        registry.probes[id] is CancelBeforeStart,
    ensures
        ({
            let (after, cancelled_before) = registered(registry, id);
            &&& cancelled_before == Some(true)
            &&& after.probes == registry.probes.insert(id, ProbeState::Active(true))
            &&& after.history == registry.history.filter(|other: u64| other != id)
        }),
{
    lemma_without_is_a_filter(registry.history, id);
}

proof fn lemma_without_is_a_filter(list: Seq<u64>, id: u64)
    ensures
        without(list, id) == list.filter(|other: u64| other != id),
    decreases list.len(),
{
    reveal(Seq::filter);
    if list.len() > 0 {
        lemma_without_is_a_filter(list.drop_last(), id);
    }
}

/// A probe that runs is told to stop, and nothing else happens; a number that is used up or
/// already cancelled stays as it is.
pub proof fn law_running_probes_are_told(registry: RegistryView, id: u64)
    requires
        registry.probes.contains_key(id),
    ensures
        registry.probes[id] is Active ==> cancelled(registry, id) == (RegistryView {
            probes: registry.probes.insert(id, ProbeState::Active(true)),
            history: registry.history,
        }),
        registry.probes[id] is Completed || registry.probes[id] is CancelBeforeStart ==> cancelled(
            registry,
            id,
        ) == registry,
{
}

/// A probe that returns is used up: its number is remembered, and while 1024 numbers are kept at
/// most nothing is forgotten for it. Beyond that the oldest number is forgotten, and no other.
pub proof fn law_returned_probes_are_remembered(registry: RegistryView, id: u64)
    requires
        registry.valid(),
        registry.probes.contains_key(id),
        registry.probes[id] is Active,
    ensures
        ({
            let after = completed(registry, id);
            &&& after.probes.contains_key(id) && after.probes[id] is Completed
            &&& registry.history.len() < 1024 ==> after.history == registry.history.push(id)
                && after.probes == registry.probes.insert(id, ProbeState::Completed)
            &&& registry.history.len() == 1024 ==> after.history == registry.history.push(id).skip(
                1,
            ) && after.probes == registry.probes.insert(id, ProbeState::Completed).remove(
                registry.history[0],
            )
        }),
{
    assert(!registry.history.contains(id));
    if registry.history.len() == 1024 {
        let oldest = registry.history[0];
        assert(registry.history.contains(oldest));
        assert(registry.history.push(id)[0] == oldest);
        assert(is_terminal(registry.probes, oldest));
    }
}

/// A cancellation that comes before its probe is remembered in the same way, and a number that
/// does not run cannot return.
pub proof fn law_early_cancellations_are_remembered(registry: RegistryView, id: u64)
    requires
        registry.valid(),
        !registry.probes.contains_key(id),
    ensures
        ({
            let after = cancelled(registry, id);
            &&& after.probes.contains_key(id) && after.probes[id] is CancelBeforeStart
            &&& registry.history.len() < 1024 ==> after.history == registry.history.push(id)
                && after.probes == registry.probes.insert(id, ProbeState::CancelBeforeStart)
            &&& registry.history.len() == 1024 ==> after.history == registry.history.push(id).skip(
                1,
            ) && after.probes == registry.probes.insert(id, ProbeState::CancelBeforeStart).remove(
                registry.history[0],
            )
            &&& completed(registry, id) == registry
            &&& completed(after, id) == after
        }),
{
    assert(!registry.history.contains(id));
    if registry.history.len() == 1024 {
        let oldest = registry.history[0];
        assert(registry.history.contains(oldest));
        assert(registry.history.push(id)[0] == oldest);
        assert(is_terminal(registry.probes, oldest));
    }
}

/// A probe is told to stop exactly where it runs and was cancelled.
pub proof fn law_cancelled_probes_know(registry: ProbeRegistry, id: u64, told: bool)
    requires
        call_ensures(ProbeRegistry::is_cancelled, (&registry, id), told),
    ensures
        told <==> registry@.probes.contains_key(id) && registry@.probes[id] == ProbeState::Active(
            true,
        ),
{
}

} // verus!
