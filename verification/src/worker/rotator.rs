//! The key rotation at the edge: the choices of [`crate::rotator`], with a count of the requests
//! that each key served.

use vstd::prelude::*;

use crate::clock::{Clock, LAST_TICK};
use crate::config;
use crate::rotator;
use crate::text;

verus! {

/// What a [`Rotator`] holds.
pub struct RotatorView {
    pub ring: rotator::RotatorView,
    /// How many requests each slot served, modulo the range of `usize`.
    pub requests: Seq<usize>,
    /// The clock that cooldowns are measured on.
    pub clock: Clock,
}

/// A rotator over `keys`, none of them resting or used, that measures cooldowns on `clock`.
pub open spec fn fresh_rotator(
    keys: Seq<Seq<char>>,
    cooldown_seconds: u64,
    clock: Clock,
) -> RotatorView {
    RotatorView {
        ring: rotator::fresh_rotator(keys, cooldown_seconds, clock),
        requests: Seq::new(keys.len(), |i: int| 0usize),
        clock,
    }
}

impl RotatorView {
    /// Whether there is a count for each slot.
    pub open spec fn valid(self) -> bool {
        self.requests.len() == self.ring.slots.len()
    }

    /// The slot and the key that the next choice falls on at `now`.
    pub open spec fn next_key(self, now: u128) -> Option<(int, Seq<char>)> {
        match self.ring.next_slot(now) {
            Some(slot) => Some((slot, self.ring.slots[slot].key)),
            None => None,
        }
    }

    /// The rotator after one more choice at `now`: the chosen key served one more request.
    pub open spec fn advanced(self, now: u128) -> RotatorView {
        RotatorView {
            ring: self.ring.advanced(),
            requests: match self.ring.next_slot(now) {
                Some(slot) => self.requests.update(
                    slot,
                    if self.requests[slot] == usize::MAX {
                        0
                    } else {
                        (self.requests[slot] + 1) as usize
                    },
                ),
                None => self.requests,
            },
            ..self
        }
    }

    /// The rotator after `key` was marked at `now`.
    pub open spec fn cooled(self, key: Seq<char>, now: u128) -> RotatorView {
        RotatorView { ring: self.ring.cooled(key, now), ..self }
    }

    /// Whether `stats` tells how the keys are doing at `now`.
    pub open spec fn reported(self, stats: RotatorStats, now: u128) -> bool {
        &&& stats.total == self.ring.counts(now).total
        &&& stats.active == self.ring.counts(now).active
        &&& stats.cooling == self.ring.counts(now).cooling
        &&& stats.keys@.len() == self.ring.slots.len()
        &&& forall|i: int|
            0 <= i < stats.keys@.len() ==> self.key_reported(#[trigger] stats.keys@[i], i, now)
    }

    /// Whether `stat` tells how the key of `slot` is doing at `now`.
    pub open spec fn key_reported(self, stat: KeyStat, slot: int, now: u128) -> bool {
        &&& stat.id@ == config::masked(self.ring.slots[slot].key)
        &&& stat.requests == self.requests[slot]
        &&& stat.status@ == if self.ring.slots[slot].available(now) {
            "active"@
        } else {
            "cooling"@
        }
    }
}

/// The slot and the text of a key that was given out.
pub open spec fn key_given(given: Option<(usize, String)>) -> Option<(int, Seq<char>)> {
    match given {
        Some((slot, key)) => Some((slot as int, key@)),
        None => None,
    }
}

/// Hands out API keys in turn, lets refused keys rest for a while, and counts their use.
pub struct Rotator {
    ring: rotator::Rotator,
    requests: Vec<usize>,
    clock: Clock,
}

impl View for Rotator {
    type V = RotatorView;

    closed spec fn view(&self) -> RotatorView {
        RotatorView { ring: self.ring@, requests: self.requests@, clock: self.clock }
    }
}

impl Rotator {
    /// The clock that cooldowns are measured on.
    pub open spec fn clock(&self) -> Clock {
        self@.clock
    }

    /// A rotator over `keys` with a clock of its own.
    pub fn new(keys: Vec<String>, cooldown_seconds: u64) -> (rotator: Rotator)
        ensures
            rotator@ == fresh_rotator(text::texts(keys@), cooldown_seconds, rotator.clock()),
            rotator@.valid(),
    {
        Rotator::on_clock(keys, cooldown_seconds, Clock::start())
    }

    /// A rotator over `keys` that measures cooldowns on `clock`.
    pub fn on_clock(keys: Vec<String>, cooldown_seconds: u64, clock: Clock) -> (rotator: Rotator)
        ensures
            rotator@ == fresh_rotator(text::texts(keys@), cooldown_seconds, clock),
            rotator.clock() == clock,
            rotator@.valid(),
    {
        let mut requests: Vec<usize> = Vec::new();
        while requests.len() < keys.len()
            invariant
                requests.len() <= keys.len(),
                forall|i: int| 0 <= i < requests.len() ==> requests@[i] == 0,
            decreases keys.len() - requests.len(),
        {
            requests.push(0);
        }
        let ghost list = text::texts(keys@);
        let rotator = Rotator {
            ring: rotator::Rotator::on_clock(keys, cooldown_seconds, clock),
            requests,
            clock,
        };
        assert(rotator@.requests =~= fresh_rotator(list, cooldown_seconds, clock).requests);
        rotator
    }

    /// The slot and the next available key by the clock, or `None` if all are cooling down.
    pub fn next_key(&mut self) -> (given: Option<(usize, String)>)
        requires
            old(self)@.valid(),
            old(self)@.ring.slots.len() > 0,
        ensures
            exists|now: u128|
                now <= LAST_TICK && old(self).clock().reads(now) && key_given(given) == old(
                    self,
                )@.next_key(now) && final(self)@ == #[trigger] old(self)@.advanced(now),
            final(self).clock() == old(self).clock(),
            final(self)@.valid(),
    {
        let now: u128 = self.clock.now();
        self.next_key_at(now)
    }

    /// The slot and the next key available at `now`, or `None` if all are cooling down.
    pub fn next_key_at(&mut self, now: u128) -> (given: Option<(usize, String)>)
        requires
            old(self)@.valid(),
            old(self)@.ring.slots.len() > 0,
        ensures
            key_given(given) == old(self)@.next_key(now),
            final(self)@ == old(self)@.advanced(now),
            final(self).clock() == old(self).clock(),
            final(self)@.valid(),
    {
        match self.ring.next_slot_at(now) {
            Some(slot) => {
                let served: usize = self.requests[slot].wrapping_add(1);
                self.requests.set(slot, served);
                Some((slot, self.ring.key_of(slot).to_owned()))
            },
            None => None,
        }
    }

    /// Marks a key as cooling down from now on, by the clock.
    pub fn mark_cooldown(&mut self, key: &str)
        ensures
            exists|now: u128|
                now <= LAST_TICK && old(self).clock().reads(now) && final(self)@
                    == #[trigger] old(self)@.cooled(key@, now),
            final(self).clock() == old(self).clock(),
    {
        let now: u128 = self.clock.now();
        self.mark_cooldown_at(key, now);
    }

    /// Marks a key as cooling down from `now` on.
    pub fn mark_cooldown_at(&mut self, key: &str, now: u128)
        requires
            now <= LAST_TICK,
        ensures
            final(self)@ == old(self)@.cooled(key@, now),
            final(self).clock() == old(self).clock(),
    {
        self.ring.mark_cooldown_at(key, now);
    }

    /// How the keys are doing, by the clock.
    pub fn stats(&self) -> (stats: RotatorStats)
        requires
            self@.valid(),
        ensures
            exists|now: u128|
                now <= LAST_TICK && self.clock().reads(now) && #[trigger] self@.reported(
                    stats,
                    now,
                ),
            self@.ring.slots.len() <= usize::MAX,
            stats.total == self@.ring.slots.len(),
    {
        let now: u128 = self.clock.now();
        self.stats_at(now)
    }

    /// How the keys are doing at `now`.
    pub fn stats_at(&self, now: u128) -> (stats: RotatorStats)
        requires
            self@.valid(),
        ensures
            self@.reported(stats, now),
            self@.ring.slots.len() <= usize::MAX,
            stats.total == self@.ring.slots.len(),
    {
        let counts = self.ring.stats_at(now);
        let mut keys: Vec<KeyStat> = Vec::new();
        let mut i: usize = 0;
        while i < self.requests.len()
            invariant
                i <= self.requests.len(),
                keys.len() == i,
                self@.valid(),
                forall|j: int| 0 <= j < i ==> self@.key_reported(#[trigger] keys@[j], j, now),
            decreases self.requests.len() - i,
        {
            let is_active = self.ring.is_available_at(i, now);
            keys.push(
                KeyStat {
                    id: config::mask_key(self.ring.key_of(i)),
                    requests: self.requests[i],
                    status: if is_active {
                        "active"
                    } else {
                        "cooling"
                    },
                },
            );
            i += 1;
        }
        RotatorStats { total: counts.total, active: counts.active, cooling: counts.cooling, keys }
    }
}

/// How one key is doing: its masked text, the requests it served, and whether it is available.
#[derive(Debug)]
pub struct KeyStat {
    pub id: String,
    pub requests: usize,
    pub status: &'static str,
}

/// How many keys there are, how many of them are available and resting, and how each is doing.
#[derive(Debug)]
pub struct RotatorStats {
    pub total: usize,
    pub active: usize,
    pub cooling: usize,
    pub keys: Vec<KeyStat>,
}

impl RotatorView {
    /// Whether the cooldowns of the ring are measured on the clock that choices are made by.
    pub open spec fn one_clock(self) -> bool {
        self.ring.clock == self.clock
    }
}

/// Whatever is chosen or marked, cooldowns are measured on the same clock: a rotator starts on one
/// clock and stays on it.
pub proof fn law_clock_is_kept(
    keys: Seq<Seq<char>>,
    cooldown_seconds: u64,
    clock: Clock,
    rotator: RotatorView,
    key: Seq<char>,
    now: u128,
)
    ensures
        fresh_rotator(keys, cooldown_seconds, clock).one_clock(),
        rotator.advanced(now).clock == rotator.clock,
        rotator.cooled(key, now).clock == rotator.clock,
        rotator.one_clock() ==> rotator.advanced(now).one_clock(),
        rotator.one_clock() ==> rotator.cooled(key, now).one_clock(),
{
}

/// Every step leaves a count for each slot, and a choice counts for the chosen slot alone.
pub proof fn law_use_is_counted(rotator: RotatorView, key: Seq<char>, now: u128)
    requires
        rotator.valid(),
        rotator.ring.slots.len() > 0,
    ensures
        rotator.advanced(now).valid(),
        rotator.cooled(key, now).valid(),
        rotator.cooled(key, now).requests == rotator.requests,
        forall|slot: int|
            0 <= slot < rotator.requests.len() && rotator.ring.next_slot(now) != Some(slot)
                ==> #[trigger] rotator.advanced(now).requests[slot] == rotator.requests[slot],
        rotator.ring.next_slot(now) matches Some(slot) ==> (rotator.requests[slot] < usize::MAX
            ==> rotator.advanced(now).requests[slot] == rotator.requests[slot] + 1),
{
    rotator::law_choice_is_available(rotator.ring, now);
    rotator::law_marking_touches_one_slot(rotator.ring, key, now);
}

/// A choice gives out the slot on which the ring's choice falls together with the key of that slot,
/// hands the turn on in the ring, and starts the count anew only at the end of its range.
pub proof fn law_choice_is_that_of_the_ring(rotator: RotatorView, key: Seq<char>, now: u128)
    requires
        rotator.valid(),
        rotator.ring.slots.len() > 0,
    ensures
        rotator.next_key(now) is None <==> rotator.ring.next_slot(now) is None,
        rotator.next_key(now) matches Some((slot, given)) ==> rotator.ring.next_slot(now) == Some(
            slot,
        ) && 0 <= slot < rotator.ring.slots.len() && given == rotator.ring.slots[slot].key,
        rotator.advanced(now).ring == rotator.ring.advanced(),
        rotator.ring.next_slot(now) is None ==> rotator.advanced(now).requests == rotator.requests,
        rotator.ring.next_slot(now) matches Some(slot) ==> rotator.requests[slot] == usize::MAX
            ==> rotator.advanced(now).requests[slot] == 0,
        rotator.cooled(key, now).ring == rotator.ring.cooled(key, now),
{
    rotator::law_choice_is_available(rotator.ring, now);
}

/// A report counts the keys as the ring does, and tells of each key, in order, its masked text, the
/// requests it served, and whether it is available.
pub proof fn law_report_tells_of_each_key(rotator: RotatorView, stats: RotatorStats, now: u128)
    requires
        rotator.reported(stats, now),
    ensures
        stats.total == rotator.ring.counts(now).total,
        stats.active == rotator.ring.counts(now).active,
        stats.cooling == rotator.ring.counts(now).cooling,
        stats.keys@.len() == rotator.ring.slots.len(),
        forall|i: int|
            0 <= i < stats.keys@.len() ==> (#[trigger] stats.keys@[i]).id@ == config::masked(
                rotator.ring.slots[i].key,
            ) && stats.keys@[i].requests == rotator.requests[i] && stats.keys@[i].status@
                == if rotator.ring.slots[i].available(now) {
                "active"@
            } else {
                "cooling"@
            },
{
    assert forall|i: int| 0 <= i < stats.keys@.len() implies rotator.key_reported(
        #[trigger] stats.keys@[i],
        i,
        now,
    ) by {
    }
}

/// A rotator starts with the ring of its keys and no requests served.
pub proof fn law_start_is_unused(keys: Seq<Seq<char>>, cooldown_seconds: u64, clock: Clock)
    ensures
        ({
            let rotator = fresh_rotator(keys, cooldown_seconds, clock);
            &&& rotator.ring == rotator::fresh_rotator(keys, cooldown_seconds, clock)
            &&& rotator.requests.len() == keys.len()
            &&& forall|i: int| 0 <= i < keys.len() ==> #[trigger] rotator.requests[i] == 0
            &&& rotator.clock == clock
        }),
{
}

/// What is given out is the slot and the text of the key.
pub proof fn law_given_is_slot_and_text(given: Option<(usize, String)>)
    ensures
        given is None <==> key_given(given) is None,
        given matches Some((slot, key)) ==> key_given(given) == Some((slot as int, key@)),
{
}

} // verus!
