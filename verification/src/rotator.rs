//! Round-robin choice among API keys, with a cooldown for keys that the upstream refused.

use vstd::prelude::*;

use crate::clock::{Clock, LAST_TICK, SECOND};
use crate::text;

verus! {

/// One key: its text, and until when it rests.
pub struct SlotView {
    pub key: Seq<char>,
    pub cooling_until: Option<u128>,
}

impl SlotView {
    /// Whether the key may be used at `now`.
    pub open spec fn available(self, now: u128) -> bool {
        match self.cooling_until {
            None => true,
            Some(until) => now >= until,
        }
    }
}

/// What a [`Rotator`] holds.
pub struct RotatorView {
    pub slots: Seq<SlotView>,
    /// How many choices were asked for so far, modulo the range of `usize`.
    pub counter: usize,
    pub cooldown_seconds: u64,
    /// The clock that cooldowns are measured on.
    pub clock: Clock,
}

/// The first slot available at `now` among those `offset`, `offset + 1`, .. steps after `start`,
/// going round the ring once.
pub open spec fn first_available(
    slots: Seq<SlotView>,
    start: int,
    offset: int,
    now: u128,
) -> Option<int>
    decreases slots.len() - offset,
{
    if offset >= slots.len() {
        None
    } else if slots[(start + offset) % (slots.len() as int)].available(now) {
        Some((start + offset) % (slots.len() as int))
    } else {
        first_available(slots, start, offset + 1, now)
    }
}

/// The first slot at `from` or after it that holds `key`.
pub open spec fn first_with_key(slots: Seq<SlotView>, key: Seq<char>, from: int) -> Option<int>
    decreases slots.len() - from,
{
    if from >= slots.len() {
        None
    } else if slots[from].key == key {
        Some(from)
    } else {
        first_with_key(slots, key, from + 1)
    }
}

/// How many slots are available at `now`.
pub open spec fn count_available(slots: Seq<SlotView>, now: u128) -> nat
    decreases slots.len(),
{
    if slots.len() == 0 {
        0
    } else {
        count_available(slots.drop_last(), now) + if slots.last().available(now) {
            1nat
        } else {
            0nat
        }
    }
}

impl RotatorView {
    /// The slot that the next choice falls on at `now`, if any key is available.
    pub open spec fn next_slot(self, now: u128) -> Option<int> {
        first_available(self.slots, (self.counter as int) % (self.slots.len() as int), 0, now)
    }

    /// The key that the next choice falls on at `now`.
    pub open spec fn next_key(self, now: u128) -> Option<Seq<char>> {
        match self.next_slot(now) {
            Some(slot) => Some(self.slots[slot].key),
            None => None,
        }
    }

    /// The rotator after one more choice.
    pub open spec fn advanced(self) -> RotatorView {
        RotatorView {
            counter: if self.counter == usize::MAX {
                0
            } else {
                (self.counter + 1) as usize
            },
            ..self
        }
    }

    /// When a key rests until if it is marked at `now`.
    pub open spec fn rest_until(self, now: u128) -> u128 {
        (now + self.cooldown_seconds * SECOND) as u128
    }

    /// The rotator after `key` was marked at `now`: the first slot with that key rests, the
    /// others stay as they are.
    pub open spec fn cooled(self, key: Seq<char>, now: u128) -> RotatorView {
        match first_with_key(self.slots, key, 0) {
            Some(slot) => RotatorView {
                slots: self.slots.update(
                    slot,
                    SlotView { key, cooling_until: Some(self.rest_until(now)) },
                ),
                ..self
            },
            None => self,
        }
    }

    /// The key counts at `now`.
    pub open spec fn counts(self, now: u128) -> RotatorStats {
        RotatorStats {
            total: self.slots.len() as usize,
            active: count_available(self.slots, now) as usize,
            cooling: (self.slots.len() - count_available(self.slots, now)) as usize,
        }
    }
}

struct KeyState {
    key: String,
    cooling_until: Option<u128>,
}

impl View for KeyState {
    type V = SlotView;

    closed spec fn view(&self) -> SlotView {
        SlotView { key: self.key@, cooling_until: self.cooling_until }
    }
}

impl KeyState {
    fn is_available(&self, now: u128) -> (yes: bool)
        ensures
            yes == self@.available(now),
    {
        match self.cooling_until {
            None => true,
            Some(until) => now >= until,
        }
    }
}

/// Hands out API keys in turn and lets refused keys rest for a while.
pub struct Rotator {
    keys: Vec<KeyState>,
    counter: usize,
    cooldown_seconds: u64,
    clock: Clock,
}

impl View for Rotator {
    type V = RotatorView;

    closed spec fn view(&self) -> RotatorView {
        RotatorView {
            slots: Seq::new(self.keys@.len(), |i: int| self.keys@[i]@),
            counter: self.counter,
            cooldown_seconds: self.cooldown_seconds,
            clock: self.clock,
        }
    }
}

/// A rotator over `keys`, none of them resting, that measures cooldowns on `clock`.
pub open spec fn fresh_rotator(
    keys: Seq<Seq<char>>,
    cooldown_seconds: u64,
    clock: Clock,
) -> RotatorView {
    RotatorView {
        slots: Seq::new(keys.len(), |i: int| SlotView { key: keys[i], cooling_until: None }),
        counter: 0,
        cooldown_seconds,
        clock,
    }
}

/// Steps `offset` places on from `start` in a ring of `len` places.
fn ring_place(start: usize, offset: usize, len: usize) -> (place: usize)
    requires
        start < len,
        offset < len,
    ensures
        place == (start + offset) % (len as int),
{
    if offset < len - start {
        assert((start + offset) % (len as int) == start + offset) by (nonlinear_arith)
            requires
                0 <= start + offset < len,
        ;
        start + offset
    } else {
        assert((start + offset) % (len as int) == start + offset - len) by (nonlinear_arith)
            requires
                len <= start + offset < 2 * len,
        ;
        offset - (len - start)
    }
}

impl Rotator {
    /// The clock that cooldowns are measured on.
    pub open spec fn clock(&self) -> Clock {
        self@.clock
    }

    /// A rotator over `keys` with a clock of its own.
    pub fn new(keys: Vec<String>, cooldown_seconds: u64) -> (rotator: Rotator)
        ensures
            rotator@ == fresh_rotator(text::texts(keys@), cooldown_seconds, rotator.clock()),
    {
        Rotator::on_clock(keys, cooldown_seconds, Clock::start())
    }

    /// A rotator over `keys` that measures cooldowns on `clock`.
    pub fn on_clock(keys: Vec<String>, cooldown_seconds: u64, clock: Clock) -> (rotator: Rotator)
        ensures
            rotator@ == fresh_rotator(text::texts(keys@), cooldown_seconds, clock),
            rotator.clock() == clock,
    {
        let mut slots: Vec<KeyState> = Vec::new();
        let mut i: usize = 0;
        while i < keys.len()
            invariant
                i <= keys.len(),
                slots.len() == i,
                forall|j: int|
                    0 <= j < i ==> (#[trigger] slots@[j])@ == (SlotView {
                        key: keys@[j]@,
                        cooling_until: None,
                    }),
            decreases keys.len() - i,
        {
            slots.push(KeyState { key: keys[i].clone(), cooling_until: None });
            i += 1;
        }
        let rotator = Rotator { keys: slots, counter: 0, cooldown_seconds, clock };
        assert(rotator@.slots =~= fresh_rotator(
            text::texts(keys@),
            cooldown_seconds,
            clock,
        ).slots);
        rotator
    }

    /// The next available key by the clock, or `None` if all are cooling down.
    pub fn next_key(&mut self) -> (key: Option<String>)
        requires
            old(self)@.slots.len() > 0,
        ensures
            final(self)@ == old(self)@.advanced(),
            exists|now: u128|
                now <= LAST_TICK && old(self).clock().reads(now) && text::text_given(key)
                    == #[trigger] old(self)@.next_key(now),
            final(self).clock() == old(self).clock(),
    {
        let now: u128 = self.clock.now();
        self.next_key_at(now)
    }

    /// The next key available at `now`, or `None` if all are cooling down.
    pub fn next_key_at(&mut self, now: u128) -> (key: Option<String>)
        requires
            old(self)@.slots.len() > 0,
        ensures
            final(self)@ == old(self)@.advanced(),
            text::text_given(key) == old(self)@.next_key(now),
            final(self).clock() == old(self).clock(),
    {
        match self.next_slot_at(now) {
            Some(slot) => Some(self.keys[slot].key.clone()),
            None => None,
        }
    }

    /// The place of the next key available at `now`, or `None` if all are cooling down.
    pub fn next_slot_at(&mut self, now: u128) -> (slot: Option<usize>)
        requires
            old(self)@.slots.len() > 0,
        ensures
            final(self)@ == old(self)@.advanced(),
            match slot {
                Some(i) => old(self)@.next_slot(now) == Some(i as int) && i < old(self)@.slots.len(),
                None => old(self)@.next_slot(now) is None,
            },
            final(self).clock() == old(self).clock(),
    {
        let n: usize = self.keys.len();
        let start: usize = self.counter % n;
        self.counter = self.counter.wrapping_add(1);
        assert(self@.slots == old(self)@.slots);
        let mut i: usize = 0;
        while i < n
            invariant
                i <= n,
                n == self.keys.len() == old(self)@.slots.len(),
                start < n,
                start == (old(self)@.counter as int) % (n as int),
                self@ == old(self)@.advanced(),
                old(self)@.next_slot(now) == first_available(
                    old(self)@.slots,
                    start as int,
                    i as int,
                    now,
                ),
            decreases n - i,
        {
            let place: usize = ring_place(start, i, n);
            assert(self@.slots[place as int] == self.keys@[place as int]@);
            if self.keys[place].is_available(now) {
                return Some(place);
            }
            i += 1;
        }
        None
    }

    /// Marks a key as cooling down from now on, by the clock.
    pub fn mark_cooldown(&mut self, key: &str)
        ensures
            exists|now: u128|
                now <= LAST_TICK && old(self).clock().reads(now) && final(self)@
                    == #[trigger] old(self)@.cooled(key@, now),
            final(self).clock() == old(self).clock(),
    {
        let now: u128 = self.clock.now();
        self.mark_cooldown_at(key, now);
    }

    /// Marks a key as cooling down from `now` on.
    pub fn mark_cooldown_at(&mut self, key: &str, now: u128)
        requires
            now <= LAST_TICK,
        ensures
            final(self)@ == old(self)@.cooled(key@, now),
            final(self).clock() == old(self).clock(),
    {
        let mut i: usize = 0;
        while i < self.keys.len()
            invariant
                i <= self.keys.len(),
                *self == *old(self),
                now <= LAST_TICK,
                first_with_key(self@.slots, key@, 0) == first_with_key(
                    self@.slots,
                    key@,
                    i as int,
                ),
            decreases self.keys.len() - i,
        {
            assert(self@.slots[i as int] == self.keys@[i as int]@);
            if text::same(self.keys[i].key.as_str(), key) {
                let until: u128 = now + self.cooldown_seconds as u128 * SECOND;
                self.keys[i].cooling_until = Some(until);
                assert(self@.slots =~= old(self)@.cooled(key@, now).slots);
                return;
            }
            i += 1;
        }
    }

    /// The key of a slot.
    pub fn key_of(&self, slot: usize) -> (key: &str)
        requires
            slot < self@.slots.len(),
        ensures
            key@ == self@.slots[slot as int].key,
    {
        self.keys[slot].key.as_str()
    }

    /// Whether the key of a slot is available at `now`.
    pub fn is_available_at(&self, slot: usize, now: u128) -> (yes: bool)
        requires
            slot < self@.slots.len(),
        ensures
            yes == self@.slots[slot as int].available(now),
    {
        self.keys[slot].is_available(now)
    }

    /// Key counts by the clock.
    pub fn stats(&self) -> (stats: RotatorStats)
        ensures
            exists|now: u128|
                now <= LAST_TICK && self.clock().reads(now) && stats == #[trigger] self@.counts(
                    now,
                ),
            self@.slots.len() <= usize::MAX,
            stats.total == self@.slots.len(),
    {
        let now: u128 = self.clock.now();
        self.stats_at(now)
    }

    /// Key counts at `now`.
    pub fn stats_at(&self, now: u128) -> (stats: RotatorStats)
        ensures
            stats == self@.counts(now),
            self@.slots.len() <= usize::MAX,
            stats.total == self@.slots.len(),
    {
        let mut total: usize = 0;
        let mut active: usize = 0;
        let mut cooling: usize = 0;
        while total < self.keys.len()
            invariant
                total <= self.keys.len(),
                active + cooling == total,
                active == count_available(self@.slots.take(total as int), now),
            decreases self.keys.len() - total,
        {
            assert(self@.slots[total as int] == self.keys@[total as int]@);
            assert(self@.slots.take(total + 1).drop_last() =~= self@.slots.take(total as int));
            if self.keys[total].is_available(now) {
                active += 1;
            } else {
                cooling += 1;
            }
            total += 1;
        }
        assert(self@.slots.take(total as int) =~= self@.slots);
        RotatorStats { total, active, cooling }
    }
}

/// How many keys there are, and how many of them are available and resting.
#[derive(Clone, Copy, Debug, PartialEq, Eq, Structural)]
pub struct RotatorStats {
    pub total: usize,
    pub active: usize,
    pub cooling: usize,
}

proof fn lemma_first_available(slots: Seq<SlotView>, start: int, offset: int, now: u128)
    requires
        slots.len() > 0,
        0 <= start < slots.len(),
        0 <= offset <= slots.len(),
    ensures
        match first_available(slots, start, offset, now) {
            Some(slot) => 0 <= slot < slots.len() && slots[slot].available(now),
            None => forall|step: int|
                offset <= step < slots.len()
                    ==> !#[trigger] slots[(start + step) % (slots.len() as int)].available(now),
        },
    decreases slots.len() - offset,
{
    if offset < slots.len() {
        assert(0 <= (start + offset) % (slots.len() as int) < slots.len()) by (nonlinear_arith)
            requires
                slots.len() > 0,
        ;
        lemma_first_available(slots, start, offset + 1, now);
    }
}

/// A choice falls on an available key, and it fails only if every key is cooling down.
pub proof fn law_choice_is_available(rotator: RotatorView, now: u128)
    requires
        rotator.slots.len() > 0,
    ensures
        rotator.next_slot(now) matches Some(slot) ==> 0 <= slot < rotator.slots.len()
            && rotator.slots[slot].available(now),
        rotator.next_slot(now) is None <==> forall|slot: int|
            0 <= slot < rotator.slots.len() ==> !(#[trigger] rotator.slots[slot]).available(now),
{
    let n = rotator.slots.len() as int;
    let start = (rotator.counter as int) % n;
    lemma_first_available(rotator.slots, start, 0, now);
    if rotator.next_slot(now) is None {
        assert forall|slot: int| 0 <= slot < n implies !(
        #[trigger] rotator.slots[slot]).available(now) by {
            let step = if slot >= start {
                slot - start
            } else {
                slot + n - start
            };
            assert((start + step) % n == slot) by (nonlinear_arith)
                requires
                    0 <= slot < n,
                    start + step == slot || start + step == slot + n,
            ;
            assert(!rotator.slots[(start + step) % n].available(now));
        }
    }
}

/// The rotator after `times` more choices.
pub open spec fn after_choices(rotator: RotatorView, times: nat) -> RotatorView
    decreases times,
{
    if times == 0 {
        rotator
    } else {
        after_choices(rotator, (times - 1) as nat).advanced()
    }
}

proof fn lemma_after_choices(rotator: RotatorView, times: nat)
    requires
        rotator.counter + times <= usize::MAX,
    ensures
        after_choices(rotator, times) == (RotatorView {
            counter: (rotator.counter + times) as usize,
            ..rotator
        }),
    decreases times,
{
    if times > 0 {
        lemma_after_choices(rotator, (times - 1) as nat);
    }
}

/// While every key is available, the choices go round the ring: each falls on the slot after the
/// one before it. (Where the counter passes the end of its range, the order starts anew.)
pub proof fn law_round_robin(rotator: RotatorView, times: nat, now: u128)
    requires
        rotator.slots.len() > 0,
        rotator.counter + times <= usize::MAX,
        forall|slot: int|
            0 <= slot < rotator.slots.len() ==> (#[trigger] rotator.slots[slot]).available(now),
    ensures
        after_choices(rotator, times).next_slot(now) == Some(
            (rotator.counter + times) % (rotator.slots.len() as int),
        ),
{
    let n = rotator.slots.len() as int;
    let start = (rotator.counter + times) % n;
    lemma_after_choices(rotator, times);
    assert(0 <= start < n && (start + 0) % n == start) by (nonlinear_arith)
        requires
            n > 0,
            start == (rotator.counter + times) % n,
    ;
    assert(rotator.slots[start].available(now));
}

/// While every key is available, as many choices as there are keys fall on different slots.
pub proof fn law_every_key_in_turn(rotator: RotatorView, first: nat, second: nat, now: u128)
    requires
        rotator.slots.len() > 0,
        first < second < first + rotator.slots.len(),
        rotator.counter + second <= usize::MAX,
        forall|slot: int|
            0 <= slot < rotator.slots.len() ==> (#[trigger] rotator.slots[slot]).available(now),
    ensures
        after_choices(rotator, first).next_slot(now) != after_choices(rotator, second).next_slot(
            now,
        ),
{
    law_round_robin(rotator, first, now);
    law_round_robin(rotator, second, now);
    let n = rotator.slots.len() as int;
    let a = rotator.counter + first;
    let b = rotator.counter + second;
    vstd::arithmetic::div_mod::lemma_fundamental_div_mod(a, n);
    vstd::arithmetic::div_mod::lemma_fundamental_div_mod(b, n);
    let p = a / n;
    let q = b / n;
    assert(a % n != b % n) by (nonlinear_arith)
        requires
            0 < b - a < n,
            a == n * p + a % n,
            b == n * q + b % n,
    ;
}

proof fn lemma_first_with_key(slots: Seq<SlotView>, key: Seq<char>, from: int)
    requires
        0 <= from <= slots.len(),
    ensures
        match first_with_key(slots, key, from) {
            Some(slot) => from <= slot < slots.len() && slots[slot].key == key && forall|i: int|
                from <= i < slot ==> (#[trigger] slots[i]).key != key,
            None => forall|i: int| from <= i < slots.len() ==> (#[trigger] slots[i]).key != key,
        },
    decreases slots.len() - from,
{
    if from < slots.len() {
        lemma_first_with_key(slots, key, from + 1);
    }
}

/// Whatever is chosen or marked, cooldowns are measured on the same clock.
pub proof fn law_clock_is_kept(rotator: RotatorView, key: Seq<char>, now: u128)
    ensures
        rotator.advanced().clock == rotator.clock,
        rotator.cooled(key, now).clock == rotator.clock,
{
}

/// Marking a key lets at most one slot rest, the first that holds the key, and changes nothing
/// else: the keys, their order, the other slots and the place in the ring stay.
pub proof fn law_marking_touches_one_slot(rotator: RotatorView, key: Seq<char>, now: u128)
    ensures
        ({
            let after = rotator.cooled(key, now);
            &&& after.counter == rotator.counter
            &&& after.cooldown_seconds == rotator.cooldown_seconds
            &&& after.slots.len() == rotator.slots.len()
            &&& forall|i: int|
                0 <= i < rotator.slots.len() ==> (#[trigger] after.slots[i]).key
                    == rotator.slots[i].key
            &&& forall|i: int|
                0 <= i < rotator.slots.len() && first_with_key(rotator.slots, key, 0) != Some(i)
                    ==> #[trigger] after.slots[i] == rotator.slots[i]
        }),
{
    lemma_first_with_key(rotator.slots, key, 0);
}

/// From the moment a key is marked until its cooldown is over, no choice falls on its slot; and
/// if no other slot holds the same key, the key is not handed out at all.
pub proof fn law_cooling_key_is_skipped(
    rotator: RotatorView,
    key: Seq<char>,
    marked: u128,
    now: u128,
)
    requires
        rotator.slots.len() > 0,
        marked <= LAST_TICK,
        marked <= now < marked + rotator.cooldown_seconds * SECOND,
    ensures
        first_with_key(rotator.slots, key, 0) matches Some(slot) ==> {
            &&& !rotator.cooled(key, marked).slots[slot].available(now)
            &&& rotator.cooled(key, marked).next_slot(now) != Some(slot)
        },
        (forall|i: int, j: int|
            0 <= i < j < rotator.slots.len() ==> (#[trigger] rotator.slots[i]).key != (
            #[trigger] rotator.slots[j]).key) ==> rotator.cooled(key, marked).next_key(now)
            != Some(key),
{
    let after = rotator.cooled(key, marked);
    lemma_first_with_key(rotator.slots, key, 0);
    law_marking_touches_one_slot(rotator, key, marked);
    law_choice_is_available(after, now);
}

/// Once the cooldown is over, a marked key is available again.
pub proof fn law_cooldown_recovery(rotator: RotatorView, key: Seq<char>, marked: u128, now: u128)
    requires
        marked <= LAST_TICK,
        now >= marked + rotator.cooldown_seconds * SECOND,
    ensures
        first_with_key(rotator.slots, key, 0) matches Some(slot) ==> rotator.cooled(
            key,
            marked,
        ).slots[slot].available(now),
{
    lemma_first_with_key(rotator.slots, key, 0);
}

proof fn lemma_count_available(slots: Seq<SlotView>, now: u128)
    ensures
        count_available(slots, now) <= slots.len(),
        count_available(slots, now) == 0 <==> forall|i: int|
            0 <= i < slots.len() ==> !(#[trigger] slots[i]).available(now),
    decreases slots.len(),
{
    if slots.len() > 0 {
        let front = slots.drop_last();
        lemma_count_available(front, now);
        if count_available(slots, now) == 0 {
            assert forall|i: int| 0 <= i < slots.len() implies !(
            #[trigger] slots[i]).available(now) by {
                if i < front.len() {
                    assert(front[i] == slots[i]);
                }
            }
        } else if forall|i: int| 0 <= i < slots.len() ==> !(#[trigger] slots[i]).available(now) {
            assert forall|i: int| 0 <= i < front.len() implies !(
            #[trigger] front[i]).available(now) by {
                assert(front[i] == slots[i]);
            }
            assert(!slots[slots.len() - 1].available(now));
        }
    }
}

/// Every key is either active or cooling, and no key is active exactly if no choice succeeds.
pub proof fn law_counts_add_up(rotator: RotatorView, now: u128)
    requires
        0 < rotator.slots.len() <= usize::MAX,
    ensures
        rotator.counts(now).total == rotator.slots.len(),
        rotator.counts(now).active + rotator.counts(now).cooling == rotator.counts(now).total,
        rotator.counts(now).active == 0 <==> rotator.next_slot(now) is None,
{
    lemma_count_available(rotator.slots, now);
    law_choice_is_available(rotator, now);
}

proof fn lemma_count_after_update(slots: Seq<SlotView>, place: int, slot: SlotView, now: u128)
    requires
        0 <= place < slots.len(),
        slots[place].available(now),
        !slot.available(now),
    ensures
        count_available(slots.update(place, slot), now) + 1 == count_available(slots, now),
    decreases slots.len(),
{
    let changed = slots.update(place, slot);
    if place == slots.len() - 1 {
        assert(changed.drop_last() =~= slots.drop_last());
    } else {
        assert(changed.drop_last() =~= slots.drop_last().update(place, slot));
        lemma_count_after_update(slots.drop_last(), place, slot, now);
    }
}

/// Marking an available key moves it from the active keys to the cooling ones.
pub proof fn law_marking_moves_one_key(rotator: RotatorView, key: Seq<char>, now: u128)
    requires
        rotator.slots.len() <= usize::MAX,
        now <= LAST_TICK,
        rotator.cooldown_seconds > 0,
        first_with_key(rotator.slots, key, 0) matches Some(slot)
            && rotator.slots[slot].available(now),
    ensures
        rotator.cooled(key, now).counts(now).active == rotator.counts(now).active - 1,
        rotator.cooled(key, now).counts(now).cooling == rotator.counts(now).cooling + 1,
{
    lemma_first_with_key(rotator.slots, key, 0);
    let slot = first_with_key(rotator.slots, key, 0)->0;
    lemma_count_after_update(
        rotator.slots,
        slot,
        SlotView { key, cooling_until: Some(rotator.rest_until(now)) },
        now,
    );
    lemma_count_available(rotator.slots, now);
}

proof fn lemma_first_available_at(
    slots: Seq<SlotView>,
    start: int,
    offset: int,
    steps: int,
    now: u128,
)
    requires
        0 <= offset <= steps < slots.len(),
        slots[(start + steps) % (slots.len() as int)].available(now),
        forall|j: int|
            offset <= j < steps ==> !(#[trigger] slots[(start + j) % (slots.len() as int)]).available(
                now,
            ),
    ensures
        first_available(slots, start, offset, now) == Some((start + steps) % (slots.len() as int)),
    decreases steps - offset,
{
    if offset < steps {
        assert(!slots[(start + offset) % (slots.len() as int)].available(now));
        lemma_first_available_at(slots, start, offset + 1, steps, now);
    }
}

/// Whichever keys rest, a choice falls on the first available slot in ring order, counted from the
/// slot whose turn it is: that slot if it is available, else as few steps further as there are
/// resting slots to pass over.
pub proof fn law_choice_is_first_in_ring(rotator: RotatorView, steps: int, now: u128)
    requires
        0 <= steps < rotator.slots.len(),
        rotator.slots[(rotator.counter as int % rotator.slots.len() as int + steps)
            % rotator.slots.len() as int].available(now),
        forall|j: int|
            0 <= j < steps ==> !(#[trigger] rotator.slots[(rotator.counter as int
                % rotator.slots.len() as int + j) % rotator.slots.len() as int]).available(now),
    ensures
        rotator.next_slot(now) == Some(
            (rotator.counter as int % rotator.slots.len() as int + steps)
                % rotator.slots.len() as int,
        ),
        rotator.next_key(now) == Some(
            rotator.slots[(rotator.counter as int % rotator.slots.len() as int + steps)
                % rotator.slots.len() as int].key,
        ),
{
    let start = rotator.counter as int % rotator.slots.len() as int;
    lemma_first_available_at(rotator.slots, start, 0, steps, now);
}

/// The slot whose turn it is, if it is available, is the one chosen, whichever others rest.
pub proof fn law_available_turn_is_taken(rotator: RotatorView, now: u128)
    requires
        rotator.slots.len() > 0,
        rotator.slots[rotator.counter as int % rotator.slots.len() as int].available(now),
    ensures
        rotator.next_slot(now) == Some(rotator.counter as int % rotator.slots.len() as int),
{
    let n = rotator.slots.len() as int;
    let start = rotator.counter as int % n;
    assert((start + 0) % n == start) by (nonlinear_arith)
        requires
            n > 0,
            start == rotator.counter as int % n,
    ;
    law_choice_is_first_in_ring(rotator, 0, now);
}

/// A choice passes over resting slots only: between the slot whose turn it is and the one chosen
/// none is available.
pub proof fn law_only_resting_slots_are_passed_over(rotator: RotatorView, now: u128) -> (steps: int)
    requires
        rotator.slots.len() > 0,
    ensures
        rotator.next_slot(now) is Some ==> {
            let n = rotator.slots.len() as int;
            let start = rotator.counter as int % n;
            &&& 0 <= steps < n
            &&& rotator.next_slot(now) == Some((start + steps) % n)
            &&& rotator.slots[(start + steps) % n].available(now)
            &&& forall|j: int|
                0 <= j < steps ==> !(#[trigger] rotator.slots[(start + j) % n]).available(now)
        },
{
    lemma_steps_to_available(
        rotator.slots,
        rotator.counter as int % rotator.slots.len() as int,
        0,
        now,
    )
}

proof fn lemma_steps_to_available(slots: Seq<SlotView>, start: int, offset: int, now: u128) -> (steps:
    int)
    requires
        0 <= offset <= slots.len(),
    ensures
        first_available(slots, start, offset, now) is Some ==> {
            let n = slots.len() as int;
            &&& offset <= steps < n
            &&& first_available(slots, start, offset, now) == Some((start + steps) % n)
            &&& slots[(start + steps) % n].available(now)
            &&& forall|j: int|
                offset <= j < steps ==> !(#[trigger] slots[(start + j) % n]).available(now)
        },
    decreases slots.len() - offset,
{
    if offset >= slots.len() || slots[(start + offset) % (slots.len() as int)].available(now) {
        offset
    } else {
        let steps = lemma_steps_to_available(slots, start, offset + 1, now);
        if first_available(slots, start, offset + 1, now) is Some {
            assert forall|j: int| offset <= j < steps implies !(#[trigger] slots[(start + j) % (
            slots.len() as int)]).available(now) by {
                if j > offset {
                    assert(!slots[(start + j) % (slots.len() as int)].available(now));
                }
            }
        }
        steps
    }
}

/// Every choice, whether it succeeds or not, hands the turn on by one, and changes nothing else.
pub proof fn law_choice_hands_on_the_turn(rotator: RotatorView)
    ensures
        rotator.counter < usize::MAX ==> rotator.advanced().counter == rotator.counter + 1,
        rotator.counter == usize::MAX ==> rotator.advanced().counter == 0,
        rotator.advanced().slots == rotator.slots,
        rotator.advanced().cooldown_seconds == rotator.cooldown_seconds,
{
}

/// A key is available unless it rests, and then from the end of its rest on.
pub proof fn law_available_outside_rest(slot: SlotView, now: u128)
    ensures
        slot.cooling_until is None ==> slot.available(now),
        slot.cooling_until matches Some(until) ==> (slot.available(now) <==> until <= now),
{
}

/// Marking a key takes its first slot out of use for exactly the cooldown, in seconds of a
/// thousand million nanoseconds, whatever its rest was before; every other slot is as available as
/// before at any time. A key that no slot holds changes nothing.
pub proof fn law_marked_key_rests_for_the_cooldown(
    rotator: RotatorView,
    key: Seq<char>,
    marked: u128,
    slot: int,
    now: u128,
)
    requires
        marked <= LAST_TICK,
        0 <= slot < rotator.slots.len(),
    ensures
        rotator.cooled(key, marked).slots.len() == rotator.slots.len(),
        rotator.cooled(key, marked).slots[slot].key == rotator.slots[slot].key,
        rotator.slots[slot].key == key && (forall|i: int|
            0 <= i < slot ==> (#[trigger] rotator.slots[i]).key != key) ==> (rotator.cooled(
            key,
            marked,
        ).slots[slot].available(now) <==> now >= marked + rotator.cooldown_seconds * 1_000_000_000),
        rotator.slots[slot].key != key || (exists|i: int|
            0 <= i < slot && (#[trigger] rotator.slots[i]).key == key) ==> rotator.cooled(
            key,
            marked,
        ).slots[slot] == rotator.slots[slot],
        (forall|i: int| 0 <= i < rotator.slots.len() ==> (#[trigger] rotator.slots[i]).key != key)
            ==> rotator.cooled(key, marked) == rotator,
{
    lemma_first_with_key(rotator.slots, key, 0);
}

/// The active keys are counted one by one.
pub proof fn law_counts_are_of_the_slots(
    rotator: RotatorView,
    now: u128,
    active: spec_fn(SlotView) -> bool,
)
    requires
        rotator.slots.len() <= usize::MAX,
        forall|slot: SlotView| #[trigger] active(slot) == slot.available(now),
    ensures
        rotator.counts(now).total == rotator.slots.len(),
        rotator.counts(now).active == rotator.slots.filter(active).len(),
        rotator.counts(now).cooling == rotator.slots.len() - rotator.slots.filter(active).len(),
{
    lemma_count_is_filter(rotator.slots, now, active);
    lemma_count_available(rotator.slots, now);
}

proof fn lemma_count_is_filter(
    slots: Seq<SlotView>,
    now: u128,
    active: spec_fn(SlotView) -> bool,
)
    requires
        forall|slot: SlotView| #[trigger] active(slot) == slot.available(now),
    ensures
        count_available(slots, now) == slots.filter(active).len(),
    decreases slots.len(),
{
    reveal(Seq::filter);
    if slots.len() > 0 {
        lemma_count_is_filter(slots.drop_last(), now, active);
    }
}

/// A rotator starts with a slot for each key, in order, all of them available at any time, and
/// with the turn at the first.
pub proof fn law_start_is_at_the_first_key(
    keys: Seq<Seq<char>>,
    cooldown_seconds: u64,
    clock: Clock,
    now: u128,
)
    ensures
        ({
            let rotator = fresh_rotator(keys, cooldown_seconds, clock);
            &&& rotator.slots.len() == keys.len()
            &&& forall|i: int|
                0 <= i < keys.len() ==> (#[trigger] rotator.slots[i]).key == keys[i]
                    && rotator.slots[i].available(now)
            &&& rotator.counter == 0
            &&& rotator.cooldown_seconds == cooldown_seconds
            &&& rotator.clock == clock
        }),
{
}

} // verus!
