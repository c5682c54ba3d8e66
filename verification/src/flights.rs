//! Coalescing of concurrent requests for the same cache key into one upstream call.

use vstd::prelude::*;

use crate::stats;
use crate::text;

verus! {

/// An upstream call under way, and the tickets of those that wait for its outcome.
pub struct FlightView {
    pub key: Seq<char>,
    pub waiting: Seq<u64>,
}

/// What [`Flights`] hold.
pub struct FlightsView {
    pub flights: Seq<FlightView>,
    /// The ticket that is given out next.
    pub next_ticket: u64,
}

/// The first flight at `from` or after it that is for `key`.
pub open spec fn flight_for(flights: Seq<FlightView>, key: Seq<char>, from: int) -> Option<int>
    decreases flights.len() - from,
{
    if from >= flights.len() {
        None
    } else if flights[from].key == key {
        Some(from)
    } else {
        flight_for(flights, key, from + 1)
    }
}

impl FlightsView {
    /// Whether a call for `key` is under way.
    pub open spec fn flying(self, key: Seq<char>) -> bool {
        flight_for(self.flights, key, 0) is Some
    }

    /// The tickets of those that wait for the call for `key`, in the order of their coming.
    pub open spec fn waiting(self, key: Seq<char>) -> Seq<u64> {
        match flight_for(self.flights, key, 0) {
            Some(i) => self.flights[i].waiting,
            None => Seq::empty(),
        }
    }

    /// The flights after someone came for `key`: a call is under way for it, and whoever did not
    /// start it waits for its outcome.
    pub open spec fn joined(self, key: Seq<char>) -> FlightsView {
        match flight_for(self.flights, key, 0) {
            Some(i) => FlightsView {
                flights: self.flights.update(
                    i,
                    FlightView { key, waiting: self.flights[i].waiting.push(self.next_ticket) },
                ),
                next_ticket: stats::bump(self.next_ticket),
            },
            None => FlightsView {
                flights: self.flights.push(FlightView { key, waiting: Seq::empty() }),
                ..self
            },
        }
    }

    /// The flights after the call for `key` came to its end.
    pub open spec fn landed(self, key: Seq<char>) -> FlightsView {
        match flight_for(self.flights, key, 0) {
            Some(i) => FlightsView { flights: self.flights.remove(i), ..self },
            None => self,
        }
    }

    /// No two calls are under way for the same key.
    pub open spec fn one_per_key(self) -> bool {
        forall|i: int, j: int|
            0 <= i < j < self.flights.len() ==> (#[trigger] self.flights[i]).key != (
            #[trigger] self.flights[j]).key
    }
}

struct Flight {
    key: String,
    waiting: Vec<u64>,
}

impl View for Flight {
    type V = FlightView;

    closed spec fn view(&self) -> FlightView {
        FlightView { key: self.key@, waiting: self.waiting@ }
    }
}

/// The upstream calls that are under way.
pub struct Flights {
    flights: Vec<Flight>,
    next_ticket: u64,
}

impl View for Flights {
    type V = FlightsView;

    closed spec fn view(&self) -> FlightsView {
        FlightsView {
            flights: Seq::new(self.flights@.len(), |i: int| self.flights@[i]@),
            next_ticket: self.next_ticket,
        }
    }
}

/// No calls under way.
pub open spec fn no_flights() -> FlightsView {
    FlightsView { flights: Seq::empty(), next_ticket: 0 }
}

impl Flights {
    /// No calls under way.
    pub fn new() -> (flights: Flights)
        ensures
            flights@ == no_flights(),
    {
        let flights = Flights { flights: Vec::new(), next_ticket: 0 };
        assert(flights@.flights =~= Seq::empty());
        flights
    }

    fn position(&self, key: &str) -> (place: Option<usize>)
        ensures
            match place {
                Some(i) => flight_for(self@.flights, key@, 0) == Some(i as int)
                    && i < self.flights.len() && self.flights@[i as int]@.key == key@,
                None => flight_for(self@.flights, key@, 0) is None,
            },
    {
        let mut i: usize = 0;
        while i < self.flights.len()
            invariant
                i <= self.flights.len(),
                flight_for(self@.flights, key@, 0) == flight_for(self@.flights, key@, i as int),
            decreases self.flights.len() - i,
        {
            assert(self@.flights[i as int] == self.flights@[i as int]@);
            if text::same(self.flights[i].key.as_str(), key) {
                return Some(i);
            }
            i += 1;
        }
        None
    }

    /// Waits for the call for `key`, with a ticket, if one is under way.
    pub fn follow(&mut self, key: &str) -> (ticket: Option<u64>)
        ensures
            final(self)@ == if old(self)@.flying(key@) {
                old(self)@.joined(key@)
            } else {
                old(self)@
            },
            ticket == if old(self)@.flying(key@) {
                Some(old(self)@.next_ticket)
            } else {
                None
            },
    {
        match self.position(key) {
            Some(i) => {
                let ticket: u64 = self.next_ticket;
                self.flights[i].waiting.push(ticket);
                self.next_ticket = ticket.wrapping_add(1);
                assert(self@.flights =~= old(self)@.joined(key@).flights);
                Some(ticket)
            },
            None => None,
        }
    }

    /// Starts a call for `key`. None may be under way.
    pub fn lead(&mut self, key: &str)
        requires
            !old(self)@.flying(key@),
        ensures
            final(self)@ == old(self)@.joined(key@),
    {
        self.flights.push(Flight { key: key.to_owned(), waiting: Vec::new() });
        assert(self.flights@.last()@.waiting =~= Seq::empty());
        assert(self@.flights =~= old(self)@.joined(key@).flights);
    }

    /// Ends the call for `key` and hands out the tickets of those that waited for it.
    pub fn land(&mut self, key: &str) -> (waiting: Vec<u64>)
        ensures
            final(self)@ == old(self)@.landed(key@),
            waiting@ == old(self)@.waiting(key@),
    {
        match self.position(key) {
            Some(i) => {
                let flight = self.flights.remove(i);
                assert(self@.flights =~= old(self)@.landed(key@).flights);
                flight.waiting
            },
            None => Vec::new(),
        }
    }
}

proof fn lemma_flight_for(flights: Seq<FlightView>, key: Seq<char>, from: int)
    requires
        0 <= from <= flights.len(),
    ensures
        match flight_for(flights, key, from) {
            Some(i) => from <= i < flights.len() && flights[i].key == key && forall|j: int|
                from <= j < i ==> (#[trigger] flights[j]).key != key,
            None => forall|j: int| from <= j < flights.len() ==> (#[trigger] flights[j]).key != key,
        },
    decreases flights.len() - from,
{
    if from < flights.len() {
        lemma_flight_for(flights, key, from + 1);
    }
}

/// However requests come and calls end, at most one call per key is under way: one after someone
/// came for the key, none after the call for it ended.
pub proof fn law_one_call_per_key(flights: FlightsView, key: Seq<char>)
    requires
        flights.one_per_key(),
    ensures
        flights.joined(key).one_per_key(),
        flights.joined(key).flying(key),
        flights.landed(key).one_per_key(),
        !flights.landed(key).flying(key),
{
    let joined = flights.joined(key);
    let landed = flights.landed(key);
    lemma_flight_for(flights.flights, key, 0);
    lemma_flight_for(joined.flights, key, 0);
    lemma_flight_for(landed.flights, key, 0);
    match flight_for(flights.flights, key, 0) {
        Some(i) => {
            assert(joined.flights[i].key == key);
            assert forall|a: int, b: int| 0 <= a < b < landed.flights.len() implies (
            #[trigger] landed.flights[a]).key != (#[trigger] landed.flights[b]).key by {
                let p = if a < i {
                    a
                } else {
                    a + 1
                };
                let q = if b < i {
                    b
                } else {
                    b + 1
                };
                assert(landed.flights[a] == flights.flights[p]);
                assert(landed.flights[b] == flights.flights[q]);
            }
            if flight_for(landed.flights, key, 0) is Some {
                let a = flight_for(landed.flights, key, 0)->0;
                let p = if a < i {
                    a
                } else {
                    a + 1
                };
                assert(landed.flights[a] == flights.flights[p]);
                assert(flights.flights[p].key != flights.flights[i].key);
            }
        },
        None => {
            assert(joined.flights[joined.flights.len() - 1].key == key);
        },
    }
}

/// Coming for one key, or the end of its call, changes nothing for any other key.
pub proof fn law_keys_are_independent(flights: FlightsView, key: Seq<char>, other: Seq<char>)
    requires
        flights.one_per_key(),
        other != key,
    ensures
        flights.joined(key).flying(other) == flights.flying(other),
        flights.joined(key).waiting(other) == flights.waiting(other),
        flights.landed(key).flying(other) == flights.flying(other),
        flights.landed(key).waiting(other) == flights.waiting(other),
{
    let joined = flights.joined(key);
    let landed = flights.landed(key);
    law_one_call_per_key(flights, key);
    lemma_flight_for(flights.flights, key, 0);
    lemma_flight_for(flights.flights, other, 0);
    lemma_flight_for(joined.flights, other, 0);
    lemma_flight_for(landed.flights, other, 0);
    if flights.flying(other) {
        let o = flight_for(flights.flights, other, 0)->0;
        assert(joined.flights[o] == flights.flights[o]);
        match flight_for(flights.flights, key, 0) {
            Some(i) => {
                let p = if o < i {
                    o
                } else {
                    o - 1
                };
                assert(landed.flights[p] == flights.flights[o]);
            },
            None => {},
        }
    } else {
        if joined.flying(other) {
            let o = flight_for(joined.flights, other, 0)->0;
            if o < flights.flights.len() {
                assert(flights.flights[o].key == joined.flights[o].key);
            }
        }
        if landed.flying(other) {
            let o = flight_for(landed.flights, other, 0)->0;
            match flight_for(flights.flights, key, 0) {
                Some(i) => {
                    let p = if o < i {
                        o
                    } else {
                        o + 1
                    };
                    assert(landed.flights[o] == flights.flights[p]);
                },
                None => {},
            }
        }
    }
}

/// Everyone who comes while a call is under way waits for it, behind those who came before.
pub proof fn law_nobody_is_forgotten(flights: FlightsView, key: Seq<char>)
    requires
        flights.flying(key),
    ensures
        flights.joined(key).waiting(key) == flights.waiting(key).push(flights.next_ticket),
{
    lemma_flight_for(flights.flights, key, 0);
    lemma_flight_for(flights.joined(key).flights, key, 0);
    let i = flight_for(flights.flights, key, 0)->0;
    let j = flight_for(flights.joined(key).flights, key, 0)->0;
    assert(flights.joined(key).flights[i].key == key);
    if j < i {
        assert(flights.joined(key).flights[j] == flights.flights[j]);
    }
}

/// A call for a key is under way exactly if one of the flights is for it, and those who wait for
/// it are those who wait for that flight.
pub proof fn law_flying_is_a_flight_for_the_key(flights: FlightsView, key: Seq<char>, flight: int)
    requires
        flights.one_per_key(),
        0 <= flight < flights.flights.len(),
        flights.flights[flight].key == key,
    ensures
        flights.flying(key),
        flights.waiting(key) == flights.flights[flight].waiting,
{
    lemma_flight_for(flights.flights, key, 0);
}

/// Where no flight is for a key, no call for it is under way and nobody waits.
pub proof fn law_no_flight_without_a_call(flights: FlightsView, key: Seq<char>)
    requires
        forall|i: int| 0 <= i < flights.flights.len() ==> (#[trigger] flights.flights[i]).key != key,
    ensures
        !flights.flying(key),
        flights.waiting(key).len() == 0,
{
    lemma_flight_for(flights.flights, key, 0);
}

/// Whoever starts a call waits for nobody and gets no ticket; whoever joins one gets the next
/// ticket, and the ticket after it is another.
pub proof fn law_tickets_are_given_out_once(flights: FlightsView, key: Seq<char>)
    requires
        flights.one_per_key(),
    ensures
        !flights.flying(key) ==> flights.joined(key).next_ticket == flights.next_ticket
            && flights.joined(key).waiting(key).len() == 0,
        flights.flying(key) && flights.next_ticket < u64::MAX ==> flights.joined(key).next_ticket
            == flights.next_ticket + 1,
        flights.landed(key).next_ticket == flights.next_ticket,
        flights.landed(key).waiting(key).len() == 0,
{
    lemma_flight_for(flights.flights, key, 0);
    lemma_flight_for(flights.joined(key).flights, key, 0);
    law_one_call_per_key(flights, key);
    lemma_flight_for(flights.landed(key).flights, key, 0);
    if !flights.flying(key) {
        let place = flight_for(flights.joined(key).flights, key, 0)->0;
        if place < flights.flights.len() {
            assert(flights.joined(key).flights[place] == flights.flights[place]);
        }
    }
}

/// At the start no call is under way.
pub proof fn law_start_has_no_flights(key: Seq<char>)
    ensures
        !no_flights().flying(key),
        no_flights().one_per_key(),
        no_flights().flights.len() == 0,
{
}

} // verus!
