use vstd::prelude::*;
use crate::topology::{City, Road, road_time, find_road};
use crate::bus::{Bus, BusView, clamp_u32};
use crate::ledger::{Entry, Waiting, ledger_view, ledger_add, waiting_count, keys_unique, add_waiting, find_entry, lemma_ledger_add_unique};
use crate::schedule::{Event, EventView, events_view, slot_index, off_at, merge_arrival, find_slot, schedule_arrival, slots_unique};

verus! {

/// The whole state of a simulation: the roads built, the buses, the people
/// waiting, the events still pending, the present tick, and how many cities
/// have been created.
pub struct SimView {
    pub roads: Seq<Road>,
    pub buses: Seq<BusView>,
    pub waiting: Seq<Entry>,
    pub pending: Seq<EventView>,
    pub time: u32,
    pub cities: nat,
}

/// The city identifiers of a route, in order.
pub open spec fn route_ids(route: Seq<&City>) -> Seq<usize> {
    route.map_values(|c: &City| c.key())
}

/// A route a bus may take: at least two stops, each two consecutive ones
/// joined by a road.
pub open spec fn route_valid(roads: Seq<Road>, route: Seq<usize>) -> bool {
    &&& route.len() >= 2
    &&& forall|i: int|
        #![trigger route[i]]
        0 < i < route.len() ==> road_time(roads, route[i - 1], route[i]).is_some()
}

/// Ledger entry `i` considered while bus stop `ev` is handled at tick `t`:
/// where people wait there for a city that the bus still has ahead, they
/// board, an event at their destination takes them off, and their entry drops
/// to zero.
pub open spec fn board_step(s: SimView, ev: EventView, t: u32, i: int) -> (SimView, EventView) {
    let w = s.waiting[i];
    let bus = s.buses[ev.bus as int];
    if w.0 == ev.city && w.2 > 0 && bus.is_upcoming(w.1) {
        (
            SimView {
                pending: merge_arrival(s.pending, bus.arrival(s.roads, w.1, t), ev.bus, w.1, w.3, w.2),
                waiting: s.waiting.update(i, (w.0, w.1, 0u32, w.3)),
                ..s
            },
            EventView { on: clamp_u32(ev.on + w.2), ..ev },
        )
    } else {
        (s, ev)
    }
}

/// The first `k` ledger entries considered in turn for stop `ev` at tick `t`.
pub open spec fn board_upto(s: SimView, ev: EventView, t: u32, k: nat) -> (SimView, EventView)
    decreases k,
{
    if k == 0 {
        (s, ev)
    } else {
        let (s1, e1) = board_upto(s, ev, t, (k - 1) as nat);
        board_step(s1, e1, t, k - 1)
    }
}

/// Bus `b` handles its event due at tick `t`, if it has one: the event leaves
/// the schedule, people board, the bus moves on, and the event is reported.
pub open spec fn dispatch(s: SimView, t: u32, b: u32) -> (SimView, Seq<EventView>) {
    let j = slot_index(s.pending, t, b);
    if j < s.pending.len() {
        let s1 = SimView { pending: s.pending.remove(j), ..s };
        let (s2, ev) = board_upto(s1, s.pending[j], t, s.waiting.len());
        (SimView { buses: s2.buses.update(b as int, s2.buses[b as int].advanced()), ..s2 }, seq![ev])
    } else {
        (s, Seq::empty())
    }
}

/// Tick `t` for buses `0 .. k`, in order of their identifiers.
pub open spec fn tick_upto(s: SimView, t: u32, k: nat) -> (SimView, Seq<EventView>)
    decreases k,
{
    if k == 0 {
        (s, Seq::empty())
    } else {
        let (s1, o1) = tick_upto(s, t, (k - 1) as nat);
        let (s2, o2) = dispatch(s1, t, (k - 1) as u32);
        (s2, o1 + o2)
    }
}

/// The `k` ticks from `start` on, one after the other.
pub open spec fn run_ticks(s: SimView, start: u32, k: nat) -> (SimView, Seq<EventView>)
    decreases k,
{
    if k == 0 {
        (s, Seq::empty())
    } else {
        let (s1, o1) = run_ticks(s, start, (k - 1) as nat);
        let (s2, o2) = tick_upto(s1, (start + k - 1) as u32, s1.buses.len());
        (s2, o1 + o2)
    }
}

proof fn lemma_finished_boards_nobody(s: SimView, ev: EventView, t: u32, k: nat)
    requires
        0 <= ev.bus < s.buses.len(),
        !s.buses[ev.bus as int].has_stop(),
    ensures
        board_upto(s, ev, t, k) == (s, ev),
    decreases k,
{
    if k > 0 {
        lemma_finished_boards_nobody(s, ev, t, (k - 1) as nat);
    }
}

/// A bus that has used up its route still reports the event it has pending,
/// once, with its counts as they stand, and that event leaves the schedule;
/// but nobody boards it, nothing new is scheduled for it, and it stays where
/// it is, whoever waits along its former route.
pub proof fn lemma_finished_bus_dispatch(s: SimView, t: u32, b: u32)
    requires
        b < s.buses.len(),
        s.buses[b as int].finished,
        s.buses[b as int].pos == s.buses[b as int].route.len(),
        slot_index(s.pending, t, b) < s.pending.len(),
    ensures
        dispatch(s, t, b) == (
            SimView { pending: s.pending.remove(slot_index(s.pending, t, b)), ..s },
            seq![s.pending[slot_index(s.pending, t, b)]],
        ),
{
    let j = slot_index(s.pending, t, b);
    crate::schedule::lemma_slot_from_range(s.pending, t, b, 0);
    let s1 = SimView { pending: s.pending.remove(j), ..s };
    lemma_finished_boards_nobody(s1, s.pending[j], t, s.waiting.len());
    assert(s1.buses.update(b as int, s1.buses[b as int].advanced()) =~= s1.buses);
}

/// Boarding the people of one ledger entry onto bus `ev.bus` adds them to the
/// single pending event of that bus at their arrival tick, whether it was
/// there already or is made for them, and leaves one event per bus and tick.
pub proof fn lemma_board_step_merges(s: SimView, ev: EventView, t: u32, i: int)
    requires
        0 <= i < s.waiting.len(),
        0 <= ev.bus < s.buses.len(),
        s.waiting[i].0 == ev.city,
        s.waiting[i].2 > 0,
        s.buses[ev.bus as int].is_upcoming(s.waiting[i].1),
        slots_unique(s.pending),
    ensures
        ({
            let arr = s.buses[ev.bus as int].arrival(s.roads, s.waiting[i].1, t);
            let p2 = board_step(s, ev, t, i).0.pending;
            &&& slots_unique(p2)
            &&& slot_index(p2, arr, ev.bus) < p2.len()
            &&& off_at(p2, arr, ev.bus) == clamp_u32(off_at(s.pending, arr, ev.bus) + s.waiting[i].2)
        }),
{
    let w = s.waiting[i];
    let arr = s.buses[ev.bus as int].arrival(s.roads, w.1, t);
    crate::schedule::lemma_merge_keeps_one_slot(s.pending, arr, ev.bus, w.1, w.3, w.2);
}

/// No pending or reported event belongs to bus `b`.
pub open spec fn no_event_of(p: Seq<EventView>, b: u32) -> bool {
    forall|k: int| 0 <= k < p.len() ==> #[trigger] p[k].bus != b
}

proof fn lemma_board_upto_frame(s: SimView, ev: EventView, t: u32, k: nat, b: u32)
    ensures
        board_upto(s, ev, t, k).0.buses == s.buses,
        board_upto(s, ev, t, k).1.bus == ev.bus,
        ev.bus != b && no_event_of(s.pending, b) ==> no_event_of(board_upto(s, ev, t, k).0.pending, b),
    decreases k,
{
    if k > 0 {
        lemma_board_upto_frame(s, ev, t, (k - 1) as nat, b);
        let (s1, e1) = board_upto(s, ev, t, (k - 1) as nat);
        let w = s1.waiting[k - 1];
        let arr = s1.buses[e1.bus as int].arrival(s1.roads, w.1, t);
        crate::schedule::lemma_slot_from_range(s1.pending, arr, e1.bus, 0);
        if ev.bus != b && no_event_of(s.pending, b) {
            let p2 = merge_arrival(s1.pending, arr, e1.bus, w.1, w.3, w.2);
            assert forall|m: int| 0 <= m < p2.len() implies #[trigger] p2[m].bus != b by {
                if m < s1.pending.len() {
                    assert(s1.pending[m].bus != b);
                }
            }
        }
    }
}

proof fn lemma_dispatch_frame(s: SimView, t: u32, b2: u32, b: u32)
    requires
        b < s.buses.len(),
        b2 < s.buses.len(),
        no_event_of(s.pending, b),
    ensures
        dispatch(s, t, b2).0.buses.len() == s.buses.len(),
        dispatch(s, t, b2).0.buses[b as int] == s.buses[b as int],
        no_event_of(dispatch(s, t, b2).0.pending, b),
        no_event_of(dispatch(s, t, b2).1, b),
{
    let j = slot_index(s.pending, t, b2);
    crate::schedule::lemma_slot_from_range(s.pending, t, b2, 0);
    if j < s.pending.len() {
        assert(s.pending[j].bus == b2);
        let s1 = SimView { pending: s.pending.remove(j), ..s };
        assert forall|m: int| 0 <= m < s1.pending.len() implies #[trigger] s1.pending[m].bus != b by {
            if m < j {
                assert(s1.pending[m] == s.pending[m]);
            } else {
                assert(s1.pending[m] == s.pending[m + 1]);
            }
        }
        lemma_board_upto_frame(s1, s.pending[j], t, s.waiting.len(), b);
    }
}

proof fn lemma_tick_upto_frame(s: SimView, t: u32, k: nat, b: u32)
    requires
        b < s.buses.len(),
        k <= s.buses.len(),
        s.buses.len() <= u32::MAX,
        no_event_of(s.pending, b),
    ensures
        tick_upto(s, t, k).0.buses.len() == s.buses.len(),
        tick_upto(s, t, k).0.buses[b as int] == s.buses[b as int],
        no_event_of(tick_upto(s, t, k).0.pending, b),
        no_event_of(tick_upto(s, t, k).1, b),
    decreases k,
{
    if k > 0 {
        lemma_tick_upto_frame(s, t, (k - 1) as nat, b);
        let (s1, o1) = tick_upto(s, t, (k - 1) as nat);
        lemma_dispatch_frame(s1, t, (k - 1) as u32, b);
        let o2 = dispatch(s1, t, (k - 1) as u32).1;
        assert forall|m: int| 0 <= m < (o1 + o2).len() implies #[trigger] (o1 + o2)[m].bus != b by {
            if m < o1.len() {
                assert((o1 + o2)[m] == o1[m]);
            } else {
                assert((o1 + o2)[m] == o2[m - o1.len()]);
            }
        }
    }
}

/// Once a bus has used up its route and has no event pending, it stays
/// silent for good: however long the simulation runs, no event of it is
/// reported, none is scheduled, and it does not move, whoever is waiting
/// along its former route.
pub proof fn lemma_finished_bus_stays_silent(s: SimView, start: u32, k: nat, b: u32)
    requires
        b < s.buses.len(),
        s.buses.len() <= u32::MAX,
        s.buses[b as int].finished,
        no_event_of(s.pending, b),
    ensures
        no_event_of(run_ticks(s, start, k).1, b),
        no_event_of(run_ticks(s, start, k).0.pending, b),
        run_ticks(s, start, k).0.buses[b as int] == s.buses[b as int],
        run_ticks(s, start, k).0.buses.len() == s.buses.len(),
    decreases k,
{
    if k > 0 {
        lemma_finished_bus_stays_silent(s, start, (k - 1) as nat, b);
        let (s1, o1) = run_ticks(s, start, (k - 1) as nat);
        let tt = (start + k - 1) as u32;
        lemma_tick_upto_frame(s1, tt, s1.buses.len(), b);
        let o2 = tick_upto(s1, tt, s1.buses.len()).1;
        assert forall|m: int| 0 <= m < (o1 + o2).len() implies #[trigger] (o1 + o2)[m].bus != b by {
            if m < o1.len() {
                assert((o1 + o2)[m] == o1[m]);
            } else {
                assert((o1 + o2)[m] == o2[m - o1.len()]);
            }
        }
    }
}

/// A network of cities and roads, the buses on it, the people waiting, and
/// the events to come.
pub struct Simulation {
    buses: Vec<Bus>,
    roads: Vec<Road>,
    waiting: Vec<Waiting>,
    pending: Vec<Event>,
    cities: Vec<String>,
    current_time: u32,
}

impl Simulation {
    pub closed spec fn view(&self) -> SimView {
        SimView {
            roads: self.roads@,
            buses: self.buses@.map_values(|b: Bus| b@),
            waiting: ledger_view(self.waiting@),
            pending: events_view(self.pending@),
            time: self.current_time,
            cities: self.cities@.len(),
        }
    }

    /// Between calls: the invariant, and no bus remembers any arrival.
    pub closed spec fn wf(&self) -> bool {
        &&& self.base_wf()
        &&& forall|i: int| 0 <= i < self.buses@.len() ==> (#[trigger] self.buses@[i]).memo_view().len() == 0
    }

    /// While tick `t` is handled, what buses remember is right for that tick.
    closed spec fn memos_at(&self, t: u32) -> bool {
        forall|i: int| 0 <= i < self.buses@.len() ==> (#[trigger] self.buses@[i]).memo_fits(self.roads@, t)
    }

    closed spec fn base_wf(&self) -> bool {
        &&& self.buses@.len() <= u32::MAX
        &&& forall|i: int|
            0 <= i < self.buses@.len() ==> (#[trigger] self.buses@[i]).inv(self.roads@)
                && self.buses@[i]@.id == i
        &&& forall|k: int|
            0 <= k < self.pending@.len() ==> (#[trigger] self.pending@[k])@.bus < self.buses@.len()
        &&& keys_unique(ledger_view(self.waiting@))
        &&& slots_unique(events_view(self.pending@))
    }

    pub fn new() -> (r: Simulation)
        ensures
            r.wf(),
            r@ == (SimView {
                roads: Seq::empty(),
                buses: Seq::empty(),
                waiting: Seq::empty(),
                pending: Seq::empty(),
                time: 0,
                cities: 0,
            }),
    {
        let r = Simulation {
            buses: Vec::new(),
            roads: Vec::new(),
            waiting: Vec::new(),
            pending: Vec::new(),
            cities: Vec::new(),
            current_time: 0,
        };
        assert(r@.buses =~= Seq::empty());
        assert(r@.waiting =~= Seq::empty());
        assert(r@.pending =~= Seq::empty());
        r
    }

    /// How many buses run.
    pub fn bus_count(&self) -> (r: usize)
        ensures
            r == self@.buses.len(),
    {
        self.buses.len()
    }

    /// The present tick.
    pub fn current_time(&self) -> (r: u32)
        ensures
            r == self@.time,
    {
        self.current_time
    }

    pub fn new_city(&mut self, name: &str) -> (r: City)
        requires
            old(self).wf(),
        ensures
            final(self).wf(),
            r.key() == old(self)@.cities,
            r.label() == name@,
            final(self)@ == (SimView { cities: old(self)@.cities + 1, ..old(self)@ }),
    {
        let id = self.cities.len();
        let label = name.to_string();
        self.cities.push(name.to_string());
        City { id, name: label }
    }

    /// Whether buses may take `route`: two stops or more, each two
    /// consecutive ones joined by a road.
    pub fn valid_route(&self, route: &[&City]) -> (r: bool)
        ensures
            r == route_valid(self@.roads, route_ids(route@)),
    {
        let ghost ids = route_ids(route@);
        if route.len() < 2 {
            return false;
        }
        let mut i: usize = 1;
        while i < route.len()
            invariant
                ids == route_ids(route@),
                1 <= i <= route@.len(),
                forall|m: int| #![trigger ids[m]] 0 < m < i ==> road_time(self@.roads, ids[m - 1], ids[m]).is_some(),
            decreases route@.len() - i,
        {
            if find_road(&self.roads, route[i - 1].id, route[i].id).is_none() {
                assert(ids[i as int] == route@[i as int].key());
                assert(!road_time(self@.roads, ids[i - 1], ids[i as int]).is_some());
                return false;
            }
            i = i + 1;
        }
        true
    }

    /// Puts a bus on `route`; it stands at the first stop now, where its
    /// first event is due.
    pub fn new_bus(&mut self, route: &[&City])
        requires
            old(self).wf(),
            route_valid(old(self)@.roads, route_ids(route@)),
            old(self)@.buses.len() < u32::MAX,
        ensures
            final(self).wf(),
            final(self)@ == (SimView {
                buses: old(self)@.buses.push(
                    BusView {
                        id: old(self)@.buses.len() as u32,
                        route: route_ids(route@),
                        pos: 0,
                        finished: false,
                    },
                ),
                pending: old(self)@.pending.push(
                    EventView {
                        tick: old(self)@.time,
                        bus: old(self)@.buses.len() as u32,
                        city: route@[0].key(),
                        label: route@[0].label(),
                        off: 0,
                        on: 0,
                    },
                ),
                ..old(self)@
            }),
    {
        let id = self.buses.len() as u32;
        let bus = Bus::new(route, id);
        let first = Event {
            tick: self.current_time,
            bus_id: id,
            city: route[0].duplicate(),
            got_off_count: 0,
            got_on_count: 0,
        };
        self.buses.push(bus);
        self.pending.push(first);
        proof {
            assert(self@.buses =~= old(self)@.buses.push(bus@));
            assert(self@.pending =~= old(self)@.pending.push(first@));
            assert(route_ids(route@)[0] == route@[0].key());
            assert(forall|i: int| 0 <= i < self.buses@.len() - 1 ==> self.buses@[i] == old(self).buses@[i]);
            assert(forall|k: int| 0 <= k < self.pending@.len() - 1 ==> self.pending@[k] == old(self).pending@[k]);
        }
    }

    /// How many people wait in `from` for a bus to `to`.
    pub fn waiting(&self, from: &City, to: &City) -> (r: u32)
        ensures
            r == waiting_count(self@.waiting, from.key(), to.key()),
    {
        let k = find_entry(&self.waiting, from.id, to.id);
        if k < self.waiting.len() {
            self.waiting[k].count
        } else {
            0
        }
    }

    /// `count` more people start waiting in `from` for a bus to `to`.
    pub fn add_people(&mut self, from: &City, to: &City, count: u32)
        requires
            old(self).wf(),
            count >= 1,
            waiting_count(old(self)@.waiting, from.key(), to.key()) + count <= u32::MAX,
        ensures
            final(self).wf(),
            final(self)@ == (SimView {
                waiting: ledger_add(old(self)@.waiting, from.key(), to.key(), count, to.label()),
                ..old(self)@
            }),
    {
        add_waiting(&mut self.waiting, from.id, to, count);
        proof {
            lemma_ledger_add_unique(old(self)@.waiting, from.key(), to.key(), count, to.label());
        }
    }

    /// Ledger entry `i` considered for the stop `ev` at tick `t`.
    fn board_one(&mut self, ev: &mut Event, t: u32, i: usize)
        requires
            old(self).base_wf(),
            old(self).memos_at(t),
            i < old(self)@.waiting.len(),
            old(ev)@.bus < old(self)@.buses.len(),
        ensures
            final(self).base_wf(),
            final(self).memos_at(t),
            forall|m: int| 0 <= m < final(self).buses@.len() && m != old(ev)@.bus ==> #[trigger] final(self).buses@[m] == old(self).buses@[m],
            (final(self)@, final(ev)@) == board_step(old(self)@, old(ev)@, t, i as int),
            final(self)@.waiting.len() == old(self)@.waiting.len(),
            final(self)@.buses.len() == old(self)@.buses.len(),
            final(ev)@.bus == old(ev)@.bus,
            final(ev)@.city == old(ev)@.city,
    {
        let b = ev.bus_id as usize;
        let from = self.waiting[i].from;
        let cnt = self.waiting[i].count;
        assert(self@.waiting[i as int] == self.waiting@[i as int]@);
        if from != ev.city.id || cnt == 0 {
            return;
        }
        assert(self.buses@[b as int].inv(self.roads@));
        if !self.buses[b].is_upcoming_stop(&self.waiting[i].to) {
            return;
        }
        let dest = self.waiting[i].to.duplicate();
        let ghost s0 = self@;
        let ghost bus0 = self.buses@[b as int];
        assert(bus0.memo_fits(self.roads@, t));
        let arr = self.buses[b].calculate_travel_time(&self.roads, &dest, t);
        proof {
            assert(self@.buses =~= s0.buses);
            assert(self@ == s0);
            crate::bus::lemma_memo_lookup_entry(bus0.memo_view(), dest.key(), 0);
            assert(arr == bus0@.arrival(self@.roads, dest.key(), t));
            let nb = self.buses@[b as int];
            assert forall|k: int| 0 <= k < nb.memo_view().len() implies (#[trigger] nb.memo_view()[k]).1
                == nb@.arrival(self.roads@, nb.memo_view()[k].0, t) by {
                if k < bus0.memo_view().len() {
                    assert(nb.memo_view()[k] == bus0.memo_view()[k]);
                }
            }
            assert(nb.memo_fits(self.roads@, t));
            assert forall|m: int| 0 <= m < self.buses@.len() implies (#[trigger] self.buses@[m]).inv(self.roads@)
                && self.buses@[m]@.id == m && self.buses@[m].memo_fits(self.roads@, t) by {
                if m != b {
                    assert(self.buses@[m] == old(self).buses@[m]);
                }
            }
        }
        let ghost eb = ev@.bus;
        schedule_arrival(&mut self.pending, arr, ev.bus_id, &dest, cnt);
        assert(events_view(self.pending@) == merge_arrival(s0.pending, arr, eb, dest.key(), dest.label(), cnt));
        ev.got_on_count = ev.got_on_count.saturating_add(cnt);
        self.waiting[i].count = 0;
        proof {
            let w = s0.waiting[i as int];
            assert(ledger_view(self.waiting@) =~= s0.waiting.update(i as int, (w.0, w.1, 0u32, w.3)));
            crate::schedule::lemma_slot_from_range(s0.pending, arr, ev@.bus, 0);
            assert forall|k: int| 0 <= k < self.pending@.len() implies (#[trigger] self.pending@[k])@.bus
                < self.buses@.len() by {
                assert(events_view(self.pending@)[k] == self.pending@[k]@);
                assert(self.buses@.len() == old(self).buses@.len());
                if k < s0.pending.len() {
                    assert(s0.pending[k] == old(self).pending@[k]@);
                    assert(old(self).pending@[k]@.bus < old(self).buses@.len());
                    assert(events_view(self.pending@)[k].bus == s0.pending[k].bus);
                } else {
                    assert(slot_index(s0.pending, arr, eb) >= s0.pending.len());
                    assert(events_view(self.pending@)[k].bus == eb);
                }
            }
            let l0 = s0.waiting;
            let l1 = ledger_view(self.waiting@);
            assert forall|x: int, y: int| 0 <= x < y < l1.len() implies !(#[trigger] l1[x].0 == #[trigger] l1[y].0
                && l1[x].1 == l1[y].1) by {
                assert(l1[x].0 == l0[x].0 && l1[x].1 == l0[x].1);
                assert(l1[y].0 == l0[y].0 && l1[y].1 == l0[y].1);
            }
        }
    }

    /// Boards the people waiting where the stop `ev` is, in the order the
    /// ledger holds them, and returns the stop with its boarding count.
    fn process_waiting_people(&mut self, ev: Event, t: u32) -> (r: Event)
        requires
            old(self).wf(),
            ev@.bus < old(self)@.buses.len(),
        ensures
            final(self).base_wf(),
            forall|m: int| 0 <= m < final(self).buses@.len() && m != ev@.bus ==> #[trigger] final(self).buses@[m] == old(self).buses@[m],
            (final(self)@, r@) == board_upto(old(self)@, ev@, t, old(self)@.waiting.len()),
            final(self)@.buses.len() == old(self)@.buses.len(),
            r@.bus == ev@.bus,
    {
        let mut ev = ev;
        let ghost s0 = self@;
        let ghost e0 = ev@;
        assert forall|m: int| 0 <= m < self.buses@.len() implies (#[trigger] self.buses@[m]).memo_fits(self.roads@, t) by {
            assert(self.buses@[m].memo_view().len() == 0);
        }
        let mut i: usize = 0;
        while i < self.waiting.len()
            invariant
                self.base_wf(),
                self.memos_at(t),
                forall|m: int| 0 <= m < self.buses@.len() && m != e0.bus ==> #[trigger] self.buses@[m] == old(self).buses@[m],
                self.buses@.len() == old(self).buses@.len(),
                i <= self@.waiting.len(),
                self@.waiting.len() == s0.waiting.len(),
                self@.buses.len() == s0.buses.len(),
                ev@.bus == e0.bus,
                ev@.city == e0.city,
                e0.bus < s0.buses.len(),
                (self@, ev@) == board_upto(s0, e0, t, i as nat),
            decreases s0.waiting.len() - i,
        {
            assert(self@.waiting.len() == self.waiting@.len());
            self.board_one(&mut ev, t, i);
            i = i + 1;
        }
        assert(self@.waiting.len() == self.waiting@.len());
        ev
    }

    /// Bus `b` handles its event due at tick `t`, if it has one, and reports
    /// it in `out`.
    fn dispatch_bus(&mut self, t: u32, b: u32, out: &mut Vec<Event>)
        requires
            old(self).wf(),
            b < old(self)@.buses.len(),
        ensures
            final(self).wf(),
            final(self)@ == dispatch(old(self)@, t, b).0,
            events_view(final(out)@) == events_view(old(out)@) + dispatch(old(self)@, t, b).1,
            final(self)@.buses.len() == old(self)@.buses.len(),
    {
        let j = find_slot(&self.pending, t, b);
        proof {
            crate::schedule::lemma_slot_from_range(self@.pending, t, b, 0);
        }
        if j < self.pending.len() {
            let ghost s0 = self@;
            let ev = self.pending.remove(j);
            proof {
                assert(ev@ == s0.pending[j as int]);
                assert(events_view(self.pending@) =~= s0.pending.remove(j as int));
                assert forall|k: int| 0 <= k < self.pending@.len() implies (#[trigger] self.pending@[k])@.bus
                    < self.buses@.len() by {
                    assert(self.buses@.len() == old(self).buses@.len());
                    if k < j {
                        assert(self.pending@[k] == old(self).pending@[k]);
                        assert(old(self).pending@[k]@.bus < old(self).buses@.len());
                    } else {
                        assert(self.pending@[k] == old(self).pending@[k + 1]);
                        assert(old(self).pending@[k + 1]@.bus < old(self).buses@.len());
                    }
                }
            }
            let ghost mid = self.buses@;
            assert(self.wf());
            let ev2 = self.process_waiting_people(ev, t);
            let ghost s2 = self@;
            let ghost bus_before = self.buses@[b as int];
            assert(bus_before.inv(self.roads@));
            self.buses[b as usize].move_to_next();
            out.push(ev2);
            proof {
                assert(self@.buses =~= s2.buses.update(b as int, s2.buses[b as int].advanced()));
                assert(events_view(out@) =~= events_view(old(out)@) + seq![ev2@]);
                assert forall|m: int| 0 <= m < self.buses@.len() implies (#[trigger] self.buses@[m]).memo_view().len() == 0 by {
                    if m != b {
                        assert(mid[m].memo_view().len() == 0);
                    }
                }
            }
        }
    }

    /// Tick `t`: each bus, in order of identifier, handles its event due then.
    fn run_tick(&mut self, t: u32, out: &mut Vec<Event>)
        requires
            old(self).wf(),
        ensures
            final(self).wf(),
            final(self)@ == tick_upto(old(self)@, t, old(self)@.buses.len()).0,
            events_view(final(out)@) == events_view(old(out)@) + tick_upto(old(self)@, t, old(self)@.buses.len()).1,
    {
        let ghost s0 = self@;
        let ghost o0 = events_view(out@);
        let n = self.buses.len();
        assert(n == s0.buses.len());
        let mut b: usize = 0;
        while b < n
            invariant
                self.wf(),
                b <= n,
                n == s0.buses.len(),
                self@.buses.len() == n,
                self@ == tick_upto(s0, t, b as nat).0,
                events_view(out@) == o0 + tick_upto(s0, t, b as nat).1,
            decreases n - b,
        {
            let ghost o1 = events_view(out@);
            assert(self@.buses.len() == self.buses@.len());
            self.dispatch_bus(t, b as u32, out);
            proof {
                let (s1, p1) = tick_upto(s0, t, b as nat);
                let (s2, p2) = dispatch(s1, t, b as u32);
                assert(events_view(out@) =~= o0 + (p1 + p2));
            }
            b = b + 1;
        }
    }

    /// Runs the simulation for `time_units_count` ticks and returns the
    /// events handled, tick by tick; the clock moves on by the full count.
    pub fn execute(&mut self, time_units_count: u32) -> (r: Vec<Event>)
        requires
            old(self).wf(),
            old(self)@.time + time_units_count <= u32::MAX,
        ensures
            final(self).wf(),
            final(self)@ == (SimView {
                time: (old(self)@.time + time_units_count) as u32,
                ..run_ticks(old(self)@, old(self)@.time, time_units_count as nat).0
            }),
            events_view(r@) == run_ticks(old(self)@, old(self)@.time, time_units_count as nat).1,
    {
        let ghost s0 = self@;
        let start = self.current_time;
        let end = start + time_units_count;
        let mut out: Vec<Event> = Vec::new();
        let mut t: u32 = start;
        assert(events_view(out@) =~= Seq::empty());
        while t < end
            invariant
                self.wf(),
                start <= t <= end,
                start == s0.time,
                end == start + time_units_count,
                self@ == run_ticks(s0, start, (t - start) as nat).0,
                events_view(out@) == run_ticks(s0, start, (t - start) as nat).1,
            decreases end - t,
        {
            let ghost o1 = events_view(out@);
            self.run_tick(t, &mut out);
            proof {
                let (s1, p1) = run_ticks(s0, start, (t - start) as nat);
                assert(((t + 1 - start) as nat - 1) as nat == (t - start) as nat);
                assert((start + (t + 1 - start) as nat - 1) as u32 == t);
            }
            t = t + 1;
        }
        self.current_time = end;
        out
    }

    pub fn new_road(&mut self, a: &City, b: &City, travel_time: u32) -> (r: Road)
        requires
            old(self).wf(),
        ensures
            final(self).wf(),
            r.time() == travel_time,
            r.ends() == (a.key(), b.key()),
            final(self)@ == (SimView { roads: old(self)@.roads.push(r), ..old(self)@ }),
    {
        let road = Road { travel_time, point_a: a.id, point_b: b.id };
        let ghost old_roads = self.roads@;
        self.roads.push(road);
        proof {
            assert forall|i: int| 0 <= i < self.buses@.len() implies (#[trigger] self.buses@[i]).inv(
                self.roads@,
            ) by {
                self.buses@[i].lemma_inv_road_push(old_roads, road);
            }
        }
        road
    }
}

} // verus!
