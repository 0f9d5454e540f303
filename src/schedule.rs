use vstd::prelude::*;
use crate::topology::City;
use crate::bus::clamp_u32;

verus! {

/// What an event records: at tick `tick`, bus `bus` stood in city `city`,
/// named `label`, where `off` people got off and `on` got on.
pub struct EventView {
    pub tick: u32,
    pub bus: u32,
    pub city: usize,
    pub label: Seq<char>,
    pub off: u32,
    pub on: u32,
}

/// A stop of a bus at a city at a given tick, with the people who got off and
/// on there.
pub struct Event {
    pub(crate) tick: u32,
    pub(crate) bus_id: u32,
    pub(crate) city: City,
    pub(crate) got_off_count: u32,
    pub(crate) got_on_count: u32,
}

impl Event {
    pub open(crate) spec fn view(&self) -> EventView {
        EventView {
            tick: self.tick,
            bus: self.bus_id,
            city: self.city.key(),
            label: self.city.label(),
            off: self.got_off_count,
            on: self.got_on_count,
        }
    }

    pub fn got_off(&self) -> (r: u32)
        ensures
            r == self@.off,
    {
        self.got_off_count
    }

    pub fn got_on(&self) -> (r: u32)
        ensures
            r == self@.on,
    {
        self.got_on_count
    }

    pub fn city(&self) -> (r: &City)
        ensures
            r.key() == self@.city,
            r.label() == self@.label,
    {
        &self.city
    }

    pub fn bus_id(&self) -> (r: u32)
        ensures
            r == self@.bus,
    {
        self.bus_id
    }

    pub fn tick(&self) -> (r: u32)
        ensures
            r == self@.tick,
    {
        self.tick
    }
}

pub open spec fn events_view(p: Seq<Event>) -> Seq<EventView> {
    p.map_values(|e: Event| e@)
}

/// The first pending event, at `i` or later, of bus `b` at tick `t`; the
/// length of the schedule where there is none.
pub open spec fn slot_from(p: Seq<EventView>, t: u32, b: u32, i: int) -> int
    decreases p.len() - i,
{
    if i < 0 || i >= p.len() {
        p.len() as int
    } else if p[i].tick == t && p[i].bus == b {
        i
    } else {
        slot_from(p, t, b, i + 1)
    }
}

pub open spec fn slot_index(p: Seq<EventView>, t: u32, b: u32) -> int {
    slot_from(p, t, b, 0)
}

/// How many people are due to get off bus `b` at tick `t`.
pub open spec fn off_at(p: Seq<EventView>, t: u32, b: u32) -> int {
    let k = slot_index(p, t, b);
    if k < p.len() {
        p[k].off as int
    } else {
        0
    }
}

/// The schedule after `n` people board bus `b` for `city`, which it reaches
/// at tick `t`: they join the event already pending for that bus and tick, or
/// a new event for them is added.
pub open spec fn merge_arrival(p: Seq<EventView>, t: u32, b: u32, city: usize, label: Seq<char>, n: u32) -> Seq<EventView> {
    let k = slot_index(p, t, b);
    if k < p.len() {
        p.update(k, EventView { off: clamp_u32(p[k].off + n), ..p[k] })
    } else {
        p.push(EventView { tick: t, bus: b, city, label, off: n, on: 0 })
    }
}

pub(crate) proof fn lemma_slot_from_range(p: Seq<EventView>, t: u32, b: u32, i: int)
    requires
        0 <= i,
    ensures
        slot_from(p, t, b, i) <= p.len() || (i > p.len() && slot_from(p, t, b, i) == p.len()),
        i <= p.len() ==> i <= slot_from(p, t, b, i),
        slot_from(p, t, b, i) < p.len() ==> p[slot_from(p, t, b, i)].tick == t && p[slot_from(p, t, b, i)].bus == b,
        forall|j: int| i <= j < slot_from(p, t, b, i) ==> !(#[trigger] p[j].tick == t && p[j].bus == b),
    decreases p.len() - i,
{
    if i < p.len() && !(p[i].tick == t && p[i].bus == b) {
        lemma_slot_from_range(p, t, b, i + 1);
    }
}

proof fn lemma_slot_from_update(p: Seq<EventView>, k: int, v: EventView, t: u32, b: u32, i: int)
    requires
        0 <= k < p.len(),
        v.tick == p[k].tick,
        v.bus == p[k].bus,
    ensures
        slot_from(p.update(k, v), t, b, i) == slot_from(p, t, b, i),
    decreases p.len() - i,
{
    if 0 <= i < p.len() {
        lemma_slot_from_update(p, k, v, t, b, i + 1);
    }
}

proof fn lemma_slot_from_push(p: Seq<EventView>, v: EventView, i: int)
    requires
        0 <= i <= p.len(),
        slot_from(p, v.tick, v.bus, i) == p.len(),
    ensures
        slot_from(p.push(v), v.tick, v.bus, i) == p.len(),
    decreases p.len() - i,
{
    if i < p.len() {
        assert(p.push(v)[i] == p[i]);
        lemma_slot_from_push(p, v, i + 1);
    }
}

/// Where several boardings send people to the same bus at the same tick,
/// their counts add up in the one pending event instead of replacing each
/// other (held at `u32::MAX`).
pub proof fn lemma_merge_accumulates(
    p: Seq<EventView>,
    t: u32,
    b: u32,
    c1: usize,
    l1: Seq<char>,
    n1: u32,
    c2: usize,
    l2: Seq<char>,
    n2: u32,
)
    ensures
        off_at(merge_arrival(merge_arrival(p, t, b, c1, l1, n1), t, b, c2, l2, n2), t, b) == clamp_u32(
            off_at(p, t, b) + n1 + n2,
        ),
{
    lemma_merge_one(p, t, b, c1, l1, n1);
    lemma_merge_one(merge_arrival(p, t, b, c1, l1, n1), t, b, c2, l2, n2);
}

/// One boarding adds its count to the pending event of that bus and tick.
pub proof fn lemma_merge_one(p: Seq<EventView>, t: u32, b: u32, c: usize, l: Seq<char>, n: u32)
    ensures
        off_at(merge_arrival(p, t, b, c, l, n), t, b) == clamp_u32(off_at(p, t, b) + n),
        slot_index(merge_arrival(p, t, b, c, l, n), t, b) < merge_arrival(p, t, b, c, l, n).len(),
{
    let k = slot_index(p, t, b);
    lemma_slot_from_range(p, t, b, 0);
    if k < p.len() {
        let v = EventView { off: clamp_u32(p[k].off + n), ..p[k] };
        lemma_slot_from_update(p, k, v, t, b, 0);
    } else {
        lemma_slot_from_push(p, EventView { tick: t, bus: b, city: c, label: l, off: n, on: 0 }, 0);
    }
}

/// At most one pending event for each bus and tick.
pub open spec fn slots_unique(p: Seq<EventView>) -> bool {
    forall|i: int, j: int|
        0 <= i < j < p.len() ==> !(#[trigger] p[i].tick == #[trigger] p[j].tick && p[i].bus == p[j].bus)
}

/// Merging a boarding into the schedule keeps one event per bus and tick.
pub proof fn lemma_merge_unique(p: Seq<EventView>, t: u32, b: u32, c: usize, l: Seq<char>, n: u32)
    requires
        slots_unique(p),
    ensures
        slots_unique(merge_arrival(p, t, b, c, l, n)),
{
    lemma_slot_from_range(p, t, b, 0);
    let r = merge_arrival(p, t, b, c, l, n);
    assert forall|i: int, j: int| 0 <= i < j < r.len() implies !(#[trigger] r[i].tick == #[trigger] r[j].tick
        && r[i].bus == r[j].bus) by {
        if j == p.len() {
            assert(p[i].tick == r[i].tick && p[i].bus == r[i].bus);
        } else {
            assert(p[i].tick == r[i].tick && p[i].bus == r[i].bus);
            assert(p[j].tick == r[j].tick && p[j].bus == r[j].bus);
        }
    }
}

/// Where several boardings send people to the same bus at the same tick,
/// they end in one pending event for that bus and tick whose count is the
/// sum (held at `u32::MAX`), and no second event for them appears.
pub proof fn lemma_merge_keeps_one_slot(p: Seq<EventView>, t: u32, b: u32, c: usize, l: Seq<char>, n: u32)
    requires
        slots_unique(p),
    ensures
        slots_unique(merge_arrival(p, t, b, c, l, n)),
        slot_index(merge_arrival(p, t, b, c, l, n), t, b) < merge_arrival(p, t, b, c, l, n).len(),
        off_at(merge_arrival(p, t, b, c, l, n), t, b) == clamp_u32(off_at(p, t, b) + n),
{
    lemma_merge_unique(p, t, b, c, l, n);
    lemma_merge_one(p, t, b, c, l, n);
}

pub(crate) fn find_slot(p: &Vec<Event>, t: u32, b: u32) -> (r: usize)
    ensures
        r == slot_index(events_view(p@), t, b),
{
    let ghost pv = events_view(p@);
    let mut i: usize = 0;
    while i < p.len()
        invariant
            pv == events_view(p@),
            i <= p@.len(),
            slot_index(pv, t, b) == slot_from(pv, t, b, i as int),
        decreases p@.len() - i,
    {
        if p[i].tick == t && p[i].bus_id == b {
            return i;
        }
        i = i + 1;
    }
    i
}

/// Sends `n` people on bus `b` to `city`, which it reaches at tick `t`.
pub(crate) fn schedule_arrival(p: &mut Vec<Event>, t: u32, b: u32, city: &City, n: u32)
    ensures
        events_view(final(p)@) == merge_arrival(events_view(old(p)@), t, b, city.key(), city.label(), n),
{
    let k = find_slot(p, t, b);
    proof {
        lemma_slot_from_range(events_view(p@), t, b, 0);
    }
    if k < p.len() {
        let c = p[k].got_off_count;
        p[k].got_off_count = c.saturating_add(n);
        assert(events_view(p@) =~= merge_arrival(events_view(old(p)@), t, b, city.key(), city.label(), n));
    } else {
        p.push(Event { tick: t, bus_id: b, city: city.duplicate(), got_off_count: n, got_on_count: 0 });
        assert(events_view(p@) =~= merge_arrival(events_view(old(p)@), t, b, city.key(), city.label(), n));
    }
}

} // verus!
