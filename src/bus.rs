use vstd::prelude::*;
use crate::topology::{City, Road, find_road, road_time, leg_time};

verus! {

/// `x` held to the range of a tick counter: values past `u32::MAX` stay there.
pub open spec fn clamp_u32(x: int) -> u32 {
    if x > u32::MAX {
        u32::MAX
    } else if x < 0 {
        0
    } else {
        x as u32
    }
}

/// The first index, at `i` or later, where `route` visits `c`; the route's
/// length where it does not.
pub open spec fn index_from(route: Seq<usize>, c: usize, i: int) -> int
    decreases route.len() - i,
{
    if i < 0 || i >= route.len() {
        route.len() as int
    } else if route[i] == c {
        i
    } else {
        index_from(route, c, i + 1)
    }
}

/// The time along `route` from the stop at index `from` to the stop at `to`.
pub open spec fn legs(roads: Seq<Road>, route: Seq<usize>, from: int, to: int) -> int
    decreases to - from,
{
    if to <= from {
        0
    } else {
        legs(roads, route, from, to - 1) + leg_time(roads, route[to - 1], route[to])
    }
}

pub proof fn lemma_legs_nonneg(roads: Seq<Road>, route: Seq<usize>, from: int, to: int)
    ensures
        legs(roads, route, from, to) >= 0,
    decreases to - from,
{
    if to > from {
        lemma_legs_nonneg(roads, route, from, to - 1);
    }
}

/// A bus is never on its way to the stop where it stands, even where its
/// route came from there or passes there again.
pub proof fn lemma_current_stop_not_upcoming(b: BusView)
    ensures
        !b.is_upcoming(b.current()),
{
}

/// The value remembered for `c` in `memo`, looking from index `i` on: the
/// first entry for `c` counts.
pub open spec fn memo_lookup(memo: Seq<(usize, u32)>, c: usize, i: int) -> Option<u32>
    decreases memo.len() - i,
{
    if i < 0 || i >= memo.len() {
        None
    } else if memo[i].0 == c {
        Some(memo[i].1)
    } else {
        memo_lookup(memo, c, i + 1)
    }
}

/// A remembered value is the one of some entry for that city.
pub proof fn lemma_memo_lookup_entry(memo: Seq<(usize, u32)>, c: usize, i: int)
    requires
        0 <= i,
    ensures
        memo_lookup(memo, c, i) matches Some(v) ==> exists|k: int| i <= k < memo.len() && #[trigger] memo[k] == (c, v),
    decreases memo.len() - i,
{
    if i < memo.len() && memo[i].0 != c {
        lemma_memo_lookup_entry(memo, c, i + 1);
    }
}

proof fn lemma_memo_lookup_push(memo: Seq<(usize, u32)>, e: (usize, u32), c: usize, i: int)
    requires
        0 <= i <= memo.len(),
        memo_lookup(memo, e.0, i) is None,
    ensures
        memo_lookup(memo.push(e), c, i) == (if memo_lookup(memo, c, i) is None && c == e.0 {
            Some(e.1)
        } else {
            memo_lookup(memo, c, i)
        }),
    decreases memo.len() - i,
{
    if i < memo.len() {
        assert(memo.push(e)[i] == memo[i]);
        lemma_memo_lookup_push(memo, e, c, i + 1);
    } else {
        assert(memo.push(e)[i] == e);
        assert(memo_lookup(memo.push(e), c, i + 1) is None);
    }
}

/// What a bus is: its identifier, its whole route as city identifiers, the
/// index of its present stop in that route, and whether it has finished.
pub struct BusView {
    pub id: u32,
    pub route: Seq<usize>,
    pub pos: int,
    pub finished: bool,
}

impl BusView {
    /// The stops still ahead, the present one first.
    pub open spec fn remaining(self) -> Seq<usize> {
        self.route.subrange(self.pos, self.route.len() as int)
    }

    pub open spec fn has_stop(self) -> bool {
        0 <= self.pos < self.route.len()
    }

    pub open spec fn current(self) -> usize {
        self.route[self.pos]
    }

    /// A city is upcoming when the bus still has it ahead, has not yet left
    /// it behind, and is not standing in it.
    pub open spec fn is_upcoming(self, c: usize) -> bool {
        &&& self.has_stop()
        &&& c != self.current()
        &&& exists|i: int| self.pos < i < self.route.len() && self.route[i] == c
        &&& forall|i: int| 0 <= i < self.pos ==> self.route[i] != c
    }

    /// The road time from the present stop to the next visit of `c`.
    pub open spec fn distance_to(self, roads: Seq<Road>, c: usize) -> int {
        legs(roads, self.route, self.pos, index_from(self.route, c, self.pos + 1))
    }

    /// The tick at which the bus, leaving at `now`, reaches `c`.
    pub open spec fn arrival(self, roads: Seq<Road>, c: usize, now: u32) -> u32 {
        clamp_u32(now + self.distance_to(roads, c))
    }

    /// The bus after it has left its present stop.
    pub open spec fn advanced(self) -> BusView {
        if self.finished {
            self
        } else {
            let p = if self.pos < self.route.len() {
                self.pos + 1
            } else {
                self.pos
            };
            BusView { pos: p, finished: p == self.route.len(), ..self }
        }
    }

    /// Every two consecutive stops of the route are joined by a road.
    pub open spec fn connected(self, roads: Seq<Road>) -> bool {
        forall|i: int|
            #![trigger self.route[i]]
            0 < i < self.route.len() ==> road_time(roads, self.route[i - 1], self.route[i]).is_some()
    }
}

/// A bus travelling a fixed route, with the arrival ticks it has already
/// worked out since it reached its present stop.
pub struct Bus {
    pub(crate) id: u32,
    pub(crate) route: Vec<usize>,
    pub(crate) pos: usize,
    pub(crate) finished: bool,
    pub(crate) memo: Vec<(usize, u32)>,
}

impl Bus {
    pub open(crate) spec fn view(&self) -> BusView {
        BusView { id: self.id, route: self.route@, pos: self.pos as int, finished: self.finished }
    }

    /// The remembered arrival ticks, by destination, in the order worked out.
    pub open(crate) spec fn memo_view(&self) -> Seq<(usize, u32)> {
        self.memo@
    }

    /// The position lies within the route; a finished bus has no stop left
    /// and remembers nothing.
    pub open(crate) spec fn wf(&self) -> bool {
        &&& self.pos <= self.route@.len()
        &&& self.finished ==> self.pos == self.route@.len() && self.memo@.len() == 0
    }

    /// The arrival tick remembered for `c`, if any.
    pub open(crate) spec fn memo_of(&self, c: usize) -> Option<u32> {
        memo_lookup(self.memo@, c, 0)
    }

    /// Every remembered arrival tick is the one the route gives leaving at
    /// tick `t`.
    pub open(crate) spec fn memo_fits(&self, roads: Seq<Road>, t: u32) -> bool {
        forall|k: int|
            0 <= k < self.memo@.len() ==> (#[trigger] self.memo@[k]).1 == self@.arrival(roads, self.memo@[k].0, t)
    }

    pub open(crate) spec fn inv(&self, roads: Seq<Road>) -> bool {
        &&& self.wf()
        &&& self@.connected(roads)
    }

    /// Building a road keeps the route of a bus joined.
    pub(crate) proof fn lemma_inv_road_push(&self, roads: Seq<Road>, road: Road)
        requires
            self.inv(roads),
        ensures
            self.inv(roads.push(road)),
    {
        let rs = roads.push(road);
        assert forall|m: int| #![trigger self@.route[m]] 0 < m < self@.route.len() implies road_time(
            rs,
            self@.route[m - 1],
            self@.route[m],
        ).is_some() by {
            crate::topology::lemma_road_time_push(roads, road, self@.route[m - 1], self@.route[m]);
        }
    }

    pub fn new(route: &[&City], id: u32) -> (r: Bus)
        ensures
            r@.id == id,
            r@.route == route@.map_values(|c: &City| c.key()),
            r@.pos == 0,
            !r@.finished,
            r.wf(),
            r.memo_view().len() == 0,
    {
        let mut ids: Vec<usize> = Vec::new();
        let mut i: usize = 0;
        while i < route.len()
            invariant
                i <= route@.len(),
                ids@ == route@.subrange(0, i as int).map_values(|c: &City| c.key()),
            decreases route@.len() - i,
        {
            ids.push(route[i].id);
            i = i + 1;
            assert(ids@ =~= route@.subrange(0, i as int).map_values(|c: &City| c.key()));
        }
        assert(route@.subrange(0, route@.len() as int) =~= route@);
        Bus { id, route: ids, pos: 0, finished: false, memo: Vec::new() }
    }

    pub fn get_id(&self) -> (r: u32)
        ensures
            r == self@.id,
    {
        self.id
    }

    /// The city the bus stands in; a bus whose route is used up stands
    /// nowhere, and asking is a fault.
    pub fn current_stop(&self) -> (r: usize)
        requires
            self.wf(),
            self@.has_stop(),
        ensures
            r == self@.current(),
    {
        self.route[self.pos]
    }

    pub fn is_upcoming_stop(&self, city: &City) -> (r: bool)
        requires
            self.wf(),
        ensures
            r == self@.is_upcoming(city.key()),
    {
        let c = city.id;
        if self.pos >= self.route.len() || self.route[self.pos] == c {
            return false;
        }
        let mut i: usize = 0;
        while i < self.pos
            invariant
                self.wf(),
                c == city.key(),
                i <= self.pos,
                self.pos < self.route@.len(),
                self.route@[self.pos as int] != c,
                forall|m: int| 0 <= m < i ==> self.route@[m] != c,
            decreases self.pos - i,
        {
            if self.route[i] == c {
                assert(self.route@[i as int] == c);
                return false;
            }
            i = i + 1;
        }
        let mut j: usize = self.pos + 1;
        while j < self.route.len()
            invariant
                self.wf(),
                c == city.key(),
                self.pos < j <= self.route@.len(),
                self.route@[self.pos as int] != c,
                forall|m: int| 0 <= m < self.pos ==> self.route@[m] != c,
                forall|m: int| self.pos < m < j ==> self.route@[m] != c,
            decreases self.route@.len() - j,
        {
            if self.route[j] == c {
                assert(self@.pos < j && self@.route[j as int] == c);
                assert(self@.has_stop());
                assert(c != self@.current());
                assert(forall|m: int| 0 <= m < self@.pos ==> self@.route[m] != c);
                return true;
            }
            j = j + 1;
        }
        false
    }

    /// Leaves the present stop; the remembered arrival ticks go with it.
    pub fn move_to_next(&mut self)
        requires
            old(self).wf(),
        ensures
            final(self)@ == old(self)@.advanced(),
            final(self).wf(),
            final(self).memo_view().len() == 0,
    {
        if self.finished {
            return;
        }
        if self.pos < self.route.len() {
            self.pos = self.pos + 1;
        }
        self.memo = Vec::new();
        if self.pos == self.route.len() {
            self.finished = true;
        }
    }

    fn walk_distance(&self, roads: &Vec<Road>, c: usize) -> (r: u32)
        requires
            self.wf(),
            self@.is_upcoming(c),
        ensures
            r == clamp_u32(self@.distance_to(roads@, c)),
    {
        let ghost route = self.route@;
        let ghost p = self.pos as int;
        assert(self.pos < self.route.len());
        let mut j: usize = self.pos + 1;
        let mut acc: u32 = 0;
        while j < self.route.len()
            invariant
                route == self.route@,
                p == self.pos,
                p + 1 <= j <= route.len(),
                index_from(route, c, p + 1) == index_from(route, c, j as int),
                acc == clamp_u32(legs(roads@, route, p, j - 1)),
                exists|i: int| j <= i < route.len() && route[i] == c,
            decreases route.len() - j,
        {
            let t = match find_road(roads, self.route[j - 1], self.route[j]) {
                Some(t) => t,
                None => 0,
            };
            proof {
                lemma_legs_nonneg(roads@, route, p, j - 1);
                assert(legs(roads@, route, p, j as int) == legs(roads@, route, p, j - 1) + t);
            }
            acc = acc.saturating_add(t);
            if self.route[j] == c {
                return acc;
            }
            j = j + 1;
        }
        acc
    }

    /// The tick at which this bus, leaving its present stop at `current_time`,
    /// reaches `stop`. The answer is remembered by destination until the bus
    /// moves on, and a remembered answer is given again as it stands.
    pub fn calculate_travel_time(&mut self, roads: &Vec<Road>, stop: &City, current_time: u32) -> (r: u32)
        requires
            old(self).wf(),
            old(self)@.is_upcoming(stop.key()),
        ensures
            final(self)@ == old(self)@,
            final(self).wf(),
            match old(self).memo_of(stop.key()) {
                Some(v) => r == v && final(self).memo_view() == old(self).memo_view(),
                None => r == old(self)@.arrival(roads@, stop.key(), current_time) && final(self).memo_view()
                    == old(self).memo_view().push((stop.key(), r)),
            },
            final(self).memo_of(stop.key()) == Some(r),
            forall|c: usize| c != stop.key() ==> #[trigger] final(self).memo_of(c) == old(self).memo_of(c),
    {
        let c = stop.id;
        proof {
            lemma_legs_nonneg(roads@, self.route@, self.pos as int, index_from(self.route@, c, self.pos + 1));
        }
        let mut k: usize = 0;
        while k < self.memo.len()
            invariant
                k <= self.memo@.len(),
                self == old(self),
                self.wf(),
                c == stop.key(),
                memo_lookup(self.memo@, c, 0) == memo_lookup(self.memo@, c, k as int),
            decreases self.memo@.len() - k,
        {
            let (d0, d1) = self.memo[k];
            if d0 == c {
                assert(self.memo@[k as int] == (d0, d1));
                return d1;
            }
            k = k + 1;
        }
        let d = self.walk_distance(roads, c);
        let r = current_time.saturating_add(d);
        proof {
            assert(memo_lookup(self.memo@, c, k as int) is None);
        }
        self.memo.push((c, r));
        proof {
            assert forall|c2: usize| #![trigger memo_lookup(self.memo@, c2, 0)] true implies memo_lookup(self.memo@, c2, 0) == (if memo_lookup(old(self).memo@, c2, 0) is None && c2 == c {
                Some(r)
            } else {
                memo_lookup(old(self).memo@, c2, 0)
            }) by {
                lemma_memo_lookup_push(old(self).memo@, (c, r), c2, 0);
            }
        }
        r
    }
}

} // verus!
