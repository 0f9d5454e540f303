use vstd::prelude::*;

verus! {

/// A city of the network. Cities are told apart by the identifier that the
/// simulation hands out, never by name.
pub struct City {
    pub(crate) id: usize,
    pub(crate) name: String,
}

impl City {
    /// The identifier under which the simulation knows this city.
    pub open(crate) spec fn key(&self) -> usize {
        self.id
    }

    /// The city's name.
    pub open(crate) spec fn label(&self) -> Seq<char> {
        self.name@
    }

    pub fn name(&self) -> (r: String)
        ensures
            r@ == self.label(),
    {
        self.name.clone()
    }

    pub fn id(&self) -> (r: usize)
        ensures
            r == self.key(),
    {
        self.id
    }

    pub(crate) fn duplicate(&self) -> (r: City)
        ensures
            r.key() == self.key(),
            r.label() == self.label(),
    {
        City { id: self.id, name: self.name.clone() }
    }
}

/// An undirected road between two cities, travelled in `travel_time` ticks.
#[derive(Clone, Copy)]
pub struct Road {
    pub(crate) travel_time: u32,
    pub(crate) point_a: usize,
    pub(crate) point_b: usize,
}

impl Road {
    pub open(crate) spec fn time(&self) -> u32 {
        self.travel_time
    }

    /// The cities at the two ends, in the order given when it was built.
    pub open(crate) spec fn ends(&self) -> (usize, usize) {
        (self.point_a, self.point_b)
    }

    /// Whether this road joins `a` and `b`, in either direction.
    pub open(crate) spec fn joins(&self, a: usize, b: usize) -> bool {
        (self.point_a == a && self.point_b == b) || (self.point_a == b && self.point_b == a)
    }

    pub fn travel_time(&self) -> (r: u32)
        ensures
            r == self.time(),
    {
        self.travel_time
    }
}

/// The travel time of the first road, at index `i` or later, that joins `a`
/// and `b`.
pub open spec fn first_road_from(roads: Seq<Road>, a: usize, b: usize, i: int) -> Option<u32>
    decreases roads.len() - i,
{
    if i < 0 || i >= roads.len() {
        None
    } else if roads[i].joins(a, b) {
        Some(roads[i].time())
    } else {
        first_road_from(roads, a, b, i + 1)
    }
}

/// The travel time between two cities: that of the first road built between
/// them, or `None` where they are not adjacent.
pub open spec fn road_time(roads: Seq<Road>, a: usize, b: usize) -> Option<u32> {
    first_road_from(roads, a, b, 0)
}

/// The time of one leg of a route; zero for cities that no road joins.
pub open spec fn leg_time(roads: Seq<Road>, a: usize, b: usize) -> int {
    match road_time(roads, a, b) {
        Some(t) => t as int,
        None => 0,
    }
}

/// Looks up the road between `a` and `b`, in either direction.
pub fn find_road(roads: &Vec<Road>, a: usize, b: usize) -> (r: Option<u32>)
    ensures
        r == road_time(roads@, a, b),
{
    let mut i: usize = 0;
    while i < roads.len()
        invariant
            i <= roads.len(),
            first_road_from(roads@, a, b, 0) == first_road_from(roads@, a, b, i as int),
        decreases roads.len() - i,
    {
        let r = roads[i];
        if (r.point_a == a && r.point_b == b) || (r.point_a == b && r.point_b == a) {
            return Some(r.travel_time);
        }
        i = i + 1;
    }
    None
}

proof fn lemma_first_road_symmetric(roads: Seq<Road>, a: usize, b: usize, i: int)
    ensures
        first_road_from(roads, a, b, i) == first_road_from(roads, b, a, i),
    decreases roads.len() - i,
{
    if 0 <= i < roads.len() {
        lemma_first_road_symmetric(roads, a, b, i + 1);
    }
}

/// Roads are undirected: looking a pair up in either order gives the same
/// answer, both whether the cities are adjacent and the travel time.
pub proof fn lemma_road_time_symmetric(roads: Seq<Road>, a: usize, b: usize)
    ensures
        road_time(roads, a, b) == road_time(roads, b, a),
        road_time(roads, a, b).is_some() == road_time(roads, b, a).is_some(),
{
    lemma_first_road_symmetric(roads, a, b, 0);
}

proof fn lemma_first_road_push(roads: Seq<Road>, r: Road, a: usize, b: usize, i: int)
    requires
        first_road_from(roads, a, b, i).is_some(),
    ensures
        first_road_from(roads.push(r), a, b, i) == first_road_from(roads, a, b, i),
    decreases roads.len() - i,
{
    if 0 <= i < roads.len() && !roads[i].joins(a, b) {
        lemma_first_road_push(roads, r, a, b, i + 1);
    }
}

/// Building a road never changes the travel time between cities that were
/// already adjacent.
pub proof fn lemma_road_time_push(roads: Seq<Road>, r: Road, a: usize, b: usize)
    requires
        road_time(roads, a, b).is_some(),
    ensures
        road_time(roads.push(r), a, b) == road_time(roads, a, b),
{
    lemma_first_road_push(roads, r, a, b, 0);
}

} // verus!
