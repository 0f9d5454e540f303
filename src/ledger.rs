use vstd::prelude::*;
use crate::topology::City;

verus! {

/// A ledger entry: origin, destination, how many wait, and the
/// destination's name.
pub type Entry = (usize, usize, u32, Seq<char>);

/// People waiting in city `from` for a bus to city `to`.
pub struct Waiting {
    pub(crate) from: usize,
    pub(crate) to: City,
    pub(crate) count: u32,
}

impl Waiting {
    pub open(crate) spec fn view(&self) -> Entry {
        (self.from, self.to.key(), self.count, self.to.label())
    }
}

/// The ledger as (origin, destination, count) entries, in order of creation.
pub open spec fn ledger_view(l: Seq<Waiting>) -> Seq<Entry> {
    l.map_values(|w: Waiting| w@)
}

/// The first entry, at `i` or later, for the pair (`from`, `to`); the length
/// of the ledger where there is none.
pub open spec fn entry_from(l: Seq<Entry>, from: usize, to: usize, i: int) -> int
    decreases l.len() - i,
{
    if i < 0 || i >= l.len() {
        l.len() as int
    } else if l[i].0 == from && l[i].1 == to {
        i
    } else {
        entry_from(l, from, to, i + 1)
    }
}

pub open spec fn entry_index(l: Seq<Entry>, from: usize, to: usize) -> int {
    entry_from(l, from, to, 0)
}

/// How many people wait in `from` for `to`.
pub open spec fn waiting_count(l: Seq<Entry>, from: usize, to: usize) -> nat {
    let k = entry_index(l, from, to);
    if k < l.len() {
        l[k].2 as nat
    } else {
        0
    }
}

/// The ledger after `n` more people start waiting in `from` for `to`, a
/// city named `label`; an entry already there keeps its name.
pub open spec fn ledger_add(l: Seq<Entry>, from: usize, to: usize, n: u32, label: Seq<char>) -> Seq<Entry> {
    let k = entry_index(l, from, to);
    if k < l.len() {
        l.update(k, (from, to, (l[k].2 + n) as u32, l[k].3))
    } else {
        l.push((from, to, n, label))
    }
}

/// No two entries are for the same pair of cities.
pub open spec fn keys_unique(l: Seq<Entry>) -> bool {
    forall|i: int, j: int|
        0 <= i < j < l.len() ==> !(#[trigger] l[i].0 == #[trigger] l[j].0 && l[i].1 == l[j].1)
}

proof fn lemma_entry_from_range(l: Seq<Entry>, from: usize, to: usize, i: int)
    requires
        0 <= i,
    ensures
        i <= entry_from(l, from, to, i) <= l.len() || (i > l.len() && entry_from(l, from, to, i) == l.len()),
        entry_from(l, from, to, i) < l.len() ==> l[entry_from(l, from, to, i)].0 == from
            && l[entry_from(l, from, to, i)].1 == to,
        entry_from(l, from, to, i) == l.len() ==> forall|j: int|
            i <= j < l.len() ==> !(#[trigger] l[j].0 == from && l[j].1 == to),
        forall|j: int| i <= j < entry_from(l, from, to, i) ==> !(#[trigger] l[j].0 == from && l[j].1 == to),
    decreases l.len() - i,
{
    if i < l.len() && !(l[i].0 == from && l[i].1 == to) {
        lemma_entry_from_range(l, from, to, i + 1);
    }
}

/// In a ledger without repeated pairs, the entry of a pair is the one that
/// holds it.
proof fn lemma_entry_index_unique(l: Seq<Entry>, i: int)
    requires
        keys_unique(l),
        0 <= i < l.len(),
    ensures
        entry_index(l, l[i].0, l[i].1) == i,
{
    lemma_entry_from_range(l, l[i].0, l[i].1, 0);
}

proof fn lemma_entry_from_update(
    l: Seq<Entry>,
    k: int,
    v: Entry,
    from: usize,
    to: usize,
    i: int,
)
    requires
        0 <= k < l.len(),
        v.0 == l[k].0,
        v.1 == l[k].1,
    ensures
        entry_from(l.update(k, v), from, to, i) == entry_from(l, from, to, i),
    decreases l.len() - i,
{
    if 0 <= i < l.len() {
        lemma_entry_from_update(l, k, v, from, to, i + 1);
    }
}

/// Changing the count of an entry moves no entry.
pub proof fn lemma_entry_index_update(l: Seq<Entry>, k: int, v: Entry, from: usize, to: usize)
    requires
        0 <= k < l.len(),
        v.0 == l[k].0,
        v.1 == l[k].1,
    ensures
        entry_index(l.update(k, v), from, to) == entry_index(l, from, to),
{
    lemma_entry_from_update(l, k, v, from, to, 0);
}

proof fn lemma_entry_from_push(l: Seq<Entry>, v: Entry, i: int)
    requires
        0 <= i <= l.len(),
        entry_from(l, v.0, v.1, i) == l.len(),
    ensures
        entry_from(l.push(v), v.0, v.1, i) == l.len(),
    decreases l.len() - i,
{
    if i < l.len() {
        assert(l.push(v)[i] == l[i]);
        lemma_entry_from_push(l, v, i + 1);
    }
}

/// Adding people keeps one entry per pair of cities.
pub proof fn lemma_ledger_add_unique(l: Seq<Entry>, from: usize, to: usize, n: u32, label: Seq<char>)
    requires
        keys_unique(l),
    ensures
        keys_unique(ledger_add(l, from, to, n, label)),
{
    lemma_entry_from_range(l, from, to, 0);
    let r = ledger_add(l, from, to, n, label);
    assert forall|i: int, j: int| 0 <= i < j < r.len() implies !(#[trigger] r[i].0 == #[trigger] r[j].0
        && r[i].1 == r[j].1) by {
        if j == l.len() {
            assert(l[i].0 == r[i].0 && l[i].1 == r[i].1);
        }
    }
}

/// People added to a pair of cities add up: the count grows by exactly the
/// number added.
pub proof fn lemma_ledger_add_accumulates(l: Seq<Entry>, from: usize, to: usize, n: u32, label: Seq<char>)
    requires
        waiting_count(l, from, to) + n <= u32::MAX,
    ensures
        waiting_count(ledger_add(l, from, to, n, label), from, to) == waiting_count(l, from, to) + n,
{
    let k = entry_index(l, from, to);
    lemma_entry_from_range(l, from, to, 0);
    if k < l.len() {
        lemma_entry_index_update(l, k, (from, to, (l[k].2 + n) as u32, l[k].3), from, to);
    } else {
        lemma_entry_from_push(l, (from, to, n, label), 0);
    }
}

/// Once boarding has emptied an entry, the demand served is gone for good:
/// people added afterwards are counted from zero.
pub proof fn lemma_ledger_refill_after_boarding(l: Seq<Entry>, i: int, n: u32, label: Seq<char>)
    requires
        keys_unique(l),
        0 <= i < l.len(),
    ensures
        waiting_count(ledger_add(l.update(i, (l[i].0, l[i].1, 0u32, l[i].3)), l[i].0, l[i].1, n, label), l[i].0, l[i].1) == n,
{
    let z = l.update(i, (l[i].0, l[i].1, 0u32, l[i].3));
    lemma_entry_index_unique(l, i);
    lemma_entry_index_update(l, i, (l[i].0, l[i].1, 0u32, l[i].3), l[i].0, l[i].1);
    assert(waiting_count(z, l[i].0, l[i].1) == 0);
    lemma_ledger_add_accumulates(z, l[i].0, l[i].1, n, label);
}

pub(crate) fn find_entry(l: &Vec<Waiting>, from: usize, to: usize) -> (r: usize)
    ensures
        r == entry_index(ledger_view(l@), from, to),
{
    let ghost lv = ledger_view(l@);
    let mut i: usize = 0;
    while i < l.len()
        invariant
            lv == ledger_view(l@),
            i <= l@.len(),
            entry_index(lv, from, to) == entry_from(lv, from, to, i as int),
        decreases l@.len() - i,
    {
        if l[i].from == from && l[i].to.id == to {
            return i;
        }
        i = i + 1;
    }
    i
}

/// Records `n` more people waiting in `from` for `to`.
pub(crate) fn add_waiting(l: &mut Vec<Waiting>, from: usize, to: &City, n: u32)
    requires
        waiting_count(ledger_view(old(l)@), from, to.key()) + n <= u32::MAX,
    ensures
        ledger_view(final(l)@) == ledger_add(ledger_view(old(l)@), from, to.key(), n, to.label()),
{
    let k = find_entry(l, from, to.id);
    proof {
        lemma_entry_from_range(ledger_view(l@), from, to.key(), 0);
    }
    if k < l.len() {
        let c = l[k].count;
        l[k].count = c + n;
        assert(ledger_view(l@) =~= ledger_add(ledger_view(old(l)@), from, to.key(), n, to.label()));
    } else {
        l.push(Waiting { from, to: to.duplicate(), count: n });
        assert(ledger_view(l@) =~= ledger_add(ledger_view(old(l)@), from, to.key(), n, to.label()));
    }
}

} // verus!
