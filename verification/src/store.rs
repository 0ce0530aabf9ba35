//! The telemetry store: the records of one session, keyed and ordered by
//! their timestamp.

use vstd::prelude::*;
use crate::telemetry::TelemetryPacket;

verus! {

/// Whether the timestamps of `records` rise strictly from each record to the
/// next.
pub open spec fn strictly_ascending(records: Seq<TelemetryPacket>) -> bool {
    forall|i: int, j: int|
        0 <= i < j < records.len() ==> records[i].running_us < records[j].running_us
}

/// Whether `records` holds a record with the timestamp `key`.
pub open spec fn holds_key(records: Seq<TelemetryPacket>, key: u64) -> bool {
    exists|i: int| 0 <= i < records.len() && #[trigger] records[i].running_us == key
}

/// The mapping from timestamp to record that `records` spells out.
pub open spec fn as_map(records: Seq<TelemetryPacket>) -> Map<u64, TelemetryPacket> {
    Map::new(
        |key: u64| holds_key(records, key),
        |key: u64|
            records[choose|i: int| 0 <= i < records.len() && #[trigger] records[i].running_us == key],
    )
}

/// Whether `found` is what a query for the timestamps from `start` up to, but
/// not including, `end` has to give on `store`: every record of the store in
/// that range, once, by rising timestamp, and nothing else.
pub open spec fn is_range_of(
    found: Seq<TelemetryPacket>,
    store: Map<u64, TelemetryPacket>,
    start: u64,
    end: u64,
) -> bool {
    &&& strictly_ascending(found)
    &&& forall|i: int|
        0 <= i < found.len() ==> {
            let key = (#[trigger] found[i]).running_us;
            start <= key < end && store.contains_key(key) && store[key] == found[i]
        }
    &&& forall|key: u64| #[trigger]
        store.contains_key(key) && start <= key < end ==> holds_key(found, key)
}

/// An ordered mapping from timestamp to record.
pub struct TelemetryStore {
    records: Vec<TelemetryPacket>,
}

impl View for TelemetryStore {
    type V = Map<u64, TelemetryPacket>;

    closed spec fn view(&self) -> Map<u64, TelemetryPacket> {
        as_map(self.records@)
    }
}

proof fn lemma_as_map_entry(records: Seq<TelemetryPacket>, at: int)
    requires
        strictly_ascending(records),
        0 <= at < records.len(),
    ensures
        as_map(records).contains_key(records[at].running_us),
        as_map(records)[records[at].running_us] == records[at],
{
    let key = records[at].running_us;
    let chosen = choose|i: int| 0 <= i < records.len() && #[trigger] records[i].running_us == key;
    assert(chosen == at) by {
        if chosen < at {
            assert(records[chosen].running_us < records[at].running_us);
        } else if at < chosen {
            assert(records[at].running_us < records[chosen].running_us);
        }
    }
}

impl TelemetryStore {
    /// Whether the value is internally consistent. Every value that this
    /// module hands out is.
    pub closed spec fn wf(&self) -> bool {
        strictly_ascending(self.records@)
    }

    /// A store without records.
    pub fn new() -> (store: TelemetryStore)
        ensures
            store.wf(),
            store@ == Map::<u64, TelemetryPacket>::empty(),
    {
        let store = TelemetryStore { records: Vec::new() };
        assert(store@ =~= Map::<u64, TelemetryPacket>::empty());
        store
    }

    /// The number of records in the store.
    pub fn len(&self) -> (count: usize)
        requires
            self.wf(),
        ensures
            count == self@.dom().len(),
            self@.dom().finite(),
    {
        proof {
            lemma_dom_len(self.records@);
        }
        self.records.len()
    }

    /// The position of the first record whose timestamp is `key` or later.
    fn lower_bound(&self, key: u64) -> (at: usize)
        requires
            self.wf(),
        ensures
            at <= self.records.len(),
            forall|i: int| 0 <= i < at ==> self.records[i].running_us < key,
            forall|i: int| at <= i < self.records.len() ==> self.records[i].running_us >= key,
    {
        let mut low: usize = 0;
        let mut high: usize = self.records.len();
        while low < high
            invariant
                low <= high <= self.records.len(),
                strictly_ascending(self.records@),
                forall|i: int| 0 <= i < low ==> self.records[i].running_us < key,
                forall|i: int| high <= i < self.records.len() ==> self.records[i].running_us >= key,
            decreases high - low,
        {
            let mid: usize = low + (high - low) / 2;
            if self.records[mid].running_us < key {
                low = mid + 1;
            } else {
                high = mid;
            }
        }
        low
    }

    /// Files `record` under its timestamp. A record that was there under the
    /// same timestamp gives way to the new one.
    pub fn insert(&mut self, record: TelemetryPacket)
        requires
            old(self).wf(),
        ensures
            final(self).wf(),
            final(self)@ == old(self)@.insert(record.running_us, record),
    {
        let key: u64 = record.running_us;
        let count: usize = self.records.len();
        let ghost before = self.records@;
        if count == 0 || self.records[count - 1].running_us < key {
            self.records.push(record);
            proof {
                assert(self.records@ =~= before.insert(count as int, record));
                assert forall|i: int| 0 <= i < count implies before[i].running_us < key by {
                    if i < count - 1 {
                        assert(before[i].running_us < before[count - 1].running_us);
                    }
                }
                lemma_insert_new(before, count as int, record);
            }
        } else {
            let at: usize = self.lower_bound(key);
            assert(at < count);
            if self.records[at].running_us == key {
                self.records[at] = record;
                proof {
                    assert(self.records@ =~= before.update(at as int, record));
                    lemma_insert_over(before, at as int, record);
                }
            } else {
                self.records.insert(at, record);
                proof {
                    assert forall|i: int| at <= i < count implies before[i].running_us > key by {
                        if at < i {
                            assert(before[at as int].running_us < before[i].running_us);
                        }
                    }
                    lemma_insert_new(before, at as int, record);
                }
            }
        }
    }

    /// Every record whose timestamp is at least `start` and less than `end`,
    /// by rising timestamp.
    pub fn range_query(&self, start: u64, end: u64) -> (found: Vec<TelemetryPacket>)
        requires
            self.wf(),
        ensures
            is_range_of(found@, self@, start, end),
    {
        let low: usize = self.lower_bound(start);
        let high: usize = self.lower_bound(end);
        let mut found: Vec<TelemetryPacket> = Vec::new();
        let mut i: usize = low;
        while i < high
            invariant
                low <= i <= self.records.len(),
                i <= high || i == low,
                high <= self.records.len(),
                found@ == self.records@.subrange(low as int, i as int),
            decreases high - i,
        {
            found.push(self.records[i]);
            assert(self.records@.subrange(low as int, i + 1) =~= self.records@.subrange(
                low as int,
                i as int,
            ).push(self.records@[i as int]));
            i = i + 1;
        }
        proof {
            let records = self.records@;
            assert forall|k: int| 0 <= k < found@.len() implies {
                let key = (#[trigger] found@[k]).running_us;
                start <= key < end && self@.contains_key(key) && self@[key] == found@[k]
            } by {
                assert(found@[k] == records[low + k]);
                lemma_as_map_entry(records, low + k);
            }
            assert forall|key: u64| #[trigger]
                self@.contains_key(key) && start <= key < end implies holds_key(found@, key) by {
                let at = choose|i: int|
                    0 <= i < records.len() && #[trigger] records[i].running_us == key;
                assert(low <= at < high);
                assert(found@[at - low].running_us == key);
            }
            assert forall|a: int, b: int| 0 <= a < b < found@.len() implies found@[a].running_us
                < found@[b].running_us by {
                assert(records[low + a].running_us < records[low + b].running_us);
            }
        }
        found
    }

    /// Empties the store.
    pub fn clear(&mut self)
        ensures
            final(self).wf(),
            final(self)@ == Map::<u64, TelemetryPacket>::empty(),
    {
        self.records.clear();
        assert(self@ =~= Map::<u64, TelemetryPacket>::empty());
    }
}

/// A record that goes between its neighbours adds its timestamp to the
/// mapping.
proof fn lemma_insert_new(before: Seq<TelemetryPacket>, at: int, record: TelemetryPacket)
    requires
        strictly_ascending(before),
        0 <= at <= before.len(),
        forall|i: int| 0 <= i < at ==> before[i].running_us < record.running_us,
        forall|i: int| at <= i < before.len() ==> before[i].running_us > record.running_us,
    ensures
        strictly_ascending(before.insert(at, record)),
        as_map(before.insert(at, record)) == as_map(before).insert(record.running_us, record),
{
    let key = record.running_us;
    let after = before.insert(at, record);
    let goal = as_map(before).insert(key, record);
    assert forall|i: int, j: int| 0 <= i < j < after.len() implies after[i].running_us
        < after[j].running_us by {
        let bi = if i < at { i } else { i - 1 };
        let bj = if j < at { j } else { j - 1 };
        if i != at && j != at {
            assert(before[bi].running_us < before[bj].running_us);
        }
    }
    assert forall|k: u64| #[trigger] as_map(after).contains_key(k) == goal.contains_key(k) by {
        if holds_key(after, k) {
            let i = choose|i: int| 0 <= i < after.len() && #[trigger] after[i].running_us == k;
            if i != at {
                let bi = if i < at { i } else { i - 1 };
                assert(before[bi].running_us == k);
            }
        }
        if holds_key(before, k) {
            let i = choose|i: int| 0 <= i < before.len() && #[trigger] before[i].running_us == k;
            let ai = if i < at { i } else { i + 1 };
            assert(after[ai].running_us == k);
        }
        if k == key {
            assert(after[at].running_us == k);
        }
    }
    assert forall|k: u64| #[trigger] goal.contains_key(k) implies as_map(after)[k] == goal[k] by {
        if k == key {
            lemma_as_map_entry(after, at);
        } else {
            assert(holds_key(before, k));
            let i = choose|i: int| 0 <= i < before.len() && #[trigger] before[i].running_us == k;
            let ai = if i < at { i } else { i + 1 };
            lemma_as_map_entry(before, i);
            assert(after[ai] == before[i]);
            lemma_as_map_entry(after, ai);
        }
    }
    assert(as_map(after) =~= goal);
}

/// A record that takes the place of one with its own timestamp replaces it
/// in the mapping.
proof fn lemma_insert_over(before: Seq<TelemetryPacket>, at: int, record: TelemetryPacket)
    requires
        strictly_ascending(before),
        0 <= at < before.len(),
        before[at].running_us == record.running_us,
    ensures
        strictly_ascending(before.update(at, record)),
        as_map(before.update(at, record)) == as_map(before).insert(record.running_us, record),
{
    let key = record.running_us;
    let after = before.update(at, record);
    let goal = as_map(before).insert(key, record);
    assert forall|i: int, j: int| 0 <= i < j < after.len() implies after[i].running_us
        < after[j].running_us by {
        assert(before[i].running_us < before[j].running_us);
    }
    assert forall|k: u64| #[trigger] as_map(after).contains_key(k) == goal.contains_key(k) by {
        if holds_key(after, k) {
            let i = choose|i: int| 0 <= i < after.len() && #[trigger] after[i].running_us == k;
            assert(before[i].running_us == k);
        }
        if holds_key(before, k) {
            let i = choose|i: int| 0 <= i < before.len() && #[trigger] before[i].running_us == k;
            assert(after[i].running_us == k);
        }
        if k == key {
            assert(after[at].running_us == k);
        }
    }
    assert forall|k: u64| #[trigger] goal.contains_key(k) implies as_map(after)[k] == goal[k] by {
        assert(as_map(after).contains_key(k));
        let i = choose|i: int| 0 <= i < after.len() && #[trigger] after[i].running_us == k;
        lemma_as_map_entry(after, i);
        if k != key {
            assert(after[i] == before[i]);
            lemma_as_map_entry(before, i);
        }
    }
    assert(as_map(after) =~= goal);
}

/// A store holds as many timestamps as records.
proof fn lemma_dom_len(records: Seq<TelemetryPacket>)
    requires
        strictly_ascending(records),
    ensures
        as_map(records).dom().finite(),
        as_map(records).dom().len() == records.len(),
    decreases records.len(),
{
    if records.len() == 0 {
        assert(as_map(records).dom() =~= Set::<u64>::empty());
    } else {
        let earlier = records.drop_last();
        let last = records.last();
        lemma_dom_len(earlier);
        assert(as_map(records).dom() =~= as_map(earlier).dom().insert(last.running_us)) by {
            assert forall|k: u64| as_map(records).dom().contains(k) == as_map(
                earlier,
            ).dom().insert(last.running_us).contains(k) by {
                if holds_key(records, k) {
                    let i = choose|i: int| 0 <= i < records.len() && #[trigger] records[i].running_us == k;
                    if i < earlier.len() {
                        assert(earlier[i].running_us == k);
                    }
                }
                if holds_key(earlier, k) {
                    let i = choose|i: int| 0 <= i < earlier.len() && #[trigger] earlier[i].running_us == k;
                    assert(records[i].running_us == k);
                }
                if k == last.running_us {
                    assert(records[records.len() - 1].running_us == k);
                }
            }
        }
        assert(!as_map(earlier).dom().contains(last.running_us)) by {
            if holds_key(earlier, last.running_us) {
                let i = choose|i: int| 0 <= i < earlier.len() && #[trigger] earlier[i].running_us == last.running_us;
                assert(records[i].running_us < records[records.len() - 1].running_us);
            }
        }
    }
}

/// A store and a range leave one answer to a query, and no other.
pub proof fn lemma_range_is_unique(
    one: Seq<TelemetryPacket>,
    other: Seq<TelemetryPacket>,
    store: Map<u64, TelemetryPacket>,
    start: u64,
    end: u64,
)
    requires
        is_range_of(one, store, start, end),
        is_range_of(other, store, start, end),
    ensures
        one == other,
    decreases one.len(),
{
    if one.len() == 0 {
        if other.len() > 0 {
            let key = other[0].running_us;
            assert(store.contains_key(key) && start <= key < end);
            assert(holds_key(one, key));
        }
        assert(one =~= other);
    } else {
        let last = one.last();
        let key = last.running_us;
        assert(store.contains_key(key) && start <= key < end);
        assert(holds_key(other, key));
        let at = choose|i: int| 0 <= i < other.len() && #[trigger] other[i].running_us == key;
        assert(at == other.len() - 1) by {
            if at < other.len() - 1 {
                let above = other.last().running_us;
                assert(other[at].running_us < other[other.len() - 1].running_us);
                assert(store.contains_key(above) && start <= above < end);
                assert(holds_key(one, above));
                let k = choose|i: int| 0 <= i < one.len() && #[trigger] one[i].running_us == above;
                if k < one.len() - 1 {
                    assert(one[k].running_us < one[one.len() - 1].running_us);
                }
            }
        }
        assert(other.last() == last);
        let upto = key;
        assert(is_range_of(one.drop_last(), store, start, upto)) by {
            assert forall|i: int| 0 <= i < one.drop_last().len() implies {
                let k = (#[trigger] one.drop_last()[i]).running_us;
                start <= k < upto && store.contains_key(k) && store[k] == one.drop_last()[i]
            } by {
                assert(one.drop_last()[i] == one[i]);
                assert(one[i].running_us < one[one.len() - 1].running_us);
            }
            assert forall|k: u64| #[trigger]
                store.contains_key(k) && start <= k < upto implies holds_key(one.drop_last(), k) by {
                assert(holds_key(one, k));
                let i = choose|i: int| 0 <= i < one.len() && #[trigger] one[i].running_us == k;
                assert(one.drop_last()[i].running_us == k);
            }
        }
        assert(is_range_of(other.drop_last(), store, start, upto)) by {
            assert forall|i: int| 0 <= i < other.drop_last().len() implies {
                let k = (#[trigger] other.drop_last()[i]).running_us;
                start <= k < upto && store.contains_key(k) && store[k] == other.drop_last()[i]
            } by {
                assert(other.drop_last()[i] == other[i]);
                assert(other[i].running_us < other[other.len() - 1].running_us);
            }
            assert forall|k: u64| #[trigger]
                store.contains_key(k) && start <= k < upto implies holds_key(other.drop_last(), k) by {
                assert(holds_key(other, k));
                let i = choose|i: int| 0 <= i < other.len() && #[trigger] other[i].running_us == k;
                assert(other.drop_last()[i].running_us == k);
            }
        }
        lemma_range_is_unique(one.drop_last(), other.drop_last(), store, start, upto);
        assert(one =~= one.drop_last().push(one.last()));
        assert(other =~= other.drop_last().push(other.last()));
    }
}

} // verus!
