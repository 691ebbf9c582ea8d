//! Hash-indexed link tables: the tables that a lookup by path hash goes through,
//! and whose stored indices are the joints that patching rewrites.

use vstd::prelude::*;
use std::collections::BTreeMap;

verus! {

broadcast use {vstd::laws_cmp::group_laws_cmp, vstd::std_specs::btree::group_btree_axioms};

/// The link value that stands for "nothing": no sibling, no child, no entry.
pub const NO_LINK: u32 = 0xFF_FFFF;

/// One slot of a link table: a path hash and the index stored for it.
#[derive(Clone, Copy, Debug, PartialEq, Eq, Structural)]
pub struct HashSlot {
    pub hash: u64,
    pub index: u32,
}

/// A run of consecutive slots, sorted by hash.
#[derive(Clone, Copy, Debug, PartialEq, Eq, Structural)]
pub struct Bucket {
    pub start: u32,
    pub count: u32,
}

/// A table from path hash to index. A hash belongs to the bucket numbered by the
/// hash modulo the number of buckets, and is searched for in that bucket only.
#[derive(Debug)]
pub struct LinkTable {
    pub buckets: Vec<Bucket>,
    pub slots: Vec<HashSlot>,
}

/// Whether the slots at `lo..hi` carry strictly increasing hashes.
pub open spec fn sorted_between(slots: Seq<HashSlot>, lo: int, hi: int) -> bool {
    forall|i: int, j: int| lo <= i < j < hi ==> slots[i].hash < slots[j].hash
}

/// Whether slot `p` lies in the bucket of `hash` and carries `hash`.
pub open spec fn slot_holds(buckets: Seq<Bucket>, slots: Seq<HashSlot>, hash: u64, p: int) -> bool {
    let b = buckets[(hash as int) % (buckets.len() as int)];
    &&& b.start <= p < b.start + b.count
    &&& 0 <= p < slots.len()
    &&& slots[p].hash == hash
}

/// The slot that a lookup of `hash` finds.
pub open spec fn slot_position(buckets: Seq<Bucket>, slots: Seq<HashSlot>, hash: u64) -> int {
    choose|p: int| slot_holds(buckets, slots, hash, p)
}

/// The map that a table of these buckets and slots stands for.
pub open spec fn table_map(buckets: Seq<Bucket>, slots: Seq<HashSlot>) -> Map<u64, u32> {
    Map::new(
        |h: u64| exists|p: int| slot_holds(buckets, slots, h, p),
        |h: u64| slots[slot_position(buckets, slots, h)].index,
    )
}

impl LinkTable {
    /// There is a bucket, each bucket lies inside the slots, and each bucket is
    /// strictly sorted by hash.
    pub open spec fn wf(&self) -> bool {
        &&& self.buckets@.len() > 0
        &&& forall|b: int|
            0 <= b < self.buckets@.len() ==> #[trigger] self.buckets@[b].start
                + self.buckets@[b].count <= self.slots@.len()
        &&& forall|b: int|
            0 <= b < self.buckets@.len() ==> sorted_between(
                self.slots@,
                #[trigger] self.buckets@[b].start as int,
                self.buckets@[b].start + self.buckets@[b].count,
            )
    }

    /// The bucket that `hash` belongs to.
    pub open spec fn bucket_of(&self, hash: u64) -> int {
        (hash as int) % (self.buckets@.len() as int)
    }

    /// Whether slot `p` lies in the bucket of `hash` and carries `hash`.
    pub open spec fn holds(&self, hash: u64, p: int) -> bool {
        slot_holds(self.buckets@, self.slots@, hash, p)
    }

    /// Whether a lookup of `hash` finds a slot.
    pub open spec fn contains(&self, hash: u64) -> bool {
        exists|p: int| slot_holds(self.buckets@, self.slots@, hash, p)
    }

    /// The slot that a lookup of `hash` finds.
    pub open spec fn position(&self, hash: u64) -> int {
        slot_position(self.buckets@, self.slots@, hash)
    }

    /// The table as a map: each hash that a lookup finds, with its stored index.
    pub open spec fn view(&self) -> Map<u64, u32> {
        table_map(self.buckets@, self.slots@)
    }

    /// Whether `other` has the same buckets and the same hash in every slot, so
    /// that the two differ in stored indices at most.
    pub open spec fn same_layout(&self, other: &LinkTable) -> bool {
        &&& self.buckets@ == other.buckets@
        &&& self.slots@.len() == other.slots@.len()
        &&& forall|i: int|
            0 <= i < self.slots@.len() ==> self.slots@[i].hash == other.slots@[i].hash
    }

    /// A well-formed table holds a hash in at most one slot of its bucket.
    pub proof fn lemma_position_unique(&self, hash: u64, p: int, q: int)
        requires
            self.wf(),
            self.holds(hash, p),
            self.holds(hash, q),
        ensures
            p == q,
    {
        let b = self.bucket_of(hash);
        assert(0 <= b < self.buckets@.len());
        assert(sorted_between(
            self.slots@,
            self.buckets@[b].start as int,
            self.buckets@[b].start + self.buckets@[b].count,
        ));
        if p < q {
            assert(self.slots@[p].hash < self.slots@[q].hash);
        }
        if q < p {
            assert(self.slots@[q].hash < self.slots@[p].hash);
        }
    }

    /// Tables of the same layout find the same hashes in the same slots.
    pub proof fn lemma_same_layout(&self, other: &LinkTable)
        requires
            self.same_layout(other),
        ensures
            self.wf() == other.wf(),
            forall|h: u64, p: int| self.holds(h, p) == other.holds(h, p),
            forall|h: u64| self.contains(h) == other.contains(h),
            forall|h: u64| self.wf() && self.contains(h) ==> self.position(h) == other.position(h),
            self@.dom() == other@.dom(),
    {
        assert forall|h: u64| self.contains(h) == other.contains(h) by {
            if self.contains(h) {
                let p = self.position(h);
                assert(other.holds(h, p));
            }
            if other.contains(h) {
                let p = other.position(h);
                assert(self.holds(h, p));
            }
        }
        assert forall|h: u64| self@.dom().contains(h) == other@.dom().contains(h) by {
            assert(self@.dom().contains(h) == self.contains(h));
        }
    }

    /// The slot in which a lookup of `hash` ends, if it finds one.
    pub fn find(&self, hash: u64) -> (found: Option<usize>)
        requires
            self.wf(),
        ensures
            found is Some == self.contains(hash),
            found matches Some(p) ==> p == self.position(hash) && self.holds(hash, p as int) && p
                < self.slots@.len(),
    {
        let count = self.buckets.len();
        let number = (hash % (count as u64)) as usize;
        let bucket = self.buckets[number];
        assert(number == self.bucket_of(hash));
        assert(self.buckets@[number as int].start + self.buckets@[number as int].count
            <= self.slots@.len());
        let ghost lo0 = bucket.start as int;
        let ghost hi0 = bucket.start + bucket.count;
        assert(sorted_between(self.slots@, lo0, hi0));
        let total = self.slots.len();
        let mut lo: usize = bucket.start as usize;
        let mut hi: usize = bucket.start as usize + bucket.count as usize;
        while lo < hi
            invariant
                self.wf(),
                bucket == self.buckets@[self.bucket_of(hash)],
                lo0 == bucket.start,
                hi0 == bucket.start + bucket.count,
                lo0 <= lo <= hi <= hi0 <= self.slots@.len(),
                sorted_between(self.slots@, lo0, hi0),
                forall|p: int| lo0 <= p < lo ==> self.slots@[p].hash < hash,
                forall|p: int| hi <= p < hi0 ==> self.slots@[p].hash > hash,
            decreases hi - lo,
        {
            let mid = lo + (hi - lo) / 2;
            let here = self.slots[mid].hash;
            if here == hash {
                assert(self.holds(hash, mid as int));
                proof {
                    self.lemma_position_unique(hash, mid as int, self.position(hash));
                }
                return Some(mid);
            } else if here < hash {
                lo = mid + 1;
            } else {
                hi = mid;
            }
        }
        assert(forall|p: int| !self.holds(hash, p));
        None
    }

    /// The index stored for `hash`, if a lookup finds it.
    pub fn get(&self, hash: u64) -> (index: Option<u32>)
        requires
            self.wf(),
        ensures
            index == self.spec_get(hash),
    {
        match self.find(hash) {
            Some(p) => Some(self.slots[p].index),
            None => None,
        }
    }

    /// The index stored for `hash`, if a lookup finds it.
    pub open spec fn spec_get(&self, hash: u64) -> Option<u32> {
        if self@.dom().contains(hash) {
            Some(self@[hash])
        } else {
            None
        }
    }

    /// Overwrites the index stored for `hash` and reports whether a slot was
    /// found. Nothing else changes; without a slot nothing changes at all.
    pub fn set(&mut self, hash: u64, index: u32) -> (done: bool)
        requires
            old(self).wf(),
        ensures
            final(self).wf(),
            final(self).same_layout(old(self)),
            done == old(self)@.dom().contains(hash),
            done ==> final(self)@ == old(self)@.insert(hash, index),
            done ==> final(self).slots@ == old(self).slots@.update(
                old(self).position(hash),
                HashSlot { hash, index },
            ),
            !done ==> *final(self) == *old(self),
    {
        match self.find(hash) {
            Some(p) => {
                let ghost before = *self;
                self.slots[p] = HashSlot { hash, index };
                proof {
                    self.lemma_same_layout(&before);
                }
                true
            },
            None => false,
        }
    }

    /// A table with one bucket that spans all of `slots`, or nothing where the
    /// slots are not strictly sorted by hash or are too many to number.
    pub fn sorted(slots: Vec<HashSlot>) -> (table: Option<LinkTable>)
        ensures
            table is Some == (sorted_between(slots@, 0, slots@.len() as int) && slots@.len()
                <= u32::MAX),
            table matches Some(t) ==> t.wf() && t.slots@ == slots@ && t.buckets@ == seq![
                Bucket { start: 0, count: slots@.len() as u32 },
            ],
    {
        if slots.len() > u32::MAX as usize {
            return None;
        }
        let mut i: usize = 1;
        while i < slots.len()
            invariant
                1 <= i,
                sorted_between(slots@, 0, if i <= slots@.len() { i as int } else { slots@.len() as int }),
            decreases slots.len() - i,
        {
            if slots[i - 1].hash >= slots[i].hash {
                return None;
            }
            i += 1;
        }
        let mut buckets: Vec<Bucket> = Vec::new();
        buckets.push(Bucket { start: 0, count: slots.len() as u32 });
        Some(LinkTable { buckets, slots })
    }

    /// Whether the table is well-formed.
    pub fn is_well_formed(&self) -> (ok: bool)
        ensures
            ok == self.wf(),
    {
        if self.buckets.len() == 0 {
            return false;
        }
        let mut b: usize = 0;
        while b < self.buckets.len()
            invariant
                b <= self.buckets@.len(),
                forall|c: int|
                    0 <= c < b ==> #[trigger] self.buckets@[c].start + self.buckets@[c].count
                        <= self.slots@.len(),
                forall|c: int|
                    0 <= c < b ==> sorted_between(
                        self.slots@,
                        #[trigger] self.buckets@[c].start as int,
                        self.buckets@[c].start + self.buckets@[c].count,
                    ),
            decreases self.buckets.len() - b,
        {
            let start = self.buckets[b].start as usize;
            let count = self.buckets[b].count as usize;
            if count > self.slots.len() || start > self.slots.len() - count {
                return false;
            }
            let end = start + count;
            let mut i: usize = if count > 0 {
                start + 1
            } else {
                end
            };
            while i < end
                invariant
                    start + 1 <= i || i == end,
                    end <= self.slots@.len(),
                    end == start + count,
                    start == self.buckets@[b as int].start,
                    count == self.buckets@[b as int].count,
                    b < self.buckets@.len(),
                    sorted_between(
                        self.slots@,
                        start as int,
                        if i <= end {
                            i as int
                        } else {
                            end as int
                        },
                    ),
                decreases end - i,
            {
                if self.slots[i - 1].hash >= self.slots[i].hash {
                    return false;
                }
                i += 1;
            }
            b += 1;
        }
        true
    }

    /// A table of the given buckets and slots, or nothing where a bucket leaves
    /// the slots, a bucket is not strictly sorted by hash, or there is no bucket.
    pub fn new(buckets: Vec<Bucket>, slots: Vec<HashSlot>) -> (table: Option<LinkTable>)
        ensures
            table is Some == (LinkTable { buckets, slots }).wf(),
            table matches Some(t) ==> t == (LinkTable { buckets, slots }),
    {
        let table = LinkTable { buckets, slots };
        if table.is_well_formed() {
            Some(table)
        } else {
            None
        }
    }

    /// A copy of the table as it stands, to restore from later.
    pub fn snapshot(&self) -> (copy: LinkTable)
        ensures
            copy.buckets@ == self.buckets@,
            copy.slots@ == self.slots@,
            copy.wf() == self.wf(),
            copy@ == self@,
    {
        let mut buckets: Vec<Bucket> = Vec::new();
        let mut i: usize = 0;
        while i < self.buckets.len()
            invariant
                i <= self.buckets@.len(),
                buckets@ == self.buckets@.take(i as int),
            decreases self.buckets.len() - i,
        {
            buckets.push(self.buckets[i]);
            i += 1;
        }
        assert(buckets@ =~= self.buckets@);
        let mut slots: Vec<HashSlot> = Vec::new();
        let mut j: usize = 0;
        while j < self.slots.len()
            invariant
                j <= self.slots@.len(),
                slots@ == self.slots@.take(j as int),
            decreases self.slots.len() - j,
        {
            slots.push(self.slots[j]);
            j += 1;
        }
        assert(slots@ =~= self.slots@);
        let copy = LinkTable { buckets, slots };
        copy
    }

    /// The table as a map to restore from later: each hash that a lookup finds,
    /// with the index stored for it.
    pub fn backup(&self) -> (map: BTreeMap<u64, u32>)
        requires
            self.wf(),
        ensures
            map@ == self@,
    {
        let mut map: BTreeMap<u64, u32> = BTreeMap::new();
        let mut i: usize = 0;
        assert(map@ =~= self.found_below(0));
        while i < self.slots.len()
            invariant
                i <= self.slots@.len(),
                self.wf(),
                map@ == self.found_below(i as int),
            decreases self.slots.len() - i,
        {
            let slot = self.slots[i];
            let found = self.find(slot.hash);
            if found == Some(i) {
                map.insert(slot.hash, slot.index);
            }
            proof {
                assert forall|h: u64| self.contains(h) && self.position(h) == i implies h
                    == slot.hash && found == Some(i) by {
                    assert(self.holds(h, self.position(h)));
                }
                assert(map@ =~= self.found_below(i + 1));
            }
            i += 1;
        }
        assert forall|h: u64| self.contains(h) implies self.position(h) < self.slots@.len() by {
            assert(self.holds(h, self.position(h)));
        }
        assert(map@ =~= self@);
        map
    }

    /// The hashes that a lookup finds in a slot below `upto`, each with the
    /// index stored for it.
    pub open spec fn found_below(&self, upto: int) -> Map<u64, u32> {
        Map::new(
            |h: u64| self.contains(h) && self.position(h) < upto,
            |h: u64| self.slots@[self.position(h)].index,
        )
    }
}

} // verus!
