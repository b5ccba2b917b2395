//! The boot-time memory map: a fixed-capacity buffer of classified regions
//! plus an occupancy counter. The occupied prefix is kept sorted and free of
//! placeholders; everything past it is a placeholder slot. The whole
//! structure is plain data, so it can be handed to the kernel by value.

use vstd::prelude::*;
use crate::error::MapError;
use crate::region::{MemoryRegion, has_empty_region, region_le, region_le_exec, regions_sorted};

verus! {

broadcast use
    vstd::array::group_array_axioms,
    vstd::seq_lib::group_to_multiset_ensures,
    vstd::multiset::group_multiset_axioms,
;

/// Fixed capacity of the memory map. Real platforms do not report more
/// regions than this; running out of slots is a fatal boot failure, not a
/// soft limit.
pub const MAX_MEMORY_MAP_SIZE: usize = 64;

/// A fixed-capacity ordered collection of memory regions. Slots
/// `[0, next_entry_index)` hold the regions discovered so far, sorted
/// ascending by `(start_frame_number, end_frame_number)` and all non-empty;
/// the remaining slots are placeholders with empty ranges.
pub struct MemoryMap {
    entries: [MemoryRegion; MAX_MEMORY_MAP_SIZE],
    // u64 rather than usize so that the counter's width does not depend on
    // the platform the stage was compiled for
    next_entry_index: u64,
}

impl View for MemoryMap {
    type V = Seq<MemoryRegion>;

    /// The occupied prefix, the only part a consumer sees.
    closed spec fn view(&self) -> Seq<MemoryRegion> {
        self.entries@.take(self.next_entry_index as int)
    }
}

impl MemoryMap {
    /// The map's invariant: the counter is within capacity, the occupied
    /// prefix is sorted and holds no empty region, and every slot past it
    /// holds a region with an empty range.
    pub closed spec fn wf(self) -> bool {
        &&& self.next_entry_index <= MAX_MEMORY_MAP_SIZE
        &&& regions_sorted(self@)
        &&& forall|i: int|
            0 <= i < self.next_entry_index ==> !(#[trigger] self.entries@[i]).range.spec_is_empty()
        &&& forall|i: int|
            self.next_entry_index <= i < MAX_MEMORY_MAP_SIZE ==> (
            #[trigger] self.entries@[i]).range.spec_is_empty()
    }

    /// Law: what a consumer may rely on for any well-formed map — the
    /// visible sequence fits within capacity, is sorted ascending by
    /// `(start_frame_number, end_frame_number)`, and holds no region with an
    /// empty range.
    pub proof fn lemma_wf_view(self)
        requires
            self.wf(),
        ensures
            self@.len() <= MAX_MEMORY_MAP_SIZE,
            regions_sorted(self@),
            forall|i: int| 0 <= i < self@.len() ==> !(#[trigger] self@[i]).range.spec_is_empty(),
    {
        assert forall|i: int| 0 <= i < self@.len() implies !(
        #[trigger] self@[i]).range.spec_is_empty() by {
            assert(self@[i] == self.entries@[i]);
        }
    }

    /// A map with no regions: every slot a placeholder, the counter zero.
    pub fn new() -> (r: MemoryMap)
        ensures
            r.wf(),
            r@ == Seq::<MemoryRegion>::empty(),
            r.spec_next_entry_index() == 0,
            forall|k: int|
                0 <= k < MAX_MEMORY_MAP_SIZE ==> #[trigger] r.buffer()[k]
                    == MemoryRegion::spec_empty(),
    {
        let r = MemoryMap {
            entries: [MemoryRegion::empty(); MAX_MEMORY_MAP_SIZE],
            next_entry_index: 0,
        };
        proof {
            assert(r@ =~= Seq::<MemoryRegion>::empty());
        }
        r
    }

    /// How many regions the map holds; the occupied prefix is
    /// `[0, next_entry_index)`.
    pub fn next_entry_index(&self) -> (r: usize)
        requires
            self.wf(),
        ensures
            r == self@.len(),
    {
        self.next_entry_index as usize
    }

    /// The region at `index` within the occupied prefix.
    pub fn get(&self, index: usize) -> (r: MemoryRegion)
        requires
            self.wf(),
            index < self@.len(),
        ensures
            r == self@[index as int],
    {
        self.entries[index]
    }

    /// The whole underlying buffer, occupied slots and placeholders alike;
    /// `sort` is specified over it.
    pub closed spec fn buffer(self) -> Seq<MemoryRegion> {
        self.entries@
    }

    /// The occupancy counter as a mathematical integer.
    pub closed spec fn spec_next_entry_index(self) -> int {
        self.next_entry_index as int
    }

    /// The visible sequence is the occupied prefix of the buffer.
    pub proof fn lemma_view_is_buffer_prefix(self)
        requires
            self.wf(),
        ensures
            self@ == self.buffer().take(self.spec_next_entry_index()),
            self@.len() == self.spec_next_entry_index(),
    {
    }

    /// Record a discovered region in the first free slot and restore the
    /// order of the occupied prefix by moving the new entry to its sorted
    /// position. The map must still have a free slot: discovery beyond the
    /// fixed capacity is a fatal boot failure with no partial-success path
    /// (`try_add_region` reports it as an error). A region with an empty
    /// range is a placeholder, never a real discovered range, and adding one
    /// leaves the map unchanged, exactly as sorting it to the placeholder
    /// area and rescanning the occupancy would.
    pub fn add_region(&mut self, region: MemoryRegion)
        requires
            old(self).wf(),
            old(self)@.len() < MAX_MEMORY_MAP_SIZE,
        ensures
            final(self).wf(),
            regions_sorted(final(self)@),
            forall|i: int|
                0 <= i < final(self)@.len() ==> !(#[trigger] final(self)@[i]).range.spec_is_empty(),
            !region.range.spec_is_empty() ==> {
                &&& final(self)@.len() == old(self)@.len() + 1
                &&& final(self)@.to_multiset() == old(self)@.to_multiset().insert(region)
            },
            region.range.spec_is_empty() ==> *final(self) == *old(self),
    {
        if region.range.is_empty() {
            return ;
        }
        let n = self.next_entry_index as usize;
        let ghost prior = self.entries@;
        self.entries[n] = region;
        self.next_entry_index = self.next_entry_index + 1;
        proof {
            assert(self.entries@.take(n as int) =~= prior.take(n as int));
        }
        self.sift_left(n);
        proof {
            let t = self.entries@.take(n as int + 1);
            assert(self@ =~= t);
            assert(prior.take(n as int).push(region) =~= prior.update(n as int, region).take(
                n as int + 1,
            ));
            assert(old(self)@ == prior.take(n as int));
            assert(t.to_multiset() == old(self)@.to_multiset().insert(region));
            assert forall|idx: int| 0 <= idx < self.next_entry_index implies !(
            #[trigger] self.entries@[idx]).range.spec_is_empty() by {
                assert(t[idx] == self.entries@[idx]);
                assert(t.contains(t[idx]));
                assert(t.to_multiset().count(t[idx]) > 0);
                let u = old(self)@.push(region);
                assert(u.to_multiset().count(t[idx]) > 0);
                assert(u.contains(t[idx]));
                let w = choose|w: int| 0 <= w < u.len() && u[w] == t[idx];
                if w < n as int {
                    assert(u[w] == prior.take(n as int)[w]);
                    assert(u[w] == old(self).entries@[w]);
                }
            }
            assert forall|k: int|
                self.next_entry_index <= k < MAX_MEMORY_MAP_SIZE implies (
            #[trigger] self.entries@[k]).range.spec_is_empty() by {
                assert(self.entries@[k] == prior.update(n as int, region)[k]);
                assert(self.entries@[k] == old(self).entries@[k]);
            }
            assert(regions_sorted(self@)) by {
                assert forall|k1: int, k2: int| 0 <= k1 < k2 < self@.len() implies region_le(
                    #[trigger] self@[k1],
                    #[trigger] self@[k2],
                ) by {
                    assert(self@[k1] == t[k1]);
                    assert(self@[k2] == t[k2]);
                }
            }
        }
    }

    /// Record a discovered region if a free slot is left, as `add_region`
    /// does, and report `CapacityExceeded` — leaving the map untouched,
    /// never overwriting or silently dropping an entry — if the fixed
    /// capacity is already reached.
    pub fn try_add_region(&mut self, region: MemoryRegion) -> (r: Result<(), MapError>)
        requires
            old(self).wf(),
        ensures
            final(self).wf(),
            old(self)@.len() < MAX_MEMORY_MAP_SIZE ==> {
                &&& r == Ok::<(), MapError>(())
                &&& !region.range.spec_is_empty() ==> {
                    &&& final(self)@.len() == old(self)@.len() + 1
                    &&& final(self)@.to_multiset() == old(self)@.to_multiset().insert(region)
                }
                &&& region.range.spec_is_empty() ==> *final(self) == *old(self)
            },
            old(self)@.len() == MAX_MEMORY_MAP_SIZE ==> {
                &&& r == Err::<(), MapError>(MapError::CapacityExceeded)
                &&& *final(self) == *old(self)
            },
    {
        if self.next_entry_index() < MAX_MEMORY_MAP_SIZE {
            self.add_region(region);
            Ok(())
        } else {
            Err(MapError::CapacityExceeded)
        }
    }

    /// Re-establish the slot order over the whole buffer, occupied slots and
    /// placeholders together: regions with empty ranges sort after all
    /// others, non-empty regions ascend by `(start_frame_number,
    /// end_frame_number)`, and placeholders keep no particular order among
    /// themselves. Afterwards the occupancy counter is recomputed as the
    /// index of the first empty-ranged slot found by a scan from the start,
    /// since sorting may move an occupant into a different physical slot; a
    /// buffer with no empty slot leaves the counter as it was.
    pub fn sort(&mut self)
        ensures
            final(self).buffer().to_multiset() == old(self).buffer().to_multiset(),
            regions_sorted(final(self).buffer()),
            has_empty_region(old(self).buffer()) ==> {
                &&& 0 <= final(self).spec_next_entry_index() < MAX_MEMORY_MAP_SIZE
                &&& final(self).buffer()[final(self).spec_next_entry_index()].range.spec_is_empty()
                &&& forall|k: int|
                    0 <= k < final(self).spec_next_entry_index() ==> !(
                    #[trigger] final(self).buffer()[k]).range.spec_is_empty()
            },
            !has_empty_region(old(self).buffer()) ==> final(self).spec_next_entry_index() == old(
                self,
            ).spec_next_entry_index(),
            old(self).wf() ==> final(self).wf(),
    {
        let mut i: usize = 1;
        while i < MAX_MEMORY_MAP_SIZE
            invariant
                1 <= i <= MAX_MEMORY_MAP_SIZE,
                self.next_entry_index == old(self).next_entry_index,
                self.entries@.to_multiset() == old(self).entries@.to_multiset(),
                regions_sorted(self.entries@.take(i as int)),
            decreases MAX_MEMORY_MAP_SIZE - i,
        {
            self.sift_left(i);
            i = i + 1;
        }
        proof {
            assert(self.entries@.take(MAX_MEMORY_MAP_SIZE as int) =~= self.entries@);
            lemma_multiset_preserves_has_empty(self.entries@, old(self).entries@);
        }
        let mut k: usize = 0;
        while k < MAX_MEMORY_MAP_SIZE && !self.entries[k].range.is_empty()
            invariant
                k <= MAX_MEMORY_MAP_SIZE,
                self.next_entry_index == old(self).next_entry_index,
                self.entries@.to_multiset() == old(self).entries@.to_multiset(),
                regions_sorted(self.entries@),
                forall|m: int| 0 <= m < k ==> !(#[trigger] self.entries@[m]).range.spec_is_empty(),
            decreases MAX_MEMORY_MAP_SIZE - k,
        {
            k = k + 1;
        }
        let ghost sorted_entries = self.entries@;
        if k < MAX_MEMORY_MAP_SIZE {
            self.next_entry_index = k as u64;
        }
        proof {
            if k < MAX_MEMORY_MAP_SIZE {
                // everything at or past the first empty slot is empty, since
                // an empty region sorts below nothing
                assert forall|m: int| k as int <= m < MAX_MEMORY_MAP_SIZE implies (
                #[trigger] sorted_entries[m]).range.spec_is_empty() by {
                    if m > k as int {
                        assert(region_le(sorted_entries[k as int], sorted_entries[m]));
                    }
                }
            } else {
                assert(!has_empty_region(self.entries@));
                if old(self).next_entry_index < MAX_MEMORY_MAP_SIZE && old(self).wf() {
                    assert((old(self).entries@[old(
                        self,
                    ).next_entry_index as int]).range.spec_is_empty());
                    assert(has_empty_region(old(self).entries@));
                }
            }
            if old(self).wf() {
                assert(self.next_entry_index <= MAX_MEMORY_MAP_SIZE);
                assert(regions_sorted(self@)) by {
                    assert forall|k1: int, k2: int| 0 <= k1 < k2 < self@.len() implies region_le(
                        #[trigger] self@[k1],
                        #[trigger] self@[k2],
                    ) by {
                        assert(self@[k1] == self.entries@[k1]);
                        assert(self@[k2] == self.entries@[k2]);
                    }
                }
                assert forall|m: int| 0 <= m < self.next_entry_index implies !(
                #[trigger] self.entries@[m]).range.spec_is_empty() by {}
            }
        }
    }

    /// Move the region in slot `i` left to its sorted position among the
    /// slots before it, shifting each region it passes one slot right. One
    /// step of an insertion sort.
    fn sift_left(&mut self, i: usize)
        requires
            i < MAX_MEMORY_MAP_SIZE,
            regions_sorted(old(self).entries@.take(i as int)),
        ensures
            final(self).next_entry_index == old(self).next_entry_index,
            final(self).entries@.to_multiset() == old(self).entries@.to_multiset(),
            final(self).entries@.take(i as int + 1).to_multiset() == old(self).entries@.take(
                i as int + 1,
            ).to_multiset(),
            regions_sorted(final(self).entries@.take(i as int + 1)),
            forall|k: int|
                i < k < MAX_MEMORY_MAP_SIZE ==> final(self).entries@[k] == old(self).entries@[k],
    {
        let ghost orig = old(self).entries@;
        proof {
            assert forall|k1: int, k2: int| 0 <= k1 < k2 < i as int implies region_le(
                #[trigger] orig[k1],
                #[trigger] orig[k2],
            ) by {
                assert(orig.take(i as int)[k1] == orig[k1]);
                assert(orig.take(i as int)[k2] == orig[k2]);
            }
        }
        let mut j: usize = i;
        while j > 0 && !region_le_exec(&self.entries[j - 1], &self.entries[j])
            invariant
                j <= i < MAX_MEMORY_MAP_SIZE,
                self.next_entry_index == old(self).next_entry_index,
                self.entries@.to_multiset() == orig.to_multiset(),
                self.entries@.take(i as int + 1).to_multiset() == orig.take(
                    i as int + 1,
                ).to_multiset(),
                forall|k: int| i < k < MAX_MEMORY_MAP_SIZE ==> self.entries@[k] == orig[k],
                forall|k1: int, k2: int|
                    0 <= k1 < k2 <= i as int && k1 != j as int && k2 != j as int ==> region_le(
                        #[trigger] self.entries@[k1],
                        #[trigger] self.entries@[k2],
                    ),
                forall|k: int|
                    j < k <= i as int ==> region_le(
                        self.entries@[j as int],
                        #[trigger] self.entries@[k],
                    ),
            decreases j,
        {
            let ghost before = self.entries@;
            let jj = j - 1;
            let lower = self.entries[jj];
            let upper = self.entries[j];
            proof {
                lemma_swap_preserves_multiset(before, jj as int, j as int);
                lemma_swap_preserves_multiset(before.take(i as int + 1), jj as int, j as int);
            }
            self.entries[jj] = upper;
            self.entries[j] = lower;
            proof {
                assert(self.entries@ =~= before.update(jj as int, before[j as int]).update(
                    j as int,
                    before[jj as int],
                ));
                assert(self.entries@.take(i as int + 1) =~= before.take(i as int + 1).update(
                    jj as int,
                    before.take(i as int + 1)[j as int],
                ).update(j as int, before.take(i as int + 1)[jj as int]));
            }
            j = jj;
        }
        proof {
            let e = self.entries@;
            assert forall|k1: int, k2: int| 0 <= k1 < k2 <= i as int implies region_le(
                #[trigger] e[k1],
                #[trigger] e[k2],
            ) by {
                if k2 == j as int {
                    // the loop stopped, so slot j is at least its left
                    // neighbour; anything before that neighbour is below it
                    // by sortedness of the rest
                    if k1 < j as int - 1 {
                        crate::region::lemma_region_le_transitive(
                            e[k1],
                            e[j as int - 1],
                            e[j as int],
                        );
                    }
                }
            }
        }
    }
}

/// Two sequences with the same multiset of regions either both hold a
/// region with an empty range or neither does.
proof fn lemma_multiset_preserves_has_empty(a: Seq<MemoryRegion>, b: Seq<MemoryRegion>)
    requires
        a.to_multiset() == b.to_multiset(),
    ensures
        has_empty_region(a) == has_empty_region(b),
{
    assert forall|s: Seq<MemoryRegion>, t: Seq<MemoryRegion>|
        s.to_multiset() == t.to_multiset() && has_empty_region(s) implies has_empty_region(t) by {
        let k = choose|k: int| 0 <= k < s.len() && (#[trigger] s[k]).range.spec_is_empty();
        assert(s.contains(s[k]));
        assert(s.to_multiset().count(s[k]) > 0);
        assert(t.contains(s[k]));
    }
}

/// Swapping the regions in two positions of a sequence leaves the multiset
/// of its elements unchanged.
proof fn lemma_swap_preserves_multiset(s: Seq<MemoryRegion>, i: int, j: int)
    requires
        0 <= i < s.len(),
        0 <= j < s.len(),
    ensures
        s.update(i, s[j]).update(j, s[i]).to_multiset() == s.to_multiset(),
{
    if i == j {
        assert(s.update(i, s[j]).update(j, s[i]) =~= s);
    } else {
        let s1 = s.update(i, s[j]);
        let s2 = s1.update(j, s[i]);
        assert(s.contains(s[i]));
        assert(s.contains(s[j]));
        assert(s1.to_multiset() == s.to_multiset().insert(s[j]).remove(s[i]));
        assert(s1[j] == s[j]);
        assert(s2.to_multiset() == s1.to_multiset().insert(s[i]).remove(s[j]));
        assert(s2.to_multiset() =~= s.to_multiset());
    }
}

} // verus!
