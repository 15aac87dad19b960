//! Tagged memory pools: allocations are grouped by tag so that a whole
//! group (per frame, per level, per game) is freed at once.

use vstd::prelude::*;

verus! {

/// What owns an allocation, so that groups can be freed together.
#[derive(Debug, Clone, Copy, PartialEq, Eq, Hash)]
pub enum MemTag {
    /// Freed every frame.
    Temp,
    /// Freed on map change.
    Level,
    /// Freed on game shutdown.
    Game,
    /// Freed only on full shutdown.
    Persistent,
}

/// Slot of a tag in the per-tag tables.
pub open spec fn tag_slot(tag: MemTag) -> int {
    match tag {
        MemTag::Temp => 0,
        MemTag::Level => 1,
        MemTag::Game => 2,
        MemTag::Persistent => 3,
    }
}

fn tag_index(tag: MemTag) -> (r: usize)
    ensures
        r == tag_slot(tag),
{
    match tag {
        MemTag::Temp => 0,
        MemTag::Level => 1,
        MemTag::Game => 2,
        MemTag::Persistent => 3,
    }
}

/// The abstract state of a zone: the buffers of each tag (by slot), the
/// bytes allocated under each tag, the total and the cap (0 for none).
pub struct ZoneView {
    pub pools: Seq<Seq<Seq<u8>>>,
    pub tag_bytes: Seq<nat>,
    pub total: nat,
    pub max_bytes: nat,
}

/// A tagged memory pool.
pub struct Zone {
    pools: Vec<Vec<Vec<u8>>>,
    tag_bytes: Vec<usize>,
    max_bytes: usize,
    total_bytes: usize,
}

/// There is a pool and a byte count for each tag, and the total is the sum
/// of the byte counts.
pub open spec fn zone_consistent(z: ZoneView) -> bool {
    &&& z.pools.len() == 4
    &&& z.tag_bytes.len() == 4
    &&& z.total == z.tag_bytes[0] + z.tag_bytes[1] + z.tag_bytes[2] + z.tag_bytes[3]
}

impl View for Zone {
    type V = ZoneView;

    closed spec fn view(&self) -> ZoneView {
        ZoneView {
            pools: self.pools@.map_values(|p: Vec<Vec<u8>>| p@.map_values(|b: Vec<u8>| b@)),
            tag_bytes: self.tag_bytes@.map_values(|n: usize| n as nat),
            total: self.total_bytes as nat,
            max_bytes: self.max_bytes as nat,
        }
    }
}

impl Zone {
    /// The zone's tables are in place and consistent.
    pub open spec fn wf(&self) -> bool {
        zone_consistent(self@)
    }

    /// Create a zone with no allocations; `max_bytes` caps the total bytes
    /// allocated at once, 0 for no cap.
    pub fn new(max_bytes: usize) -> (r: Self)
        ensures
            r.wf(),
            r@.pools == seq![Seq::<Seq<u8>>::empty(); 4],
            r@.tag_bytes == seq![0nat; 4],
            r@.total == 0,
            r@.max_bytes == max_bytes,
            zone_consistent(r@),
    {
        let mut pools: Vec<Vec<Vec<u8>>> = Vec::new();
        pools.push(Vec::new());
        pools.push(Vec::new());
        pools.push(Vec::new());
        pools.push(Vec::new());
        let mut tag_bytes: Vec<usize> = Vec::new();
        tag_bytes.push(0);
        tag_bytes.push(0);
        tag_bytes.push(0);
        tag_bytes.push(0);
        let z = Zone { pools, tag_bytes, max_bytes, total_bytes: 0 };
        assert forall|i: int| 0 <= i < 4 implies z@.pools[i] =~= Seq::<Seq<u8>>::empty() by {
            assert(z.pools@[i]@.len() == 0);
        }
        assert(z@.pools =~= seq![Seq::<Seq<u8>>::empty(); 4]);
        assert(z@.tag_bytes =~= seq![0nat; 4]);
        z
    }

    /// Total bytes allocated across all tags.
    pub fn total_allocated(&self) -> (r: usize)
        ensures
            r == self@.total,
    {
        self.total_bytes
    }

    /// Bytes allocated under `tag`.
    pub fn tag_allocated(&self, tag: MemTag) -> (r: usize)
        requires
            self.wf(),
        ensures
            r == self@.tag_bytes[tag_slot(tag)],
    {
        self.tag_bytes[tag_index(tag)]
    }
}

impl Zone {
    /// Allocate `size` zeroed bytes under `tag` and hand them out for writing.
    /// The allocation must stay within the cap; going past it is fatal.
    pub fn alloc_bytes(&mut self, tag: MemTag, size: usize) -> (r: &mut [u8])
        requires
            old(self).wf(),
            old(self)@.max_bytes == 0 || old(self)@.total + size <= old(self)@.max_bytes,
            old(self)@.total + size <= usize::MAX,
        ensures
            r@ == Seq::new(size as nat, |i: int| 0u8),
            final(self).wf(),
            final(self)@.pools =~~= old(self)@.pools.update(
                tag_slot(tag),
                old(self)@.pools[tag_slot(tag)].push(final(r)@),
            ),
            final(self)@.tag_bytes == old(self)@.tag_bytes.update(
                tag_slot(tag),
                (old(self)@.tag_bytes[tag_slot(tag)] + size) as nat,
            ),
            final(self)@.total == old(self)@.total + size,
            zone_consistent(final(self)@),
            final(self)@.max_bytes == old(self)@.max_bytes,
    {
        let idx = tag_index(tag);
        self.total_bytes = self.total_bytes + size;
        let nb = self.tag_bytes[idx] + size;
        self.tag_bytes.set(idx, nb);
        let buf: Vec<u8> = vec![0u8; size];
        let pool: &mut Vec<Vec<u8>> = &mut self.pools[idx];
        pool.push(buf);
        let n = pool.len();
        let last: &mut Vec<u8> = &mut pool[n - 1];
        last.as_mut_slice()
    }
}

impl Zone {
    /// Free every allocation under `tag` at once; other tags keep theirs.
    pub fn free_tag(&mut self, tag: MemTag)
        requires
            old(self).wf(),
        ensures
            final(self).wf(),
            final(self)@.pools =~~= old(self)@.pools.update(tag_slot(tag), Seq::empty()),
            final(self)@.tag_bytes == old(self)@.tag_bytes.update(tag_slot(tag), 0nat),
            final(self)@.total == old(self)@.total - old(self)@.tag_bytes[tag_slot(tag)],
            zone_consistent(final(self)@),
            final(self)@.max_bytes == old(self)@.max_bytes,
    {
        let idx = tag_index(tag);
        let freed = self.tag_bytes[idx];
        self.total_bytes = self.total_bytes - freed;
        self.tag_bytes.set(idx, 0);
        self.pools.set(idx, Vec::new());
    }
}

/// The total allocated is the sum of what each tag holds.
pub proof fn law_total_is_sum_of_tags(z: &Zone)
    requires
        z.wf(),
    ensures
        z@.total == z@.tag_bytes[0] + z@.tag_bytes[1] + z@.tag_bytes[2] + z@.tag_bytes[3],
{
}

} // verus!
