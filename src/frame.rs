use vstd::prelude::*;

verus! {

/// Size of a physical frame, in bytes.
pub const FRAME_SIZE: u64 = 4096;

/// What the boot memory map says of a region.
#[derive(Clone, Copy, Debug, PartialEq, Eq, Structural)]
pub enum RegionKind {
    Usable,
    Bootloader,
    Reserved,
}

/// A contiguous physical range `[start, end)` of the boot memory map.
#[derive(Clone, Copy, Debug, PartialEq, Eq, Structural)]
pub struct MemoryRegion {
    pub start: u64,
    pub end: u64,
    pub kind: RegionKind,
}

#[derive(Clone, Copy, Debug, PartialEq, Eq, Structural)]
pub enum FrameError {
    OutOfMemory,
}

pub open spec fn frame_aligned(f: int) -> bool {
    f % FRAME_SIZE as int == 0
}

/// The frame starting at `f` lies wholly inside the usable region `r`.
pub open spec fn frame_in_region(r: MemoryRegion, f: int) -> bool {
    r.kind == RegionKind::Usable && r.start <= f && f + FRAME_SIZE <= r.end
}

/// Region `r` shares memory with a region of the map that is not usable
/// (reserved, or owned by the boot loader).
pub open spec fn overlaps_reserved(regions: Seq<MemoryRegion>, r: MemoryRegion) -> bool {
    exists|i: int| 0 <= i < regions.len() && (#[trigger] regions[i]).kind != RegionKind::Usable
        && regions[i].start < r.end && r.start < regions[i].end
}

/// Region `j` shares memory with an earlier usable region of the map.
pub open spec fn overlaps_earlier(regions: Seq<MemoryRegion>, j: int) -> bool {
    exists|i: int| 0 <= i < j && (#[trigger] regions[i]).kind == RegionKind::Usable
        && regions[i].start < regions[j].end && regions[j].start < regions[i].end
}

/// Region `j` of the map is one the allocator draws from: tagged usable,
/// clear of every region that is not, and not a repeat of memory that an
/// earlier usable region already describes.
pub open spec fn region_eligible(regions: Seq<MemoryRegion>, j: int) -> bool {
    regions[j].kind == RegionKind::Usable && !overlaps_reserved(regions, regions[j])
        && !overlaps_earlier(regions, j)
}

/// `f` starts an aligned frame inside an eligible region of the map.
pub open spec fn frame_usable(regions: Seq<MemoryRegion>, f: int) -> bool {
    frame_aligned(f) && exists|j: int| 0 <= j < regions.len() && region_eligible(regions, j)
        && #[trigger] frame_in_region(regions[j], f)
}

fn overlaps_earlier_exec(regions: &Vec<MemoryRegion>, j: usize) -> (res: bool)
    requires
        j < regions@.len(),
    ensures
        res == overlaps_earlier(regions@, j as int),
{
    let r = regions[j];
    let mut i: usize = 0;
    while i < j
        invariant
            i <= j < regions@.len(),
            r == regions@[j as int],
            forall|k: int| 0 <= k < i ==> !((#[trigger] regions@[k]).kind == RegionKind::Usable
                && regions@[k].start < r.end && r.start < regions@[k].end),
        decreases j - i,
    {
        let q = regions[i];
        if q.kind == RegionKind::Usable && q.start < r.end && r.start < q.end {
            return true;
        }
        i += 1;
    }
    false
}

fn overlaps_reserved_exec(regions: &Vec<MemoryRegion>, r: MemoryRegion) -> (res: bool)
    ensures
        res == overlaps_reserved(regions@, r),
{
    let mut i: usize = 0;
    while i < regions.len()
        invariant
            i <= regions@.len(),
            forall|k: int| 0 <= k < i ==> !((#[trigger] regions@[k]).kind != RegionKind::Usable
                && regions@[k].start < r.end && r.start < regions@[k].end),
        decreases regions@.len() - i,
    {
        let q = regions[i];
        if q.kind != RegionKind::Usable && q.start < r.end && r.start < q.end {
            return true;
        }
        i += 1;
    }
    false
}

/// Region `r` holds an aligned frame at or above `floor`.
pub open spec fn fresh_in(r: MemoryRegion, floor: int) -> bool {
    exists|f: int| f >= floor && frame_aligned(f) && #[trigger] frame_in_region(r, f)
}

/// Hands out physical frames of the eligible regions of the boot memory map.
///
/// Each region has a cursor that only moves up: every frame of the region
/// below its cursor has been handed out. Frames given back are kept on a
/// stack and handed out first.
pub struct FrameAllocator {
    regions: Vec<MemoryRegion>,
    cursors: Vec<u64>,
    recycled: Vec<u64>,
    allocated: Ghost<Set<int>>,
}

/// Two distinct frame-aligned addresses lie at least a frame apart.
pub proof fn lemma_aligned_gap(f: int, b: int)
    requires
        frame_aligned(f),
        frame_aligned(b),
        f > b,
    ensures
        f >= b + FRAME_SIZE,
{
    let qf = f / 4096;
    let qb = b / 4096;
    assert(f == 4096 * qf);
    assert(b == 4096 * qb);
    assert(qf > qb) by (nonlinear_arith)
        requires
            f == 4096 * qf,
            b == 4096 * qb,
            f > b,
    ;
    assert(4096 * qf >= 4096 * qb + 4096) by (nonlinear_arith)
        requires
            qf >= qb + 1,
    ;
}

/// The lowest aligned frame of `r` at or above `floor`, if any.
fn first_frame_from(r: MemoryRegion, floor: u64) -> (res: Option<u64>)
    ensures
        res is None ==> !fresh_in(r, floor as int),
        res matches Some(c) ==> c >= floor && frame_aligned(c as int) && frame_in_region(r, c as int)
            && forall|f: int| f >= floor && frame_aligned(f) && #[trigger] frame_in_region(r, f) ==> f >= c,
{
    if r.kind != RegionKind::Usable {
        return None;
    }
    let x: u64 = if r.start > floor { r.start } else { floor };
    let rem: u64 = x % FRAME_SIZE;
    let c: u64;
    if rem == 0 {
        c = x;
    } else if x > u64::MAX - FRAME_SIZE {
        assert forall|f: int| f >= floor && frame_aligned(f) implies !#[trigger] frame_in_region(r, f) by {
            if frame_in_region(r, f) {
                assert(f >= x);
                assert(f > x);
            }
        }
        return None;
    } else {
        c = x - rem + FRAME_SIZE;
    }
    assert(frame_aligned(c as int));
    assert forall|f: int| f >= floor && frame_aligned(f) && #[trigger] frame_in_region(r, f) implies f >= c by {
        if rem != 0 {
            assert(frame_aligned(x - rem));
            lemma_aligned_gap(f, x - rem);
        }
    }
    if c <= r.end && r.end - c >= FRAME_SIZE {
        Some(c)
    } else {
        None
    }
}

impl FrameAllocator {
    /// The boot memory map the allocator draws from.
    pub closed spec fn regions(&self) -> Seq<MemoryRegion> {
        self.regions@
    }

    /// The frames handed out and not given back.
    pub closed spec fn allocated(&self) -> Set<int> {
        self.allocated@
    }

    /// The frame that the next `allocate` hands out again, if one was given back.
    pub closed spec fn reuse_candidate(&self) -> Option<int> {
        if self.recycled@.len() > 0 {
            Some(self.recycled@.last() as int)
        } else {
            None
        }
    }

    /// Some usable frame is not handed out.
    pub open spec fn can_allocate(&self) -> bool {
        exists|f: int| #[trigger] frame_usable(self.regions(), f) && !self.allocated().contains(f)
    }

    /// Every frame of an eligible region below the region's cursor.
    closed spec fn below_cursor(&self, f: int) -> bool {
        exists|j: int| 0 <= j < self.regions@.len() && region_eligible(self.regions@, j)
            && #[trigger] frame_in_region(self.regions@[j], f) && f < self.cursors@[j]
    }

    closed spec fn recycled_has(&self, f: int) -> bool {
        exists|i: int| 0 <= i < self.recycled@.len() && #[trigger] self.recycled@[i] as int == f
    }

    pub closed spec fn wf(&self) -> bool {
        &&& self.cursors@.len() == self.regions@.len()
        &&& forall|f: int| #[trigger] self.allocated@.contains(f) ==> frame_usable(self.regions@, f)
            && self.below_cursor(f)
        &&& forall|i: int| 0 <= i < self.recycled@.len() ==> {
            let f = #[trigger] self.recycled@[i] as int;
            frame_usable(self.regions@, f) && self.below_cursor(f) && !self.allocated@.contains(f)
        }
        &&& forall|i: int, k: int| 0 <= i < k < self.recycled@.len() ==> #[trigger] self.recycled@[i] != #[trigger] self.recycled@[k]
        &&& forall|f: int| frame_aligned(f) && #[trigger] self.below_cursor(f)
            ==> self.allocated@.contains(f) || self.recycled_has(f)
    }

    /// Starts an allocator over the usable regions of `regions` that overlap
    /// no reserved or boot-loader region and no earlier usable region.
    pub fn new(regions: Vec<MemoryRegion>) -> (r: FrameAllocator)
        ensures
            r.wf(),
            r.regions() == regions@,
            r.allocated() == Set::<int>::empty(),
            r.reuse_candidate() is None,
    {
        let mut cursors: Vec<u64> = Vec::new();
        let mut i: usize = 0;
        while i < regions.len()
            invariant
                i <= regions@.len(),
                cursors@.len() == i,
                forall|k: int| 0 <= k < i ==> #[trigger] cursors@[k] == 0,
            decreases regions@.len() - i,
        {
            cursors.push(0);
            i += 1;
        }
        let r = FrameAllocator { regions, cursors, recycled: Vec::new(), allocated: Ghost(Set::empty()) };
        assert forall|f: int| frame_aligned(f) && #[trigger] r.below_cursor(f) implies false by {
            let j = choose|j: int| 0 <= j < r.regions@.len() && region_eligible(r.regions@, j)
                && #[trigger] frame_in_region(r.regions@[j], f) && f < r.cursors@[j];
        }
        r
    }

    /// Removes one free frame and returns it. A frame given back is handed
    /// out first; fails with `OutOfMemory` exactly when every usable frame
    /// is handed out.
    pub fn allocate(&mut self) -> (r: Result<u64, FrameError>)
        requires
            old(self).wf(),
        ensures
            final(self).wf(),
            final(self).regions() == old(self).regions(),
            r is Err <==> !old(self).can_allocate(),
            r is Err ==> r == Err::<u64, FrameError>(FrameError::OutOfMemory)
                && final(self).allocated() == old(self).allocated()
                && forall|f: int| #[trigger] frame_usable(old(self).regions(), f) ==> old(self).allocated().contains(f),
            r matches Ok(f) ==> {
                &&& !old(self).allocated().contains(f as int)
                &&& final(self).allocated() == old(self).allocated().insert(f as int)
                &&& frame_usable(old(self).regions(), f as int)
            },
            old(self).reuse_candidate() matches Some(g) ==> r matches Ok(f) && f == g,
    {
        if self.recycled.len() > 0 {
            let f = self.recycled.pop().unwrap();
            proof {
                assert(f == old(self).recycled@.last());
                assert forall|i: int| 0 <= i < self.recycled@.len() implies #[trigger] self.recycled@[i] == old(self).recycled@[i] by {}
                self.allocated@ = self.allocated@.insert(f as int);
                assert forall|i: int| 0 <= i < self.recycled@.len() implies self.recycled@[i] != f by {
                    assert(old(self).recycled@[i] != old(self).recycled@[old(self).recycled@.len() - 1]);
                }
                assert forall|g: int| frame_aligned(g) && #[trigger] self.below_cursor(g)
                    implies self.allocated@.contains(g) || self.recycled_has(g) by {
                    assert(old(self).below_cursor(g));
                    if g != f && old(self).recycled_has(g) {
                        let i = choose|i: int| 0 <= i < old(self).recycled@.len() && #[trigger] old(self).recycled@[i] as int == g;
                        assert(i != old(self).recycled@.len() - 1);
                        assert(self.recycled@[i] as int == g);
                    }
                }
                assert(frame_usable(self.regions@, f as int));
            }
            return Ok(f);
        }
        let mut j: usize = 0;
        while j < self.regions.len()
            invariant
                self.wf(),
                self.regions@ == old(self).regions@,
                self.cursors@ == old(self).cursors@,
                self.recycled@.len() == 0,
                old(self).recycled@.len() == 0,
                self.allocated@ == old(self).allocated@,
                j <= self.regions@.len(),
                forall|k: int| 0 <= k < j && region_eligible(self.regions@, k)
                    ==> !fresh_in(#[trigger] self.regions@[k], self.cursors@[k] as int),
            decreases self.regions@.len() - j,
        {
            let reg = self.regions[j];
            let found = if reg.kind != RegionKind::Usable || overlaps_reserved_exec(&self.regions, reg)
                || overlaps_earlier_exec(&self.regions, j) {
                None
            } else {
                first_frame_from(reg, self.cursors[j])
            };
            match found {
                Some(c) => {
                    let ghost prev = *self;
                    proof {
                        let jj = j as int;
                        assert(region_eligible(self.regions@, jj));
                        assert(frame_usable(self.regions@, c as int));
                        if self.allocated@.contains(c as int) {
                            let k = choose|k: int| 0 <= k < self.regions@.len() && region_eligible(self.regions@, k)
                                && #[trigger] frame_in_region(self.regions@[k], c as int) && c < self.cursors@[k];
                            self.lemma_owner_unique(c as int, k, jj);
                        }
                        self.allocated@ = self.allocated@.insert(c as int);
                    }
                    self.cursors.set(j, c + FRAME_SIZE);
                    proof {
                        self.lemma_after_advance(prev, j as int, c as int);
                    }
                    return Ok(c);
                },
                None => {
                    proof {
                        if region_eligible(self.regions@, j as int) {
                            assert(!fresh_in(self.regions@[j as int], self.cursors@[j as int] as int));
                        }
                    }
                    j += 1;
                },
            }
        }
        proof {
            assert forall|f: int| #[trigger] frame_usable(self.regions@, f) implies self.allocated@.contains(f) by {
                let k = choose|k: int| 0 <= k < self.regions@.len() && region_eligible(self.regions@, k)
                    && #[trigger] frame_in_region(self.regions@[k], f);
                if f >= self.cursors@[k] {
                    assert(fresh_in(self.regions@[k], self.cursors@[k] as int));
                }
                assert(self.below_cursor(f));
                if self.recycled_has(f) {
                    let i = choose|i: int| 0 <= i < self.recycled@.len() && #[trigger] self.recycled@[i] as int == f;
                }
            }
        }
        Err(FrameError::OutOfMemory)
    }

    /// Two eligible regions never share a frame.
    proof fn lemma_owner_unique(&self, f: int, a: int, b: int)
        requires
            0 <= a < self.regions@.len(),
            0 <= b < self.regions@.len(),
            region_eligible(self.regions@, a),
            region_eligible(self.regions@, b),
            frame_in_region(self.regions@[a], f),
            frame_in_region(self.regions@[b], f),
        ensures
            a == b,
    {
        if a < b {
            assert(self.regions@[a].kind == RegionKind::Usable);
            assert(overlaps_earlier(self.regions@, b));
        } else if b < a {
            assert(self.regions@[b].kind == RegionKind::Usable);
            assert(overlaps_earlier(self.regions@, a));
        }
    }

    /// Moving the cursor of region `j` past the frame `c` just handed out
    /// keeps the allocator well formed.
    proof fn lemma_after_advance(&self, prev: FrameAllocator, j: int, c: int)
        requires
            prev.cursors@.len() == prev.regions@.len(),
            0 <= j < prev.regions@.len(),
            region_eligible(prev.regions@, j),
            frame_in_region(prev.regions@[j], c),
            frame_aligned(c),
            c >= prev.cursors@[j],
            forall|f: int| f >= prev.cursors@[j] && frame_aligned(f) && #[trigger] frame_in_region(prev.regions@[j], f) ==> f >= c,
            self.regions@ == prev.regions@,
            self.cursors@ == prev.cursors@.update(j, (c + FRAME_SIZE) as u64),
            self.recycled@ == prev.recycled@,
            self.recycled@.len() == 0,
            self.allocated@ == prev.allocated@.insert(c),
            !prev.allocated@.contains(c),
            frame_usable(prev.regions@, c),
            forall|f: int| #[trigger] prev.allocated@.contains(f) ==> frame_usable(prev.regions@, f) && prev.below_cursor(f),
            forall|f: int| frame_aligned(f) && #[trigger] prev.below_cursor(f)
                ==> prev.allocated@.contains(f) || prev.recycled_has(f),
        ensures
            self.wf(),
    {
        assert forall|f: int| prev.below_cursor(f) implies #[trigger] self.below_cursor(f) by {
            let k = choose|k: int| 0 <= k < prev.regions@.len() && region_eligible(prev.regions@, k)
                && #[trigger] frame_in_region(prev.regions@[k], f) && f < prev.cursors@[k];
            assert(frame_in_region(self.regions@[k], f) && f < self.cursors@[k]);
        }
        assert(self.below_cursor(c)) by {
            assert(frame_in_region(self.regions@[j], c) && c < self.cursors@[j]);
        }
        assert forall|f: int| frame_aligned(f) && #[trigger] self.below_cursor(f)
            implies self.allocated@.contains(f) || self.recycled_has(f) by {
            let k = choose|k: int| 0 <= k < self.regions@.len() && region_eligible(self.regions@, k)
                && #[trigger] frame_in_region(self.regions@[k], f) && f < self.cursors@[k];
            if k != j {
                assert(prev.below_cursor(f));
            } else if f < prev.cursors@[j] {
                assert(prev.below_cursor(f));
            } else if f != c {
                assert(f >= c);
                lemma_aligned_gap(f, c);
            }
        }
    }

    /// Gives frame `frame` back; a later `allocate` hands it out again.
    /// The frame must have been handed out and no longer be mapped.
    pub fn deallocate(&mut self, frame: u64)
        requires
            old(self).wf(),
            old(self).allocated().contains(frame as int),
        ensures
            final(self).wf(),
            final(self).regions() == old(self).regions(),
            final(self).allocated() == old(self).allocated().remove(frame as int),
            final(self).reuse_candidate() == Some(frame as int),
    {
        proof {
            self.allocated@ = self.allocated@.remove(frame as int);
        }
        self.recycled.push(frame);
        proof {
            let n = self.recycled@.len() - 1;
            assert forall|i: int| 0 <= i < n implies #[trigger] self.recycled@[i] == old(self).recycled@[i] by {}
            assert forall|i: int, k: int| 0 <= i < k < self.recycled@.len() implies #[trigger] self.recycled@[i] != #[trigger] self.recycled@[k] by {
                if k == n {
                    assert(!old(self).allocated@.contains(old(self).recycled@[i] as int));
                }
            }
            assert forall|g: int| frame_aligned(g) && #[trigger] self.below_cursor(g)
                implies self.allocated@.contains(g) || self.recycled_has(g) by {
                assert(old(self).below_cursor(g));
                if g == frame {
                    assert(self.recycled@[n] as int == g);
                } else if old(self).recycled_has(g) {
                    let i = choose|i: int| 0 <= i < old(self).recycled@.len() && #[trigger] old(self).recycled@[i] as int == g;
                    assert(self.recycled@[i] as int == g);
                }
            }
            assert forall|i: int| 0 <= i < self.recycled@.len() implies #[trigger] self.below_cursor(self.recycled@[i] as int) by {
                let f = self.recycled@[i] as int;
                if i < n {
                    assert(old(self).below_cursor(old(self).recycled@[i] as int));
                } else {
                    assert(old(self).below_cursor(frame as int));
                }
                assert(old(self).below_cursor(f));
                let k = choose|k: int| 0 <= k < old(self).regions@.len() && region_eligible(old(self).regions@, k)
                    && #[trigger] frame_in_region(old(self).regions@[k], f) && f < old(self).cursors@[k];
                assert(frame_in_region(self.regions@[k], f));
            }
        }
    }
}

/// Each step `k` of `states` is one successful `allocate` that returned
/// `frames[k]`, with no `deallocate` in between.
pub open spec fn allocation_run(states: Seq<FrameAllocator>, frames: Seq<int>) -> bool {
    &&& states.len() == frames.len() + 1
    &&& forall|k: int| 0 <= k < frames.len() ==> {
        &&& !(#[trigger] states[k]).allocated().contains(frames[k])
        &&& states[k + 1].allocated() == states[k].allocated().insert(frames[k])
        &&& frame_usable(states[k].regions(), frames[k])
    }
}

proof fn lemma_run_keeps(states: Seq<FrameAllocator>, frames: Seq<int>, i: int, j: int)
    requires
        allocation_run(states, frames),
        0 <= i < j <= frames.len(),
    ensures
        states[j].allocated().contains(frames[i]),
    decreases j - i,
{
    if j == i + 1 {
        assert(states[i + 1].allocated() == states[i].allocated().insert(frames[i]));
    } else {
        lemma_run_keeps(states, frames, i, j - 1);
        assert(states[j].allocated() == states[j - 1].allocated().insert(frames[j - 1]));
    }
}

/// Frame uniqueness: the frames returned by a run of `allocate` calls with
/// no `deallocate` in between are pairwise distinct, and each is aligned and
/// inside a usable region.
pub proof fn lemma_allocations_distinct(states: Seq<FrameAllocator>, frames: Seq<int>)
    requires
        allocation_run(states, frames),
    ensures
        forall|i: int, j: int| 0 <= i < j < frames.len() ==> frames[i] != frames[j],
        forall|k: int| 0 <= k < frames.len() ==> frame_aligned(#[trigger] frames[k]),
{
    assert forall|i: int, j: int| 0 <= i < j < frames.len() implies frames[i] != frames[j] by {
        lemma_run_keeps(states, frames, i, j);
        assert(!states[j].allocated().contains(frames[j]));
    }
    assert forall|k: int| 0 <= k < frames.len() implies frame_aligned(#[trigger] frames[k]) by {
        assert(frame_usable(states[k].regions(), frames[k]));
    }
}

} // verus!
