use vstd::prelude::*;

verus! {

#[derive(Clone, Copy, Debug, PartialEq, Eq, Structural)]
pub enum HeapError {
    OutOfMemory,
}

/// `x` rounded up to a multiple of `align`.
pub open spec fn align_up(x: int, align: int) -> int {
    if x % align == 0 {
        x
    } else {
        x + (align - x % align)
    }
}

/// The ranges `[a, a + sa)` and `[c, c + sc)` share no byte.
pub open spec fn disjoint(a: int, sa: int, c: int, sc: int) -> bool {
    a + sa <= c || c + sc <= a
}

/// The kernel heap: grants sub-ranges of one mapped region `[start, end)`.
///
/// Grants are carved upwards from a cursor; once every grant has been given
/// back, the whole region is free again.
pub struct HeapAllocator {
    start: u64,
    end: u64,
    next: u64,
    live_count: u64,
    live: Ghost<Map<int, int>>,
}

impl HeapAllocator {
    pub closed spec fn region_start(&self) -> int {
        self.start as int
    }

    pub closed spec fn region_end(&self) -> int {
        self.end as int
    }

    /// The live allocations: start address to size.
    pub closed spec fn live(&self) -> Map<int, int> {
        self.live@
    }

    /// Where the next grant is carved from, before alignment.
    pub closed spec fn cursor(&self) -> int {
        self.next as int
    }

    /// A request of `size` bytes aligned to `align` can be granted now: it
    /// fits between the aligned cursor and the end of the region, and the
    /// count of live grants can still grow.
    pub open spec fn fits(&self, size: int, align: int) -> bool {
        align_up(self.cursor(), align) + size <= self.region_end() && self.live().dom().len() < u64::MAX
    }

    pub closed spec fn wf(&self) -> bool {
        &&& self.start <= self.next <= self.end
        &&& self.live@.dom().finite()
        &&& self.live@.dom().len() == self.live_count
        &&& forall|a: int| #[trigger] self.live@.contains_key(a) ==> self.start <= a && a + self.live@[a] <= self.next
            && self.live@[a] > 0
        &&& forall|a: int, c: int| #[trigger] self.live@.contains_key(a) && #[trigger] self.live@.contains_key(c) && a != c
            ==> disjoint(a, self.live@[a], c, self.live@[c])
    }

    /// A heap over the region `[start, start + size)`, with nothing granted.
    pub fn new(start: u64, size: u64) -> (r: HeapAllocator)
        requires
            start + size <= u64::MAX,
        ensures
            r.wf(),
            r.region_start() == start,
            r.region_end() == start + size,
            r.live() == Map::<int, int>::empty(),
            r.cursor() == start,
    {
        HeapAllocator { start, end: start + size, next: start, live_count: 0, live: Ghost(Map::empty()) }
    }

    /// Grants `size` bytes aligned to `align`, overlapping no live grant.
    /// Fails with `OutOfMemory` exactly when the request does not fit.
    pub fn allocate(&mut self, size: u64, align: u64) -> (r: Result<u64, HeapError>)
        requires
            old(self).wf(),
            size > 0,
            align > 0,
        ensures
            final(self).wf(),
            final(self).region_start() == old(self).region_start(),
            final(self).region_end() == old(self).region_end(),
            r is Ok <==> old(self).fits(size as int, align as int),
            r is Err ==> final(self).live() == old(self).live() && final(self).cursor() == old(self).cursor(),
            r matches Ok(a) ==> a == align_up(old(self).cursor(), align as int) && final(self).cursor() == a + size,
            r matches Ok(a) ==> {
                &&& a % align == 0
                &&& old(self).region_start() <= a
                &&& a + size <= old(self).region_end()
                &&& forall|c: int| #[trigger] old(self).live().contains_key(c)
                    ==> disjoint(a as int, size as int, c, old(self).live()[c])
                &&& final(self).live() == old(self).live().insert(a as int, size as int)
            },
    {
        let rem = self.next % align;
        let a: u64;
        if rem == 0 {
            a = self.next;
        } else {
            if align - rem > u64::MAX - self.next {
                return Err(HeapError::OutOfMemory);
            }
            a = self.next + (align - rem);
        }
        if a > self.end || size > self.end - a || self.live_count == u64::MAX {
            return Err(HeapError::OutOfMemory);
        }
        proof {
            assert(a % align == 0) by (nonlinear_arith)
                requires
                    rem == self.next % align,
                    align > 0,
                    rem == 0 ==> a == self.next,
                    rem != 0 ==> a == self.next + (align - rem),
            ;
            assert(!self.live@.contains_key(a as int));
            self.live@ = self.live@.insert(a as int, size as int);
        }
        self.next = a + size;
        self.live_count = self.live_count + 1;
        Ok(a)
    }

    /// Gives back the live grant at `addr` of `size` bytes.
    pub fn deallocate(&mut self, addr: u64, size: u64)
        requires
            old(self).wf(),
            old(self).live().contains_key(addr as int),
            old(self).live()[addr as int] == size,
        ensures
            final(self).wf(),
            final(self).region_start() == old(self).region_start(),
            final(self).region_end() == old(self).region_end(),
            final(self).live() == old(self).live().remove(addr as int),
            final(self).live() == Map::<int, int>::empty() ==> final(self).cursor() == final(self).region_start(),
    {
        proof {
            self.live@ = self.live@.remove(addr as int);
        }
        self.live_count = self.live_count - 1;
        if self.live_count == 0 {
            proof {
                vstd::set_lib::lemma_set_empty_equivalency_len(self.live@.dom());
                assert(self.live@ =~= Map::<int, int>::empty());
            }
            self.next = self.start;
        }
    }
}

/// No two live grants of the heap share a byte.
pub proof fn lemma_live_grants_disjoint(h: &HeapAllocator, a: int, c: int)
    requires
        h.wf(),
        h.live().contains_key(a),
        h.live().contains_key(c),
        a != c,
    ensures
        disjoint(a, h.live()[a], c, h.live()[c]),
{
}

} // verus!
