use vstd::prelude::*;
use crate::elf::{
    permissions_spec, segment_permissions, some_reserved, in_reserved, ElfImage, LoadError, Segment, segment_well_formed,
    RESERVED_START, USER_STACK_TOP,
};
use crate::frame::{lemma_aligned_gap, FrameAllocator, FrameError};
use crate::paging::{AddressSpace, MapError, Mapping, Permissions, PAGE_SIZE};

verus! {

/// What the loader hands to the switch into user mode.
#[derive(Clone, Copy, Debug, PartialEq, Eq, Structural)]
pub struct LoadedProgram {
    pub entry: u64,
    pub stack_top: u64,
}

/// First page of a segment's virtual range.
pub open spec fn first_page(s: Segment) -> int {
    s.vaddr as int - (s.vaddr as int) % (PAGE_SIZE as int)
}

/// End of the last page of a segment's virtual range.
pub open spec fn end_page(s: Segment) -> int {
    let e = s.vaddr as int + s.mem_size as int;
    if e % (PAGE_SIZE as int) == 0 {
        e
    } else {
        e + (PAGE_SIZE as int - e % (PAGE_SIZE as int))
    }
}

/// Every page of `[first, end)` is mapped in `m` with permissions `perms`.
pub open spec fn range_mapped(m: Map<u64, Mapping>, first: int, end: int, perms: Permissions) -> bool {
    forall|p: u64| first <= p < end && p % PAGE_SIZE == 0 ==> #[trigger] m.contains_key(p) && m[p].perms == perms
}

/// Every page that the segment touches is mapped with the segment's permissions.
pub open spec fn segment_mapped(m: Map<u64, Mapping>, s: Segment) -> bool {
    s.mem_size > 0 ==> range_mapped(m, first_page(s), end_page(s), permissions_spec(s.flags))
}

/// The permissions of the user stack.
pub open spec fn stack_permissions() -> Permissions {
    Permissions { writable: true, user: true, executable: false }
}

/// `after` keeps every mapping of `before`.
pub open spec fn keeps_mappings(before: Map<u64, Mapping>, after: Map<u64, Mapping>) -> bool {
    forall|p: u64| #[trigger] before.contains_key(p) ==> after.contains_key(p) && after[p] == before[p]
}

/// Page `p` lies in the pages that segment `s` touches.
pub open spec fn touches(s: Segment, p: int) -> bool {
    s.mem_size > 0 && first_page(s) <= p < end_page(s)
}

/// Page `p` lies in the user stack.
pub open spec fn in_stack(p: int) -> bool {
    RESERVED_START <= p < USER_STACK_TOP
}

/// Loading `segs` into an address space with mappings `m` would map some
/// page twice: a page it needs is already mapped, two segments share a
/// page, or a segment shares a page with the stack.
pub open spec fn load_conflict(m: Map<u64, Mapping>, segs: Seq<Segment>) -> bool {
    exists|p: u64| #[trigger] conflict_at(m, segs, p)
}

/// Page `p` is one that loading `segs` into `m` would map twice.
pub open spec fn conflict_at(m: Map<u64, Mapping>, segs: Seq<Segment>, p: u64) -> bool {
    &&& p % PAGE_SIZE == 0
    &&& {
        ||| m.contains_key(p) && in_stack(p as int)
        ||| m.contains_key(p) && exists|k: int| 0 <= k < segs.len() && touches(#[trigger] segs[k], p as int)
        ||| exists|a: int, b: int| 0 <= a < b < segs.len() && touches(#[trigger] segs[a], p as int) && touches(#[trigger] segs[b], p as int)
        ||| in_stack(p as int) && exists|k: int| 0 <= k < segs.len() && touches(#[trigger] segs[k], p as int)
    }
}

/// The pages `[first, end)` that a segment outside the reserved range
/// touches; empty for a segment with no memory.
pub fn segment_page_range(s: Segment) -> (r: (u64, u64))
    requires
        !in_reserved(s),
    ensures
        s.mem_size > 0 ==> r.0 == first_page(s) && r.1 == end_page(s),
        s.mem_size == 0 ==> r.0 == 0 && r.1 == 0,
        r.0 % PAGE_SIZE == 0,
        r.1 % PAGE_SIZE == 0,
        r.0 <= r.1 <= RESERVED_START,
{
    if s.mem_size == 0 {
        return (0, 0);
    }
    let first = s.vaddr - s.vaddr % PAGE_SIZE;
    let last = s.vaddr + s.mem_size;
    let end = if last % PAGE_SIZE == 0 { last } else { last + (PAGE_SIZE - last % PAGE_SIZE) };
    (first, end)
}

/// The pages mapped in `after` and not in `before` have frames that were
/// not handed out in `a0` and are in `a1`, no two of them the same.
pub open spec fn fresh_frames(before: Map<u64, Mapping>, after: Map<u64, Mapping>, a0: Set<int>, a1: Set<int>) -> bool {
    &&& a0 <= a1
    &&& forall|p: u64| #[trigger] after.contains_key(p) && !before.contains_key(p)
        ==> !a0.contains(after[p].frame as int) && a1.contains(after[p].frame as int)
    &&& forall|p: u64, q: u64| #[trigger] after.contains_key(p) && !before.contains_key(p)
        && #[trigger] after.contains_key(q) && !before.contains_key(q) && p != q ==> after[p].frame != after[q].frame
}

proof fn lemma_fresh_frames_chain(
    m0: Map<u64, Mapping>, m1: Map<u64, Mapping>, m2: Map<u64, Mapping>,
    a0: Set<int>, a1: Set<int>, a2: Set<int>,
)
    requires
        fresh_frames(m0, m1, a0, a1),
        fresh_frames(m1, m2, a1, a2),
        keeps_mappings(m0, m1),
        keeps_mappings(m1, m2),
    ensures
        fresh_frames(m0, m2, a0, a2),
{
    assert forall|p: u64| #[trigger] m2.contains_key(p) && !m0.contains_key(p)
        implies !a0.contains(m2[p].frame as int) && a2.contains(m2[p].frame as int) by {
        if m1.contains_key(p) {
            assert(m2[p] == m1[p]);
        }
    }
    assert forall|p: u64, q: u64| #[trigger] m2.contains_key(p) && !m0.contains_key(p)
        && #[trigger] m2.contains_key(q) && !m0.contains_key(q) && p != q implies m2[p].frame != m2[q].frame by {
        if m1.contains_key(p) && m1.contains_key(q) {
            assert(m2[p] == m1[p] && m2[q] == m1[q]);
        } else if m1.contains_key(p) {
            assert(m2[p] == m1[p]);
            assert(a1.contains(m1[p].frame as int));
        } else if m1.contains_key(q) {
            assert(m2[q] == m1[q]);
            assert(a1.contains(m1[q].frame as int));
        }
    }
}

fn map_error(e: MapError) -> (r: LoadError)
    ensures
        e == MapError::OutOfMemory ==> r == LoadError::OutOfMemory,
        e == MapError::AlreadyMapped ==> r == LoadError::AlreadyMapped,
{
    match e {
        MapError::OutOfMemory => LoadError::OutOfMemory,
        MapError::AlreadyMapped => LoadError::AlreadyMapped,
    }
}

/// Maps every page of `[first, end)` to a new frame of `alloc`.
fn map_range(space: &mut AddressSpace, alloc: &mut FrameAllocator, first: u64, end: u64, perms: Permissions) -> (r: Result<(), LoadError>)
    requires
        old(space).wf(),
        old(alloc).wf(),
        first % PAGE_SIZE == 0,
        end % PAGE_SIZE == 0,
        first <= end,
    ensures
        final(space).wf(),
        final(alloc).wf(),
        final(alloc).regions() == old(alloc).regions(),
        keeps_mappings(old(space).mappings(), final(space).mappings()),
        old(space).frames_held(old(alloc)) ==> final(space).frames_held(final(alloc)),
        r is Ok ==> range_mapped(final(space).mappings(), first as int, end as int, perms),
        r matches Err(e) ==> e == LoadError::OutOfMemory || e == LoadError::AlreadyMapped,
        r == Err::<(), LoadError>(LoadError::OutOfMemory) ==> !final(alloc).can_allocate(),
        r == Err::<(), LoadError>(LoadError::AlreadyMapped) ==> exists|p: u64| first <= p < end && p % PAGE_SIZE == 0
            && #[trigger] old(space).mappings().contains_key(p),
        forall|p: u64| #[trigger] final(space).mappings().contains_key(p)
            ==> old(space).mappings().contains_key(p) || first <= p < end,
        fresh_frames(old(space).mappings(), final(space).mappings(), old(alloc).allocated(), final(alloc).allocated()),
{
    let mut cur = first;
    while cur < end
        invariant
            space.wf(),
            alloc.wf(),
            alloc.regions() == old(alloc).regions(),
            first <= cur <= end,
            cur % PAGE_SIZE == 0,
            end % PAGE_SIZE == 0,
            keeps_mappings(old(space).mappings(), space.mappings()),
            old(space).frames_held(old(alloc)) ==> space.frames_held(alloc),
            range_mapped(space.mappings(), first as int, cur as int, perms),
            forall|p: u64| #[trigger] space.mappings().contains_key(p)
                ==> old(space).mappings().contains_key(p) || first <= p < cur,
            fresh_frames(old(space).mappings(), space.mappings(), old(alloc).allocated(), alloc.allocated()),
        decreases end - cur,
    {
        let ghost before = space.mappings();
        let ghost a_before = alloc.allocated();
        let frame = match alloc.allocate() {
            Ok(f) => f,
            Err(FrameError::OutOfMemory) => return Err(LoadError::OutOfMemory),
        };
        match space.map(alloc, cur, frame, perms) {
            Ok(()) => {},
            Err(e) => {
                proof {
                    if e == MapError::AlreadyMapped {
                        assert(before.contains_key(cur));
                        assert(old(space).mappings().contains_key(cur));
                    }
                }
                return Err(map_error(e));
            },
        }
        assert(end - cur >= PAGE_SIZE) by {
            lemma_aligned_gap(end as int, cur as int);
        }
        assert(fresh_frames(old(space).mappings(), space.mappings(), old(alloc).allocated(), alloc.allocated())) by {
            assert(!a_before.contains(frame as int));
            assert forall|p: u64| #[trigger] space.mappings().contains_key(p) && !old(space).mappings().contains_key(p)
                implies !old(alloc).allocated().contains(space.mappings()[p].frame as int)
                    && alloc.allocated().contains(space.mappings()[p].frame as int) by {
                if p != cur {
                    assert(before.contains_key(p));
                }
            }
            assert forall|p: u64, q: u64| #[trigger] space.mappings().contains_key(p) && !old(space).mappings().contains_key(p)
                && #[trigger] space.mappings().contains_key(q) && !old(space).mappings().contains_key(q) && p != q
                implies space.mappings()[p].frame != space.mappings()[q].frame by {
                if p != cur && q != cur {
                    assert(before.contains_key(p) && before.contains_key(q));
                } else if p == cur {
                    assert(before.contains_key(q));
                    assert(a_before.contains(before[q].frame as int));
                } else {
                    assert(before.contains_key(p));
                    assert(a_before.contains(before[p].frame as int));
                }
            }
        }
        assert forall|p: u64| first <= p < cur + PAGE_SIZE && p % PAGE_SIZE == 0
            implies #[trigger] space.mappings().contains_key(p) && space.mappings()[p].perms == perms by {
            if p > cur {
                lemma_aligned_gap(p as int, cur as int);
            }
            if p < cur {
                assert(before.contains_key(p));
            }
        }
        cur = cur + PAGE_SIZE;
    }
    Ok(())
}

/// Builds the program's memory in `space`: every page of each loadable
/// segment, in header order, with the segment's permissions, then the
/// writable, non-executable user stack below `USER_STACK_TOP`.
pub fn load_program(image: &ElfImage, space: &mut AddressSpace, alloc: &mut FrameAllocator) -> (r: Result<LoadedProgram, LoadError>)
    requires
        old(space).wf(),
        old(alloc).wf(),
        !some_reserved(image.segments@),
        forall|k: int| 0 <= k < image.segments@.len() ==> (#[trigger] image.segments@[k]).vaddr + image.segments@[k].mem_size <= u64::MAX + 1,
    ensures
        final(space).wf(),
        final(alloc).wf(),
        final(alloc).regions() == old(alloc).regions(),
        keeps_mappings(old(space).mappings(), final(space).mappings()),
        old(space).frames_held(old(alloc)) ==> final(space).frames_held(final(alloc)),
        r matches Ok(p) ==> {
            &&& p.entry == image.entry
            &&& p.stack_top == USER_STACK_TOP
            &&& forall|k: int| 0 <= k < image.segments@.len() ==> segment_mapped(final(space).mappings(), #[trigger] image.segments@[k])
            &&& range_mapped(final(space).mappings(), RESERVED_START as int, USER_STACK_TOP as int, stack_permissions())
        },
        r matches Err(e) ==> e == LoadError::OutOfMemory || e == LoadError::AlreadyMapped,
        r == Err::<LoadedProgram, LoadError>(LoadError::OutOfMemory) ==> !final(alloc).can_allocate(),
        r == Err::<LoadedProgram, LoadError>(LoadError::AlreadyMapped) ==> load_conflict(old(space).mappings(), image.segments@),
        forall|p: u64| #[trigger] final(space).mappings().contains_key(p) ==> old(space).mappings().contains_key(p)
            || in_stack(p as int) || exists|k: int| 0 <= k < image.segments@.len() && touches(#[trigger] image.segments@[k], p as int),
        fresh_frames(old(space).mappings(), final(space).mappings(), old(alloc).allocated(), final(alloc).allocated()),
{
    let mut k: usize = 0;
    while k < image.segments.len()
        invariant
            k <= image.segments@.len(),
            space.wf(),
            alloc.wf(),
            alloc.regions() == old(alloc).regions(),
            !some_reserved(image.segments@),
            forall|j: int| 0 <= j < image.segments@.len() ==> (#[trigger] image.segments@[j]).vaddr + image.segments@[j].mem_size <= u64::MAX + 1,
            keeps_mappings(old(space).mappings(), space.mappings()),
            old(space).frames_held(old(alloc)) ==> space.frames_held(alloc),
            forall|j: int| 0 <= j < k ==> segment_mapped(space.mappings(), #[trigger] image.segments@[j]),
            forall|p: u64| #[trigger] space.mappings().contains_key(p) ==> old(space).mappings().contains_key(p)
                || exists|j: int| 0 <= j < k && touches(#[trigger] image.segments@[j], p as int),
            fresh_frames(old(space).mappings(), space.mappings(), old(alloc).allocated(), alloc.allocated()),
        decreases image.segments@.len() - k,
    {
        let s = image.segments[k];
        let ghost before = space.mappings();
        let ghost a_before = alloc.allocated();
        if s.mem_size > 0 {
            assert(!in_reserved(image.segments@[k as int]));
            let (first, end) = segment_page_range(s);
            let res = map_range(space, alloc, first, end, segment_permissions(s.flags));
            proof {
                lemma_fresh_frames_chain(old(space).mappings(), before, space.mappings(), old(alloc).allocated(), a_before, alloc.allocated());
            }
            if let Err(e) = res {
                proof {
                    if e == LoadError::AlreadyMapped {
                        let p = choose|p: u64| first <= p < end && p % PAGE_SIZE == 0 && #[trigger] before.contains_key(p);
                        assert(touches(image.segments@[k as int], p as int));
                        if !old(space).mappings().contains_key(p) {
                            let j = choose|j: int| 0 <= j < k && touches(#[trigger] image.segments@[j], p as int);
                            assert(touches(image.segments@[j], p as int) && touches(image.segments@[k as int], p as int));
                        }
                        assert(conflict_at(old(space).mappings(), image.segments@, p));
                    }
                }
                return Err(e);
            }
            assert(res is Ok);
        }
        assert forall|p: u64| #[trigger] space.mappings().contains_key(p) implies old(space).mappings().contains_key(p)
            || exists|j: int| 0 <= j < k + 1 && touches(#[trigger] image.segments@[j], p as int) by {
            if !before.contains_key(p) {
                assert(touches(image.segments@[k as int], p as int));
            } else if !old(space).mappings().contains_key(p) {
                let j = choose|j: int| 0 <= j < k && touches(#[trigger] image.segments@[j], p as int);
                assert(touches(image.segments@[j], p as int));
            }
        }
        assert forall|j: int| 0 <= j < k + 1 implies segment_mapped(space.mappings(), #[trigger] image.segments@[j]) by {
            if j < k {
                let t = image.segments@[j];
                if t.mem_size > 0 {
                    assert forall|p: u64| first_page(t) <= p < end_page(t) && p % PAGE_SIZE == 0
                        implies #[trigger] space.mappings().contains_key(p) && space.mappings()[p].perms == permissions_spec(t.flags) by {
                        assert(before.contains_key(p));
                    }
                }
            }
        }
        k += 1;
    }
    let ghost before = space.mappings();
    let stack_perms = Permissions { writable: true, user: true, executable: false };
    let ghost a_stack = alloc.allocated();
    let res = map_range(space, alloc, RESERVED_START, USER_STACK_TOP, stack_perms);
    proof {
        lemma_fresh_frames_chain(old(space).mappings(), before, space.mappings(), old(alloc).allocated(), a_stack, alloc.allocated());
    }
    if let Err(e) = res {
        proof {
            if e == LoadError::AlreadyMapped {
                let p = choose|p: u64| RESERVED_START <= p < USER_STACK_TOP && p % PAGE_SIZE == 0 && #[trigger] before.contains_key(p);
                assert(in_stack(p as int));
                if !old(space).mappings().contains_key(p) {
                    let j = choose|j: int| 0 <= j < image.segments@.len() && touches(#[trigger] image.segments@[j], p as int);
                    assert(touches(image.segments@[j], p as int));
                }
                assert(conflict_at(old(space).mappings(), image.segments@, p));
            }
        }
        return Err(e);
    }
    assert(res is Ok);
    assert forall|j: int| 0 <= j < image.segments@.len() implies segment_mapped(space.mappings(), #[trigger] image.segments@[j]) by {
        let t = image.segments@[j];
        if t.mem_size > 0 {
            assert forall|p: u64| first_page(t) <= p < end_page(t) && p % PAGE_SIZE == 0
                implies #[trigger] space.mappings().contains_key(p) && space.mappings()[p].perms == permissions_spec(t.flags) by {
                assert(before.contains_key(p));
            }
        }
    }
    Ok(LoadedProgram { entry: image.entry, stack_top: USER_STACK_TOP })
}

/// The byte that the program's memory holds at `addr` for segment `s`:
/// the file's byte inside the file part, zero in the rest.
pub open spec fn segment_byte(image: Seq<u8>, s: Segment, addr: int) -> u8 {
    if s.vaddr <= addr < s.vaddr + s.file_size {
        image[s.offset + (addr - s.vaddr)]
    } else {
        0
    }
}

/// The contents of the page at `page` for segment `s`: bytes copied from
/// the file up to its file size, zeros after it.
pub fn segment_page_bytes(image: &[u8], s: Segment, page: u64) -> (r: Vec<u8>)
    requires
        segment_well_formed(s, image@.len() as int),
        page + PAGE_SIZE <= u64::MAX + 1,
    ensures
        r@.len() == PAGE_SIZE,
        forall|k: int| 0 <= k < PAGE_SIZE ==> #[trigger] r@[k] == segment_byte(image@, s, page + k),
{
    let n = image.len();
    assert(n <= usize::MAX);
    let mut out: Vec<u8> = Vec::new();
    let mut k: u64 = 0;
    while k < PAGE_SIZE
        invariant
            k <= PAGE_SIZE,
            page + PAGE_SIZE <= u64::MAX + 1,
            segment_well_formed(s, image@.len() as int),
            n == image@.len(),
            out@.len() == k,
            forall|j: int| 0 <= j < k ==> #[trigger] out@[j] == segment_byte(image@, s, page + j),
        decreases PAGE_SIZE - k,
    {
        let addr = page + k;
        if addr >= s.vaddr && addr - s.vaddr < s.file_size {
            let idx = (s.offset + (addr - s.vaddr)) as usize;
            out.push(image[idx]);
        } else {
            out.push(0);
        }
        k += 1;
    }
    out
}

} // verus!
