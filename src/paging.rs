use vstd::prelude::*;
use std::collections::BTreeMap;
use crate::frame::{FrameAllocator, FrameError};
use x86_64::structures::paging::PageTableFlags;

verus! {

/// Size of a virtual page, in bytes.
pub const PAGE_SIZE: u64 = 4096;

/// Permission bits of a mapping; presence is implied by the mapping itself.
#[derive(Clone, Copy, Debug, PartialEq, Eq, Structural)]
pub struct Permissions {
    pub writable: bool,
    pub user: bool,
    pub executable: bool,
}

/// What a virtual page is bound to.
#[derive(Clone, Copy, Debug, PartialEq, Eq, Structural)]
pub struct Mapping {
    pub frame: u64,
    pub perms: Permissions,
}

#[derive(Clone, Copy, Debug, PartialEq, Eq, Structural)]
pub enum MapError {
    OutOfMemory,
    AlreadyMapped,
}

/// Index of the page-directory-pointer table that covers `page`.
pub open spec fn l3_key(page: u64) -> u64 {
    page >> 39u64
}

/// Index of the page directory that covers `page`.
pub open spec fn l2_key(page: u64) -> u64 {
    page >> 30u64
}

/// Index of the page table that covers `page`.
pub open spec fn l1_key(page: u64) -> u64 {
    page >> 21u64
}

/// The frame that `translate` finds for `page` in a set of mappings.
pub open spec fn translated(m: Map<u64, Mapping>, page: u64) -> Option<u64> {
    if m.contains_key(page) {
        Some(m[page].frame)
    } else {
        None
    }
}

pub const FLAG_PRESENT: u64 = 1;
pub const FLAG_WRITABLE: u64 = 2;
pub const FLAG_USER: u64 = 4;
pub const FLAG_NO_EXECUTE: u64 = 0x8000_0000_0000_0000;

/// The flag bits of a hardware page-table entry for a mapping with `p`.
pub open spec fn entry_bits(p: Permissions) -> u64 {
    FLAG_PRESENT | (if p.writable { FLAG_WRITABLE } else { 0 }) | (if p.user { FLAG_USER } else { 0 })
        | (if p.executable { 0 } else { FLAG_NO_EXECUTE })
}

/// Relies on x86_64's `PageTableFlags`: PRESENT is bit 0, WRITABLE bit 1,
/// USER_ACCESSIBLE bit 2, NO_EXECUTE bit 63; `set` adds or removes one flag
/// and `bits` returns the union.
#[verifier::external_body]
fn page_table_flags(writable: bool, user: bool, no_execute: bool) -> (r: u64)
    ensures
        r == FLAG_PRESENT | (if writable { FLAG_WRITABLE } else { 0 }) | (if user { FLAG_USER } else { 0 })
            | (if no_execute { FLAG_NO_EXECUTE } else { 0 }),
{
    let mut f = PageTableFlags::PRESENT;
    f.set(PageTableFlags::WRITABLE, writable);
    f.set(PageTableFlags::USER_ACCESSIBLE, user);
    f.set(PageTableFlags::NO_EXECUTE, no_execute);
    f.bits()
}

/// The flag bits of the page-table entry for a mapping with `perms`.
pub fn entry_flags(perms: Permissions) -> (r: u64)
    ensures
        r == entry_bits(perms),
{
    page_table_flags(perms.writable, perms.user, !perms.executable)
}

/// An address space: a root table, the intermediate tables below it (each
/// level keyed by the part of the address it covers) and the leaf entries.
pub struct AddressSpace {
    root: u64,
    l3: BTreeMap<u64, u64>,
    l2: BTreeMap<u64, u64>,
    l1: BTreeMap<u64, u64>,
    leaves: BTreeMap<u64, Mapping>,
    tables: Ghost<Set<int>>,
}

/// Makes sure `m` holds a table under `key`, taking a new frame for it if not.
fn ensure_table(m: &mut BTreeMap<u64, u64>, key: u64, alloc: &mut FrameAllocator) -> (r: Result<(), MapError>)
    requires
        old(alloc).wf(),
    ensures
        final(alloc).wf(),
        final(alloc).regions() == old(alloc).regions(),
        old(m)@.contains_key(key) ==> r is Ok && final(m)@ == old(m)@ && final(alloc).allocated() == old(alloc).allocated(),
        r is Err ==> r == Err::<(), MapError>(MapError::OutOfMemory) && final(m)@ == old(m)@
            && final(alloc).allocated() == old(alloc).allocated() && !final(alloc).can_allocate(),
        r is Ok && !old(m)@.contains_key(key) ==> {
            &&& !old(alloc).allocated().contains(final(m)@[key] as int)
            &&& final(alloc).allocated() == old(alloc).allocated().insert(final(m)@[key] as int)
            &&& final(m)@ == old(m)@.insert(key, final(m)@[key])
        },
{
    if m.contains_key(&key) {
        return Ok(());
    }
    match alloc.allocate() {
        Ok(f) => {
            m.insert(key, f);
            Ok(())
        },
        Err(FrameError::OutOfMemory) => Err(MapError::OutOfMemory),
    }
}

impl AddressSpace {
    /// The mappings of the address space, by virtual page.
    pub closed spec fn mappings(&self) -> Map<u64, Mapping> {
        self.leaves@
    }

    /// The frames that hold the root and the intermediate tables.
    pub closed spec fn table_frames(&self) -> Set<int> {
        self.tables@
    }

    /// All intermediate tables on the way to `page` exist.
    pub closed spec fn tables_present(&self, page: u64) -> bool {
        &&& self.l3@.contains_key(l3_key(page))
        &&& self.l2@.contains_key(l2_key(page))
        &&& self.l1@.contains_key(l1_key(page))
    }

    pub closed spec fn wf(&self) -> bool {
        &&& self.tables@.contains(self.root as int)
        &&& forall|k: u64| #[trigger] self.l3@.contains_key(k) ==> self.tables@.contains(self.l3@[k] as int)
        &&& forall|k: u64| #[trigger] self.l2@.contains_key(k) ==> self.tables@.contains(self.l2@[k] as int)
        &&& forall|k: u64| #[trigger] self.l1@.contains_key(k) ==> self.tables@.contains(self.l1@[k] as int)
        &&& forall|p: u64| #[trigger] self.leaves@.contains_key(p) ==> self.tables_present(p)
    }

    /// Every frame that the address space refers to, tables and mapped
    /// frames alike, is held by `alloc`.
    pub open spec fn frames_held(&self, alloc: &FrameAllocator) -> bool {
        &&& forall|f: int| #[trigger] self.table_frames().contains(f) ==> alloc.allocated().contains(f)
        &&& forall|p: u64| #[trigger] self.mappings().contains_key(p)
            ==> alloc.allocated().contains(self.mappings()[p].frame as int)
    }

    /// Creates an empty address space, taking one frame for its root table.
    pub fn new(alloc: &mut FrameAllocator) -> (r: Result<AddressSpace, MapError>)
        requires
            old(alloc).wf(),
        ensures
            final(alloc).wf(),
            final(alloc).regions() == old(alloc).regions(),
            r is Err <==> !old(alloc).can_allocate(),
            r is Err ==> r == Err::<AddressSpace, MapError>(MapError::OutOfMemory)
                && final(alloc).allocated() == old(alloc).allocated(),
            r matches Ok(s) ==> {
                &&& s.wf()
                &&& s.frames_held(final(alloc))
                &&& s.mappings() == Map::<u64, Mapping>::empty()
                &&& s.table_frames().len() == 1
                &&& forall|f: int| #[trigger] s.table_frames().contains(f)
                    ==> !old(alloc).allocated().contains(f) && final(alloc).allocated() == old(alloc).allocated().insert(f)
            },
    {
        match alloc.allocate() {
            Ok(root) => {
                let s = AddressSpace {
                    root,
                    l3: BTreeMap::new(),
                    l2: BTreeMap::new(),
                    l1: BTreeMap::new(),
                    leaves: BTreeMap::new(),
                    tables: Ghost(Set::<int>::empty().insert(root as int)),
                };
                proof {
                    assert(s.tables@.len() == 1);
                }
                Ok(s)
            },
            Err(FrameError::OutOfMemory) => Err(MapError::OutOfMemory),
        }
    }

    /// The frame `page` is mapped to, if any.
    pub fn translate(&self, page: u64) -> (r: Option<u64>)
        ensures
            r == translated(self.mappings(), page),
    {
        match self.leaves.get(&page) {
            Some(m) => Some(m.frame),
            None => None,
        }
    }

    /// The mapping of `page`, with its permissions, if any.
    pub fn lookup(&self, page: u64) -> (r: Option<Mapping>)
        ensures
            self.mappings().contains_key(page) ==> r == Some(self.mappings()[page]),
            !self.mappings().contains_key(page) ==> r is None,
    {
        match self.leaves.get(&page) {
            Some(m) => Some(*m),
            None => None,
        }
    }

    /// The hardware page-table entry for `page`: its frame with the flag bits.
    pub fn page_table_entry(&self, page: u64) -> (r: Option<u64>)
        ensures
            self.mappings().contains_key(page) ==> r == Some(
                self.mappings()[page].frame | entry_bits(self.mappings()[page].perms),
            ),
            !self.mappings().contains_key(page) ==> r is None,
    {
        match self.leaves.get(&page) {
            Some(m) => Some(m.frame | entry_flags(m.perms)),
            None => None,
        }
    }

    /// The frames of the root table and of the three tables on the way to
    /// `page`, when all of them exist.
    pub fn table_path(&self, page: u64) -> (r: Option<(u64, u64, u64, u64)>)
        requires
            self.wf(),
        ensures
            r is Some <==> self.tables_present(page),
            r matches Some(t) ==> self.table_frames().contains(t.0 as int) && self.table_frames().contains(t.1 as int)
                && self.table_frames().contains(t.2 as int) && self.table_frames().contains(t.3 as int),
    {
        match (self.l3.get(&(page >> 39u64)), self.l2.get(&(page >> 30u64)), self.l1.get(&(page >> 21u64))) {
            (Some(a), Some(b), Some(c)) => Some((self.root, *a, *b, *c)),
            _ => None,
        }
    }

    /// Maps `page` to `frame`, building the missing tables with frames of
    /// `alloc`. A mapped page is never overwritten; a failure leaves no
    /// mapping at `page`.
    pub fn map(&mut self, alloc: &mut FrameAllocator, page: u64, frame: u64, perms: Permissions) -> (r: Result<(), MapError>)
        requires
            old(self).wf(),
            old(alloc).wf(),
        ensures
            final(self).wf(),
            final(alloc).wf(),
            final(alloc).regions() == old(alloc).regions(),
            r == Err::<(), MapError>(MapError::AlreadyMapped) <==> old(self).mappings().contains_key(page),
            r is Ok ==> final(self).mappings() == old(self).mappings().insert(page, Mapping { frame, perms }),
            r is Err ==> final(self).mappings() == old(self).mappings(),
            r == Err::<(), MapError>(MapError::AlreadyMapped) ==> final(alloc).allocated() == old(alloc).allocated()
                && final(self).table_frames() == old(self).table_frames(),
            r == Err::<(), MapError>(MapError::OutOfMemory) ==> !final(alloc).can_allocate(),
            old(self).tables_present(page) && !old(self).mappings().contains_key(page) ==> r is Ok,
            old(alloc).allocated() <= final(alloc).allocated(),
            final(self).table_frames() == old(self).table_frames()
                + (final(alloc).allocated() - old(alloc).allocated()),
            old(self).frames_held(old(alloc)) && old(alloc).allocated().contains(frame as int)
                ==> final(self).frames_held(final(alloc)),
    {
        if self.leaves.contains_key(&page) {
            return Err(MapError::AlreadyMapped);
        }
        let ghost a0 = alloc.allocated();
        let ghost s0 = *self;
        let ghost al0 = *alloc;
        let ghost t0 = self.tables@;
        let ghost m3 = self.l3@;
        let r3 = ensure_table(&mut self.l3, page >> 39u64, alloc);
        proof {
            if r3 is Ok && !m3.contains_key(l3_key(page)) {
                self.tables@ = self.tables@.insert(self.l3@[l3_key(page)] as int);
            }
        }
        if r3.is_err() {
            assert(self.tables@ =~= t0 + (alloc.allocated() - a0));
            proof { if s0.frames_held(&al0) { lemma_held_after_growth(&s0, &*self, &al0, &*alloc); } }
            return Err(MapError::OutOfMemory);
        }
        let ghost m2 = self.l2@;
        let r2 = ensure_table(&mut self.l2, page >> 30u64, alloc);
        proof {
            if r2 is Ok && !m2.contains_key(l2_key(page)) {
                self.tables@ = self.tables@.insert(self.l2@[l2_key(page)] as int);
            }
        }
        if r2.is_err() {
            assert(self.tables@ =~= t0 + (alloc.allocated() - a0));
            proof { if s0.frames_held(&al0) { lemma_held_after_growth(&s0, &*self, &al0, &*alloc); } }
            return Err(MapError::OutOfMemory);
        }
        let ghost m1 = self.l1@;
        let r1 = ensure_table(&mut self.l1, page >> 21u64, alloc);
        proof {
            if r1 is Ok && !m1.contains_key(l1_key(page)) {
                self.tables@ = self.tables@.insert(self.l1@[l1_key(page)] as int);
            }
        }
        if r1.is_err() {
            assert(self.tables@ =~= t0 + (alloc.allocated() - a0));
            proof { if s0.frames_held(&al0) { lemma_held_after_growth(&s0, &*self, &al0, &*alloc); } }
            return Err(MapError::OutOfMemory);
        }
        assert(self.tables@ =~= t0 + (alloc.allocated() - a0));
        proof { if s0.frames_held(&al0) { lemma_held_after_growth(&s0, &*self, &al0, &*alloc); } }
        self.leaves.insert(page, Mapping { frame, perms });
        Ok(())
    }

    /// Removes the mapping of `page` and returns its frame, which the caller
    /// may free.
    pub fn unmap(&mut self, page: u64) -> (r: Option<u64>)
        requires
            old(self).wf(),
        ensures
            final(self).wf(),
            final(self).mappings() == old(self).mappings().remove(page),
            final(self).table_frames() == old(self).table_frames(),
            r == translated(old(self).mappings(), page),
            forall|alloc: &FrameAllocator| old(self).frames_held(alloc) ==> #[trigger] final(self).frames_held(alloc),
    {
        match self.leaves.remove(&page) {
            Some(m) => Some(m.frame),
            None => None,
        }
    }
}

proof fn lemma_held_after_growth(s0: &AddressSpace, s1: &AddressSpace, a0: &FrameAllocator, a1: &FrameAllocator)
    requires
        s0.frames_held(a0),
        a0.allocated() <= a1.allocated(),
        s1.table_frames() == s0.table_frames() + (a1.allocated() - a0.allocated()),
        s1.mappings() == s0.mappings(),
    ensures
        s1.frames_held(a1),
{
    assert forall|f: int| #[trigger] s1.table_frames().contains(f) implies a1.allocated().contains(f) by {
        if s0.table_frames().contains(f) {
            assert(a0.allocated().contains(f));
        }
    }
    assert forall|p: u64| #[trigger] s1.mappings().contains_key(p) implies a1.allocated().contains(s1.mappings()[p].frame as int) by {
        assert(s0.mappings().contains_key(p));
        assert(a0.allocated().contains(s0.mappings()[p].frame as int));
    }
}

/// Mapping round trip: after `map` of `page` to `frame` succeeds,
/// `translate(page)` returns exactly `frame`.
pub proof fn lemma_map_then_translate(before: &AddressSpace, after: &AddressSpace, page: u64, frame: u64, perms: Permissions)
    requires
        after.mappings() == before.mappings().insert(page, Mapping { frame, perms }),
    ensures
        translated(after.mappings(), page) == Some(frame),
{
}

/// After `unmap(page)`, `translate(page)` returns none.
pub proof fn lemma_unmap_then_translate(before: &AddressSpace, after: &AddressSpace, page: u64)
    requires
        after.mappings() == before.mappings().remove(page),
    ensures
        translated(after.mappings(), page) is None,
{
}

/// A frame that the allocator does not hold as handed out (a frame that
/// `allocate` may return next, a given-back one included) is referenced by
/// no mapping and no table of an address space whose frames it holds.
pub proof fn lemma_free_frame_unreferenced(space: &AddressSpace, alloc: &FrameAllocator, f: int)
    requires
        space.frames_held(alloc),
        !alloc.allocated().contains(f),
    ensures
        forall|p: u64| #[trigger] space.mappings().contains_key(p) ==> space.mappings()[p].frame != f,
        !space.table_frames().contains(f),
{
}

} // verus!
