use vstd::prelude::*;
use crate::bytes::{le_bytes, read_le};
use crate::paging::Permissions;

verus! {

pub const ELF_HEADER_SIZE: usize = 64;
pub const PROGRAM_HEADER_SIZE: u64 = 56;
pub const ELF_CLASS_64: u8 = 2;
pub const ELF_DATA_LSB: u8 = 1;
pub const ELF_TYPE_EXEC: u64 = 2;
pub const ELF_MACHINE_X86_64: u64 = 0x3e;
pub const SEGMENT_LOAD: u64 = 1;
pub const FLAG_EXECUTE: u32 = 1;
pub const FLAG_WRITE: u32 = 2;
pub const FLAG_READ: u32 = 4;

/// Top of the user stack: the highest user page lies just below it.
pub const USER_STACK_TOP: u64 = 0x7fff_ffff_f000;
/// Size of the user stack, sixteen pages.
pub const USER_STACK_SIZE: u64 = 0x10000;
/// Start of the range that a program may not request: the user stack that
/// the kernel sets up, and kernel space above it.
pub const RESERVED_START: u64 = USER_STACK_TOP - USER_STACK_SIZE;

/// A loadable segment, as the program header describes it.
#[derive(Clone, Copy, Debug, PartialEq, Eq, Structural)]
pub struct Segment {
    pub vaddr: u64,
    pub offset: u64,
    pub file_size: u64,
    pub mem_size: u64,
    pub flags: u32,
}

/// A validated executable: its entry address and its loadable segments in
/// header order.
#[derive(Debug)]
pub struct ElfImage {
    pub entry: u64,
    pub segments: Vec<Segment>,
}

#[derive(Clone, Copy, Debug, PartialEq, Eq, Structural)]
pub enum LoadError {
    InvalidFormat,
    OverlappingSegments,
    SegmentOverlapsKernel,
    OutOfMemory,
    AlreadyMapped,
}

/// Magic number, 64-bit class, little-endian data and the x86-64 machine.
pub open spec fn ident_ok(b: Seq<u8>) -> bool {
    &&& b.len() >= ELF_HEADER_SIZE
    &&& b[0] == 0x7fu8
    &&& b[1] == 0x45u8
    &&& b[2] == 0x4cu8
    &&& b[3] == 0x46u8
    &&& b[4] == ELF_CLASS_64
    &&& b[5] == ELF_DATA_LSB
    &&& le_bytes(b, 18, 2) == ELF_MACHINE_X86_64
}

pub open spec fn is_executable(b: Seq<u8>) -> bool {
    le_bytes(b, 16, 2) == ELF_TYPE_EXEC
}

pub open spec fn entry_of(b: Seq<u8>) -> nat {
    le_bytes(b, 24, 8)
}

pub open spec fn ph_offset(b: Seq<u8>) -> nat {
    le_bytes(b, 32, 8)
}

pub open spec fn ph_count(b: Seq<u8>) -> nat {
    le_bytes(b, 56, 2)
}

/// The program header table has entries of the 64-bit size and lies inside the image.
pub open spec fn table_ok(b: Seq<u8>) -> bool {
    &&& le_bytes(b, 54, 2) == PROGRAM_HEADER_SIZE
    &&& ph_offset(b) + PROGRAM_HEADER_SIZE * ph_count(b) <= b.len()
}

pub open spec fn ph_at(b: Seq<u8>, i: int) -> int {
    ph_offset(b) + PROGRAM_HEADER_SIZE * i
}

pub open spec fn loadable_at(b: Seq<u8>, i: int) -> bool {
    le_bytes(b, ph_at(b, i), 4) == SEGMENT_LOAD
}

pub open spec fn segment_at(b: Seq<u8>, i: int) -> Segment {
    let ph = ph_at(b, i);
    Segment {
        vaddr: le_bytes(b, ph + 16, 8) as u64,
        offset: le_bytes(b, ph + 8, 8) as u64,
        file_size: le_bytes(b, ph + 32, 8) as u64,
        mem_size: le_bytes(b, ph + 40, 8) as u64,
        flags: le_bytes(b, ph + 4, 4) as u32,
    }
}

/// The loadable segments among the first `n` program headers, in order.
pub open spec fn load_segments(b: Seq<u8>, n: nat) -> Seq<Segment>
    decreases n,
{
    if n == 0 {
        Seq::<Segment>::empty()
    } else {
        let s = load_segments(b, (n - 1) as nat);
        if loadable_at(b, n - 1) {
            s.push(segment_at(b, n - 1))
        } else {
            s
        }
    }
}

/// The file part lies inside the image, is no larger than the memory part,
/// and the memory range does not run past the end of the address space.
pub open spec fn segment_well_formed(s: Segment, image_len: int) -> bool {
    &&& s.file_size <= s.mem_size
    &&& s.offset + s.file_size <= image_len
    &&& s.vaddr + s.mem_size <= u64::MAX + 1
}

/// The virtual ranges `[vaddr, vaddr + mem_size)` of two segments share a byte.
pub open spec fn ranges_overlap(a: Segment, c: Segment) -> bool {
    &&& a.mem_size > 0
    &&& c.mem_size > 0
    &&& a.vaddr < c.vaddr + c.mem_size
    &&& c.vaddr < a.vaddr + a.mem_size
}

/// The virtual range of the segment meets the reserved range.
pub open spec fn in_reserved(s: Segment) -> bool {
    s.mem_size > 0 && s.vaddr + s.mem_size > RESERVED_START
}

pub open spec fn some_malformed(s: Seq<Segment>, image_len: int) -> bool {
    exists|k: int| 0 <= k < s.len() && !segment_well_formed(#[trigger] s[k], image_len)
}

pub open spec fn some_overlap(s: Seq<Segment>) -> bool {
    exists|i: int, j: int| 0 <= i < j < s.len() && ranges_overlap(#[trigger] s[i], #[trigger] s[j])
}

pub open spec fn some_reserved(s: Seq<Segment>) -> bool {
    exists|k: int| 0 <= k < s.len() && in_reserved(#[trigger] s[k])
}

/// What parsing an image yields: the entry address and the loadable
/// segments, or the first rule that the image breaks.
pub open spec fn parse_result(b: Seq<u8>) -> Result<(u64, Seq<Segment>), LoadError> {
    if !ident_ok(b) || !is_executable(b) || !table_ok(b) {
        Err(LoadError::InvalidFormat)
    } else {
        let s = load_segments(b, ph_count(b));
        if some_overlap(s) {
            Err(LoadError::OverlappingSegments)
        } else if some_reserved(s) {
            Err(LoadError::SegmentOverlapsKernel)
        } else if some_malformed(s, b.len() as int) {
            Err(LoadError::InvalidFormat)
        } else {
            Ok((entry_of(b) as u64, s))
        }
    }
}

/// The permissions a segment is mapped with: user-accessible, writable when
/// flagged so, executable when flagged so and not writable.
pub open spec fn permissions_spec(flags: u32) -> Permissions {
    Permissions {
        writable: flags & FLAG_WRITE != 0,
        user: true,
        executable: flags & FLAG_EXECUTE != 0 && flags & FLAG_WRITE == 0,
    }
}

pub fn segment_permissions(flags: u32) -> (r: Permissions)
    ensures
        r == permissions_spec(flags),
        !(r.writable && r.executable),
{
    let writable = flags & FLAG_WRITE != 0;
    Permissions { writable, user: true, executable: flags & FLAG_EXECUTE != 0 && !writable }
}

fn segment_well_formed_exec(s: Segment, image_len: usize) -> (r: bool)
    ensures
        r == segment_well_formed(s, image_len as int),
{
    s.file_size <= s.mem_size && s.offset <= image_len as u64 && s.file_size <= image_len as u64 - s.offset
        && (s.mem_size == 0 || s.mem_size - 1 <= u64::MAX - s.vaddr)
}

fn ranges_overlap_exec(a: Segment, c: Segment) -> (r: bool)
    ensures
        r == ranges_overlap(a, c),
{
    a.mem_size > 0 && c.mem_size > 0 && (a.vaddr < c.vaddr || a.vaddr - c.vaddr < c.mem_size)
        && (c.vaddr < a.vaddr || c.vaddr - a.vaddr < a.mem_size)
}

fn in_reserved_exec(s: Segment) -> (r: bool)
    ensures
        r == in_reserved(s),
{
    s.mem_size > 0 && (s.vaddr >= RESERVED_START || s.mem_size > RESERVED_START - s.vaddr)
}

fn any_malformed(segs: &Vec<Segment>, image_len: usize) -> (r: bool)
    ensures
        r == some_malformed(segs@, image_len as int),
{
    let mut k: usize = 0;
    while k < segs.len()
        invariant
            k <= segs@.len(),
            forall|m: int| 0 <= m < k ==> segment_well_formed(#[trigger] segs@[m], image_len as int),
        decreases segs@.len() - k,
    {
        if !segment_well_formed_exec(segs[k], image_len) {
            return true;
        }
        k += 1;
    }
    false
}

fn any_overlap(segs: &Vec<Segment>) -> (r: bool)
    ensures
        r == some_overlap(segs@),
{
    let mut j: usize = 0;
    while j < segs.len()
        invariant
            j <= segs@.len(),
            forall|a: int, c: int| 0 <= a < c < j ==> !ranges_overlap(#[trigger] segs@[a], #[trigger] segs@[c]),
        decreases segs@.len() - j,
    {
        let mut i: usize = 0;
        while i < j
            invariant
                i <= j < segs@.len(),
                forall|a: int, c: int| 0 <= a < c < j ==> !ranges_overlap(#[trigger] segs@[a], #[trigger] segs@[c]),
                forall|a: int| 0 <= a < i ==> !ranges_overlap(#[trigger] segs@[a], segs@[j as int]),
            decreases j - i,
        {
            if ranges_overlap_exec(segs[i], segs[j]) {
                return true;
            }
            i += 1;
        }
        j += 1;
    }
    false
}

fn any_reserved(segs: &Vec<Segment>) -> (r: bool)
    ensures
        r == some_reserved(segs@),
{
    let mut k: usize = 0;
    while k < segs.len()
        invariant
            k <= segs@.len(),
            forall|m: int| 0 <= m < k ==> !in_reserved(#[trigger] segs@[m]),
        decreases segs@.len() - k,
    {
        if in_reserved_exec(segs[k]) {
            return true;
        }
        k += 1;
    }
    false
}

/// Parses and validates an executable image. Rejections come in order:
/// a wrong identification, type or header table (`InvalidFormat`), two
/// overlapping segments (`OverlappingSegments`), a segment in the reserved
/// range (`SegmentOverlapsKernel`), a malformed segment (`InvalidFormat`).
pub fn parse_elf(image: &[u8]) -> (r: Result<ElfImage, LoadError>)
    ensures
        match parse_result(image@) {
            Ok((e, s)) => r matches Ok(img) && img.entry == e && img.segments@ == s,
            Err(err) => r matches Err(x) && x == err,
        },
{
    let len = image.len();
    if len < ELF_HEADER_SIZE || image[0] != 0x7f || image[1] != 0x45 || image[2] != 0x4c
        || image[3] != 0x46 || image[4] != ELF_CLASS_64 || image[5] != ELF_DATA_LSB {
        return Err(LoadError::InvalidFormat);
    }
    if read_le(image, 18, 2) != ELF_MACHINE_X86_64 || read_le(image, 16, 2) != ELF_TYPE_EXEC {
        return Err(LoadError::InvalidFormat);
    }
    let entsize = read_le(image, 54, 2);
    let ph_off = read_le(image, 32, 8);
    let ph_num = read_le(image, 56, 2);
    proof {
        reveal_with_fuel(crate::bytes::pow256, 3);
        crate::bytes::lemma_le_bytes_bound(image@, 56, 2);
    }
    if entsize != PROGRAM_HEADER_SIZE || ph_off > len as u64
        || PROGRAM_HEADER_SIZE * ph_num > len as u64 - ph_off {
        return Err(LoadError::InvalidFormat);
    }
    let entry = read_le(image, 24, 8);
    let mut segs: Vec<Segment> = Vec::new();
    let mut i: u64 = 0;
    while i < ph_num
        invariant
            i <= ph_num,
            ph_num as nat == ph_count(image@),
            ph_off as nat == ph_offset(image@),
            ph_off + PROGRAM_HEADER_SIZE * ph_num <= len,
            len == image@.len(),
            segs@ == load_segments(image@, i as nat),
        decreases ph_num - i,
    {
        assert(PROGRAM_HEADER_SIZE * i + PROGRAM_HEADER_SIZE <= PROGRAM_HEADER_SIZE * ph_num) by (nonlinear_arith)
            requires
                i < ph_num,
        ;
        let ph = (ph_off + PROGRAM_HEADER_SIZE * i) as usize;
        assert(ph == ph_at(image@, i as int));
        if read_le(image, ph, 4) == SEGMENT_LOAD {
            let flags = read_le(image, ph + 4, 4);
            let seg = Segment {
                vaddr: read_le(image, ph + 16, 8),
                offset: read_le(image, ph + 8, 8),
                file_size: read_le(image, ph + 32, 8),
                mem_size: read_le(image, ph + 40, 8),
                flags: flags as u32,
            };
            assert(seg == segment_at(image@, i as int));
            segs.push(seg);
        }
        i += 1;
    }
    if any_overlap(&segs) {
        return Err(LoadError::OverlappingSegments);
    }
    if any_reserved(&segs) {
        return Err(LoadError::SegmentOverlapsKernel);
    }
    if any_malformed(&segs, len) {
        return Err(LoadError::InvalidFormat);
    }
    Ok(ElfImage { entry, segments: segs })
}

/// An image without the ELF magic number is rejected as `InvalidFormat`.
pub proof fn lemma_bad_magic_rejected(b: Seq<u8>)
    requires
        b.len() < 4 || b[0] != 0x7fu8 || b[1] != 0x45u8 || b[2] != 0x4cu8 || b[3] != 0x46u8,
    ensures
        parse_result(b) == Err::<(u64, Seq<Segment>), LoadError>(LoadError::InvalidFormat),
{
}

/// An executable with two loadable segments whose virtual ranges overlap
/// is rejected as `OverlappingSegments`.
pub proof fn lemma_overlap_rejected(b: Seq<u8>, i: int, j: int)
    requires
        ident_ok(b),
        is_executable(b),
        table_ok(b),
        0 <= i < j < load_segments(b, ph_count(b)).len(),
        ranges_overlap(load_segments(b, ph_count(b))[i], load_segments(b, ph_count(b))[j]),
    ensures
        parse_result(b) == Err::<(u64, Seq<Segment>), LoadError>(LoadError::OverlappingSegments),
{
    let s = load_segments(b, ph_count(b));
    assert(ranges_overlap(s[i], s[j]));
}

/// An executable whose loadable segments are disjoint, one of which meets
/// the reserved range, is rejected as `SegmentOverlapsKernel`.
pub proof fn lemma_reserved_rejected(b: Seq<u8>, k: int)
    requires
        ident_ok(b),
        is_executable(b),
        table_ok(b),
        !some_overlap(load_segments(b, ph_count(b))),
        0 <= k < load_segments(b, ph_count(b)).len(),
        in_reserved(load_segments(b, ph_count(b))[k]),
    ensures
        parse_result(b) == Err::<(u64, Seq<Segment>), LoadError>(LoadError::SegmentOverlapsKernel),
{
    let s = load_segments(b, ph_count(b));
    assert(in_reserved(s[k]));
}

/// A read+execute segment is mapped executable and not writable; a
/// read+write segment is mapped writable and not executable.
pub proof fn lemma_segment_permissions()
    ensures
        !permissions_spec(FLAG_READ | FLAG_EXECUTE).writable,
        permissions_spec(FLAG_READ | FLAG_EXECUTE).executable,
        permissions_spec(FLAG_READ | FLAG_WRITE).writable,
        !permissions_spec(FLAG_READ | FLAG_WRITE).executable,
{
    assert((4u32 | 1u32) & 2u32 == 0u32) by (bit_vector);
    assert((4u32 | 1u32) & 1u32 != 0u32) by (bit_vector);
    assert((4u32 | 2u32) & 2u32 != 0u32) by (bit_vector);
}

} // verus!
