use vstd::prelude::*;
use crate::boot_record::{
    entry_at, entry_bootable, entry_offset, partition_entries, record_parses, BOOTABLE_FLAG,
};

verus! {

/// A fatal condition met while bringing the kernel up.
#[derive(Clone, Copy, Debug, PartialEq, Eq, Structural)]
pub enum KernelInitError {
    FramebufferWrongSize,
    PhysicalMemoryNotMapped,
    AtaError,
    AtaNoDrive,
    InvalidDiskMbr,
}

/// The shape of the framebuffer that the boot loader hands over.
#[derive(Clone, Copy, Debug, PartialEq, Eq, Structural)]
pub struct FrameBufferShape {
    pub width: usize,
    pub height: usize,
    pub bytes_per_pixel: usize,
}

pub const REQUIRED_WIDTH: usize = 640;
pub const REQUIRED_HEIGHT: usize = 480;
pub const REQUIRED_BYTES_PER_PIXEL: usize = 4;

/// The only framebuffer shape the graphics output supports.
pub open spec fn framebuffer_shape_ok(fb: FrameBufferShape) -> bool {
    fb.width == REQUIRED_WIDTH && fb.height == REQUIRED_HEIGHT
        && fb.bytes_per_pixel == REQUIRED_BYTES_PER_PIXEL
}

/// Accepts the framebuffer only in the 640x480, 4 bytes per pixel shape.
pub fn check_framebuffer_size(fb_info: FrameBufferShape) -> (r: Result<(), KernelInitError>)
    ensures
        r is Ok <==> framebuffer_shape_ok(fb_info),
        r is Err ==> r == Err::<(), KernelInitError>(KernelInitError::FramebufferWrongSize),
{
    if fb_info.width == REQUIRED_WIDTH && fb_info.height == REQUIRED_HEIGHT
        && fb_info.bytes_per_pixel == REQUIRED_BYTES_PER_PIXEL {
        Ok(())
    } else {
        Err(KernelInitError::FramebufferWrongSize)
    }
}

/// The physical memory offset must have been mapped by the boot loader.
pub fn require_physical_memory_offset(offset: Option<u64>) -> (r: Result<u64, KernelInitError>)
    ensures
        offset matches Some(o) ==> r == Ok::<u64, KernelInitError>(o),
        offset is None ==> r == Err::<u64, KernelInitError>(KernelInitError::PhysicalMemoryNotMapped),
{
    match offset {
        Some(o) => Ok(o),
        None => Err(KernelInitError::PhysicalMemoryNotMapped),
    }
}

/// Picks the first of the drives found, by index.
pub fn get_first_ata_drive(drive_count: usize) -> (r: Result<usize, KernelInitError>)
    ensures
        drive_count > 0 ==> r == Ok::<usize, KernelInitError>(0),
        drive_count == 0 ==> r == Err::<usize, KernelInitError>(KernelInitError::AtaNoDrive),
{
    if drive_count > 0 {
        Ok(0)
    } else {
        Err(KernelInitError::AtaNoDrive)
    }
}

/// The user data partition of the disk, in sectors of 512 bytes.
#[derive(Clone, Copy, Debug, PartialEq, Eq, Structural)]
pub struct Partition {
    pub start_sector: usize,
    pub sector_count: usize,
}

impl Partition {
    pub fn new(start_sector: usize, sector_count: usize) -> (r: Partition)
        ensures
            r.start_sector == start_sector,
            r.sector_count == sector_count,
    {
        Partition { start_sector, sector_count }
    }

    /// Size of the partition in KiB (two sectors per KiB).
    pub fn size_in_kib(&self) -> (r: usize)
        ensures
            r == self.sector_count / 2,
    {
        self.sector_count / 2
    }
}

/// The disk layout the kernel expects: entry 0 is the boot partition,
/// bootable and starting at sector 0; entry 1 is a used partition.
pub open spec fn disk_layout_ok(b: Seq<u8>) -> bool {
    &&& record_parses(b)
    &&& entry_at(b, 0).tag != 0
    &&& entry_at(b, 1).tag != 0
    &&& b[entry_offset(0)] == BOOTABLE_FLAG
    &&& entry_at(b, 0).start_sector == 0
}

/// Finds the user data partition in the boot record read from the first
/// sector of the drive.
pub fn get_user_partition(mbr_bytes: &[u8]) -> (r: Result<Partition, KernelInitError>)
    ensures
        r is Ok <==> disk_layout_ok(mbr_bytes@),
        r is Err ==> r == Err::<Partition, KernelInitError>(KernelInitError::InvalidDiskMbr),
        r matches Ok(p) ==> p.start_sector == entry_at(mbr_bytes@, 1).start_sector
            && p.sector_count == entry_at(mbr_bytes@, 1).sector_count,
{
    let entries = match partition_entries(mbr_bytes) {
        Some(v) => v,
        None => return Err(KernelInitError::InvalidDiskMbr),
    };
    assert(entries@[0] == entry_at(mbr_bytes@, 0));
    assert(entries@[1] == entry_at(mbr_bytes@, 1));
    if entries[0].tag == 0 || entries[1].tag == 0 {
        return Err(KernelInitError::InvalidDiskMbr);
    }
    if !entry_bootable(mbr_bytes, 0) || entries[0].start_sector != 0 {
        return Err(KernelInitError::InvalidDiskMbr);
    }
    Ok(Partition::new(entries[1].start_sector as usize, entries[1].sector_count as usize))
}

/// The kernel runs until a fatal condition; then it halts for good.
#[derive(Clone, Copy, Debug, PartialEq, Eq, Structural)]
pub enum KernelState {
    Running,
    Halted,
}

/// A fatal condition, with what the diagnostic reports of it.
#[derive(Clone, Copy, Debug, PartialEq, Eq, Structural)]
pub enum FatalCause {
    Panic,
    Init(KernelInitError),
    AllocFailed { size: usize, align: usize },
    UnhandledException { vector: u8 },
}

/// What happens to the kernel on a fatal condition, whatever its state:
/// it is halted, and `Halted` is never left.
pub fn on_fatal(state: KernelState, cause: FatalCause) -> (r: KernelState)
    ensures
        r == KernelState::Halted,
{
    KernelState::Halted
}

/// The report for a failed heap allocation of `size` bytes aligned to
/// `align`; the kernel halts after it.
pub fn alloc_error_handler(size: usize, align: usize) -> (r: FatalCause)
    ensures
        r == (FatalCause::AllocFailed { size, align }),
{
    FatalCause::AllocFailed { size, align }
}

/// A once-set slot for the framebuffer shape: set during boot, read-only
/// after; a read before it is set is an error, not a guess.
pub struct FramebufferSlot {
    shape: Option<FrameBufferShape>,
}

#[derive(Clone, Copy, Debug, PartialEq, Eq, Structural)]
pub enum SlotError {
    AlreadySet,
    NotSet,
}

impl FramebufferSlot {
    pub closed spec fn view_shape(&self) -> Option<FrameBufferShape> {
        self.shape
    }

    pub fn new() -> (r: FramebufferSlot)
        ensures
            r.view_shape() is None,
    {
        FramebufferSlot { shape: None }
    }

    /// Installs the shape; a second install is refused and changes nothing.
    pub fn set(&mut self, shape: FrameBufferShape) -> (r: Result<(), SlotError>)
        ensures
            old(self).view_shape() is None ==> r is Ok && final(self).view_shape() == Some(shape),
            old(self).view_shape() is Some ==> r == Err::<(), SlotError>(SlotError::AlreadySet)
                && final(self).view_shape() == old(self).view_shape(),
    {
        if self.shape.is_some() {
            return Err(SlotError::AlreadySet);
        }
        self.shape = Some(shape);
        Ok(())
    }

    /// The installed shape, or `NotSet` before boot installed one.
    pub fn get(&self) -> (r: Result<FrameBufferShape, SlotError>)
        ensures
            self.view_shape() matches Some(s) ==> r == Ok::<FrameBufferShape, SlotError>(s),
            self.view_shape() is None ==> r == Err::<FrameBufferShape, SlotError>(SlotError::NotSet),
    {
        match self.shape {
            Some(s) => Ok(s),
            None => Err(SlotError::NotSet),
        }
    }
}

} // verus!
