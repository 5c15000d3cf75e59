use marios_kernel::descriptors::{
    advance, kernel_vector_table, segment_selectors, Binding, BootStage, Handler, OutOfOrder, Route,
    VectorTable,
};
use marios_kernel::frame::{FrameAllocator, MemoryRegion, RegionKind};
use marios_kernel::loader::LoadedProgram;
use marios_kernel::paging::{entry_flags, AddressSpace, Permissions};
use marios_kernel::userspace::user_entry_frame;

#[test]
fn selectors_carry_index_and_ring() {
    let s = segment_selectors();
    assert_eq!(s.kernel_code, 0x08);
    assert_eq!(s.kernel_data, 0x10);
    assert_eq!(s.user_code, 0x1b);
    assert_eq!(s.user_data, 0x23);
    assert_eq!(s.tss, 0x28);
}

#[test]
fn unbound_vectors_report_and_halt() {
    let t = kernel_vector_table();
    assert_eq!(t.route(32), Route::ReportAndHalt(32));
    assert_eq!(t.route(255), Route::ReportAndHalt(255));
    assert_eq!(t.route(8), Route::Handle(Binding { handler: Handler::DoubleFault, stack: Some(0) }));
    assert_eq!(t.route(14), Route::Handle(Binding { handler: Handler::PageFault, stack: None }));
}

#[test]
fn binding_replaces_one_slot() {
    let mut t = VectorTable::new();
    assert_eq!(t.route(3), Route::ReportAndHalt(3));
    t.bind(3, Binding { handler: Handler::Breakpoint, stack: None });
    assert_eq!(t.route(3), Route::Handle(Binding { handler: Handler::Breakpoint, stack: None }));
    assert_eq!(t.route(4), Route::ReportAndHalt(4));
}

#[test]
fn boot_steps_follow_the_fixed_order() {
    assert_eq!(advance(BootStage::Start, BootStage::SegmentsLoaded), Ok(BootStage::SegmentsLoaded));
    assert_eq!(advance(BootStage::SegmentsLoaded, BootStage::VectorsLoaded), Ok(BootStage::VectorsLoaded));
    assert_eq!(advance(BootStage::Start, BootStage::VectorsLoaded), Err(OutOfOrder));
    assert_eq!(advance(BootStage::VectorsLoaded, BootStage::InterruptsEnabled), Err(OutOfOrder));
    assert_eq!(advance(BootStage::UserMode, BootStage::Start), Err(OutOfOrder));
}

#[test]
fn page_table_entry_bits() {
    let rw = Permissions { writable: true, user: true, executable: false };
    let rx = Permissions { writable: false, user: true, executable: true };
    assert_eq!(entry_flags(rw), 0x8000_0000_0000_0007);
    assert_eq!(entry_flags(rx), 0x5);
    let mut alloc = FrameAllocator::new(vec![MemoryRegion { start: 0x10_0000, end: 0x20_0000, kind: RegionKind::Usable }]);
    let mut space = AddressSpace::new(&mut alloc).unwrap();
    space.map(&mut alloc, 0x40_0000, 0x5000, rx).unwrap();
    assert_eq!(space.page_table_entry(0x40_0000), Some(0x5005));
    assert_eq!(space.page_table_entry(0x40_1000), None);
}

#[test]
fn user_entry_frame_values() {
    let prog = LoadedProgram { entry: 0x40_1000, stack_top: 0x7fff_ffff_f000 };
    let f = user_entry_frame(prog, segment_selectors());
    assert_eq!(f.instruction_pointer, 0x40_1000);
    assert_eq!(f.stack_pointer, 0x7fff_ffff_f000);
    assert_eq!(f.code_segment, 0x1b);
    assert_eq!(f.stack_segment, 0x23);
    assert_eq!(f.cpu_flags, 0x202);
}
