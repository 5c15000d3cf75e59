use vstd::prelude::*;
use x86_64::registers::segmentation::SegmentSelector;
use x86_64::PrivilegeLevel;

verus! {

pub const KERNEL_CODE_INDEX: u16 = 1;
pub const KERNEL_DATA_INDEX: u16 = 2;
pub const USER_CODE_INDEX: u16 = 3;
pub const USER_DATA_INDEX: u16 = 4;
pub const TSS_INDEX: u16 = 5;
pub const RING_KERNEL: u16 = 0;
pub const RING_USER: u16 = 3;

/// Number of interrupt and exception vectors.
pub const VECTOR_COUNT: usize = 256;
pub const VECTOR_BREAKPOINT: u8 = 3;
pub const VECTOR_DOUBLE_FAULT: u8 = 8;
pub const VECTOR_GENERAL_PROTECTION: u8 = 13;
pub const VECTOR_PAGE_FAULT: u8 = 14;
/// Index of the task-state segment's stack kept for double faults.
pub const DOUBLE_FAULT_STACK: u8 = 0;

/// The selector of segment `index` requested at privilege level `rpl`.
pub open spec fn selector_value(index: u16, rpl: u16) -> u16 {
    (index * 8 + rpl) as u16
}

/// Relies on x86_64's `SegmentSelector::new`: the index shifted left by
/// three, with the privilege level in the low two bits; `from_u16` maps
/// 0 to 3 onto the rings (and panics above 3).
#[verifier::external_body]
fn segment_selector(index: u16, rpl: u16) -> (r: u16)
    requires
        index < 8192,
        rpl <= 3,
    ensures
        r == selector_value(index, rpl),
{
    SegmentSelector::new(index, PrivilegeLevel::from_u16(rpl)).0
}

/// The selectors of the segment table: null, kernel code and data at ring
/// 0, user code and data at ring 3, then the task-state segment.
#[derive(Clone, Copy, Debug, PartialEq, Eq, Structural)]
pub struct Selectors {
    pub kernel_code: u16,
    pub kernel_data: u16,
    pub user_code: u16,
    pub user_data: u16,
    pub tss: u16,
}

pub fn segment_selectors() -> (r: Selectors)
    ensures
        r.kernel_code == selector_value(KERNEL_CODE_INDEX, RING_KERNEL),
        r.kernel_data == selector_value(KERNEL_DATA_INDEX, RING_KERNEL),
        r.user_code == selector_value(USER_CODE_INDEX, RING_USER),
        r.user_data == selector_value(USER_DATA_INDEX, RING_USER),
        r.tss == selector_value(TSS_INDEX, RING_KERNEL),
{
    Selectors {
        kernel_code: segment_selector(KERNEL_CODE_INDEX, RING_KERNEL),
        kernel_data: segment_selector(KERNEL_DATA_INDEX, RING_KERNEL),
        user_code: segment_selector(USER_CODE_INDEX, RING_USER),
        user_data: segment_selector(USER_DATA_INDEX, RING_USER),
        tss: segment_selector(TSS_INDEX, RING_KERNEL),
    }
}

/// The handlers the kernel installs.
#[derive(Clone, Copy, Debug, PartialEq, Eq, Structural)]
pub enum Handler {
    Breakpoint,
    DoubleFault,
    GeneralProtection,
    PageFault,
}

/// A bound vector: its handler, run at ring 0, and the task-state stack it
/// switches to, if any.
#[derive(Clone, Copy, Debug, PartialEq, Eq, Structural)]
pub struct Binding {
    pub handler: Handler,
    pub stack: Option<u8>,
}

/// Where an interrupt or exception goes.
#[derive(Clone, Copy, Debug, PartialEq, Eq, Structural)]
pub enum Route {
    Handle(Binding),
    /// No handler: report the vector, then halt.
    ReportAndHalt(u8),
}

/// The interrupt/exception vector table, one slot per vector.
pub struct VectorTable {
    slots: Vec<Option<Binding>>,
}

impl VectorTable {
    pub closed spec fn view_slots(&self) -> Seq<Option<Binding>> {
        self.slots@
    }

    pub open spec fn wf(&self) -> bool {
        self.view_slots().len() == VECTOR_COUNT
    }

    /// A table with every vector unbound.
    pub fn new() -> (r: VectorTable)
        ensures
            r.wf(),
            forall|v: int| 0 <= v < VECTOR_COUNT ==> #[trigger] r.view_slots()[v] is None,
    {
        let mut slots: Vec<Option<Binding>> = Vec::new();
        let mut i: usize = 0;
        while i < VECTOR_COUNT
            invariant
                i <= VECTOR_COUNT,
                slots@.len() == i,
                forall|v: int| 0 <= v < i ==> #[trigger] slots@[v] is None,
            decreases VECTOR_COUNT - i,
        {
            slots.push(None);
            i += 1;
        }
        VectorTable { slots }
    }

    /// Binds `vector`, replacing what was there; other vectors are unchanged.
    pub fn bind(&mut self, vector: u8, binding: Binding)
        requires
            old(self).wf(),
        ensures
            final(self).wf(),
            final(self).view_slots() == old(self).view_slots().update(vector as int, Some(binding)),
    {
        self.slots.set(vector as usize, Some(binding));
    }

    /// The route of `vector`: its handler if bound, else report and halt.
    pub fn route(&self, vector: u8) -> (r: Route)
        requires
            self.wf(),
        ensures
            self.view_slots()[vector as int] matches Some(b) ==> r == Route::Handle(b),
            self.view_slots()[vector as int] is None ==> r == Route::ReportAndHalt(vector),
    {
        match self.slots[vector as usize] {
            Some(b) => Route::Handle(b),
            None => Route::ReportAndHalt(vector),
        }
    }
}

/// The kernel's vector table: breakpoint, general protection and page
/// fault on the current stack, double fault on its own stack; every other
/// vector unbound.
pub fn kernel_vector_table() -> (r: VectorTable)
    ensures
        r.wf(),
        r.view_slots()[VECTOR_DOUBLE_FAULT as int] == Some(
            Binding { handler: Handler::DoubleFault, stack: Some(DOUBLE_FAULT_STACK) },
        ),
        r.view_slots()[VECTOR_BREAKPOINT as int] == Some(Binding { handler: Handler::Breakpoint, stack: None }),
        r.view_slots()[VECTOR_GENERAL_PROTECTION as int] == Some(
            Binding { handler: Handler::GeneralProtection, stack: None },
        ),
        r.view_slots()[VECTOR_PAGE_FAULT as int] == Some(Binding { handler: Handler::PageFault, stack: None }),
        forall|v: int| 0 <= v < VECTOR_COUNT && v != VECTOR_BREAKPOINT && v != VECTOR_DOUBLE_FAULT
            && v != VECTOR_GENERAL_PROTECTION && v != VECTOR_PAGE_FAULT ==> #[trigger] r.view_slots()[v] is None,
{
    let mut t = VectorTable::new();
    t.bind(VECTOR_BREAKPOINT, Binding { handler: Handler::Breakpoint, stack: None });
    t.bind(VECTOR_DOUBLE_FAULT, Binding { handler: Handler::DoubleFault, stack: Some(DOUBLE_FAULT_STACK) });
    t.bind(VECTOR_GENERAL_PROTECTION, Binding { handler: Handler::GeneralProtection, stack: None });
    t.bind(VECTOR_PAGE_FAULT, Binding { handler: Handler::PageFault, stack: None });
    t
}

/// The steps of bringing the kernel up, in the only order allowed.
#[derive(Clone, Copy, Debug, PartialEq, Eq, Structural)]
pub enum BootStage {
    Start,
    SegmentsLoaded,
    VectorsLoaded,
    MemoryReady,
    InterruptsEnabled,
    ProgramLoaded,
    UserMode,
}

pub open spec fn stage_index(s: BootStage) -> int {
    match s {
        BootStage::Start => 0,
        BootStage::SegmentsLoaded => 1,
        BootStage::VectorsLoaded => 2,
        BootStage::MemoryReady => 3,
        BootStage::InterruptsEnabled => 4,
        BootStage::ProgramLoaded => 5,
        BootStage::UserMode => 6,
    }
}

#[derive(Clone, Copy, Debug, PartialEq, Eq, Structural)]
pub struct OutOfOrder;

/// Moves boot from `current` to `next`; only the step right after
/// `current` is accepted.
pub fn advance(current: BootStage, next: BootStage) -> (r: Result<BootStage, OutOfOrder>)
    ensures
        r is Ok <==> stage_index(next) == stage_index(current) + 1,
        r matches Ok(s) ==> s == next,
{
    let ok = match (current, next) {
        (BootStage::Start, BootStage::SegmentsLoaded) => true,
        (BootStage::SegmentsLoaded, BootStage::VectorsLoaded) => true,
        (BootStage::VectorsLoaded, BootStage::MemoryReady) => true,
        (BootStage::MemoryReady, BootStage::InterruptsEnabled) => true,
        (BootStage::InterruptsEnabled, BootStage::ProgramLoaded) => true,
        (BootStage::ProgramLoaded, BootStage::UserMode) => true,
        _ => false,
    };
    if ok {
        Ok(next)
    } else {
        Err(OutOfOrder)
    }
}

} // verus!
