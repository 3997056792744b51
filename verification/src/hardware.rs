//! Interrupt vectors, local APIC register offsets, and the frame allocator
//! that hands out nothing.
use vstd::prelude::*;

verus! {

/// First vector of the primary interrupt controller.
pub const PIC_1_OFFSET: u8 = 32;
/// First vector of the secondary interrupt controller.
pub const PIC_2_OFFSET: u8 = 40;
/// Vector of the keyboard interrupt.
pub const KEYBOARD_INTERRUPT: u8 = 33;
/// Vector of the mouse interrupt.
pub const MOUSE_INTERRUPT: u8 = 44;

/// The hardware interrupts the kernel handles.
#[derive(Debug, Clone, Copy, PartialEq, Eq, Structural)]
pub enum InterruptIndex {
    Timer,
    Keyboard,
    Mouse,
}

impl InterruptIndex {
    pub open spec fn vector(self) -> u8 {
        match self {
            InterruptIndex::Timer => PIC_1_OFFSET,
            InterruptIndex::Keyboard => KEYBOARD_INTERRUPT,
            InterruptIndex::Mouse => MOUSE_INTERRUPT,
        }
    }

    /// The interrupt vector.
    pub fn as_u8(self) -> (r: u8)
        ensures
            r == self.vector(),
    {
        match self {
            InterruptIndex::Timer => PIC_1_OFFSET,
            InterruptIndex::Keyboard => KEYBOARD_INTERRUPT,
            InterruptIndex::Mouse => MOUSE_INTERRUPT,
        }
    }

    /// The interrupt vector as an index into the descriptor table.
    pub fn as_usize(self) -> (r: usize)
        ensures
            r == self.vector(),
    {
        self.as_u8() as usize
    }
}

/// Registers of the local APIC.
#[allow(non_camel_case_types)]
#[derive(Debug, Clone, Copy, PartialEq, Eq, Structural)]
pub enum APICOffset {
    /// RESERVED = 0x00
    R0x00,
    /// RESERVED = 0x10
    R0x10,
    /// ID Register
    Ir,
    /// Version Register
    Vr,
    /// RESERVED = 0x40
    R0x40,
    /// RESERVED = 0x50
    R0x50,
    /// RESERVED = 0x60
    R0x60,
    /// RESERVED = 0x70
    R0x70,
    /// Text Priority Register
    Tpr,
    /// Arbitration Priority Register
    Apr,
    /// Processor Priority Register
    Ppr,
    /// End of Interrupt
    Eoi,
    /// Remote Read Register
    Rrd,
    /// Logical Destination Register
    Ldr,
    /// DFR
    Dfr,
    /// Spurious (Interrupt) Vector Register
    Svr,
    /// In-Service Register 1
    Isr1,
    /// In-Service Register 2
    Isr2,
    /// In-Service Register 3
    Isr3,
    /// In-Service Register 4
    Isr4,
    /// In-Service Register 5
    Isr5,
    /// In-Service Register 6
    Isr6,
    /// In-Service Register 7
    Isr7,
    /// In-Service Register 8
    Isr8,
    /// Trigger Mode Register 1
    Tmr1,
    /// Trigger Mode Register 2
    Tmr2,
    /// Trigger Mode Register 3
    Tmr3,
    /// Trigger Mode Register 4
    Tmr4,
    /// Trigger Mode Register 5
    Tmr5,
    /// Trigger Mode Register 6
    Tmr6,
    /// Trigger Mode Register 7
    Tmr7,
    /// Trigger Mode Register 8
    Tmr8,
    /// Interrupt Request Register 1
    Irr1,
    /// Interrupt Request Register 2
    Irr2,
    /// Interrupt Request Register 3
    Irr3,
    /// Interrupt Request Register 4
    Irr4,
    /// Interrupt Request Register 5
    Irr5,
    /// Interrupt Request Register 6
    Irr6,
    /// Interrupt Request Register 7
    Irr7,
    /// Interrupt Request Register 8
    Irr8,
    /// Error Status Register
    Esr,
    /// RESERVED = 0x290
    R0x290,
    /// RESERVED = 0x2A0
    R0x2A0,
    /// RESERVED = 0x2B0
    R0x2B0,
    /// RESERVED = 0x2C0
    R0x2C0,
    /// RESERVED = 0x2D0
    R0x2D0,
    /// RESERVED = 0x2E0
    R0x2E0,
    /// LVT Corrected Machine Check Interrupt (CMCI) Register
    LvtCmci,
    /// Interrupt Command Register 1
    Icr1,
    /// Interrupt Command Register 2
    Icr2,
    /// LVT Timer Register
    LvtT,
    /// LVT Thermal Sensor Register
    LvtTsr,
    /// LVT Performance Monitoring Counters Register
    LvtPmcr,
    /// LVT LINT0 Register
    LvtLint0,
    /// LVT LINT1 Register
    LvtLint1,
    /// LVT Error Register
    LvtE,
    /// Initial Count Register (for Timer)
    Ticr,
    /// Current Count Register (for Timer)
    Tccr,
    /// RESERVED = 0x3A0
    R0x3A0,
    /// RESERVED = 0x3B0
    R0x3B0,
    /// RESERVED = 0x3C0
    R0x3C0,
    /// RESERVED = 0x3D0
    R0x3D0,
    /// Divide Configuration Register (for Timer)
    Tdcr,
    /// RESERVED = 0x3F0
    R0x3F0,
}

impl APICOffset {
    pub open spec fn spec_offset(self) -> u64 {
        match self {
        APICOffset::R0x00 => 0x0,
        APICOffset::R0x10 => 0x10,
        APICOffset::Ir => 0x20,
        APICOffset::Vr => 0x30,
        APICOffset::R0x40 => 0x40,
        APICOffset::R0x50 => 0x50,
        APICOffset::R0x60 => 0x60,
        APICOffset::R0x70 => 0x70,
        APICOffset::Tpr => 0x80,
        APICOffset::Apr => 0x90,
        APICOffset::Ppr => 0xA0,
        APICOffset::Eoi => 0xB0,
        APICOffset::Rrd => 0xC0,
        APICOffset::Ldr => 0xD0,
        APICOffset::Dfr => 0xE0,
        APICOffset::Svr => 0xF0,
        APICOffset::Isr1 => 0x100,
        APICOffset::Isr2 => 0x110,
        APICOffset::Isr3 => 0x120,
        APICOffset::Isr4 => 0x130,
        APICOffset::Isr5 => 0x140,
        APICOffset::Isr6 => 0x150,
        APICOffset::Isr7 => 0x160,
        APICOffset::Isr8 => 0x170,
        APICOffset::Tmr1 => 0x180,
        APICOffset::Tmr2 => 0x190,
        APICOffset::Tmr3 => 0x1A0,
        APICOffset::Tmr4 => 0x1B0,
        APICOffset::Tmr5 => 0x1C0,
        APICOffset::Tmr6 => 0x1D0,
        APICOffset::Tmr7 => 0x1E0,
        APICOffset::Tmr8 => 0x1F0,
        APICOffset::Irr1 => 0x200,
        APICOffset::Irr2 => 0x210,
        APICOffset::Irr3 => 0x220,
        APICOffset::Irr4 => 0x230,
        APICOffset::Irr5 => 0x240,
        APICOffset::Irr6 => 0x250,
        APICOffset::Irr7 => 0x260,
        APICOffset::Irr8 => 0x270,
        APICOffset::Esr => 0x280,
        APICOffset::R0x290 => 0x290,
        APICOffset::R0x2A0 => 0x2A0,
        APICOffset::R0x2B0 => 0x2B0,
        APICOffset::R0x2C0 => 0x2C0,
        APICOffset::R0x2D0 => 0x2D0,
        APICOffset::R0x2E0 => 0x2E0,
        APICOffset::LvtCmci => 0x2F0,
        APICOffset::Icr1 => 0x300,
        APICOffset::Icr2 => 0x310,
        APICOffset::LvtT => 0x320,
        APICOffset::LvtTsr => 0x330,
        APICOffset::LvtPmcr => 0x340,
        APICOffset::LvtLint0 => 0x350,
        APICOffset::LvtLint1 => 0x360,
        APICOffset::LvtE => 0x370,
        APICOffset::Ticr => 0x380,
        APICOffset::Tccr => 0x390,
        APICOffset::R0x3A0 => 0x3A0,
        APICOffset::R0x3B0 => 0x3B0,
        APICOffset::R0x3C0 => 0x3C0,
        APICOffset::R0x3D0 => 0x3D0,
        APICOffset::Tdcr => 0x3E0,
        APICOffset::R0x3F0 => 0x3F0,
        }
    }

    /// Byte offset of the register from the APIC base address.
    pub fn offset(self) -> (r: u64)
        ensures
            r == self.spec_offset(),
    {
        match self {
            APICOffset::R0x00 => 0x0,
            APICOffset::R0x10 => 0x10,
            APICOffset::Ir => 0x20,
            APICOffset::Vr => 0x30,
            APICOffset::R0x40 => 0x40,
            APICOffset::R0x50 => 0x50,
            APICOffset::R0x60 => 0x60,
            APICOffset::R0x70 => 0x70,
            APICOffset::Tpr => 0x80,
            APICOffset::Apr => 0x90,
            APICOffset::Ppr => 0xA0,
            APICOffset::Eoi => 0xB0,
            APICOffset::Rrd => 0xC0,
            APICOffset::Ldr => 0xD0,
            APICOffset::Dfr => 0xE0,
            APICOffset::Svr => 0xF0,
            APICOffset::Isr1 => 0x100,
            APICOffset::Isr2 => 0x110,
            APICOffset::Isr3 => 0x120,
            APICOffset::Isr4 => 0x130,
            APICOffset::Isr5 => 0x140,
            APICOffset::Isr6 => 0x150,
            APICOffset::Isr7 => 0x160,
            APICOffset::Isr8 => 0x170,
            APICOffset::Tmr1 => 0x180,
            APICOffset::Tmr2 => 0x190,
            APICOffset::Tmr3 => 0x1A0,
            APICOffset::Tmr4 => 0x1B0,
            APICOffset::Tmr5 => 0x1C0,
            APICOffset::Tmr6 => 0x1D0,
            APICOffset::Tmr7 => 0x1E0,
            APICOffset::Tmr8 => 0x1F0,
            APICOffset::Irr1 => 0x200,
            APICOffset::Irr2 => 0x210,
            APICOffset::Irr3 => 0x220,
            APICOffset::Irr4 => 0x230,
            APICOffset::Irr5 => 0x240,
            APICOffset::Irr6 => 0x250,
            APICOffset::Irr7 => 0x260,
            APICOffset::Irr8 => 0x270,
            APICOffset::Esr => 0x280,
            APICOffset::R0x290 => 0x290,
            APICOffset::R0x2A0 => 0x2A0,
            APICOffset::R0x2B0 => 0x2B0,
            APICOffset::R0x2C0 => 0x2C0,
            APICOffset::R0x2D0 => 0x2D0,
            APICOffset::R0x2E0 => 0x2E0,
            APICOffset::LvtCmci => 0x2F0,
            APICOffset::Icr1 => 0x300,
            APICOffset::Icr2 => 0x310,
            APICOffset::LvtT => 0x320,
            APICOffset::LvtTsr => 0x330,
            APICOffset::LvtPmcr => 0x340,
            APICOffset::LvtLint0 => 0x350,
            APICOffset::LvtLint1 => 0x360,
            APICOffset::LvtE => 0x370,
            APICOffset::Ticr => 0x380,
            APICOffset::Tccr => 0x390,
            APICOffset::R0x3A0 => 0x3A0,
            APICOffset::R0x3B0 => 0x3B0,
            APICOffset::R0x3C0 => 0x3C0,
            APICOffset::R0x3D0 => 0x3D0,
            APICOffset::Tdcr => 0x3E0,
            APICOffset::R0x3F0 => 0x3F0,
        }
    }
}

/// Where the local APIC's registers are mapped (0 until it is mapped).
pub struct LAPICAddress {
    address: u64,
}

impl LAPICAddress {
    pub closed spec fn spec_address(&self) -> u64 {
        self.address
    }

    /// Not yet mapped.
    pub fn new() -> (r: LAPICAddress)
        ensures
            r.spec_address() == 0,
    {
        LAPICAddress { address: 0 }
    }

    /// Records the address the registers are mapped at.
    pub fn set(&mut self, address: u64)
        ensures
            final(self).spec_address() == address,
    {
        self.address = address;
    }

    pub fn get(&self) -> (r: u64)
        ensures
            r == self.spec_address(),
    {
        self.address
    }

    /// The address of register `offset` (`None` past the end of the address space).
    pub fn register_address(&self, offset: APICOffset) -> (r: Option<u64>)
        ensures
            self.spec_address() + offset.spec_offset() <= u64::MAX
                ==> r == Some((self.spec_address() + offset.spec_offset()) as u64),
            self.spec_address() + offset.spec_offset() > u64::MAX ==> r is None,
    {
        let off = offset.offset();
        if self.address > u64::MAX - off {
            return None;
        }
        Some(self.address + off)
    }
}

/// A frame allocator with no frames.
pub struct EmptyFrameAllocator;

impl EmptyFrameAllocator {
    /// Never a frame.
    pub fn allocate_frame(&mut self) -> (r: Option<u64>)
        ensures
            r is None,
    {
        None
    }
}

/// The largest write a program may ask for in one call (1 MiB).
pub const MAX_WRITE_COUNT: u64 = 1024 * 1024;

/// What the write system call answers: the byte count for a write to
/// standard output (descriptor 1) of at most `MAX_WRITE_COUNT` bytes from a
/// non-null buffer below kernel space, and 0 for anything else.
pub open spec fn write_result(fd: u64, buf_ptr: u64, count: u64) -> u64 {
    if fd != 1 || count > MAX_WRITE_COUNT || buf_ptr == 0 || buf_ptr >= crate::process::KERNEL_SPACE_START {
        0
    } else {
        count
    }
}

/// Checks the arguments of the write system call (see `write_result`).
pub fn sys_write_checked(fd: u64, buf_ptr: u64, count: u64) -> (r: u64)
    ensures
        r == write_result(fd, buf_ptr, count),
{
    if fd != 1 {
        return 0;
    }
    if count > MAX_WRITE_COUNT {
        return 0;
    }
    if buf_ptr == 0 {
        return 0;
    }
    if buf_ptr >= crate::process::KERNEL_SPACE_START {
        return 0;
    }
    count
}

} // verus!
