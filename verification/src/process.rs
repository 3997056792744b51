//! Processes: their saved state, the checks made before switching to one,
//! and the table the scheduler picks from.
use vstd::prelude::*;

verus! {

#[derive(Debug, Clone, Copy, PartialEq, Eq, Structural)]
pub enum ProcessState {
    Ready,
    Running,
    Terminated,
}

#[derive(Debug, Clone, Copy, PartialEq, Eq, Structural)]
pub enum ProcessType {
    User,
    Kernel,
}

#[derive(Debug, Clone, Copy, PartialEq, Eq, Structural)]
pub enum ProcessError {
    OutOfMemory,
    InvalidProgram,
    InvalidStateTransition,
    InvalidInstructionPointer,
    InvalidStackPointer,
}

/// First address of the kernel half of the address space.
pub const KERNEL_SPACE_START: u64 = 0xFFFF800000000000;

/// Lowest address a stack or instruction pointer may hold (page 0 is never mapped).
pub const LOWEST_VALID_ADDRESS: u64 = 0x1000;

/// RFLAGS bits that must be clear.
pub const RFLAGS_RESERVED_MASK: u64 = 0xFFFF_FFFF_FFC0_8028;

/// The error for a bad address: a stack pointer or an instruction pointer one.
pub open spec fn address_error(is_stack: bool) -> ProcessError {
    if is_stack { ProcessError::InvalidStackPointer } else { ProcessError::InvalidInstructionPointer }
}

/// The basic address check: not null, 16-byte aligned for stacks, below the
/// kernel half for user addresses.
pub open spec fn address_check(addr: u64, is_stack: bool, is_user: bool) -> Result<(), ProcessError> {
    if addr == 0 {
        Err(address_error(is_stack))
    } else if is_stack && addr % 16 != 0 {
        Err(ProcessError::InvalidStackPointer)
    } else if is_user && addr >= KERNEL_SPACE_START {
        Err(address_error(is_stack))
    } else {
        Ok(())
    }
}

/// The check of a stack pointer (`is_stack`) or instruction pointer for a
/// process of type `t`: the basic check, then (for user processes) below the
/// kernel half, and not in page 0.
pub open spec fn pointer_check(addr: u64, t: ProcessType, is_stack: bool) -> Result<(), ProcessError> {
    let is_user = t == ProcessType::User;
    match address_check(addr, is_stack, is_user) {
        Err(e) => Err(e),
        Ok(()) => if is_user && addr >= KERNEL_SPACE_START {
            Err(address_error(is_stack))
        } else if addr < LOWEST_VALID_ADDRESS {
            Err(address_error(is_stack))
        } else {
            Ok(())
        },
    }
}

/// RFLAGS must have bit 1 set and the reserved bits clear.
pub open spec fn rflags_check(rflags: u64) -> Result<(), ProcessError> {
    if rflags & 0x2 == 0 {
        Err(ProcessError::InvalidStateTransition)
    } else if rflags & RFLAGS_RESERVED_MASK != 0 {
        Err(ProcessError::InvalidStateTransition)
    } else {
        Ok(())
    }
}

/// A page-table frame must be page aligned and not null.
pub open spec fn frame_check(frame_addr: u64) -> Result<(), ProcessError> {
    if frame_addr % 4096 != 0 || frame_addr == 0 {
        Err(ProcessError::OutOfMemory)
    } else {
        Ok(())
    }
}

impl ProcessError {
    fn validate_virtual_address(addr: u64, is_stack: bool, is_user: bool) -> (r: Result<(), ProcessError>)
        ensures
            r == address_check(addr, is_stack, is_user),
    {
        if addr == 0 {
            return Err(if is_stack { ProcessError::InvalidStackPointer } else { ProcessError::InvalidInstructionPointer });
        }
        if is_stack && addr % 16 != 0 {
            return Err(ProcessError::InvalidStackPointer);
        }
        if is_user && addr >= KERNEL_SPACE_START {
            return Err(if is_stack { ProcessError::InvalidStackPointer } else { ProcessError::InvalidInstructionPointer });
        }
        Ok(())
    }

    /// Checks a stack pointer for a process of type `process_type`.
    pub fn validate_stack_pointer(sp: u64, process_type: ProcessType) -> (r: Result<(), ProcessError>)
        ensures
            r == pointer_check(sp, process_type, true),
    {
        match process_type {
            ProcessType::User => {
                let rr = Self::validate_virtual_address(sp, true, true);
                if rr.is_err() {
                    return rr;
                }
                if sp >= KERNEL_SPACE_START {
                    return Err(ProcessError::InvalidStackPointer);
                }
                if sp < LOWEST_VALID_ADDRESS {
                    return Err(ProcessError::InvalidStackPointer);
                }
            },
            ProcessType::Kernel => {
                let rr = Self::validate_virtual_address(sp, true, false);
                if rr.is_err() {
                    return rr;
                }
                if sp < LOWEST_VALID_ADDRESS {
                    return Err(ProcessError::InvalidStackPointer);
                }
            },
        }
        Ok(())
    }

    /// Checks an instruction pointer for a process of type `process_type`.
    pub fn validate_instruction_pointer(ip: u64, process_type: ProcessType) -> (r: Result<(), ProcessError>)
        ensures
            r == pointer_check(ip, process_type, false),
    {
        match process_type {
            ProcessType::User => {
                let rr = Self::validate_virtual_address(ip, false, true);
                if rr.is_err() {
                    return rr;
                }
                if ip >= KERNEL_SPACE_START {
                    return Err(ProcessError::InvalidInstructionPointer);
                }
                if ip < LOWEST_VALID_ADDRESS {
                    return Err(ProcessError::InvalidInstructionPointer);
                }
            },
            ProcessType::Kernel => {
                let rr = Self::validate_virtual_address(ip, false, false);
                if rr.is_err() {
                    return rr;
                }
                if ip < LOWEST_VALID_ADDRESS {
                    return Err(ProcessError::InvalidInstructionPointer);
                }
            },
        }
        Ok(())
    }

    /// Checks saved RFLAGS.
    pub fn validate_rflags(rflags: u64) -> (r: Result<(), ProcessError>)
        ensures
            r == rflags_check(rflags),
    {
        if rflags & 0x2 == 0 {
            return Err(ProcessError::InvalidStateTransition);
        }
        if rflags & RFLAGS_RESERVED_MASK != 0 {
            return Err(ProcessError::InvalidStateTransition);
        }
        Ok(())
    }

    /// Checks the start address of a page-table frame.
    pub fn validate_page_table_frame(frame_addr: u64) -> (r: Result<(), ProcessError>)
        ensures
            r == frame_check(frame_addr),
    {
        if frame_addr % 4096 != 0 {
            return Err(ProcessError::OutOfMemory);
        }
        if frame_addr == 0 {
            return Err(ProcessError::OutOfMemory);
        }
        Ok(())
    }
}

/// Registers saved when a process is interrupted.
#[derive(Clone, Copy, Debug)]
pub struct RegisterState {
    pub r15: u64,
    pub r14: u64,
    pub r13: u64,
    pub r12: u64,
    pub r11: u64,
    pub r10: u64,
    pub r9: u64,
    pub r8: u64,
    pub rsi: u64,
    pub rdi: u64,
    pub rbp: u64,
    pub rdx: u64,
    pub rcx: u64,
    pub rbx: u64,
    pub rax: u64,
    pub rip: u64,
    pub rflags: u64,
    pub rsp: u64,
}

/// Default RFLAGS of a new process: bit 1 and interrupts enabled.
pub const DEFAULT_RFLAGS: u64 = 0x202;

impl RegisterState {
    /// All registers zero, RFLAGS with interrupts enabled.
    pub fn new() -> (r: RegisterState)
        ensures
            r.r15 == 0 && r.r14 == 0 && r.r13 == 0 && r.r12 == 0 && r.r11 == 0 && r.r10 == 0 && r.r9 == 0 && r.r8 == 0,
            r.rsi == 0 && r.rdi == 0 && r.rbp == 0 && r.rdx == 0 && r.rcx == 0 && r.rbx == 0 && r.rax == 0,
            r.rip == 0 && r.rsp == 0,
            r.rflags == DEFAULT_RFLAGS,
    {
        RegisterState {
            r15: 0,
            r14: 0,
            r13: 0,
            r12: 0,
            r11: 0,
            r10: 0,
            r9: 0,
            r8: 0,
            rsi: 0,
            rdi: 0,
            rbp: 0,
            rdx: 0,
            rcx: 0,
            rbx: 0,
            rax: 0,
            rip: 0,
            rflags: DEFAULT_RFLAGS,
            rsp: 0,
        }
    }
}

/// A process: its identity and state, the frame of its page table, and where
/// it resumes.
#[derive(Clone, Copy)]
pub struct Process {
    pub pid: u32,
    pub state: ProcessState,
    pub process_type: ProcessType,
    pub page_table_frame: u64,
    pub stack_pointer: u64,
    pub instruction_pointer: u64,
    pub registers: RegisterState,
    pub has_saved_state: bool,
}

/// The checks made before switching to a process, in order.
pub open spec fn process_check(p: Process) -> Result<(), ProcessError> {
    if pointer_check(p.stack_pointer, p.process_type, true) is Err {
        pointer_check(p.stack_pointer, p.process_type, true)
    } else if pointer_check(p.instruction_pointer, p.process_type, false) is Err {
        pointer_check(p.instruction_pointer, p.process_type, false)
    } else if p.process_type == ProcessType::User && frame_check(p.page_table_frame) is Err {
        frame_check(p.page_table_frame)
    } else if p.has_saved_state && rflags_check(p.registers.rflags) is Err {
        rflags_check(p.registers.rflags)
    } else if p.has_saved_state && pointer_check(p.registers.rsp, p.process_type, true) is Err {
        pointer_check(p.registers.rsp, p.process_type, true)
    } else if p.has_saved_state && pointer_check(p.registers.rip, p.process_type, false) is Err {
        pointer_check(p.registers.rip, p.process_type, false)
    } else {
        Ok(())
    }
}

impl Process {
    /// Checks that the process can be switched to (see `process_check`).
    pub fn validate(&self) -> (r: Result<(), ProcessError>)
        ensures
            r == process_check(*self),
    {
        let rr = ProcessError::validate_stack_pointer(self.stack_pointer, self.process_type);
        if rr.is_err() {
            return rr;
        }
        let rr = ProcessError::validate_instruction_pointer(self.instruction_pointer, self.process_type);
        if rr.is_err() {
            return rr;
        }
        if self.process_type == ProcessType::User {
            let rr = ProcessError::validate_page_table_frame(self.page_table_frame);
            if rr.is_err() {
                return rr;
            }
        }
        if self.has_saved_state {
            let rr = ProcessError::validate_rflags(self.registers.rflags);
            if rr.is_err() {
                return rr;
            }
            let rr = ProcessError::validate_stack_pointer(self.registers.rsp, self.process_type);
            if rr.is_err() {
                return rr;
            }
            let rr = ProcessError::validate_instruction_pointer(self.registers.rip, self.process_type);
            if rr.is_err() {
                return rr;
            }
        }
        Ok(())
    }

    /// Marks the process terminated (its address space is released by the caller).
    pub fn cleanup_resources(&mut self)
        ensures
            *final(self) == (Process { state: ProcessState::Terminated, ..*old(self) }),
    {
        self.state = ProcessState::Terminated;
    }
}

/// Ends a process: a kernel process loses its stack and instruction pointers,
/// a user process is cleaned up.
pub fn kill_process(process: &mut Process) -> (r: Result<(), ProcessError>)
    ensures
        r is Ok,
        old(process).process_type == ProcessType::Kernel ==> *final(process) == (Process { stack_pointer: 0, instruction_pointer: 0, ..*old(process) }),
        old(process).process_type == ProcessType::User ==> *final(process) == (Process { state: ProcessState::Terminated, ..*old(process) }),
{
    match process.process_type {
        ProcessType::Kernel => {
            process.stack_pointer = 0;
            process.instruction_pointer = 0;
        },
        ProcessType::User => {
            process.cleanup_resources();
        },
    }
    Ok(())
}


/// The table of processes and the scheduling state.
pub struct ProcessManager {
    processes: Vec<Process>,
    current_pid: u32,
    next_pid: u32,
    kernel_cr3: u64,
}

pub struct ProcessManagerView {
    pub processes: Seq<Process>,
    pub current_pid: u32,
    pub next_pid: u32,
    pub kernel_cr3: u64,
}

impl View for ProcessManager {
    type V = ProcessManagerView;

    closed spec fn view(&self) -> ProcessManagerView {
        ProcessManagerView {
            processes: self.processes@,
            current_pid: self.current_pid,
            next_pid: self.next_pid,
            kernel_cr3: self.kernel_cr3,
        }
    }
}

/// Index of the first process with pid `pid`.
pub open spec fn find_pid(ps: Seq<Process>, pid: u32) -> Option<int>
    decreases ps.len(),
{
    if ps.len() == 0 {
        None
    } else if ps.last().pid == pid && find_pid(ps.drop_last(), pid) is None {
        Some(ps.len() - 1)
    } else {
        find_pid(ps.drop_last(), pid)
    }
}

/// Index of the first ready process.
pub open spec fn first_ready(ps: Seq<Process>) -> Option<int> {
    if exists|i: int| 0 <= i < ps.len() && ps[i].state == ProcessState::Ready {
        Some(choose|i: int| 0 <= i < ps.len() && ps[i].state == ProcessState::Ready
            && forall|j: int| 0 <= j < i ==> ps[j].state != ProcessState::Ready)
    } else {
        None
    }
}

/// The pid of the first ready process met going round the table from `start`,
/// looking at `n` more entries.
pub open spec fn ready_from(ps: Seq<Process>, start: int, k: int) -> Option<u32>
    decreases ps.len() - k,
{
    if k >= ps.len() || k < 0 {
        None
    } else if ps[(start + k) % (ps.len() as int)].state == ProcessState::Ready {
        Some(ps[(start + k) % (ps.len() as int)].pid)
    } else {
        ready_from(ps, start, k + 1)
    }
}

/// Where the round-robin search starts: just after the current process, or at
/// the start when there is none.
pub open spec fn rr_start(ps: Seq<Process>, current_pid: u32) -> int {
    if current_pid == 0 {
        0
    } else {
        match find_pid(ps, current_pid) {
            Some(i) => (i + 1) % (ps.len() as int),
            None => 0,
        }
    }
}

/// Round-robin choice of the next process: the first ready process after the
/// current one (from the start when there is none); else the current process
/// when it is still in the table.
pub open spec fn next_ready(ps: Seq<Process>, current_pid: u32) -> Option<u32> {
    match ready_from(ps, rr_start(ps, current_pid), 0) {
        Some(pid) => Some(pid),
        None => if current_pid != 0 && find_pid(ps, current_pid) is Some { Some(current_pid) } else { None },
    }
}

/// A kernel process starting at `entry_point` with stack `stack_ptr`, running
/// on the kernel page table.
pub open spec fn kernel_process(pid: u32, frame: u64, entry_point: u64, stack_ptr: u64) -> Process {
    Process {
        pid,
        state: ProcessState::Ready,
        process_type: ProcessType::Kernel,
        page_table_frame: frame,
        stack_pointer: stack_ptr,
        instruction_pointer: entry_point,
        registers: RegisterState { rsp: stack_ptr, rip: entry_point, ..default_registers() },
        has_saved_state: false,
    }
}

pub open spec fn default_registers() -> RegisterState {
    RegisterState {
        r15: 0, r14: 0, r13: 0, r12: 0, r11: 0, r10: 0, r9: 0, r8: 0,
        rsi: 0, rdi: 0, rbp: 0, rdx: 0, rcx: 0, rbx: 0, rax: 0,
        rip: 0, rflags: DEFAULT_RFLAGS, rsp: 0,
    }
}

impl ProcessManager {
    /// An empty table; `kernel_cr3` is the kernel's page-table register.
    pub fn new(kernel_cr3: u64) -> (r: ProcessManager)
        ensures
            r@.processes.len() == 0,
            r@.current_pid == 0,
            r@.next_pid == 1,
            r@.kernel_cr3 == kernel_cr3,
    {
        ProcessManager { processes: Vec::new(), current_pid: 0, next_pid: 1, kernel_cr3 }
    }

    /// Checks `process` and adds it under the next pid, which is returned.
    pub fn register_process(&mut self, process: Process) -> (r: Result<u32, ProcessError>)
        requires
            old(self)@.next_pid < u32::MAX,
        ensures
            r == match process_check(process) {
                Err(e) => Err(e),
                Ok(()) => Ok(old(self)@.next_pid),
            },
            r is Err ==> final(self)@ == old(self)@,
            r is Ok ==> final(self)@ == (ProcessManagerView {
                processes: old(self)@.processes.push(Process { pid: old(self)@.next_pid, ..process }),
                next_pid: (old(self)@.next_pid + 1) as u32,
                ..old(self)@
            }),
    {
        let mut p = process;
        p.pid = self.next_pid;
        let rr = p.validate();
        if rr.is_err() {
            return Err(rr.unwrap_err());
        }
        let pid = self.next_pid;
        self.processes.push(p);
        self.next_pid = self.next_pid + 1;
        Ok(pid)
    }

    /// Adds a kernel process starting at `entry_point` with stack `stack_ptr`
    /// (checked first), on the kernel page table; returns its pid.
    pub fn create_kernel_process(&mut self, entry_point: u64, stack_ptr: u64) -> (r: Result<u32, ProcessError>)
        requires
            old(self)@.next_pid < u32::MAX,
        ensures
            pointer_check(stack_ptr, ProcessType::Kernel, true) is Err ==> (r matches Err(e)
                && pointer_check(stack_ptr, ProcessType::Kernel, true) == Err::<(), ProcessError>(e))
                && final(self)@ == old(self)@,
            pointer_check(stack_ptr, ProcessType::Kernel, true) is Ok && pointer_check(entry_point, ProcessType::Kernel, false) is Err
                ==> (r matches Err(e) && pointer_check(entry_point, ProcessType::Kernel, false) == Err::<(), ProcessError>(e))
                && final(self)@ == old(self)@,
            pointer_check(stack_ptr, ProcessType::Kernel, true) is Ok && pointer_check(entry_point, ProcessType::Kernel, false) is Ok
                ==> r == Ok::<u32, ProcessError>(old(self)@.next_pid) && final(self)@ == (ProcessManagerView {
                    processes: old(self)@.processes.push(kernel_process(old(self)@.next_pid, ((old(self)@.kernel_cr3 / 4096) * 4096) as u64, entry_point, stack_ptr)),
                    next_pid: (old(self)@.next_pid + 1) as u32,
                    ..old(self)@
                }),
    {
        let frame = (self.kernel_cr3 / 4096) * 4096;
        let rr = ProcessError::validate_stack_pointer(stack_ptr, ProcessType::Kernel);
        if rr.is_err() {
            return Err(rr.unwrap_err());
        }
        let rr = ProcessError::validate_instruction_pointer(entry_point, ProcessType::Kernel);
        if rr.is_err() {
            return Err(rr.unwrap_err());
        }
        let mut regs = RegisterState::new();
        regs.rsp = stack_ptr;
        regs.rip = entry_point;
        let process = Process {
            pid: self.next_pid,
            state: ProcessState::Ready,
            process_type: ProcessType::Kernel,
            page_table_frame: frame,
            stack_pointer: stack_ptr,
            instruction_pointer: entry_point,
            registers: regs,
            has_saved_state: false,
        };
        assert(process == kernel_process(self.next_pid, frame, entry_point, stack_ptr));
        self.register_process(process)
    }

    /// The first ready process.
    pub fn schedule_next(&self) -> (r: Option<&Process>)
        ensures
            match first_ready(self@.processes) {
                Some(i) => r == Some(&self@.processes[i]),
                None => r is None,
            },
    {
        let mut i: usize = 0;
        while i < self.processes.len()
            invariant
                i <= self.processes@.len(),
                forall|j: int| 0 <= j < i ==> self.processes@[j].state != ProcessState::Ready,
            decreases self.processes@.len() - i,
        {
            if self.processes[i].state == ProcessState::Ready {
                let ghost k = i as int;
                assert(0 <= k < self@.processes.len() && self@.processes[k].state == ProcessState::Ready
                    && forall|j: int| 0 <= j < k ==> self@.processes[j].state != ProcessState::Ready);
                proof {
                    let c = choose|m: int| 0 <= m < self@.processes.len() && self@.processes[m].state == ProcessState::Ready
                        && forall|j: int| 0 <= j < m ==> self@.processes[j].state != ProcessState::Ready;
                    assert(c == k) by {
                        if c < k {
                            assert(self@.processes[c].state != ProcessState::Ready);
                        } else if c > k {
                            assert(self@.processes[k].state != ProcessState::Ready);
                        }
                    }
                }
                return Some(&self.processes[i]);
            }
            i = i + 1;
        }
        None
    }

    /// Whether some process has not terminated.
    pub fn has_running_processes(&self) -> (r: bool)
        ensures
            r == exists|i: int| 0 <= i < self@.processes.len() && self@.processes[i].state != ProcessState::Terminated,
    {
        let mut i: usize = 0;
        while i < self.processes.len()
            invariant
                i <= self.processes@.len(),
                forall|j: int| 0 <= j < i ==> self.processes@[j].state == ProcessState::Terminated,
            decreases self.processes@.len() - i,
        {
            if self.processes[i].state != ProcessState::Terminated {
                assert(self@.processes[i as int].state != ProcessState::Terminated);
                return true;
            }
            i = i + 1;
        }
        false
    }

    pub fn set_current_pid(&mut self, pid: u32)
        ensures
            final(self)@ == (ProcessManagerView { current_pid: pid, ..old(self)@ }),
    {
        self.current_pid = pid;
    }

    pub fn get_current_pid(&self) -> (pid: u32)
        ensures
            pid == self@.current_pid,
    {
        self.current_pid
    }

    fn index_of(&self, pid: u32) -> (r: Option<usize>)
        ensures
            r matches Some(i) ==> find_pid(self@.processes, pid) == Some(i as int) && i < self@.processes.len() && self@.processes[i as int].pid == pid,
            r is None ==> find_pid(self@.processes, pid) is None,
    {
        let mut i: usize = 0;
        while i < self.processes.len()
            invariant
                i <= self.processes@.len(),
                forall|j: int| 0 <= j < i ==> self.processes@[j].pid != pid,
            decreases self.processes@.len() - i,
        {
            if self.processes[i].pid == pid {
                proof {
                    lemma_find_pid_first(self@.processes, pid, i as int);
                }
                return Some(i);
            }
            i = i + 1;
        }
        proof {
            lemma_find_pid_none(self@.processes, pid);
        }
        None
    }

    /// The process with pid `pid`.
    pub fn get_process(&self, pid: u32) -> (r: Option<&Process>)
        ensures
            match find_pid(self@.processes, pid) {
                Some(i) => r == Some(&self@.processes[i]),
                None => r is None,
            },
    {
        match self.index_of(pid) {
            Some(i) => Some(&self.processes[i]),
            None => None,
        }
    }

    /// Replaces the process with pid `pid` by `process`; returns whether there was one.
    pub fn set_process(&mut self, pid: u32, process: Process) -> (r: bool)
        ensures
            match find_pid(old(self)@.processes, pid) {
                Some(i) => r && final(self)@ == (ProcessManagerView { processes: old(self)@.processes.update(i, process), ..old(self)@ }),
                None => !r && final(self)@ == old(self)@,
            },
    {
        match self.index_of(pid) {
            Some(i) => {
                self.processes.set(i, process);
                true
            },
            None => false,
        }
    }

    /// Round-robin choice of the next process to run (see `next_ready`).
    pub fn get_next_ready_process(&self) -> (r: Option<u32>)
        ensures
            r == next_ready(self@.processes, self@.current_pid),
    {
        let n = self.processes.len();
        let current_index: usize = if self.current_pid == 0 {
            0
        } else {
            match self.index_of(self.current_pid) {
                Some(i) => (i + 1) % n,
                None => 0,
            }
        };
        assert(current_index as int == rr_start(self@.processes, self@.current_pid));
        let mut k: usize = 0;
        while k < n
            invariant
                k <= n,
                n == self@.processes.len(),
                current_index < n || n == 0,
                current_index as int == rr_start(self@.processes, self@.current_pid),
                ready_from(self@.processes, current_index as int, 0) == ready_from(self@.processes, current_index as int, k as int),
            decreases n - k,
        {
            let rem = n - current_index;
            let index: usize = if k < rem { current_index + k } else { k - rem };
            assert(index as int == (current_index + k) % (n as int)) by (nonlinear_arith)
                requires
                    current_index < n,
                    k < n,
                    rem == n - current_index,
                    index == if k < rem { current_index + k } else { k - rem },
            ;
            if self.processes[index].state == ProcessState::Ready {
                return Some(self.processes[index].pid);
            }
            k = k + 1;
        }
        if self.current_pid != 0 && self.index_of(self.current_pid).is_some() {
            return Some(self.current_pid);
        }
        None
    }

    /// The process that is running, if any.
    pub fn get_current_process(&self) -> (r: Option<&Process>)
        ensures
            self@.current_pid == 0 ==> r is None,
            self@.current_pid != 0 ==> match find_pid(self@.processes, self@.current_pid) {
                Some(i) => r == Some(&self@.processes[i]),
                None => r is None,
            },
    {
        if self.current_pid == 0 {
            None
        } else {
            self.get_process(self.current_pid)
        }
    }

    /// Takes the running process out of the table and clears the current pid;
    /// returns it (`None` when no process is running).
    pub fn remove_current(&mut self) -> (r: Option<Process>)
        requires
            old(self)@.current_pid == 0 || find_pid(old(self)@.processes, old(self)@.current_pid) is Some,
        ensures
            old(self)@.current_pid == 0 ==> r is None && final(self)@ == old(self)@,
            old(self)@.current_pid != 0 ==> (find_pid(old(self)@.processes, old(self)@.current_pid) matches Some(i)
                && r == Some(old(self)@.processes[i])
                && final(self)@ == (ProcessManagerView { processes: old(self)@.processes.remove(i), current_pid: 0, ..old(self)@ })),
    {
        let current = self.current_pid;
        if current == 0 {
            return None;
        }
        self.current_pid = 0;
        let index = match self.index_of(current) {
            Some(i) => i,
            None => { return None; },
        };
        let p = self.processes.remove(index);
        Some(p)
    }
}

proof fn lemma_find_pid_first(ps: Seq<Process>, pid: u32, i: int)
    requires
        0 <= i < ps.len(),
        ps[i].pid == pid,
        forall|j: int| 0 <= j < i ==> ps[j].pid != pid,
    ensures
        find_pid(ps, pid) == Some(i),
    decreases ps.len(),
{
    if i < ps.len() - 1 {
        lemma_find_pid_first(ps.drop_last(), pid, i);
    } else {
        lemma_find_pid_none(ps.drop_last(), pid);
    }
}

proof fn lemma_find_pid_none(ps: Seq<Process>, pid: u32)
    requires
        forall|j: int| 0 <= j < ps.len() ==> ps[j].pid != pid,
    ensures
        find_pid(ps, pid) is None,
    decreases ps.len(),
{
    if ps.len() > 0 {
        lemma_find_pid_none(ps.drop_last(), pid);
    }
}

/// A process registered with the next free pid is found again by that pid,
/// when every pid in the table is below it.
pub proof fn lemma_registered_is_found(ps: Seq<Process>, next_pid: u32, p: Process)
    requires
        forall|i: int| 0 <= i < ps.len() ==> (#[trigger] ps[i]).pid < next_pid,
    ensures
        find_pid(ps.push(Process { pid: next_pid, ..p }), next_pid) == Some(ps.len() as int),
{
    lemma_find_pid_absent(ps, next_pid);
    assert(ps.push(Process { pid: next_pid, ..p }).drop_last() =~= ps);
}

proof fn lemma_find_pid_absent(ps: Seq<Process>, pid: u32)
    requires
        forall|i: int| 0 <= i < ps.len() ==> (#[trigger] ps[i]).pid < pid,
    ensures
        find_pid(ps, pid) is None,
    decreases ps.len(),
{
    if ps.len() > 0 {
        let rest = ps.drop_last();
        assert forall|i: int| 0 <= i < rest.len() implies (#[trigger] rest[i]).pid < pid by {
            assert(rest[i] == ps[i]);
        }
        lemma_find_pid_absent(rest, pid);
        assert(ps.last() == ps[ps.len() - 1]);
    }
}

} // verus!
