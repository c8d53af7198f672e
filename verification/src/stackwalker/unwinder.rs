//! Extracting a sample's stack addresses, with the unwinder's settings and
//! counters, and the x64 unwind-data types.
use vstd::prelude::*;
use crate::error::Result;
use crate::etw::SampledProfileEvent;
use crate::stackwalker::{is_kernel_address, KERNEL_ADDRESS_START};
use crate::types::{Address, ProcessId};

verus! {

/// Unwinds the stacks of sampling events and counts what it did.
pub struct EtwStackUnwinder {
    max_depth: usize,
    enable_kernel_stack: bool,
    success_count: u64,
    fail_count: u64,
    total_frames: u64,
    kernel_frames: u64,
}

/// The unwinder's counters: successes, failures, frames, kernel frames.
pub struct UnwindCounts {
    pub success_count: u64,
    pub fail_count: u64,
    pub total_frames: u64,
    pub kernel_frames: u64,
}

/// How many of `a` are kernel addresses.
pub open spec fn kernel_count(a: Seq<u64>) -> nat
    decreases a.len(),
{
    if a.len() == 0 { 0 } else { kernel_count(a.drop_last()) + if a.last() >= KERNEL_ADDRESS_START { 1nat } else { 0 } }
}

/// `a + b` wrapped to 64 bits.
pub open spec fn wrap_add(a: u64, b: int) -> u64 {
    ((a + b) % 0x1_0000_0000_0000_0000) as u64
}

/// The addresses unwound from a sample: its instruction pointer, unless
/// the depth limit is 0.
pub open spec fn event_addresses(event: SampledProfileEvent, max_depth: usize, kernel_enabled: bool) -> Seq<u64> {
    let is_kernel = !event.user_mode || event.instruction_pointer >= KERNEL_ADDRESS_START;
    if is_kernel && !kernel_enabled {
        seq![event.instruction_pointer]
    } else if 1 > max_depth {
        Seq::empty()
    } else {
        seq![event.instruction_pointer]
    }
}

impl EtwStackUnwinder {
    pub closed spec fn max_depth_spec(&self) -> usize {
        self.max_depth
    }

    pub closed spec fn kernel_enabled_spec(&self) -> bool {
        self.enable_kernel_stack
    }

    pub closed spec fn counts_spec(&self) -> (u64, u64, u64, u64) {
        (self.success_count, self.fail_count, self.total_frames, self.kernel_frames)
    }

    pub fn new() -> (r: Self)
        ensures
            r.max_depth_spec() == 64,
            r.kernel_enabled_spec(),
            r.counts_spec() == (0u64, 0u64, 0u64, 0u64),
    {
        Self::with_config(64, true)
    }

    pub fn with_config(max_depth: usize, enable_kernel_stack: bool) -> (r: Self)
        ensures
            r.max_depth_spec() == max_depth,
            r.kernel_enabled_spec() == enable_kernel_stack,
            r.counts_spec() == (0u64, 0u64, 0u64, 0u64),
    {
        EtwStackUnwinder {
            max_depth,
            enable_kernel_stack,
            success_count: 0,
            fail_count: 0,
            total_frames: 0,
            kernel_frames: 0,
        }
    }

    pub fn set_max_depth(&mut self, depth: usize)
        ensures
            final(self).max_depth_spec() == depth,
            final(self).kernel_enabled_spec() == old(self).kernel_enabled_spec(),
            final(self).counts_spec() == old(self).counts_spec(),
    {
        self.max_depth = depth;
    }

    pub fn get_max_depth(&self) -> (r: usize)
        ensures
            r == self.max_depth_spec(),
    {
        self.max_depth
    }

    pub fn set_enable_kernel_stack(&mut self, enable: bool)
        ensures
            final(self).kernel_enabled_spec() == enable,
            final(self).max_depth_spec() == old(self).max_depth_spec(),
            final(self).counts_spec() == old(self).counts_spec(),
    {
        self.enable_kernel_stack = enable;
    }

    pub fn is_kernel_stack_enabled(&self) -> (r: bool)
        ensures
            r == self.kernel_enabled_spec(),
    {
        self.enable_kernel_stack
    }

    /// The stack addresses of a sampling event (its instruction pointer,
    /// cut to the depth limit unless it is a kernel address and kernel
    /// stacks are off), counting a success and, when not cut short by the
    /// kernel rule, the frames and kernel frames (counters wrap).
    pub fn unwind_from_event_impl(&mut self, event: &SampledProfileEvent) -> (r: Result<Vec<Address>>)
        ensures
            r matches Ok(a) && a@ == event_addresses(*event, old(self).max_depth_spec(), old(self).kernel_enabled_spec()),
            final(self).max_depth_spec() == old(self).max_depth_spec(),
            final(self).kernel_enabled_spec() == old(self).kernel_enabled_spec(),
            ({
                let (s, f, t, k) = old(self).counts_spec();
                let a = event_addresses(*event, old(self).max_depth_spec(), old(self).kernel_enabled_spec());
                let is_kernel = !event.user_mode || event.instruction_pointer >= KERNEL_ADDRESS_START;
                final(self).counts_spec() == if is_kernel && !old(self).kernel_enabled_spec() {
                    (wrap_add(s, 1), f, t, k)
                } else {
                    (wrap_add(s, 1), f, wrap_add(t, a.len() as int), wrap_add(k, kernel_count(a) as int))
                }
            }),
    {
        let mut addresses: Vec<Address> = vec![event.instruction_pointer];
        let is_kernel = !event.user_mode || is_kernel_address(event.instruction_pointer);
        if is_kernel && !self.enable_kernel_stack {
            self.success_count = self.success_count.wrapping_add(1);
            assert(addresses@ =~= event_addresses(*event, self.max_depth, self.enable_kernel_stack));
            return Ok(addresses);
        }
        if addresses.len() > self.max_depth {
            addresses.truncate(self.max_depth);
        }
        assert(addresses@ =~= event_addresses(*event, self.max_depth, self.enable_kernel_stack));
        self.success_count = self.success_count.wrapping_add(1);
        self.total_frames = self.total_frames.wrapping_add(addresses.len() as u64);
        let mut kernel: u64 = 0;
        let mut i: usize = 0;
        while i < addresses.len()
            invariant
                i <= addresses@.len(),
                addresses@.len() <= 1,
                kernel == kernel_count(addresses@.subrange(0, i as int)),
            decreases addresses@.len() - i,
        {
            assert(addresses@.subrange(0, i + 1).drop_last() =~= addresses@.subrange(0, i as int));
            if is_kernel_address(addresses[i]) {
                kernel = kernel + 1;
            }
            i = i + 1;
        }
        assert(addresses@.subrange(0, i as int) =~= addresses@);
        self.kernel_frames = self.kernel_frames.wrapping_add(kernel);
        Ok(addresses)
    }

    /// The counters.
    pub fn counts(&self) -> (r: UnwindCounts)
        ensures
            (r.success_count, r.fail_count, r.total_frames, r.kernel_frames) == self.counts_spec(),
    {
        UnwindCounts {
            success_count: self.success_count,
            fail_count: self.fail_count,
            total_frames: self.total_frames,
            kernel_frames: self.kernel_frames,
        }
    }

    pub fn reset_stats(&mut self)
        ensures
            final(self).counts_spec() == (0u64, 0u64, 0u64, 0u64),
            final(self).max_depth_spec() == old(self).max_depth_spec(),
            final(self).kernel_enabled_spec() == old(self).kernel_enabled_spec(),
    {
        self.success_count = 0;
        self.fail_count = 0;
        self.total_frames = 0;
        self.kernel_frames = 0;
    }
}

/// The registers a frame-pointer walk starts from.
#[derive(Debug, Clone, Copy, PartialEq, Eq, Structural)]
pub struct UnwindContext {
    pub rip: u64,
    pub rsp: u64,
    pub rbp: u64,
}

/// The 64-bit words of a target process that are known, by address; the
/// first entry for an address wins. An empty one reads nothing.
pub struct ProcessMemory {
    words: Vec<(u64, u64)>,
}

/// The word at `addr` among `words`, the first entry for it winning.
pub open spec fn word_at(words: Seq<(u64, u64)>, addr: u64) -> Option<u64>
    decreases words.len(),
{
    if words.len() == 0 {
        None
    } else if words[0].0 == addr {
        Some(words[0].1)
    } else {
        word_at(words.drop_first(), addr)
    }
}

impl ProcessMemory {
    pub closed spec fn words(&self) -> Seq<(u64, u64)> {
        self.words@
    }

    /// Memory of which nothing is known.
    pub fn empty() -> (r: Self)
        ensures
            r.words().len() == 0,
    {
        ProcessMemory { words: Vec::new() }
    }

    /// Memory holding the given words.
    pub fn from_words(words: Vec<(u64, u64)>) -> (r: Self)
        ensures
            r.words() == words@,
    {
        ProcessMemory { words }
    }

    /// The word at `addr`, if known.
    pub fn read(&self, addr: u64) -> (r: Option<u64>)
        ensures
            r == word_at(self.words(), addr),
    {
        let mut i: usize = 0;
        assert(self.words@.skip(0) =~= self.words@);
        while i < self.words.len()
            invariant
                i <= self.words@.len(),
                word_at(self.words@, addr) == word_at(self.words@.skip(i as int), addr),
            decreases self.words@.len() - i,
        {
            let ghost rest = self.words@.skip(i as int);
            assert(rest.drop_first() =~= self.words@.skip(i + 1));
            if self.words[i].0 == addr {
                return Some(self.words[i].1);
            }
            i = i + 1;
        }
        assert(self.words@.skip(i as int) =~= Seq::<(u64, u64)>::empty());
        None
    }
}

/// The return addresses a frame-pointer walk finds: starting at frame
/// pointer `rbp`, while the budget lasts, the pointer is non-zero and lies
/// within 64 KiB above `rsp`, the word after it is a non-zero return
/// address; the next frame pointer is the word at the pointer (0 when
/// unknown).
pub open spec fn frame_walk(mem: Seq<(u64, u64)>, rsp: u64, rbp: u64, budget: nat) -> Seq<u64>
    decreases budget,
{
    if budget == 0 || rbp == 0 || rbp < rsp || rbp > rsp + 0x10000 || wrap_add(rbp, 8) == 0 {
        Seq::empty()
    } else {
        match word_at(mem, wrap_add(rbp, 8)) {
            Some(a) => if a != 0 {
                seq![a] + frame_walk(mem, rsp, match word_at(mem, rbp) { Some(p) => p, None => 0 }, (budget - 1) as nat)
            } else {
                Seq::empty()
            },
            None => Seq::empty(),
        }
    }
}

/// Whether a context walk stops at a kernel instruction pointer.
pub open spec fn stops_at_kernel_rip(c: UnwindContext, kernel_enabled: bool) -> bool {
    c.rip != 0 && c.rip >= KERNEL_ADDRESS_START && !kernel_enabled
}

/// The addresses unwound from a register context: the instruction pointer
/// when non-zero, alone when it is a kernel address and kernel stacks are
/// off, and otherwise followed by the frame-pointer walk, up to `max_depth`
/// addresses in all.
pub open spec fn context_addresses(c: UnwindContext, mem: Seq<(u64, u64)>, max_depth: usize, kernel_enabled: bool) -> Seq<u64> {
    let head: Seq<u64> = if c.rip != 0 { seq![c.rip] } else { Seq::empty() };
    if stops_at_kernel_rip(c, kernel_enabled) {
        head
    } else {
        head + frame_walk(mem, c.rsp, c.rbp, if max_depth > head.len() { (max_depth - head.len()) as nat } else { 0 })
    }
}

/// Appends `src` to `dst`.
fn append_all(dst: &mut Vec<u64>, src: &Vec<u64>)
    ensures
        final(dst)@ == old(dst)@ + src@,
{
    let mut k: usize = 0;
    while k < src.len()
        invariant
            k <= src@.len(),
            dst@ == old(dst)@ + src@.subrange(0, k as int),
        decreases src@.len() - k,
    {
        dst.push(src[k]);
        k = k + 1;
        assert(dst@ =~= old(dst)@ + src@.subrange(0, k as int));
    }
    assert(src@.subrange(0, k as int) =~= src@);
}

/// How many of the addresses are kernel addresses.
fn count_kernel(a: &Vec<u64>) -> (r: u64)
    ensures
        r == kernel_count(a@),
{
    let mut kernel: u64 = 0;
    let mut i: usize = 0;
    while i < a.len()
        invariant
            i <= a@.len(),
            kernel <= i,
            kernel == kernel_count(a@.subrange(0, i as int)),
        decreases a@.len() - i,
    {
        assert(a@.subrange(0, i + 1).drop_last() =~= a@.subrange(0, i as int));
        if is_kernel_address(a[i]) {
            kernel = kernel + 1;
        }
        i = i + 1;
    }
    assert(a@.subrange(0, i as int) =~= a@);
    kernel
}

/// Follows the frame pointers from `rbp` as `frame_walk` says.
fn walk_frames(memory: &ProcessMemory, rsp: u64, rbp0: u64, budget: usize) -> (r: Vec<u64>)
    ensures
        r@ == frame_walk(memory.words(), rsp, rbp0, budget as nat),
{
    let mut out: Vec<u64> = Vec::new();
    let mut rbp = rbp0;
    loop
        invariant
            out@.len() <= budget,
            out@ + frame_walk(memory.words(), rsp, rbp, (budget - out@.len()) as nat)
                == frame_walk(memory.words(), rsp, rbp0, budget as nat),
        ensures
            out@ == frame_walk(memory.words(), rsp, rbp0, budget as nat),
        decreases budget - out@.len(),
    {
        let ghost left: nat = (budget - out@.len()) as nat;
        if out.len() >= budget || rbp == 0 || rbp < rsp || rbp - rsp > 0x10000 {
            assert(frame_walk(memory.words(), rsp, rbp, left) =~= Seq::<u64>::empty());
            assert(out@ + Seq::<u64>::empty() =~= out@);
            break;
        }
        let return_addr = rbp.wrapping_add(8);
        assert(return_addr == wrap_add(rbp, 8));
        if return_addr == 0 {
            assert(out@ + Seq::<u64>::empty() =~= out@);
            break;
        }
        match memory.read(return_addr) {
            Some(a) => {
                if a == 0 {
                    assert(out@ + Seq::<u64>::empty() =~= out@);
                    break;
                }
                let ghost prev = out@;
                out.push(a);
                let old_rbp = rbp;
                rbp = match memory.read(old_rbp) {
                    Some(p) => p,
                    None => 0,
                };
                assert(prev.push(a) + frame_walk(memory.words(), rsp, rbp, (left - 1) as nat)
                    =~= prev + (seq![a] + frame_walk(memory.words(), rsp, rbp, (left - 1) as nat)));
            },
            None => {
                assert(out@ + Seq::<u64>::empty() =~= out@);
                break;
            },
        }
    }
    out
}

impl EtwStackUnwinder {
    /// Unwinds a stack from a register context by following the frame
    /// pointers through the words of `memory`, counting a success and, unless
    /// stopped at a kernel instruction pointer, the frames and kernel frames
    /// (counters wrap).
    pub fn unwind_from_context_impl(&mut self, context: &UnwindContext, process_id: ProcessId, memory: &ProcessMemory)
        -> (r: Result<Vec<Address>>)
        ensures
            r matches Ok(a) && a@ == context_addresses(*context, memory.words(), old(self).max_depth_spec(), old(self).kernel_enabled_spec()),
            final(self).max_depth_spec() == old(self).max_depth_spec(),
            final(self).kernel_enabled_spec() == old(self).kernel_enabled_spec(),
            ({
                let (s, f, t, k) = old(self).counts_spec();
                let a = context_addresses(*context, memory.words(), old(self).max_depth_spec(), old(self).kernel_enabled_spec());
                final(self).counts_spec() == if stops_at_kernel_rip(*context, old(self).kernel_enabled_spec()) {
                    (wrap_add(s, 1), f, t, k)
                } else {
                    (wrap_add(s, 1), f, wrap_add(t, a.len() as int), wrap_add(k, kernel_count(a) as int))
                }
            }),
    {
        let mut addresses: Vec<Address> = Vec::new();
        let max_depth = self.max_depth;
        let rip = context.rip;
        if rip != 0 {
            addresses.push(rip);
            if is_kernel_address(rip) && !self.enable_kernel_stack {
                self.success_count = self.success_count.wrapping_add(1);
                return Ok(addresses);
            }
        }
        let budget: usize = if max_depth > addresses.len() { max_depth - addresses.len() } else { 0 };
        let walked = walk_frames(memory, context.rsp, context.rbp, budget);
        append_all(&mut addresses, &walked);
        proof {
            assert(!stops_at_kernel_rip(*context, self.enable_kernel_stack));
        }
        self.success_count = self.success_count.wrapping_add(1);
        self.total_frames = self.total_frames.wrapping_add(addresses.len() as u64);
        let kernel = count_kernel(&addresses);
        self.kernel_frames = self.kernel_frames.wrapping_add(kernel);
        Ok(addresses)
    }
}

impl Default for EtwStackUnwinder {
    fn default() -> (r: Self)
        ensures
            r.max_depth_spec() == 64,
            r.kernel_enabled_spec(),
            r.counts_spec() == (0u64, 0u64, 0u64, 0u64),
    {
        Self::new()
    }
}

/// The x64 unwind operation codes.
#[derive(Debug, Clone, Copy, PartialEq, Eq, Structural)]
pub enum UnwindOp {
    PushNonvol,
    AllocLarge,
    AllocSmall,
    SetFpReg,
    SaveNonvol,
    SaveNonvolFar,
    SaveXmm128,
    SaveXmm128Far,
    PushMachframe,
}

impl UnwindOp {
    /// The operation's code in unwind data.
    pub fn code(&self) -> (r: u8)
        ensures
            r == match *self {
                UnwindOp::PushNonvol => 0u8,
                UnwindOp::AllocLarge => 1,
                UnwindOp::AllocSmall => 2,
                UnwindOp::SetFpReg => 3,
                UnwindOp::SaveNonvol => 4,
                UnwindOp::SaveNonvolFar => 5,
                UnwindOp::SaveXmm128 => 6,
                UnwindOp::SaveXmm128Far => 7,
                UnwindOp::PushMachframe => 8,
            },
    {
        match self {
            UnwindOp::PushNonvol => 0,
            UnwindOp::AllocLarge => 1,
            UnwindOp::AllocSmall => 2,
            UnwindOp::SetFpReg => 3,
            UnwindOp::SaveNonvol => 4,
            UnwindOp::SaveNonvolFar => 5,
            UnwindOp::SaveXmm128 => 6,
            UnwindOp::SaveXmm128Far => 7,
            UnwindOp::PushMachframe => 8,
        }
    }
}

/// One function-table entry of a module: its range and unwind data.
#[derive(Debug, Clone, Copy)]
pub struct UnwindInfo {
    pub function_start: u32,
    pub function_end: u32,
    pub unwind_data: u32,
}

/// The function table of the module at `module_base`; reading it is not
/// implemented, so the table is empty.
pub fn parse_pdata_section(module_base: Address) -> (r: Result<Vec<UnwindInfo>>)
    ensures
        r matches Ok(v) && v@.len() == 0,
{
    Ok(Vec::new())
}

/// How deep and through what a stack is unwound.
#[derive(Debug, Clone, Copy)]
pub struct UnwindOptions {
    pub max_depth: usize,
    pub include_kernel: bool,
    pub use_frame_pointers: bool,
    pub stop_at_system_modules: bool,
}

impl Default for UnwindOptions {
    fn default() -> (r: Self)
        ensures
            r.max_depth == 64,
            r.include_kernel,
            !r.use_frame_pointers,
            !r.stop_at_system_modules,
    {
        UnwindOptions { max_depth: 64, include_kernel: true, use_frame_pointers: false, stop_at_system_modules: false }
    }
}

} // verus!
