//! Collected call stacks and their resolved frames.
use vstd::prelude::*;
use crate::text::{copy_string, hex_seq, join_seq, join_strings, owned, push_char, push_str, write_hex};
use crate::types::{Address, CallStack, ModuleInfo, ProcessId, StackFrame, SymbolInfo, ThreadId, Timestamp};
use crate::text::copy_opt_string;
use crate::error::{ProfilerError, Result};
use crate::etw::SampledProfileEvent;

verus! {

/// Whether a frame runs in user or kernel mode.
#[derive(Debug, Clone, Copy, PartialEq, Eq, Structural)]
pub enum FrameType {
    User,
    Kernel,
    Unknown,
}

impl FrameType {
    pub fn display_name(&self) -> (r: &'static str)
        ensures
            r@ == match *self {
                FrameType::User => "USER"@,
                FrameType::Kernel => "KERNEL"@,
                FrameType::Unknown => "UNKNOWN"@,
            },
    {
        match self {
            FrameType::User => "USER",
            FrameType::Kernel => "KERNEL",
            FrameType::Unknown => "UNKNOWN",
        }
    }

    pub fn is_user(&self) -> (r: bool)
        ensures
            r == (*self == FrameType::User),
    {
        matches!(self, FrameType::User)
    }

    pub fn is_kernel(&self) -> (r: bool)
        ensures
            r == (*self == FrameType::Kernel),
    {
        matches!(self, FrameType::Kernel)
    }
}

/// A stack frame with whatever symbol and module information was found.
#[derive(Debug, Clone, PartialEq)]
pub struct ResolvedFrame {
    pub address: u64,
    pub symbol: Option<SymbolInfo>,
    pub module: Option<ModuleInfo>,
    pub frame_type: FrameType,
}

/// `a - b`, or 0 when `b > a`.
pub open spec fn sat_sub(a: u64, b: u64) -> u64 {
    if a >= b { (a - b) as u64 } else { 0 }
}

/// How a frame is shown: `module!symbol` when both are known (the symbol's
/// own module name standing in for a missing module), the bare symbol name,
/// `module+0xOFFSET` when only the module is known, and otherwise the
/// address as sixteen hexadecimal digits.
pub open spec fn display_name_spec(f: ResolvedFrame) -> Seq<char> {
    match f.symbol {
        Some(sym) => match f.module {
            Some(m) => m.name@.push('!') + sym.name@,
            None => match sym.module {
                Some(mn) => mn@.push('!') + sym.name@,
                None => sym.name@,
            },
        },
        None => match f.module {
            Some(m) => m.name@ + seq!['+', '0', 'x'] + hex_seq(sat_sub(f.address, m.base_address) as nat, 1),
            None => seq!['0', 'x'] + hex_seq(f.address as nat, 16),
        },
    }
}

/// The short form: the symbol name, else the module name, else `0xADDR`.
pub open spec fn short_name_spec(f: ResolvedFrame) -> Seq<char> {
    match f.symbol {
        Some(sym) => sym.name@,
        None => match f.module {
            Some(m) => m.name@,
            None => seq!['0', 'x'] + hex_seq(f.address as nat, 1),
        },
    }
}

fn bang_join(a: &String, b: &String) -> (r: String)
    ensures
        r@ == a@.push('!') + b@,
{
    let mut s = copy_string(a);
    push_char(&mut s, '!');
    push_str(&mut s, b.as_str());
    s
}

impl ResolvedFrame {
    pub fn new(address: u64) -> (r: Self)
        ensures
            r.address == address,
            r.symbol is None,
            r.module is None,
            r.frame_type == FrameType::Unknown,
    {
        ResolvedFrame { address, symbol: None, module: None, frame_type: FrameType::Unknown }
    }

    pub fn with_type(address: u64, frame_type: FrameType) -> (r: Self)
        ensures
            r.address == address,
            r.symbol is None,
            r.module is None,
            r.frame_type == frame_type,
    {
        ResolvedFrame { address, symbol: None, module: None, frame_type }
    }

    pub fn with_symbol(self, symbol: SymbolInfo) -> (r: Self)
        ensures
            r == (ResolvedFrame { symbol: Some(symbol), ..self }),
    {
        ResolvedFrame { symbol: Some(symbol), ..self }
    }

    pub fn with_module(self, module: ModuleInfo) -> (r: Self)
        ensures
            r == (ResolvedFrame { module: Some(module), ..self }),
    {
        ResolvedFrame { module: Some(module), ..self }
    }

    pub fn with_frame_type(self, frame_type: FrameType) -> (r: Self)
        ensures
            r == (ResolvedFrame { frame_type, ..self }),
    {
        ResolvedFrame { frame_type, ..self }
    }

    /// An exact copy.
    pub fn copy(&self) -> (r: Self)
        ensures
            r == *self,
    {
        ResolvedFrame {
            address: self.address,
            symbol: match &self.symbol { Some(s) => Some(s.copy()), None => None },
            module: match &self.module { Some(m) => Some(m.copy()), None => None },
            frame_type: self.frame_type,
        }
    }

    pub fn display_name(&self) -> (r: String)
        ensures
            r@ == display_name_spec(*self),
    {
        match &self.symbol {
            Some(symbol) => match &self.module {
                Some(module) => bang_join(&module.name, &symbol.name),
                None => match &symbol.module {
                    Some(module_name) => bang_join(module_name, &symbol.name),
                    None => copy_string(&symbol.name),
                },
            },
            None => match &self.module {
                Some(module) => {
                    let offset = self.address.saturating_sub(module.base_address);
                    let mut s = copy_string(&module.name);
                    push_str(&mut s, "+0x");
                    proof { reveal_strlit("+0x"); }
                    write_hex(&mut s, offset, 1);
                    assert(s@ =~= display_name_spec(*self));
                    s
                },
                None => {
                    let mut s = owned("0x");
                    proof { reveal_strlit("0x"); }
                    write_hex(&mut s, self.address, 16);
                    s
                },
            },
        }
    }

    pub fn short_name(&self) -> (r: String)
        ensures
            r@ == short_name_spec(*self),
    {
        match &self.symbol {
            Some(s) => copy_string(&s.name),
            None => match &self.module {
                Some(m) => copy_string(&m.name),
                None => {
                    let mut s = owned("0x");
                    proof { reveal_strlit("0x"); }
                    write_hex(&mut s, self.address, 1);
                    s
                },
            },
        }
    }

    pub fn has_symbol(&self) -> (r: bool)
        ensures
            r == self.symbol.is_some(),
    {
        self.symbol.is_some()
    }

    pub fn has_module(&self) -> (r: bool)
        ensures
            r == self.module.is_some(),
    {
        self.module.is_some()
    }
}

/// Number of frames of the given type.
pub open spec fn count_type(frames: Seq<ResolvedFrame>, t: FrameType) -> nat
    decreases frames.len(),
{
    if frames.len() == 0 {
        0
    } else {
        count_type(frames.drop_last(), t) + if frames.last().frame_type == t { 1nat } else { 0nat }
    }
}

pub proof fn lemma_count_type_le(frames: Seq<ResolvedFrame>, t: FrameType)
    ensures
        count_type(frames, t) <= frames.len(),
    decreases frames.len(),
{
    if frames.len() > 0 {
        lemma_count_type_le(frames.drop_last(), t);
    }
}

/// A full call stack of one sample, innermost frame first.
#[derive(Debug, Clone, PartialEq)]
pub struct CollectedStack {
    pub process_id: ProcessId,
    pub thread_id: ThreadId,
    pub timestamp: Timestamp,
    pub frames: Vec<ResolvedFrame>,
    pub user_stack_depth: usize,
    pub kernel_stack_depth: usize,
    pub is_kernel_stack: bool,
}

/// Number of frames of the given type.
pub fn count_frames_of(frames: &Vec<ResolvedFrame>, t: FrameType) -> (r: usize)
    ensures
        r == count_type(frames@, t),
{
    let mut c: usize = 0;
    let mut i: usize = 0;
    while i < frames.len()
        invariant
            i <= frames@.len(),
            c == count_type(frames@.subrange(0, i as int), t),
            c <= i,
        decreases frames@.len() - i,
    {
        assert(frames@.subrange(0, i + 1).drop_last() =~= frames@.subrange(0, i as int));
        if frames[i].frame_type == t {
            c = c + 1;
        }
        i = i + 1;
    }
    assert(frames@.subrange(0, i as int) =~= frames@);
    c
}

impl CollectedStack {
    pub open spec fn depths_consistent(&self) -> bool {
        &&& self.user_stack_depth == count_type(self.frames@, FrameType::User)
        &&& self.kernel_stack_depth == count_type(self.frames@, FrameType::Kernel)
        &&& self.is_kernel_stack == (self.user_stack_depth == 0 && self.kernel_stack_depth > 0)
    }

    pub fn new(process_id: ProcessId, thread_id: ThreadId, timestamp: Timestamp, frames: Vec<ResolvedFrame>) -> (r: Self)
        ensures
            r.process_id == process_id,
            r.thread_id == thread_id,
            r.timestamp == timestamp,
            r.frames@ == frames@,
            r.depths_consistent(),
    {
        let user_stack_depth = count_frames_of(&frames, FrameType::User);
        let kernel_stack_depth = count_frames_of(&frames, FrameType::Kernel);
        let is_kernel_stack = user_stack_depth == 0 && kernel_stack_depth > 0;
        CollectedStack { process_id, thread_id, timestamp, frames, user_stack_depth, kernel_stack_depth, is_kernel_stack }
    }

    pub fn total_depth(&self) -> (r: usize)
        ensures
            r == self.frames@.len(),
    {
        self.frames.len()
    }

    pub fn top_frame(&self) -> (r: Option<&ResolvedFrame>)
        ensures
            r == if self.frames@.len() > 0 { Some(&self.frames@[0]) } else { None },
    {
        if self.frames.len() > 0 { Some(&self.frames[0]) } else { None }
    }

    pub fn bottom_frame(&self) -> (r: Option<&ResolvedFrame>)
        ensures
            r == if self.frames@.len() > 0 { Some(&self.frames@[self.frames@.len() - 1]) } else { None },
    {
        if self.frames.len() > 0 { Some(&self.frames[self.frames.len() - 1]) } else { None }
    }

    /// Display names, outermost frame first, joined with `;`.
    pub fn to_flame_graph_string(&self) -> (r: String)
        ensures
            r@ == join_seq(self.frames@.reverse().map_values(|f: ResolvedFrame| display_name_spec(f)), ';'),
    {
        let n = self.frames.len();
        let mut names: Vec<String> = Vec::new();
        let mut i: usize = 0;
        while i < n
            invariant
                n == self.frames@.len(),
                i <= n,
                names@.len() == i,
                forall|j: int| 0 <= j < i ==> #[trigger] names@[j]@ == display_name_spec(self.frames@[n - 1 - j]),
            decreases n - i,
        {
            let name = self.frames[n - 1 - i].display_name();
            names.push(name);
            i = i + 1;
        }
        assert(names@.map_values(|p: String| p@) =~= self.frames@.reverse().map_values(|f: ResolvedFrame| display_name_spec(f)));
        join_strings(&names, ';')
    }

    /// The frames as plain stack frames: module and symbol names, source file
    /// and line carried over.
    pub fn to_call_stack(&self) -> (r: CallStack)
        ensures
            r.depth == self.frames@.len(),
            r.is_complete,
            r.frames@.len() == self.frames@.len(),
            forall|i: int| 0 <= i < self.frames@.len() ==> #[trigger] r.frames@[i] == frame_to_stack_frame(self.frames@[i]),
    {
        let mut out: Vec<StackFrame> = Vec::new();
        let mut i: usize = 0;
        while i < self.frames.len()
            invariant
                i <= self.frames@.len(),
                out@.len() == i,
                forall|j: int| 0 <= j < i ==> #[trigger] out@[j] == frame_to_stack_frame(self.frames@[j]),
            decreases self.frames@.len() - i,
        {
            out.push(to_stack_frame(&self.frames[i]));
            i = i + 1;
        }
        CallStack { frames: out, depth: self.frames.len(), is_complete: true }
    }

    pub fn has_kernel_frames(&self) -> (r: bool)
        ensures
            r == (self.kernel_stack_depth > 0),
    {
        self.kernel_stack_depth > 0
    }

    pub fn has_user_frames(&self) -> (r: bool)
        ensures
            r == (self.user_stack_depth > 0),
    {
        self.user_stack_depth > 0
    }
}

/// The plain stack frame for a resolved frame.
pub open spec fn frame_to_stack_frame(f: ResolvedFrame) -> StackFrame {
    StackFrame {
        address: f.address,
        module_name: match f.module { Some(m) => Some(m.name), None => None },
        function_name: match f.symbol { Some(s) => Some(s.name), None => None },
        file_name: match f.symbol { Some(s) => s.source_file, None => None },
        line_number: match f.symbol { Some(s) => s.line_number, None => None },
        column_number: None,
        offset: None,
    }
}

fn to_stack_frame(f: &ResolvedFrame) -> (r: StackFrame)
    ensures
        r == frame_to_stack_frame(*f),
{
    StackFrame {
        address: f.address,
        module_name: match &f.module { Some(m) => Some(copy_string(&m.name)), None => None },
        function_name: match &f.symbol { Some(s) => Some(copy_string(&s.name)), None => None },
        file_name: match &f.symbol { Some(s) => crate::text::copy_opt_string(&s.source_file), None => None },
        line_number: match &f.symbol { Some(s) => s.line_number, None => None },
        column_number: None,
        offset: None,
    }
}

/// The resolved frame for the `i`-th frame of a resolved stack: the unwound
/// address at `i` (the frame's own address past the end of `addresses`),
/// kernel or user by that address, the frame's function as the symbol
/// (with its module, file and line) and its module name as a module of
/// unknown base and size.
pub open spec fn resolved_frame_spec(addresses: Seq<u64>, frame: StackFrame, i: int) -> ResolvedFrame {
    let address = if i < addresses.len() { addresses[i] } else { frame.address };
    ResolvedFrame {
        address,
        symbol: match frame.function_name {
            Some(n) => Some(SymbolInfo { address, name: n, module: frame.module_name, source_file: frame.file_name,
                line_number: frame.line_number }),
            None => None,
        },
        module: match frame.module_name {
            Some(m) => Some(ModuleInfo { base_address: 0, size: 0, name: m, path: None, pdb_path: None, timestamp: 0,
                checksum: 0 }),
            None => None,
        },
        frame_type: if address >= 0xFFFF000000000000 { FrameType::Kernel } else { FrameType::User },
    }
}

/// `c` is the stack of the given thread and time whose frames are those of
/// `stack` resolved against `addresses`, with consistent depth counts.
pub open spec fn collected_as(c: CollectedStack, process_id: ProcessId, thread_id: ThreadId, timestamp: Timestamp,
    addresses: Seq<u64>, stack: CallStack) -> bool {
    &&& c.process_id == process_id
    &&& c.thread_id == thread_id
    &&& c.timestamp == timestamp
    &&& c.depths_consistent()
    &&& c.frames@.len() == stack.frames@.len()
    &&& forall|i: int| 0 <= i < c.frames@.len() ==> #[trigger] c.frames@[i] == resolved_frame_spec(addresses, stack.frames@[i], i)
}

/// The resolved frames of a symbol-resolved stack, one per frame.
pub fn resolved_frames(addresses: &[Address], stack: &CallStack) -> (r: Vec<ResolvedFrame>)
    ensures
        r@.len() == stack.frames@.len(),
        forall|i: int| 0 <= i < r@.len() ==> #[trigger] r@[i] == resolved_frame_spec(addresses@, stack.frames@[i], i),
{
    let mut out: Vec<ResolvedFrame> = Vec::new();
    let mut i: usize = 0;
    while i < stack.frames.len()
        invariant
            i <= stack.frames@.len(),
            out@.len() == i,
            forall|j: int| 0 <= j < i ==> #[trigger] out@[j] == resolved_frame_spec(addresses@, stack.frames@[j], j),
        decreases stack.frames@.len() - i,
    {
        let frame = &stack.frames[i];
        let address = if i < addresses.len() { addresses[i] } else { frame.address };
        let frame_type = if address >= 0xFFFF000000000000 { FrameType::Kernel } else { FrameType::User };
        let symbol = match &frame.function_name {
            Some(name) => Some(SymbolInfo {
                address,
                name: copy_string(name),
                module: copy_opt_string(&frame.module_name),
                source_file: copy_opt_string(&frame.file_name),
                line_number: frame.line_number,
            }),
            None => None,
        };
        let module = match &frame.module_name {
            Some(name) => Some(ModuleInfo {
                base_address: 0,
                size: 0,
                name: copy_string(name),
                path: None,
                pdb_path: None,
                timestamp: 0,
                checksum: 0,
            }),
            None => None,
        };
        out.push(ResolvedFrame { address, symbol, module, frame_type });
        i = i + 1;
    }
    out
}

/// The collected stack of a thread at a time from its unwound addresses and
/// their resolved frames; an empty address list is an error, worded for an
/// unwind from a register context when `from_context`.
pub fn collect_from_resolved(process_id: ProcessId, thread_id: ThreadId, timestamp: Timestamp, addresses: &[Address],
    stack: &CallStack, from_context: bool) -> (r: Result<CollectedStack>)
    ensures
        addresses@.len() == 0 ==> (r matches Err(ProfilerError::Generic(m)) && m@ == if from_context {
            "Stack unwinding from context returned no addresses"@
        } else {
            "Stack unwinding returned no addresses"@
        }),
        addresses@.len() > 0 ==> (r matches Ok(c) && collected_as(c, process_id, thread_id, timestamp, addresses@, *stack)),
{
    if addresses.len() == 0 {
        if from_context {
            return Err(ProfilerError::generic("Stack unwinding from context returned no addresses"));
        } else {
            return Err(ProfilerError::generic("Stack unwinding returned no addresses"));
        }
    }
    let frames = resolved_frames(addresses, stack);
    Ok(CollectedStack::new(process_id, thread_id, timestamp, frames))
}

/// The collected stack of a sampling event, from its unwound addresses and
/// their resolved frames.
pub fn collect_from_sample(sample: &SampledProfileEvent, addresses: &[Address], stack: &CallStack) -> (r: Result<CollectedStack>)
    ensures
        addresses@.len() == 0 ==> (r matches Err(ProfilerError::Generic(m)) && m@ == "Stack unwinding returned no addresses"@),
        addresses@.len() > 0 ==> (r matches Ok(c) && collected_as(c, sample.process_id, sample.thread_id, sample.timestamp, addresses@, *stack)),
{
    collect_from_resolved(sample.process_id, sample.thread_id, sample.timestamp, addresses, stack, false)
}

/// The collected stack of a thread unwound from a register context, from
/// the unwound addresses and their resolved frames.
pub fn collect_with_context(process_id: ProcessId, thread_id: ThreadId, timestamp: Timestamp, addresses: &[Address],
    stack: &CallStack) -> (r: Result<CollectedStack>)
    ensures
        addresses@.len() == 0 ==> (r matches Err(ProfilerError::Generic(m))
            && m@ == "Stack unwinding from context returned no addresses"@),
        addresses@.len() > 0 ==> (r matches Ok(c) && collected_as(c, process_id, thread_id, timestamp, addresses@, *stack)),
{
    collect_from_resolved(process_id, thread_id, timestamp, addresses, stack, true)
}

} // verus!
