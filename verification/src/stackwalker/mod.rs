//! Call-stack handling: address classification, resolved frames and
//! collected stacks, stack filters, symbol-less frame rendering, unwinding
//! options and the stack-manager configuration.
use vstd::prelude::*;
use crate::text::{lowercase, contains_seq, owned, str_contains, to_lower};
use crate::types::{ProcessId, ThreadId};

pub mod collector;
pub mod filter;
pub mod resolver;
pub mod manager;
pub mod unwinder;

pub use collector::{CollectedStack, FrameType, ResolvedFrame};

verus! {

/// First address of the kernel half of the x64 address space.
pub const KERNEL_ADDRESS_START: u64 = 0xFFFF000000000000;

pub fn is_kernel_address(address: u64) -> (r: bool)
    ensures
        r == (address >= KERNEL_ADDRESS_START),
{
    address >= KERNEL_ADDRESS_START
}

pub fn is_user_address(address: u64) -> (r: bool)
    ensures
        r == (address < KERNEL_ADDRESS_START),
{
    !is_kernel_address(address)
}

/// Which half of the address space an address lies in.
#[derive(Debug, Clone, Copy, PartialEq, Eq, Structural)]
pub enum AddressType {
    User,
    Kernel,
}

pub fn classify_address(address: u64) -> (r: AddressType)
    ensures
        r == (if address >= KERNEL_ADDRESS_START { AddressType::Kernel } else { AddressType::User }),
{
    if is_kernel_address(address) {
        AddressType::Kernel
    } else {
        AddressType::User
    }
}

/// Names of the operating-system images whose frames count as system code.
pub open spec fn system_module_names() -> Seq<Seq<char>> {
    seq![
        "ntdll.dll"@, "kernel32.dll"@, "kernelbase.dll"@, "ntoskrnl.exe"@,
        "hal.dll"@, "win32k.sys"@, "win32kbase.sys"@, "win32kfull.sys"@,
    ]
}

/// The system image names, in order.
pub fn system_modules() -> (r: Vec<&'static str>)
    ensures
        r@.map_values(|s: &str| s@) == system_module_names(),
{
    let v: Vec<&'static str> = vec![
        "ntdll.dll", "kernel32.dll", "kernelbase.dll", "ntoskrnl.exe",
        "hal.dll", "win32k.sys", "win32kbase.sys", "win32kfull.sys",
    ];
    assert(v@.map_values(|s: &str| s@) =~= system_module_names());
    v
}

/// A lower-cased module name names system code when one of the system image
/// names occurs in it.
pub open spec fn names_system_module(lower_name: Seq<char>) -> bool {
    exists|i: int| 0 <= i < system_module_names().len() && contains_seq(lower_name, #[trigger] system_module_names()[i])
}

/// Whether an already lower-cased module name or path names system code.
pub fn matches_system_module(lower_name: &str) -> (r: bool)
    ensures
        r == names_system_module(lower_name@),
{
    let mods = system_modules();
    let mut i: usize = 0;
    while i < mods.len()
        invariant
            i <= mods@.len(),
            mods@.map_values(|s: &str| s@) == system_module_names(),
            forall|j: int| 0 <= j < i ==> !contains_seq(lower_name@, #[trigger] system_module_names()[j]),
        decreases mods@.len() - i,
    {
        assert(system_module_names()[i as int] == mods@[i as int]@);
        if str_contains(lower_name, mods[i]) {
            return true;
        }
        i = i + 1;
    }
    false
}

/// Whether a module name or path names system code, ignoring case.
pub fn is_system_module(module_name: &str) -> (r: bool)
    ensures
        r == names_system_module(lowercase(module_name@)),
{
    let lower = to_lower(module_name);
    matches_system_module(lower.as_str())
}

/// What a stack walk was doing, for error reports.
#[derive(Debug, Clone)]
pub struct StackWalkContext {
    pub process_id: ProcessId,
    pub thread_id: ThreadId,
    pub operation: String,
}

impl StackWalkContext {
    pub fn new(process_id: ProcessId, thread_id: ThreadId, operation: &str) -> (r: Self)
        ensures
            r.process_id == process_id,
            r.thread_id == thread_id,
            r.operation@ == operation@,
    {
        StackWalkContext { process_id, thread_id, operation: owned(operation) }
    }
}

/// Notified of each collected stack and each failed collection.
pub trait StackCallback {
    fn on_stack_collected(&mut self, stack: &CollectedStack);

    fn on_stack_error(&mut self, error: &crate::error::ProfilerError, context: &StackWalkContext);
}

/// A callback that ignores everything.
pub struct DefaultStackCallback;

impl StackCallback for DefaultStackCallback {
    fn on_stack_collected(&mut self, stack: &CollectedStack) {
    }

    fn on_stack_error(&mut self, error: &crate::error::ProfilerError, context: &StackWalkContext) {
    }
}

} // verus!
