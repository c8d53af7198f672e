//! Kernel provider flags, provider identifiers and provider settings.
use vstd::prelude::*;
use vstd::std_specs::ops::{BitOrSpecImpl, BitAndSpecImpl, BitOrSpec, BitAndSpec};
use crate::error::{EtwError, ProfilerError, Result};
use crate::text::owned;

verus! {

/// A set of kernel event classes, as the bits of a 32-bit mask.
#[derive(Debug, Clone, Copy, PartialEq, Eq, Structural, Hash)]
pub struct KernelProviderFlags {
    bits: u32,
}

impl KernelProviderFlags {
    /// Process and thread events.
    pub const PROC_THREAD: u32 = 0x00000001;
    /// Memory events.
    pub const MEMORY: u32 = 0x00000002;
    pub const DISK_IO: u32 = 0x00000100;
    pub const DISK_IO_INIT: u32 = 0x00000200;
    pub const DISK_IO_HP: u32 = 0x00000400;
    pub const NETWORK_TCPIP: u32 = 0x00010000;
    pub const REGISTRY: u32 = 0x00020000;
    pub const ALPC: u32 = 0x00100000;
    pub const PROCESS_COUNTERS: u32 = 0x00000008;
    /// Context switches.
    pub const CSWITCH: u32 = 0x00000010;
    pub const DPC: u32 = 0x00000020;
    pub const INTERRUPT: u32 = 0x00000040;
    pub const SYSTEMCALL: u32 = 0x00000080;
    pub const DISK_FILE_IO: u32 = 0x00000800;
    pub const FILE_IO: u32 = 0x00001000;
    pub const FILE_IO_INIT: u32 = 0x00002000;
    pub const MAPPED_IO: u32 = 0x00004000;
    pub const HARD_FAULTS: u32 = 0x00008000;
    /// Image (module) loads.
    pub const IMAGE_LOAD: u32 = 0x00040000;
    /// CPU sampling.
    pub const PROFILE: u32 = 0x01000000;
    pub const THREAD_SCHEDULING: u32 = 0x02000000;
    pub const TRACE_META: u32 = 0x04000000;
    pub const PAGE_FAULTS: u32 = 0x08000000;
    pub const OBJECT_REF: u32 = 0x10000000;
    pub const POWER: u32 = 0x20000000;
    pub const MODULE_LOAD: u32 = 0x40000000;
    pub const FLOATING_POINT: u32 = 0x80000000;

    /// The mask.
    pub closed spec fn spec_bits(&self) -> u32 {
        self.bits
    }

    pub fn bits(&self) -> (r: u32)
        ensures
            r == self.spec_bits(),
    {
        self.bits
    }

    /// The flags of a mask; every bit is meaningful, so none is lost.
    pub fn from_bits(bits: u32) -> (r: Option<KernelProviderFlags>)
        ensures
            r matches Some(f) && f.spec_bits() == bits,
    {
        Some(KernelProviderFlags { bits })
    }

    pub fn from_bits_truncate(bits: u32) -> (r: KernelProviderFlags)
        ensures
            r.spec_bits() == bits,
    {
        KernelProviderFlags { bits }
    }

    /// Every flag of `other` is set.
    pub fn contains(&self, other: KernelProviderFlags) -> (r: bool)
        ensures
            r == (self.spec_bits() & other.spec_bits() == other.spec_bits()),
    {
        (self.bits & other.bits) == other.bits
    }

    pub fn is_empty(&self) -> (r: bool)
        ensures
            r == (self.spec_bits() == 0),
    {
        self.bits == 0
    }

    pub fn empty() -> (r: KernelProviderFlags)
        ensures
            r.spec_bits() == 0,
    {
        KernelProviderFlags { bits: 0 }
    }

    pub fn all() -> (r: KernelProviderFlags)
        ensures
            r.spec_bits() == u32::MAX,
    {
        KernelProviderFlags { bits: 0xFFFF_FFFF }
    }

    /// The flags set in either.
    pub fn union(self, other: KernelProviderFlags) -> (r: KernelProviderFlags)
        ensures
            r.spec_bits() == self.spec_bits() | other.spec_bits(),
    {
        KernelProviderFlags { bits: self.bits | other.bits }
    }

    /// The flags set in both.
    pub fn intersection(self, other: KernelProviderFlags) -> (r: KernelProviderFlags)
        ensures
            r.spec_bits() == self.spec_bits() & other.spec_bits(),
    {
        KernelProviderFlags { bits: self.bits & other.bits }
    }

    /// The flags set in exactly one.
    pub fn symmetric_difference(self, other: KernelProviderFlags) -> (r: KernelProviderFlags)
        ensures
            r.spec_bits() == self.spec_bits() ^ other.spec_bits(),
    {
        KernelProviderFlags { bits: self.bits ^ other.bits }
    }

    /// The flags not set.
    pub fn complement(self) -> (r: KernelProviderFlags)
        ensures
            r.spec_bits() == !self.spec_bits(),
    {
        KernelProviderFlags { bits: !self.bits }
    }

    /// Sampling with process, thread, image-load, scheduling and
    /// context-switch events: what a CPU profile needs.
    pub fn profiling() -> (r: KernelProviderFlags)
        ensures
            r.spec_bits() == (0x01000000u32 | 0x00000001u32 | 0x00040000u32 | 0x02000000u32 | 0x00000010u32),
    {
        KernelProviderFlags { bits: Self::PROFILE | Self::PROC_THREAD | Self::IMAGE_LOAD | Self::THREAD_SCHEDULING | Self::CSWITCH }
    }

    /// Disk, file and network events.
    pub fn io_analysis() -> (r: KernelProviderFlags)
        ensures
            r.spec_bits() == (0x00000100u32 | 0x00000200u32 | 0x00001000u32 | 0x00010000u32),
    {
        KernelProviderFlags { bits: Self::DISK_IO | Self::DISK_IO_INIT | Self::FILE_IO | Self::NETWORK_TCPIP }
    }

    /// Memory and fault events.
    pub fn memory_analysis() -> (r: KernelProviderFlags)
        ensures
            r.spec_bits() == (0x00000002u32 | 0x00008000u32 | 0x08000000u32 | 0x00004000u32),
    {
        KernelProviderFlags { bits: Self::MEMORY | Self::HARD_FAULTS | Self::PAGE_FAULTS | Self::MAPPED_IO }
    }

    /// Sampling, process, image, disk, file, network, memory and
    /// context-switch events.
    pub fn comprehensive() -> (r: KernelProviderFlags)
        ensures
            r.spec_bits() == (0x01000000u32 | 0x00000001u32 | 0x00040000u32 | 0x00000100u32 | 0x00001000u32
                | 0x00010000u32 | 0x00000002u32 | 0x00000010u32),
    {
        KernelProviderFlags {
            bits: Self::PROFILE | Self::PROC_THREAD | Self::IMAGE_LOAD | Self::DISK_IO | Self::FILE_IO
                | Self::NETWORK_TCPIP | Self::MEMORY | Self::CSWITCH,
        }
    }

    pub fn to_raw(&self) -> (r: u32)
        ensures
            r == self.spec_bits(),
    {
        self.bits
    }

    pub fn from_raw(bits: u32) -> (r: KernelProviderFlags)
        ensures
            r.spec_bits() == bits,
    {
        KernelProviderFlags { bits }
    }

    /// Names of the described event classes that are set, in a fixed order.
    pub fn description(&self) -> (r: Vec<&'static str>)
        ensures
            r@.map_values(|s: &str| s@) == description_spec(self.spec_bits()),
    {
        let mut d: Vec<&'static str> = Vec::new();
        let b = self.bits;
        let ghost names = description_table();
        let mut i: usize = 0;
        let table = description_entries();
        while i < table.len()
            invariant
                i <= table@.len(),
                table@.len() == names.len(),
                forall|j: int| 0 <= j < names.len() ==> (#[trigger] table@[j]).0 == names[j].0 && table@[j].1@ == names[j].1,
                d@.map_values(|s: &str| s@) == described(b, names.subrange(0, i as int)),
            decreases table@.len() - i,
        {
            let (flag, name) = table[i];
            if b & flag == flag {
                d.push(name);
            }
            proof {
                let cur = names.subrange(0, i + 1);
                assert(cur.drop_last() =~= names.subrange(0, i as int));
            }
            i = i + 1;
            assert(d@.map_values(|s: &str| s@) =~= described(b, names.subrange(0, i as int)));
        }
        assert(names.subrange(0, i as int) =~= names);
        d
    }

    /// The described classes joined with ", ", or "None" when none is set.
    pub fn to_display_string(&self) -> (r: String)
        ensures
            r@ == if description_spec(self.spec_bits()).len() == 0 {
                "None"@
            } else {
                crate::stackwalker::filter::join_names(description_spec(self.spec_bits()))
            },
    {
        let d = self.description();
        if d.len() == 0 {
            return owned("None");
        }
        let mut s = String::new();
        let ghost names = d@.map_values(|x: &str| x@);
        let mut i: usize = 0;
        while i < d.len()
            invariant
                i <= d@.len(),
                names == d@.map_values(|x: &str| x@),
                s@ == crate::stackwalker::filter::join_names(names.subrange(0, i as int)),
            decreases d@.len() - i,
        {
            let ghost prev = names.subrange(0, i as int);
            if i > 0 {
                crate::text::push_str(&mut s, ", ");
            }
            crate::text::push_str(&mut s, d[i]);
            i = i + 1;
            proof {
                let cur = names.subrange(0, i as int);
                assert(cur.drop_last() =~= prev);
            }
            assert(s@ =~= crate::stackwalker::filter::join_names(names.subrange(0, i as int)));
        }
        assert(names.subrange(0, i as int) =~= names);
        s
    }
}

/// The described event classes with their masks, in description order.
pub open spec fn description_table() -> Seq<(u32, Seq<char>)> {
    seq![
        (0x01000000u32, "Sampling Profile"@),
        (0x00000001u32, "Process/Thread"@),
        (0x00040000u32, "Image Load"@),
        (0x00000100u32, "Disk I/O"@),
        (0x00001000u32, "File I/O"@),
        (0x00010000u32, "Network TCP/IP"@),
        (0x00000002u32, "Memory"@),
        (0x00000080u32, "System Call"@),
        (0x00000010u32, "Context Switch"@),
        (0x00020000u32, "Registry"@),
    ]
}

fn description_entries() -> (r: Vec<(u32, &'static str)>)
    ensures
        r@.len() == description_table().len(),
        forall|j: int| 0 <= j < r@.len() ==> (#[trigger] r@[j]).0 == description_table()[j].0 && r@[j].1@ == description_table()[j].1,
{
    let v: Vec<(u32, &'static str)> = vec![
        (KernelProviderFlags::PROFILE, "Sampling Profile"),
        (KernelProviderFlags::PROC_THREAD, "Process/Thread"),
        (KernelProviderFlags::IMAGE_LOAD, "Image Load"),
        (KernelProviderFlags::DISK_IO, "Disk I/O"),
        (KernelProviderFlags::FILE_IO, "File I/O"),
        (KernelProviderFlags::NETWORK_TCPIP, "Network TCP/IP"),
        (KernelProviderFlags::MEMORY, "Memory"),
        (KernelProviderFlags::SYSTEMCALL, "System Call"),
        (KernelProviderFlags::CSWITCH, "Context Switch"),
        (KernelProviderFlags::REGISTRY, "Registry"),
    ];
    v
}

/// The names of the table entries whose mask is wholly set in `bits`.
pub open spec fn described(bits: u32, table: Seq<(u32, Seq<char>)>) -> Seq<Seq<char>>
    decreases table.len(),
{
    if table.len() == 0 {
        Seq::empty()
    } else {
        let rest = described(bits, table.drop_last());
        if bits & table.last().0 == table.last().0 { rest.push(table.last().1) } else { rest }
    }
}

/// The description of a mask.
pub open spec fn description_spec(bits: u32) -> Seq<Seq<char>> {
    described(bits, description_table())
}

impl core::ops::BitOr for KernelProviderFlags {
    type Output = KernelProviderFlags;

    fn bitor(self, rhs: KernelProviderFlags) -> (r: KernelProviderFlags) {
        KernelProviderFlags { bits: self.bits | rhs.bits }
    }
}

impl BitOrSpecImpl for KernelProviderFlags {
    open spec fn obeys_bitor_spec() -> bool {
        true
    }

    open spec fn bitor_req(self, rhs: KernelProviderFlags) -> bool {
        true
    }

    closed spec fn bitor_spec(self, rhs: KernelProviderFlags) -> KernelProviderFlags {
        KernelProviderFlags { bits: self.bits | rhs.bits }
    }
}

impl core::ops::BitAnd for KernelProviderFlags {
    type Output = KernelProviderFlags;

    fn bitand(self, rhs: KernelProviderFlags) -> (r: KernelProviderFlags) {
        KernelProviderFlags { bits: self.bits & rhs.bits }
    }
}

impl BitAndSpecImpl for KernelProviderFlags {
    open spec fn obeys_bitand_spec() -> bool {
        true
    }

    open spec fn bitand_req(self, rhs: KernelProviderFlags) -> bool {
        true
    }

    closed spec fn bitand_spec(self, rhs: KernelProviderFlags) -> KernelProviderFlags {
        KernelProviderFlags { bits: self.bits & rhs.bits }
    }
}

impl Default for KernelProviderFlags {
    fn default() -> (r: Self)
        ensures
            r.spec_bits() == (0x01000000u32 | 0x00000001u32 | 0x00040000u32 | 0x02000000u32 | 0x00000010u32),
    {
        KernelProviderFlags::profiling()
    }
}


/// Flags are their mask: equal masks, equal flags.
pub proof fn law_flags_are_their_bits(a: KernelProviderFlags, b: KernelProviderFlags)
    ensures
        a.spec_bits() == b.spec_bits() ==> a == b,
{
}

/// The union of two flag sets contains each of them, and no flag outside them.
pub proof fn law_union_contains_parts(a: u32, b: u32)
    ensures
        (a | b) & a == a,
        (a | b) & b == b,
        forall|c: u32| #![trigger (a | b) & c] (a | b) & c == c ==> (a | b) | c == (a | b),
{
    assert((a | b) & a == a) by (bit_vector);
    assert((a | b) & b == b) by (bit_vector);
    assert forall|c: u32| #![trigger (a | b) & c] (a | b) & c == c implies (a | b) | c == (a | b) by {
        assert((a | b) & c == c ==> (a | b) | c == (a | b)) by (bit_vector);
    }
}

/// The `|` of two flag sets holds the union of their masks.
pub proof fn lemma_bitor_bits(a: KernelProviderFlags, b: KernelProviderFlags)
    ensures
        BitOrSpec::bitor_spec(a, b).spec_bits() == a.spec_bits() | b.spec_bits(),
        BitAndSpec::bitand_spec(a, b).spec_bits() == a.spec_bits() & b.spec_bits(),
{
}

/// A 128-bit identifier of an event provider.
#[derive(Debug, Clone, Copy, PartialEq, Eq, Hash)]
pub struct Guid {
    pub data1: u32,
    pub data2: u16,
    pub data3: u16,
    pub data4: [u8; 8],
}

impl Guid {
    pub fn from_values(data1: u32, data2: u16, data3: u16, data4: [u8; 8]) -> (r: Guid)
        ensures
            r == (Guid { data1, data2, data3, data4 }),
    {
        Guid { data1, data2, data3, data4 }
    }

    /// Every part is zero.
    pub open spec fn is_zero(&self) -> bool {
        self.data1 == 0 && self.data2 == 0 && self.data3 == 0 && forall|i: int| 0 <= i < 8 ==> self.data4@[i] == 0
    }
}

/// The kernel logger provider.
pub fn kernel_provider_guid() -> (r: Guid)
    ensures
        r.data1 == 0x9E814AAD && r.data2 == 0x3204 && r.data3 == 0x11D2
            && r.data4@ == seq![0x9Au8, 0x82, 0x00, 0x60, 0x08, 0xA8, 0x69, 0x39],
{
    let r = Guid::from_values(0x9E814AAD, 0x3204, 0x11D2, [0x9A, 0x82, 0x00, 0x60, 0x08, 0xA8, 0x69, 0x39]);
    assert(r.data4@ =~= seq![0x9Au8, 0x82, 0x00, 0x60, 0x08, 0xA8, 0x69, 0x39]);
    r
}

/// The sampled-profile event class.
pub fn sampled_profile_guid() -> (r: Guid)
    ensures
        r.data1 == 0xce1dbfb4 && r.data2 == 0x137e && r.data3 == 0x4da6
            && r.data4@ == seq![0x87u8, 0xb0, 0x3f, 0x59, 0xaa, 0x10, 0x2c, 0xbc],
{
    let r = Guid::from_values(0xce1dbfb4, 0x137e, 0x4da6, [0x87, 0xb0, 0x3f, 0x59, 0xaa, 0x10, 0x2c, 0xbc]);
    assert(r.data4@ =~= seq![0x87u8, 0xb0, 0x3f, 0x59, 0xaa, 0x10, 0x2c, 0xbc]);
    r
}

/// The process event class.
pub fn process_guid() -> (r: Guid)
    ensures
        r.data1 == 0x3d6fa8d1 && r.data2 == 0xfe05 && r.data3 == 0x11d0
            && r.data4@ == seq![0x9du8, 0xda, 0x00, 0xc0, 0x4f, 0xd7, 0xba, 0x7c],
{
    let r = Guid::from_values(0x3d6fa8d1, 0xfe05, 0x11d0, [0x9d, 0xda, 0x00, 0xc0, 0x4f, 0xd7, 0xba, 0x7c]);
    assert(r.data4@ =~= seq![0x9du8, 0xda, 0x00, 0xc0, 0x4f, 0xd7, 0xba, 0x7c]);
    r
}

/// The thread event class.
pub fn thread_guid() -> (r: Guid)
    ensures
        r.data1 == 0x3d6fa8d0 && r.data2 == 0xfe05 && r.data3 == 0x11d0
            && r.data4@ == seq![0x9du8, 0xda, 0x00, 0xc0, 0x4f, 0xd7, 0xba, 0x7c],
{
    let r = Guid::from_values(0x3d6fa8d0, 0xfe05, 0x11d0, [0x9d, 0xda, 0x00, 0xc0, 0x4f, 0xd7, 0xba, 0x7c]);
    assert(r.data4@ =~= seq![0x9du8, 0xda, 0x00, 0xc0, 0x4f, 0xd7, 0xba, 0x7c]);
    r
}

/// The image-load event class.
pub fn image_load_guid() -> (r: Guid)
    ensures
        r.data1 == 0x2cb15d1d && r.data2 == 0x5fc1 && r.data3 == 0x11d2
            && r.data4@ == seq![0xabu8, 0xe8, 0x00, 0x90, 0x27, 0x60, 0xb7, 0x1e],
{
    let r = Guid::from_values(0x2cb15d1d, 0x5fc1, 0x11d2, [0xab, 0xe8, 0x00, 0x90, 0x27, 0x60, 0xb7, 0x1e]);
    assert(r.data4@ =~= seq![0xabu8, 0xe8, 0x00, 0x90, 0x27, 0x60, 0xb7, 0x1e]);
    r
}

/// The disk I/O event class.
pub fn disk_io_guid() -> (r: Guid)
    ensures
        r.data1 == 0x3D6FA8C4 && r.data2 == 0xFE05 && r.data3 == 0x11D0
            && r.data4@ == seq![0x9Du8, 0xDA, 0x00, 0xC0, 0x4F, 0xD7, 0xBA, 0x7C],
{
    let r = Guid::from_values(0x3D6FA8C4, 0xFE05, 0x11D0, [0x9D, 0xDA, 0x00, 0xC0, 0x4F, 0xD7, 0xBA, 0x7C]);
    assert(r.data4@ =~= seq![0x9Du8, 0xDA, 0x00, 0xC0, 0x4F, 0xD7, 0xBA, 0x7C]);
    r
}

/// The file I/O event class.
pub fn file_io_guid() -> (r: Guid)
    ensures
        r.data1 == 0x90CBDC39 && r.data2 == 0x4A3E && r.data3 == 0x11D1
            && r.data4@ == seq![0x84u8, 0xF4, 0x00, 0x00, 0xF8, 0x04, 0x64, 0xE3],
{
    let r = Guid::from_values(0x90CBDC39, 0x4A3E, 0x11D1, [0x84, 0xF4, 0x00, 0x00, 0xF8, 0x04, 0x64, 0xE3]);
    assert(r.data4@ =~= seq![0x84u8, 0xF4, 0x00, 0x00, 0xF8, 0x04, 0x64, 0xE3]);
    r
}

/// The registry event class.
pub fn registry_guid() -> (r: Guid)
    ensures
        r.data1 == 0xAE53722E && r.data2 == 0xC863 && r.data3 == 0x11D2
            && r.data4@ == seq![0x86u8, 0x59, 0x00, 0xC0, 0x4F, 0xA3, 0x21, 0xA1],
{
    let r = Guid::from_values(0xAE53722E, 0xC863, 0x11D2, [0x86, 0x59, 0x00, 0xC0, 0x4F, 0xA3, 0x21, 0xA1]);
    assert(r.data4@ =~= seq![0x86u8, 0x59, 0x00, 0xC0, 0x4F, 0xA3, 0x21, 0xA1]);
    r
}

/// The TCP/IP event class.
pub fn tcpip_guid() -> (r: Guid)
    ensures
        r.data1 == 0x9A280AC0 && r.data2 == 0xC8E0 && r.data3 == 0x11D1
            && r.data4@ == seq![0x84u8, 0xE2, 0x00, 0xC0, 0x4F, 0xB9, 0x98, 0xA2],
{
    let r = Guid::from_values(0x9A280AC0, 0xC8E0, 0x11D1, [0x84, 0xE2, 0x00, 0xC0, 0x4F, 0xB9, 0x98, 0xA2]);
    assert(r.data4@ =~= seq![0x84u8, 0xE2, 0x00, 0xC0, 0x4F, 0xB9, 0x98, 0xA2]);
    r
}

/// The page-fault event class.
pub fn page_fault_guid() -> (r: Guid)
    ensures
        r.data1 == 0x3D6FA8D3 && r.data2 == 0xFE05 && r.data3 == 0x11D0
            && r.data4@ == seq![0x9Du8, 0xDA, 0x00, 0xC0, 0x4F, 0xD7, 0xBA, 0x7C],
{
    let r = Guid::from_values(0x3D6FA8D3, 0xFE05, 0x11D0, [0x9D, 0xDA, 0x00, 0xC0, 0x4F, 0xD7, 0xBA, 0x7C]);
    assert(r.data4@ =~= seq![0x9Du8, 0xDA, 0x00, 0xC0, 0x4F, 0xD7, 0xBA, 0x7C]);
    r
}

/// The context-switch event class.
pub fn cswitch_guid() -> (r: Guid)
    ensures
        r.data1 == 0x3D6FA8D2 && r.data2 == 0xFE05 && r.data3 == 0x11D0
            && r.data4@ == seq![0x9Du8, 0xDA, 0x00, 0xC0, 0x4F, 0xD7, 0xBA, 0x7C],
{
    let r = Guid::from_values(0x3D6FA8D2, 0xFE05, 0x11D0, [0x9D, 0xDA, 0x00, 0xC0, 0x4F, 0xD7, 0xBA, 0x7C]);
    assert(r.data4@ =~= seq![0x9Du8, 0xDA, 0x00, 0xC0, 0x4F, 0xD7, 0xBA, 0x7C]);
    r
}

/// The system-call event class.
pub fn syscall_guid() -> (r: Guid)
    ensures
        r.data1 == 0x4343449D && r.data2 == 0x8E1E && r.data3 == 0x46D4
            && r.data4@ == seq![0x82u8, 0xDD, 0xD3, 0x20, 0x82, 0x95, 0x0F, 0x17],
{
    let r = Guid::from_values(0x4343449D, 0x8E1E, 0x46D4, [0x82, 0xDD, 0xD3, 0x20, 0x82, 0x95, 0x0F, 0x17]);
    assert(r.data4@ =~= seq![0x82u8, 0xDD, 0xD3, 0x20, 0x82, 0x95, 0x0F, 0x17]);
    r
}

/// `a` and `b` name the same provider.
pub open spec fn same_guid(a: Guid, b: Guid) -> bool {
    a.data1 == b.data1 && a.data2 == b.data2 && a.data3 == b.data3 && a.data4@ == b.data4@
}

/// Whether two identifiers are equal, part by part.
pub fn guid_eq(a: &Guid, b: &Guid) -> (r: bool)
    ensures
        r == same_guid(*a, *b),
{
    if a.data1 != b.data1 || a.data2 != b.data2 || a.data3 != b.data3 {
        return false;
    }
    let mut i: usize = 0;
    while i < 8
        invariant
            i <= 8,
            forall|k: int| 0 <= k < i ==> a.data4@[k] == b.data4@[k],
        decreases 8 - i,
    {
        if a.data4[i] != b.data4[i] {
            return false;
        }
        i = i + 1;
    }
    assert(a.data4@ =~= b.data4@);
    true
}

/// Which provider to enable and how.
#[derive(Debug, Clone, Copy, PartialEq, Eq)]
pub struct ProviderConfig {
    pub guid: Guid,
    pub enable_flags: u32,
    pub level: u8,
    pub property_flags: u32,
    pub match_any_keyword: u64,
    pub match_all_keyword: u64,
    pub timeout_ms: u32,
}

impl ProviderConfig {
    pub fn new(guid: Guid) -> (r: Self)
        ensures
            r == (ProviderConfig { guid, enable_flags: 0, level: 0, property_flags: 0, match_any_keyword: 0, match_all_keyword: 0, timeout_ms: 0 }),
    {
        ProviderConfig { guid, enable_flags: 0, level: 0, property_flags: 0, match_any_keyword: 0, match_all_keyword: 0, timeout_ms: 0 }
    }

    /// The kernel provider with the given flags.
    pub fn kernel(flags: KernelProviderFlags) -> (r: Self)
        ensures
            r.guid.data1 == 0x9E814AAD && r.guid.data2 == 0x3204 && r.guid.data3 == 0x11D2,
            r.enable_flags == flags.spec_bits(),
            r.level == 0 && r.property_flags == 0 && r.match_any_keyword == 0 && r.match_all_keyword == 0 && r.timeout_ms == 0,
    {
        ProviderConfig::new(kernel_provider_guid()).with_flags(flags.to_raw())
    }

    pub fn with_flags(self, flags: u32) -> (r: Self)
        ensures
            r == (ProviderConfig { enable_flags: flags, ..self }),
    {
        ProviderConfig { enable_flags: flags, ..self }
    }

    pub fn with_level(self, level: u8) -> (r: Self)
        ensures
            r == (ProviderConfig { level, ..self }),
    {
        ProviderConfig { level, ..self }
    }

    pub fn with_keywords(self, any: u64, all: u64) -> (r: Self)
        ensures
            r == (ProviderConfig { match_any_keyword: any, match_all_keyword: all, ..self }),
    {
        ProviderConfig { match_any_keyword: any, match_all_keyword: all, ..self }
    }

    pub fn with_timeout(self, timeout_ms: u32) -> (r: Self)
        ensures
            r == (ProviderConfig { timeout_ms, ..self }),
    {
        ProviderConfig { timeout_ms, ..self }
    }

    /// A provider identifier of all zeros is refused.
    pub fn validate(&self) -> (r: Result<()>)
        ensures
            r is Ok <==> !self.guid.is_zero(),
            r matches Err(e) ==> e matches ProfilerError::EtwError(x) && x.message@ == "Invalid provider GUID: all zeros"@,
    {
        let g = &self.guid;
        let mut zero4 = true;
        let mut i: usize = 0;
        while i < 8
            invariant
                i <= 8,
                zero4 == forall|j: int| 0 <= j < i ==> g.data4@[j] == 0,
            decreases 8 - i,
        {
            if g.data4[i] != 0 {
                zero4 = false;
            }
            i = i + 1;
        }
        if g.data1 == 0 && g.data2 == 0 && g.data3 == 0 && zero4 {
            return Err(ProfilerError::EtwError(EtwError::new("Invalid provider GUID: all zeros")));
        }
        Ok(())
    }
}

impl Default for ProviderConfig {
    fn default() -> (r: Self)
        ensures
            r.guid.data1 == 0x9E814AAD && r.guid.data2 == 0x3204 && r.guid.data3 == 0x11D2,
            r.enable_flags == (0x01000000u32 | 0x00000001u32 | 0x00040000u32 | 0x02000000u32 | 0x00000010u32),
    {
        ProviderConfig::kernel(KernelProviderFlags::default())
    }
}

/// Event type of a process start.
pub const EVENT_TYPE_PROCESS_START: u16 = 1;
/// Event type of a process end.
pub const EVENT_TYPE_PROCESS_END: u16 = 2;
/// Event type of a thread start.
pub const EVENT_TYPE_THREAD_START: u16 = 1;
/// Event type of a thread end.
pub const EVENT_TYPE_THREAD_END: u16 = 2;
/// Event type of an image load.
pub const EVENT_TYPE_IMAGE_LOAD: u16 = 10;
/// Event type of an image unload.
pub const EVENT_TYPE_IMAGE_UNLOAD: u16 = 11;
/// Event type of a CPU sample.
pub const EVENT_TYPE_SAMPLED_PROFILE: u16 = 46;
/// Event type of a context switch.
pub const EVENT_TYPE_CSWITCH: u16 = 36;
/// Version of the kernel provider's event layouts.
pub const KERNEL_PROVIDER_VERSION: u32 = 2;
/// Default trace level.
pub const DEFAULT_LOG_LEVEL: u8 = 5;

} // verus!
