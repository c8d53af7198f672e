//! Decoding of kernel events from their raw user data, and tracking of the
//! processes, threads and modules they announce.
use vstd::prelude::*;
use crate::text::{copy_string, owned, chars_of, string_of_chars, str_eq};
use crate::types::{ProcessId, ThreadId};
use crate::winpath::{file_name_or_path, file_name_or_whole};
use crate::etw::{SampledProfileEvent, safe_utf16_to_string, utf16_lossy, nul_position};
use crate::etw::provider::{Guid, guid_eq, kernel_provider_guid, sampled_profile_guid, process_guid, thread_guid,
    image_load_guid, cswitch_guid, page_fault_guid, registry_guid, tcpip_guid, syscall_guid};

verus! {

/// A copy of the first `len` units.
pub fn slice_prefix(data: &[u16], len: usize) -> (r: Vec<u16>)
    requires
        len <= data@.len(),
    ensures
        r@ == data@.subrange(0, len as int),
{
    let mut v: Vec<u16> = Vec::new();
    let mut i: usize = 0;
    while i < len
        invariant
            i <= len,
            len <= data@.len(),
            v@ == data@.subrange(0, i as int),
        decreases len - i,
    {
        v.push(data[i]);
        i = i + 1;
        assert(v@ =~= data@.subrange(0, i as int));
    }
    v
}


/// A process seen by the trace.
#[derive(Debug, Clone)]
pub struct ProcessContext {
    pub pid: ProcessId,
    pub name: String,
    pub command_line: Option<String>,
    pub parent_pid: Option<ProcessId>,
    pub start_time: u64,
    pub end_time: Option<u64>,
    pub is_alive: bool,
}

impl ProcessContext {
    pub fn new(pid: ProcessId, name: &str, start_time: u64) -> (r: Self)
        ensures
            r.pid == pid && r.name@ == name@ && r.command_line is None && r.parent_pid is None
                && r.start_time == start_time && r.end_time is None && r.is_alive,
    {
        ProcessContext { pid, name: owned(name), command_line: None, parent_pid: None, start_time, end_time: None, is_alive: true }
    }

    pub fn with_command_line(self, cmd: &str) -> (r: Self)
        ensures
            r.pid == self.pid && r.name == self.name && r.parent_pid == self.parent_pid && r.start_time == self.start_time
                && r.end_time == self.end_time && r.is_alive == self.is_alive,
            r.command_line matches Some(c) && c@ == cmd@,
    {
        ProcessContext { command_line: Some(owned(cmd)), ..self }
    }

    pub fn with_parent(self, parent_pid: ProcessId) -> (r: Self)
        ensures
            r == (ProcessContext { parent_pid: Some(parent_pid), ..self }),
    {
        ProcessContext { parent_pid: Some(parent_pid), ..self }
    }

    /// Records the end of the process.
    pub fn mark_ended(&mut self, end_time: u64)
        ensures
            *final(self) == (ProcessContext { end_time: Some(end_time), is_alive: false, ..*old(self) }),
    {
        self.end_time = Some(end_time);
        self.is_alive = false;
    }

    pub fn copy(&self) -> (r: Self)
        ensures
            r == *self,
    {
        ProcessContext {
            pid: self.pid,
            name: copy_string(&self.name),
            command_line: crate::text::copy_opt_string(&self.command_line),
            parent_pid: self.parent_pid,
            start_time: self.start_time,
            end_time: self.end_time,
            is_alive: self.is_alive,
        }
    }
}

/// A thread seen by the trace.
#[derive(Debug, Clone, Copy, PartialEq, Eq, Structural)]
pub struct ThreadContext {
    pub tid: ThreadId,
    pub pid: ProcessId,
    pub start_time: u64,
    pub end_time: Option<u64>,
    pub is_alive: bool,
}

impl ThreadContext {
    pub fn new(tid: ThreadId, pid: ProcessId, start_time: u64) -> (r: Self)
        ensures
            r == (ThreadContext { tid, pid, start_time, end_time: None, is_alive: true }),
    {
        ThreadContext { tid, pid, start_time, end_time: None, is_alive: true }
    }

    /// Records the end of the thread.
    pub fn mark_ended(&mut self, end_time: u64)
        ensures
            *final(self) == (ThreadContext { end_time: Some(end_time), is_alive: false, ..*old(self) }),
    {
        self.end_time = Some(end_time);
        self.is_alive = false;
    }
}

/// An image loaded into a process.
#[derive(Debug, Clone)]
pub struct ModuleInfo {
    pub base_address: u64,
    pub size: u64,
    pub name: String,
    pub path: Option<String>,
    pub timestamp: u64,
}

impl ModuleInfo {
    pub fn new(base_address: u64, size: u64, name: &str) -> (r: Self)
        ensures
            r.base_address == base_address && r.size == size && r.name@ == name@ && r.path is None && r.timestamp == 0,
    {
        ModuleInfo { base_address, size, name: owned(name), path: None, timestamp: 0 }
    }

    /// The image spans `[base, base + size)`; its end must fit in 64 bits.
    pub open spec fn spans(&self, address: u64) -> bool {
        self.base_address <= address < self.base_address + self.size
    }

    pub fn contains_address(&self, address: u64) -> (r: bool)
        requires
            self.base_address + self.size <= u64::MAX,
        ensures
            r == self.spans(address),
    {
        address >= self.base_address && address < self.base_address + self.size
    }

    pub fn copy(&self) -> (r: Self)
        ensures
            r == *self,
    {
        ModuleInfo {
            base_address: self.base_address,
            size: self.size,
            name: copy_string(&self.name),
            path: crate::text::copy_opt_string(&self.path),
            timestamp: self.timestamp,
        }
    }
}

/// Position of the entry with key `k` in a keyed table, or -1.
pub open spec fn index_of<T>(s: Seq<(u32, T)>, k: u32) -> int
    decreases s.len(),
{
    if s.len() == 0 { -1 } else if s.last().0 == k { s.len() - 1 } else { index_of(s.drop_last(), k) }
}

pub proof fn lemma_index_of<T>(s: Seq<(u32, T)>, k: u32)
    ensures
        -1 <= index_of(s, k) < s.len(),
        index_of(s, k) >= 0 ==> s[index_of(s, k)].0 == k,
        index_of(s, k) == -1 ==> forall|j: int| 0 <= j < s.len() ==> s[j].0 != k,
    decreases s.len(),
{
    if s.len() > 0 && s.last().0 != k {
        lemma_index_of(s.drop_last(), k);
        assert forall|j: int| index_of(s, k) == -1 && 0 <= j < s.len() implies s[j].0 != k by {
            if j < s.len() - 1 {
                assert(s.drop_last()[j] == s[j]);
            }
        }
    }
}

proof fn lemma_index_of_tail<T>(s: Seq<(u32, T)>, key: u32, k: int)
    requires
        0 <= k < s.len(),
        s[k].0 == key,
        forall|j: int| k < j < s.len() ==> s[j].0 != key,
    ensures
        index_of(s, key) == k,
    decreases s.len(),
{
    if k < s.len() - 1 {
        lemma_index_of_tail(s.drop_last(), key, k);
    }
}

pub open spec fn distinct_keys<T>(s: Seq<(u32, T)>) -> bool {
    forall|i: int, j: int| 0 <= i < j < s.len() ==> s[i].0 != s[j].0
}

pub fn find_key<T>(s: &Vec<(u32, T)>, k: u32) -> (r: Option<usize>)
    ensures
        match r {
            Some(i) => i as int == index_of(s@, k),
            None => index_of(s@, k) == -1,
        },
{
    proof { lemma_index_of(s@, k); }
    let mut i: usize = s.len();
    while i > 0
        invariant
            i <= s@.len(),
            forall|j: int| i <= j < s@.len() ==> s@[j].0 != k,
        decreases i,
    {
        if s[i - 1].0 == k {
            proof { lemma_index_of_tail(s@, k, (i - 1) as int); }
            return Some(i - 1);
        }
        i = i - 1;
    }
    proof { lemma_index_of(s@, k); }
    None
}

/// The map a keyed table stands for.
pub open spec fn keyed_map<T>(s: Seq<(u32, T)>) -> Map<u32, T> {
    Map::new(|k: u32| index_of(s, k) >= 0, |k: u32| s[index_of(s, k)].1)
}

/// Stores `v` under `k`, replacing an entry of the same key.
fn put<T>(s: &mut Vec<(u32, T)>, k: u32, v: T)
    requires
        distinct_keys(old(s)@),
    ensures
        distinct_keys(final(s)@),
        final(s)@ == if index_of(old(s)@, k) >= 0 {
            old(s)@.update(index_of(old(s)@, k), (k, v))
        } else {
            old(s)@.push((k, v))
        },
        keyed_map(final(s)@) == keyed_map(old(s)@).insert(k, v),
{
    proof { lemma_index_of(s@, k); }
    match find_key(s, k) {
        Some(i) => {
            s.set(i, (k, v));
            assert forall|a: int, b: int| 0 <= a < b < s@.len() implies s@[a].0 != s@[b].0 by {
                assert(s@[a].0 == old(s)@[a].0 && s@[b].0 == old(s)@[b].0);
            }
            let ghost m1 = keyed_map(s@);
            let ghost m2 = keyed_map(old(s)@).insert(k, v);
            assert forall|k2: u32| #[trigger] m1.dom().contains(k2) == m2.dom().contains(k2)
                && (m1.dom().contains(k2) ==> m1[k2] == m2[k2]) by {
                lemma_index_of_same_keys(s@, old(s)@, k2);
                lemma_index_of(old(s)@, k2);
            }
            assert(m1 =~= m2);
        },
        None => {
            s.push((k, v));
            assert forall|a: int, b: int| 0 <= a < b < s@.len() implies s@[a].0 != s@[b].0 by {
                if b < old(s)@.len() {
                    assert(s@[a] == old(s)@[a] && s@[b] == old(s)@[b]);
                } else {
                    assert(s@[a] == old(s)@[a]);
                }
            }
            assert(s@.drop_last() =~= old(s)@);
            let ghost m1 = keyed_map(s@);
            let ghost m2 = keyed_map(old(s)@).insert(k, v);
            assert forall|k2: u32| #[trigger] m1.dom().contains(k2) == m2.dom().contains(k2)
                && (m1.dom().contains(k2) ==> m1[k2] == m2[k2]) by {
                lemma_index_of(old(s)@, k2);
                if k2 != k {
                    assert(index_of(s@, k2) == index_of(old(s)@, k2));
                    if index_of(old(s)@, k2) >= 0 {
                        assert(s@[index_of(old(s)@, k2)] == old(s)@[index_of(old(s)@, k2)]);
                    }
                }
            }
            assert(m1 =~= m2);
        },
    }
}

/// Tracks the processes, threads and per-process modules the trace reports.
pub struct ContextTracker {
    processes: Vec<(ProcessId, ProcessContext)>,
    threads: Vec<(ThreadId, ThreadContext)>,
    modules: Vec<(ProcessId, Vec<ModuleInfo>)>,
}

/// A module's view: its base and size, name and path.
pub open spec fn module_bases(ms: Seq<ModuleInfo>) -> Seq<u64> {
    ms.map_values(|m: ModuleInfo| m.base_address)
}

impl ContextTracker {
    pub closed spec fn processes(&self) -> Map<ProcessId, ProcessContext> {
        keyed_map(self.processes@)
    }

    pub closed spec fn threads(&self) -> Map<ThreadId, ThreadContext> {
        keyed_map(self.threads@)
    }

    /// The modules of each process, in load order.
    pub closed spec fn modules(&self) -> Map<ProcessId, Seq<ModuleInfo>> {
        keyed_map(self.modules@).map_values(|v: Vec<ModuleInfo>| v@)
    }

    /// One entry per key, one module per base address within a process, and
    /// every module's end within 64 bits.
    pub closed spec fn wf(&self) -> bool {
        &&& distinct_keys(self.processes@)
        &&& distinct_keys(self.threads@)
        &&& distinct_keys(self.modules@)
        &&& forall|i: int| 0 <= i < self.processes@.len() ==> (#[trigger] self.processes@[i]).1.pid == self.processes@[i].0
        &&& forall|i: int| 0 <= i < self.threads@.len() ==> (#[trigger] self.threads@[i]).1.tid == self.threads@[i].0
        &&& forall|i: int| 0 <= i < self.modules@.len() ==> modules_ok(#[trigger] self.modules@[i].1@)
    }

    pub fn new() -> (r: Self)
        ensures
            r.wf(),
            r.processes() == Map::<ProcessId, ProcessContext>::empty(),
            r.threads() == Map::<ThreadId, ThreadContext>::empty(),
            r.modules() == Map::<ProcessId, Seq<ModuleInfo>>::empty(),
    {
        let r = ContextTracker { processes: Vec::new(), threads: Vec::new(), modules: Vec::new() };
        assert(r.processes() =~= Map::<ProcessId, ProcessContext>::empty());
        assert(r.threads() =~= Map::<ThreadId, ThreadContext>::empty());
        assert(r.modules() =~= Map::<ProcessId, Seq<ModuleInfo>>::empty());
        r
    }
}


/// The keys of a keyed table.
pub open spec fn keys_of<T>(s: Seq<(u32, T)>) -> Seq<u32> {
    s.map_values(|e: (u32, T)| e.0)
}

/// With distinct keys, the keys found are as many as the entries.
pub proof fn lemma_key_count<T>(s: Seq<(u32, T)>)
    requires
        distinct_keys(s),
    ensures
        Set::new(|k: u32| index_of(s, k) >= 0) =~= keys_of(s).to_set(),
        keys_of(s).to_set().len() == s.len(),
        keys_of(s).to_set().finite(),
{
    let ks = keys_of(s);
    assert forall|k: u32| #![trigger ks.to_set().contains(k)] (index_of(s, k) >= 0) == ks.to_set().contains(k) by {
        lemma_index_of(s, k);
        if index_of(s, k) >= 0 {
            assert(ks[index_of(s, k)] == k);
        }
        if ks.contains(k) {
            let j = choose|j: int| 0 <= j < ks.len() && ks[j] == k;
            assert(s[j].0 == k);
        }
    }
    assert(ks.no_duplicates()) by {
        assert forall|i: int, j: int| 0 <= i < ks.len() && 0 <= j < ks.len() && i != j implies ks[i] != ks[j] by {
            if i < j { assert(s[i].0 != s[j].0); } else { assert(s[j].0 != s[i].0); }
        }
    }
    ks.unique_seq_to_set();
    vstd::seq_lib::seq_to_set_is_finite(ks);
}

/// `ms` with `info` stored under its base address (replacing a module of
/// the same base).
pub open spec fn with_module(ms: Seq<ModuleInfo>, info: ModuleInfo) -> Seq<ModuleInfo> {
    let j = base_index(ms, info.base_address);
    if j >= 0 { ms.update(j, info) } else { ms.push(info) }
}

/// Position of the module based at `base`, or -1.
pub open spec fn base_index(ms: Seq<ModuleInfo>, base: u64) -> int
    decreases ms.len(),
{
    if ms.len() == 0 { -1 } else if ms.last().base_address == base { ms.len() - 1 } else { base_index(ms.drop_last(), base) }
}

pub proof fn lemma_base_index(ms: Seq<ModuleInfo>, base: u64)
    ensures
        -1 <= base_index(ms, base) < ms.len(),
        base_index(ms, base) >= 0 ==> ms[base_index(ms, base)].base_address == base,
        base_index(ms, base) == -1 ==> forall|j: int| 0 <= j < ms.len() ==> ms[j].base_address != base,
    decreases ms.len(),
{
    if ms.len() > 0 && ms.last().base_address != base {
        lemma_base_index(ms.drop_last(), base);
        assert forall|j: int| base_index(ms, base) == -1 && 0 <= j < ms.len() implies ms[j].base_address != base by {
            if j < ms.len() - 1 {
                assert(ms.drop_last()[j] == ms[j]);
            }
        }
    }
}

proof fn lemma_base_index_tail(ms: Seq<ModuleInfo>, base: u64, k: int)
    requires
        0 <= k < ms.len(),
        ms[k].base_address == base,
        forall|j: int| k < j < ms.len() ==> ms[j].base_address != base,
    ensures
        base_index(ms, base) == k,
    decreases ms.len(),
{
    if k < ms.len() - 1 {
        lemma_base_index_tail(ms.drop_last(), base, k);
    }
}

/// The modules of a process are well formed: one per base, each ending
/// within 64 bits.
pub open spec fn modules_ok(ms: Seq<ModuleInfo>) -> bool {
    &&& forall|a: int, b: int| 0 <= a < b < ms.len() ==> ms[a].base_address != ms[b].base_address
    &&& forall|a: int| 0 <= a < ms.len() ==> ms[a].base_address + ms[a].size <= u64::MAX
}

fn find_base(ms: &Vec<ModuleInfo>, base: u64) -> (r: Option<usize>)
    ensures
        match r {
            Some(i) => i as int == base_index(ms@, base),
            None => base_index(ms@, base) == -1,
        },
{
    proof { lemma_base_index(ms@, base); }
    let mut i: usize = ms.len();
    while i > 0
        invariant
            i <= ms@.len(),
            forall|j: int| i <= j < ms@.len() ==> ms@[j].base_address != base,
        decreases i,
    {
        if ms[i - 1].base_address == base {
            proof { lemma_base_index_tail(ms@, base, (i - 1) as int); }
            return Some(i - 1);
        }
        i = i - 1;
    }
    proof { lemma_base_index(ms@, base); }
    None
}

impl ContextTracker {
    /// Stores a process under its id (replacing an earlier one).
    pub fn add_process(&mut self, context: ProcessContext)
        requires
            old(self).wf(),
        ensures
            final(self).wf(),
            final(self).processes() == old(self).processes().insert(context.pid, context),
            final(self).threads() == old(self).threads(),
            final(self).modules() == old(self).modules(),
    {
        let ghost old_p = self.processes@;
        let ghost c = context;
        let pid = context.pid;
        put(&mut self.processes, pid, context);
        proof {
            lemma_index_of(old_p, pid);
            assert forall|i: int| 0 <= i < self.processes@.len() implies (#[trigger] self.processes@[i]).1.pid == self.processes@[i].0 by {
                if i < old_p.len() && (index_of(old_p, pid) < 0 || i != index_of(old_p, pid)) {
                    assert(self.processes@[i] == old_p[i]);
                }
            }
        }
    }

    /// Marks a known process as ended.
    pub fn remove_process(&mut self, pid: ProcessId, end_time: u64)
        requires
            old(self).wf(),
        ensures
            final(self).wf(),
            final(self).processes() == if old(self).processes().dom().contains(pid) {
                old(self).processes().insert(pid, ProcessContext { end_time: Some(end_time), is_alive: false, ..old(self).processes()[pid] })
            } else {
                old(self).processes()
            },
            final(self).threads() == old(self).threads(),
            final(self).modules() == old(self).modules(),
    {
        proof { lemma_index_of(self.processes@, pid); }
        match find_key(&self.processes, pid) {
            Some(i) => {
                let mut ctx = self.processes[i].1.copy();
                ctx.mark_ended(end_time);
                assert(ctx.pid == pid);
                self.add_process(ctx);
            },
            None => {},
        }
    }

    pub fn get_process(&self, pid: ProcessId) -> (r: Option<&ProcessContext>)
        ensures
            r == if self.processes().dom().contains(pid) { Some(&self.processes()[pid]) } else { None },
    {
        proof { lemma_index_of(self.processes@, pid); }
        match find_key(&self.processes, pid) {
            Some(i) => Some(&self.processes[i].1),
            None => None,
        }
    }

    /// Stores a thread under its id (replacing an earlier one).
    pub fn add_thread(&mut self, context: ThreadContext)
        requires
            old(self).wf(),
        ensures
            final(self).wf(),
            final(self).threads() == old(self).threads().insert(context.tid, context),
            final(self).processes() == old(self).processes(),
            final(self).modules() == old(self).modules(),
    {
        let ghost old_t = self.threads@;
        let tid = context.tid;
        put(&mut self.threads, tid, context);
        proof {
            lemma_index_of(old_t, tid);
            assert forall|i: int| 0 <= i < self.threads@.len() implies (#[trigger] self.threads@[i]).1.tid == self.threads@[i].0 by {
                if i < old_t.len() && (index_of(old_t, tid) < 0 || i != index_of(old_t, tid)) {
                    assert(self.threads@[i] == old_t[i]);
                }
            }
        }
    }

    /// Marks a known thread as ended.
    pub fn remove_thread(&mut self, tid: ThreadId, end_time: u64)
        requires
            old(self).wf(),
        ensures
            final(self).wf(),
            final(self).threads() == if old(self).threads().dom().contains(tid) {
                old(self).threads().insert(tid, ThreadContext { end_time: Some(end_time), is_alive: false, ..old(self).threads()[tid] })
            } else {
                old(self).threads()
            },
            final(self).processes() == old(self).processes(),
            final(self).modules() == old(self).modules(),
    {
        proof { lemma_index_of(self.threads@, tid); }
        match find_key(&self.threads, tid) {
            Some(i) => {
                let mut ctx = self.threads[i].1;
                ctx.mark_ended(end_time);
                assert(ctx.tid == tid);
                self.add_thread(ctx);
            },
            None => {},
        }
    }

    pub fn get_thread(&self, tid: ThreadId) -> (r: Option<&ThreadContext>)
        ensures
            r == if self.threads().dom().contains(tid) { Some(&self.threads()[tid]) } else { None },
    {
        proof { lemma_index_of(self.threads@, tid); }
        match find_key(&self.threads, tid) {
            Some(i) => Some(&self.threads[i].1),
            None => None,
        }
    }

    /// The process of a known thread.
    pub fn get_thread_process(&self, tid: ThreadId) -> (r: Option<ProcessId>)
        ensures
            r == if self.threads().dom().contains(tid) { Some(self.threads()[tid].pid) } else { None },
    {
        match self.get_thread(tid) {
            Some(t) => Some(t.pid),
            None => None,
        }
    }

    pub fn process_count(&self) -> (r: usize)
        requires
            self.wf(),
        ensures
            r == self.processes().dom().len(),
    {
        proof {
            lemma_key_count(self.processes@);
            assert(self.processes().dom() =~= Set::new(|k: u32| index_of(self.processes@, k) >= 0));
        }
        self.processes.len()
    }

    pub fn thread_count(&self) -> (r: usize)
        requires
            self.wf(),
        ensures
            r == self.threads().dom().len(),
    {
        proof {
            lemma_key_count(self.threads@);
            assert(self.threads().dom() =~= Set::new(|k: u32| index_of(self.threads@, k) >= 0));
        }
        self.threads.len()
    }
}

impl ContextTracker {
    /// Stores a module of a process under its base address (replacing a
    /// module of the same base).
    pub fn add_module(&mut self, pid: ProcessId, info: ModuleInfo)
        requires
            old(self).wf(),
            info.base_address + info.size <= u64::MAX,
        ensures
            final(self).wf(),
            final(self).modules() == old(self).modules().insert(pid,
                with_module(if old(self).modules().dom().contains(pid) { old(self).modules()[pid] } else { Seq::empty() }, info)),
            final(self).processes() == old(self).processes(),
            final(self).threads() == old(self).threads(),
    {
        proof { lemma_index_of(self.modules@, pid); }
        let mut ms: Vec<ModuleInfo> = match find_key(&self.modules, pid) {
            Some(i) => copy_modules(&self.modules[i].1),
            None => Vec::new(),
        };
        let ghost before = ms@;
        proof { lemma_base_index(ms@, info.base_address); }
        match find_base(&ms, info.base_address) {
            Some(j) => { ms.set(j, info); },
            None => { ms.push(info); },
        }
        proof {
            assert(ms@ == with_module(before, info));
            lemma_base_index(before, info.base_address);
            assert forall|a: int, b: int| 0 <= a < b < ms@.len() implies ms@[a].base_address != ms@[b].base_address by {
                if b < before.len() && (base_index(before, info.base_address) < 0 || (a != base_index(before, info.base_address) && b != base_index(before, info.base_address))) {
                    assert(ms@[a] == before[a] && ms@[b] == before[b]);
                } else if b < before.len() {
                    assert(ms@[a].base_address == before[a].base_address && ms@[b].base_address == before[b].base_address);
                } else {
                    assert(ms@[a] == before[a]);
                }
            }
            assert forall|a: int| 0 <= a < ms@.len() implies ms@[a].base_address + ms@[a].size <= u64::MAX by {
                if a < before.len() && (base_index(before, info.base_address) < 0 || a != base_index(before, info.base_address)) {
                    assert(ms@[a] == before[a]);
                }
            }
        }
        let ghost mid = self.modules@;
        put(&mut self.modules, pid, ms);
        proof {
            lemma_index_of(old(self).modules@, pid);
            let om = old(self).modules@;
            assert(keyed_map(self.modules@) == keyed_map(mid).insert(pid, ms));
            assert forall|i: int| 0 <= i < self.modules@.len() implies modules_ok(#[trigger] self.modules@[i].1@) by {
                if i < om.len() && (index_of(om, pid) < 0 || i != index_of(om, pid)) {
                    assert(self.modules@[i] == om[i]);
                    assert(modules_ok(om[i].1@));
                }
            }
            assert(mid == om);
            assert(self.modules() =~= old(self).modules().insert(pid, ms@));
        }
    }
}

/// `ms` without the module based at `base`.
pub open spec fn without_module(ms: Seq<ModuleInfo>, base: u64) -> Seq<ModuleInfo> {
    let j = base_index(ms, base);
    if j >= 0 { ms.remove(j) } else { ms }
}

/// Number of modules over all processes.
pub open spec fn module_total(ms: Seq<(u32, Vec<ModuleInfo>)>) -> nat
    decreases ms.len(),
{
    if ms.len() == 0 { 0 } else { module_total(ms.drop_last()) + ms.last().1@.len() }
}

impl ContextTracker {
    /// Forgets the module of a process based at `base_address`, if known.
    pub fn remove_module(&mut self, pid: ProcessId, base_address: u64)
        requires
            old(self).wf(),
        ensures
            final(self).wf(),
            final(self).modules() == if old(self).modules().dom().contains(pid) {
                old(self).modules().insert(pid, without_module(old(self).modules()[pid], base_address))
            } else {
                old(self).modules()
            },
            final(self).processes() == old(self).processes(),
            final(self).threads() == old(self).threads(),
    {
        proof { lemma_index_of(self.modules@, pid); }
        match find_key(&self.modules, pid) {
            Some(i) => {
                let mut ms = copy_modules(&self.modules[i].1);
                let ghost before = ms@;
                proof {
                    lemma_base_index(ms@, base_address);
                    assert(modules_ok(self.modules@[i as int].1@));
                }
                match find_base(&ms, base_address) {
                    Some(j) => { ms.remove(j); },
                    None => {},
                }
                proof {
                    assert(ms@ == without_module(before, base_address));
                    assert forall|a: int, b: int| 0 <= a < b < ms@.len() implies ms@[a].base_address != ms@[b].base_address by {
                        let j = base_index(before, base_address);
                        if j >= 0 {
                            let a2 = if a < j { a } else { a + 1 };
                            let b2 = if b < j { b } else { b + 1 };
                            assert(ms@[a] == before[a2] && ms@[b] == before[b2]);
                        }
                    }
                    assert forall|a: int| 0 <= a < ms@.len() implies ms@[a].base_address + ms@[a].size <= u64::MAX by {
                        let j = base_index(before, base_address);
                        if j >= 0 {
                            let a2 = if a < j { a } else { a + 1 };
                            assert(ms@[a] == before[a2]);
                        }
                    }
                }
                let ghost om = self.modules@;
                put(&mut self.modules, pid, ms);
                proof {
                    assert forall|k: int| 0 <= k < self.modules@.len() implies modules_ok(#[trigger] self.modules@[k].1@) by {
                        if k != i {
                            assert(self.modules@[k] == om[k]);
                        }
                    }
                    assert(self.modules() =~= old(self).modules().insert(pid, ms@));
                }
            },
            None => {},
        }
    }

    /// A module of the process spanning `address` (the first loaded, when
    /// several do).
    pub fn get_module_for_address(&self, pid: ProcessId, address: u64) -> (r: Option<&ModuleInfo>)
        requires
            self.wf(),
        ensures
            r is None <==> !(self.modules().dom().contains(pid)
                && exists|j: int| 0 <= j < self.modules()[pid].len() && (#[trigger] self.modules()[pid][j]).spans(address)),
            r matches Some(m) ==> self.modules().dom().contains(pid) && self.modules()[pid].contains(*m) && m.spans(address),
    {
        proof { lemma_index_of(self.modules@, pid); }
        match find_key(&self.modules, pid) {
            Some(i) => {
                let ms = &self.modules[i].1;
                proof { assert(modules_ok(ms@)); }
                assert(self.modules().dom().contains(pid) && self.modules()[pid] == ms@);
                let mut j: usize = 0;
                while j < ms.len()
                    invariant
                        j <= ms@.len(),
                        modules_ok(ms@),
                        self.modules().dom().contains(pid) && self.modules()[pid] == ms@,
                        forall|k: int| 0 <= k < j ==> !(#[trigger] ms@[k]).spans(address),
                    decreases ms@.len() - j,
                {
                    if ms[j].contains_address(address) {
                        assert(ms@.contains(ms@[j as int]));
                        return Some(&ms[j]);
                    }
                    j = j + 1;
                }
                None
            },
            None => None,
        }
    }

    /// A module of the process with the given name (the first loaded, when
    /// several have it).
    pub fn get_module_by_name(&self, pid: ProcessId, name: &str) -> (r: Option<&ModuleInfo>)
        ensures
            r is None <==> !(self.modules().dom().contains(pid)
                && exists|j: int| 0 <= j < self.modules()[pid].len() && (#[trigger] self.modules()[pid][j]).name@ == name@),
            r matches Some(m) ==> self.modules().dom().contains(pid) && self.modules()[pid].contains(*m) && m.name@ == name@,
    {
        proof { lemma_index_of(self.modules@, pid); }
        match find_key(&self.modules, pid) {
            Some(i) => {
                let ms = &self.modules[i].1;
                assert(self.modules().dom().contains(pid) && self.modules()[pid] == ms@);
                let mut j: usize = 0;
                while j < ms.len()
                    invariant
                        j <= ms@.len(),
                        self.modules().dom().contains(pid) && self.modules()[pid] == ms@,
                        forall|k: int| 0 <= k < j ==> (#[trigger] ms@[k]).name@ != name@,
                    decreases ms@.len() - j,
                {
                    if str_eq(ms[j].name.as_str(), name) {
                        assert(ms@.contains(ms@[j as int]));
                        return Some(&ms[j]);
                    }
                    j = j + 1;
                }
                None
            },
            None => None,
        }
    }

    /// Modules of one process, or of all processes.
    pub fn module_count(&self, pid: Option<ProcessId>) -> (r: usize)
        requires
            self.module_total_spec() <= usize::MAX,
        ensures
            r == match pid {
                Some(p) => if self.modules().dom().contains(p) { self.modules()[p].len() } else { 0 },
                None => self.module_total_spec(),
            },
    {
        match pid {
            Some(p) => {
                proof { lemma_index_of(self.modules@, p); }
                match find_key(&self.modules, p) {
                    Some(i) => self.modules[i].1.len(),
                    None => 0,
                }
            },
            None => {
                let mut total: usize = 0;
                let mut i: usize = 0;
                while i < self.modules.len()
                    invariant
                        i <= self.modules@.len(),
                        module_total(self.modules@) <= usize::MAX,
                        total == module_total(self.modules@.subrange(0, i as int)),
                    decreases self.modules@.len() - i,
                {
                    proof {
                        assert(self.modules@.subrange(0, i + 1).drop_last() =~= self.modules@.subrange(0, i as int));
                        lemma_module_total_prefix(self.modules@, i + 1);
                    }
                    total = total + self.modules[i].1.len();
                    i = i + 1;
                }
                assert(self.modules@.subrange(0, i as int) =~= self.modules@);
                total
            },
        }
    }

    /// Number of modules over all processes.
    pub closed spec fn module_total_spec(&self) -> nat {
        module_total(self.modules@)
    }
}

pub proof fn lemma_module_total_prefix(ms: Seq<(u32, Vec<ModuleInfo>)>, k: int)
    requires
        0 <= k <= ms.len(),
    ensures
        module_total(ms.subrange(0, k)) <= module_total(ms),
    decreases ms.len() - k,
{
    if k < ms.len() {
        lemma_module_total_prefix(ms, k + 1);
        assert(ms.subrange(0, k + 1).drop_last() =~= ms.subrange(0, k));
    } else {
        assert(ms.subrange(0, k) =~= ms);
    }
}

/// Little-endian value of `n` bytes of `d` from `off`.
pub open spec fn le_value(d: Seq<u8>, off: int, n: nat) -> nat
    decreases n,
{
    if n == 0 { 0 } else { d[off] as nat + 256 * le_value(d, off + 1, (n - 1) as nat) }
}

/// The little-endian `u32` at `off`.
pub fn read_u32_le(d: &[u8], off: usize) -> (r: u32)
    requires
        off + 4 <= d@.len(),
    ensures
        r == le_value(d@, off as int, 4),
{
    let b0 = d[off] as u32;
    let b1 = d[off + 1] as u32;
    let b2 = d[off + 2] as u32;
    let b3 = d[off + 3] as u32;
    proof {
        let o = off as int;
        assert(le_value(d@, o + 4, 0) == 0);
        assert(le_value(d@, o + 3, 1) == b3);
        assert(le_value(d@, o + 2, 2) == b2 + 256 * b3);
        assert(le_value(d@, o + 1, 3) == b1 + 256 * (b2 + 256 * b3));
        assert(le_value(d@, o, 4) == b0 + 256 * (b1 + 256 * (b2 + 256 * b3)));
    }
    b0 + 256 * (b1 + 256 * (b2 + 256 * b3))
}

/// The little-endian `u64` at `off`.
pub fn read_u64_le(d: &[u8], off: usize) -> (r: u64)
    requires
        off + 8 <= d@.len(),
    ensures
        r == le_value(d@, off as int, 8),
{
    let len = d.len();
    let lo = read_u32_le(d, off) as u64;
    let hi = read_u32_le(d, off + 4) as u64;
    proof {
        lemma_le_split(d@, off as int, 4, 4);
        assert(pow256(4) == 4294967296) by {
            reveal_with_fuel(pow256, 5);
        }
    }
    lo + 4294967296 * hi
}

proof fn lemma_le_split(d: Seq<u8>, off: int, a: nat, b: nat)
    ensures
        le_value(d, off, a + b) == le_value(d, off, a) + pow256(a) * le_value(d, off + a, b),
    decreases a,
{
    if a > 0 {
        let a1 = (a - 1) as nat;
        lemma_le_split(d, off + 1, a1, b);
        let x = le_value(d, off + 1, a1);
        let p = pow256(a1);
        let y = le_value(d, off + a, b);
        assert(off + 1 + a1 == off + a);
        assert(le_value(d, off + 1, a1 + b) == x + p * y);
        assert((a + b - 1) as nat == a1 + b);
        assert(le_value(d, off, a + b) == d[off] as nat + 256 * le_value(d, off + 1, a1 + b));
        assert(le_value(d, off, a) == d[off] as nat + 256 * x);
        assert(pow256(a) == 256 * p);
        assert(256 * (x + p * y) == 256 * x + (256 * p) * y) by (nonlinear_arith);
        assert(le_value(d, off, a + b) == le_value(d, off, a) + (256 * p) * y);
    } else {
        assert(pow256(0) == 1);
        assert(le_value(d, off, 0) == 0);
        assert(off + a == off);
    }
}

pub open spec fn pow256(n: nat) -> nat
    decreases n,
{
    if n == 0 { 1 } else { 256 * pow256((n - 1) as nat) }
}

/// The UTF-16 units stored little-endian from `off`: as many as fit, at
/// most `max_units`.
pub open spec fn units_at(d: Seq<u8>, off: int, max_units: nat) -> Seq<u16> {
    let n = if ((d.len() - off) / 2) < max_units { (d.len() - off) / 2 } else { max_units as int };
    Seq::new(n as nat, |i: int| le_value(d, off + 2 * i, 2) as u16)
}

fn read_units(d: &[u8], off: usize, max_units: usize) -> (r: Vec<u16>)
    requires
        off <= d@.len(),
    ensures
        r@ == units_at(d@, off as int, max_units as nat),
{
    let len = d.len();
    let avail = (len - off) / 2;
    let n = if avail < max_units { avail } else { max_units };
    let mut v: Vec<u16> = Vec::new();
    let mut i: usize = 0;
    while i < n
        invariant
            i <= n,
            n <= (d@.len() - off) / 2,
            off <= d@.len(),
            len == d@.len(),
            v@.len() == i,
            forall|k: int| 0 <= k < i ==> v@[k] == le_value(d@, off + 2 * k, 2) as u16,
        decreases n - i,
    {
        let lo = d[off + 2 * i] as u16;
        let hi = d[off + 2 * i + 1] as u16;
        proof {
            let o = off + 2 * i;
            assert(le_value(d@, o + 2, 0) == 0);
            assert(le_value(d@, o + 1, 1) == hi);
            assert(le_value(d@, o, 2) == lo + 256 * hi);
        }
        v.push(lo + 256 * hi);
        i = i + 1;
    }
    assert(v@ =~= units_at(d@, off as int, max_units as nat));
    v
}

/// The name shown for an unknown process or module.
pub open spec fn unknown_name() -> Seq<char> {
    "<unknown>"@
}

/// A process's name in a process-start event: the UTF-16 text from byte 20
/// (at most 256 units, up to a NUL), or `<unknown>` when the data ends
/// there.
pub open spec fn process_name_in(d: Seq<u8>) -> Seq<char> {
    if d.len() > 20 {
        let u = units_at(d, 20, 256);
        utf16_lossy(u.subrange(0, nul_position(u)))
    } else {
        unknown_name()
    }
}

/// A module's path in an image event: the UTF-16 text from byte 24 (at
/// most 1024 units, up to a NUL), or `<unknown>` when it is missing or
/// empty.
pub open spec fn module_path_in(d: Seq<u8>) -> Seq<char> {
    if d.len() > 24 {
        let u = units_at(d, 24, 1024);
        let p = utf16_lossy(u.subrange(0, nul_position(u)));
        if p.len() == 0 { unknown_name() } else { p }
    } else {
        unknown_name()
    }
}

fn extract_process_name(d: &[u8]) -> (r: String)
    ensures
        r@ == process_name_in(d@),
{
    if d.len() > 20 {
        let u = read_units(d, 20, 256);
        safe_utf16_to_string(u.as_slice())
    } else {
        proof { reveal_strlit("<unknown>"); }
        owned("<unknown>")
    }
}

fn extract_module_path(d: &[u8]) -> (r: String)
    ensures
        r@ == module_path_in(d@),
{
    if d.len() > 24 {
        let u = read_units(d, 24, 1024);
        let p = safe_utf16_to_string(u.as_slice());
        if p.as_str().is_empty() {
            return owned("<unknown>");
        }
        p
    } else {
        owned("<unknown>")
    }
}

/// The module name of an image path: its file name, the path itself when
/// it has none, and `<unknown>` for `<unknown>`.
pub open spec fn file_name_of(path: Seq<char>) -> Seq<char> {
    if path == unknown_name() { unknown_name() } else { file_name_or_path(path) }
}

/// The module name of a path.
pub fn module_name_of(path: &str) -> (r: String)
    ensures
        r@ == file_name_of(path@),
{
    proof { reveal_strlit("<unknown>"); }
    if str_eq(path, "<unknown>") {
        return owned("<unknown>");
    }
    file_name_or_whole(path)
}

/// Windows time (100 ns units since 1601) as microseconds since 1970;
/// earlier values pass unchanged.
pub open spec fn convert_timestamp_spec(timestamp: u64) -> u64 {
    if timestamp > 116_444_736_000_000_000 { ((timestamp - 116_444_736_000_000_000) / 10) as u64 } else { timestamp }
}

/// Windows time (100 ns units since 1601) to microseconds since 1970;
/// earlier values pass unchanged.
pub fn convert_timestamp(timestamp: u64) -> (r: u64)
    ensures
        r == convert_timestamp_spec(timestamp),
{
    let epoch_difference: u64 = 116_444_736_000_000_000;
    if timestamp > epoch_difference {
        (timestamp - epoch_difference) / 10
    } else {
        timestamp
    }
}

/// `g` has the given parts.
pub open spec fn has_parts(g: Guid, d1: u32, d2: u16, d3: u16, d4: Seq<u8>) -> bool {
    g.data1 == d1 && g.data2 == d2 && g.data3 == d3 && g.data4@ == d4
}

/// The kernel provider and the kernel event classes whose events are decoded.
pub open spec fn is_kernel_guid(g: Guid) -> bool {
        ||| has_parts(g, 0x9E814AAD, 0x3204, 0x11D2, seq![0x9Au8, 0x82, 0x00, 0x60, 0x08, 0xA8, 0x69, 0x39])
        ||| has_parts(g, 0xCE1DBFB4, 0x137E, 0x4DA6, seq![0x87u8, 0xB0, 0x3F, 0x59, 0xAA, 0x10, 0x2C, 0xBC])
        ||| has_parts(g, 0x3D6FA8D1, 0xFE05, 0x11D0, seq![0x9Du8, 0xDA, 0x00, 0xC0, 0x4F, 0xD7, 0xBA, 0x7C])
        ||| has_parts(g, 0x3D6FA8D0, 0xFE05, 0x11D0, seq![0x9Du8, 0xDA, 0x00, 0xC0, 0x4F, 0xD7, 0xBA, 0x7C])
        ||| has_parts(g, 0x2CB15D1D, 0x5FC1, 0x11D2, seq![0xABu8, 0xE8, 0x00, 0x90, 0x27, 0x60, 0xB7, 0x1E])
        ||| has_parts(g, 0x3D6FA8D2, 0xFE05, 0x11D0, seq![0x9Du8, 0xDA, 0x00, 0xC0, 0x4F, 0xD7, 0xBA, 0x7C])
        ||| has_parts(g, 0x3D6FA8D3, 0xFE05, 0x11D0, seq![0x9Du8, 0xDA, 0x00, 0xC0, 0x4F, 0xD7, 0xBA, 0x7C])
        ||| has_parts(g, 0xAE53722E, 0xC863, 0x11D2, seq![0x86u8, 0x59, 0x00, 0xC0, 0x4F, 0xA3, 0x21, 0xA1])
        ||| has_parts(g, 0x9A280AC0, 0xC8E0, 0x11D1, seq![0x84u8, 0xE2, 0x00, 0xC0, 0x4F, 0xB9, 0x98, 0xA2])
        ||| has_parts(g, 0x4343449D, 0x8E1E, 0x46D4, seq![0x82u8, 0xDD, 0xD3, 0x20, 0x82, 0x95, 0x0F, 0x17])
}

/// Whether events of provider `guid` come from the kernel logger.
pub fn is_kernel_provider(guid: &Guid) -> (r: bool)
    ensures
        r == is_kernel_guid(*guid),
{
    let g0 = kernel_provider_guid();
    let g1 = sampled_profile_guid();
    let g2 = process_guid();
    let g3 = thread_guid();
    let g4 = image_load_guid();
    let g5 = cswitch_guid();
    let g6 = page_fault_guid();
    let g7 = registry_guid();
    let g8 = tcpip_guid();
    let g9 = syscall_guid();
    guid_eq(guid, &g0)
        || guid_eq(guid, &g1)
        || guid_eq(guid, &g2)
        || guid_eq(guid, &g3)
        || guid_eq(guid, &g4)
        || guid_eq(guid, &g5)
        || guid_eq(guid, &g6)
        || guid_eq(guid, &g7)
        || guid_eq(guid, &g8)
        || guid_eq(guid, &g9)
}

/// A decoded kernel event.
#[derive(Debug, Clone)]
pub enum ProcessedEvent {
    Sample(SampledProfileEvent),
    ProcessStart(ProcessContext),
    ProcessEnd(ProcessId, u64, u32),
    ThreadStart(ThreadContext),
    ThreadEnd(ThreadId, u64),
    ImageLoad(ProcessId, ModuleInfo),
    ImageUnload(ProcessId, u64),
    ContextSwitch { timestamp: u64, old_tid: ThreadId, new_tid: ThreadId, old_priority: u8, new_priority: u8 },
    Syscall { timestamp: u64, pid: ProcessId, tid: ThreadId, syscall_id: u32 },
    PageFault { timestamp: u64, pid: ProcessId, tid: ThreadId, address: u64 },
    /// An event of another provider, passed on undecoded.
    Raw,
}

/// Instruction pointers below this are in user mode.
pub const USER_MODE_LIMIT: u64 = 0x7FFF00000000;

/// The sample a sampled-profile event with user data `d` stands for: the
/// instruction pointer is its first eight bytes.
pub open spec fn sample_of(d: Seq<u8>, timestamp: u64, pid: u32, tid: u32) -> SampledProfileEvent {
    let ip = le_value(d, 0, 8) as u64;
    SampledProfileEvent {
        timestamp, process_id: pid, thread_id: tid, instruction_pointer: ip,
        user_mode: ip < USER_MODE_LIMIT, processor_core: None, priority: None,
    }
}

/// What decoding a kernel event of type `opcode` with user data `d` gives:
/// a sample (at least 8 bytes), a process start (process and parent ids,
/// name; at least 8 bytes), a process end (process id, exit code at byte 16),
/// an image load (base, size, process id at byte 16, path) or an image
/// unload (base, process id), each of the last three from 20 bytes on;
/// nothing for other types or data too short to hold the fields read.
pub open spec fn decodes_to(opcode: u8, d: Seq<u8>, timestamp: u64, process_id: u32, thread_id: u32, r: Option<ProcessedEvent>) -> bool {
    &&& (opcode == 46 ==> r == if d.len() < 8 { None } else { Some(ProcessedEvent::Sample(sample_of(d, timestamp, process_id, thread_id))) })
    &&& (opcode == 1 ==> (r is Some <==> d.len() >= 8) && (r matches Some(ProcessedEvent::ProcessStart(c)) ==> (
            c.pid == le_value(d, 0, 4) && c.parent_pid == Some(le_value(d, 4, 4) as u32) && c.name@ == process_name_in(d)
            && c.start_time == timestamp && c.end_time is None && c.is_alive && c.command_line is None)))
    &&& (opcode == 1 ==> (r matches Some(e) ==> e is ProcessStart))
    &&& (opcode == 2 ==> (r is Some <==> d.len() >= 20)
            && (d.len() >= 20 ==> r == Some(ProcessedEvent::ProcessEnd(le_value(d, 0, 4) as u32, timestamp, le_value(d, 16, 4) as u32))))
    &&& (opcode == 10 ==> (r is Some <==> d.len() >= 20) && (r matches Some(ProcessedEvent::ImageLoad(p, m)) ==> (
            p == le_value(d, 16, 4) && m.base_address == le_value(d, 0, 8) && m.size == le_value(d, 8, 8)
            && (m.path matches Some(pa) && pa@ == module_path_in(d)) && m.name@ == file_name_of(module_path_in(d))
            && m.timestamp == 0)))
    &&& (opcode == 10 ==> (r matches Some(e) ==> e is ImageLoad))
    &&& (opcode == 11 ==> (r is Some <==> d.len() >= 20)
            && (d.len() >= 20 ==> r == Some(ProcessedEvent::ImageUnload(le_value(d, 16, 4) as u32, le_value(d, 0, 8) as u64))))
    &&& (!(opcode == 46 || opcode == 1 || opcode == 2 || opcode == 10 || opcode == 11) ==> r is None)
}

/// Decodes the user data of a kernel event.
pub fn decode_kernel_event(opcode: u8, data: &[u8], timestamp: u64, process_id: u32, thread_id: u32) -> (r: Option<ProcessedEvent>)
    ensures
        decodes_to(opcode, data@, timestamp, process_id, thread_id, r),
{
    if opcode == 46 {
        if data.len() < 8 {
            return None;
        }
        let ip = read_u64_le(data, 0);
        let user_mode = ip < USER_MODE_LIMIT;
        return Some(ProcessedEvent::Sample(SampledProfileEvent {
            timestamp, process_id, thread_id, instruction_pointer: ip, user_mode, processor_core: None, priority: None,
        }));
    }
    if opcode == 1 {
        if data.len() < 8 {
            return None;
        }
        let pid = read_u32_le(data, 0);
        let parent = read_u32_le(data, 4);
        let name = extract_process_name(data);
        let ctx = ProcessContext { pid, name, command_line: None, parent_pid: Some(parent), start_time: timestamp, end_time: None, is_alive: true };
        return Some(ProcessedEvent::ProcessStart(ctx));
    }
    if opcode == 2 {
        if data.len() < 20 {
            return None;
        }
        let pid = read_u32_le(data, 0);
        let exit_code = read_u32_le(data, 16);
        return Some(ProcessedEvent::ProcessEnd(pid, timestamp, exit_code));
    }
    if opcode == 10 {
        if data.len() < 20 {
            return None;
        }
        let base = read_u64_le(data, 0);
        let size = read_u64_le(data, 8);
        let pid = read_u32_le(data, 16);
        let path = extract_module_path(data);
        let name = module_name_of(path.as_str());
        let info = ModuleInfo { base_address: base, size, name, path: Some(path), timestamp: 0 };
        return Some(ProcessedEvent::ImageLoad(pid, info));
    }
    if opcode == 11 {
        if data.len() < 20 {
            return None;
        }
        let base = read_u64_le(data, 0);
        let pid = read_u32_le(data, 16);
        return Some(ProcessedEvent::ImageUnload(pid, base));
    }
    None
}

/// `after` is `before` with what `event` says of processes, threads and
/// modules recorded.
pub open spec fn event_applied(before: ContextTracker, after: ContextTracker, event: ProcessedEvent) -> bool {
    match event {
        ProcessedEvent::ProcessStart(c) => after.processes() == before.processes().insert(c.pid, c)
            && after.threads() == before.threads() && after.modules() == before.modules(),
        ProcessedEvent::ProcessEnd(pid, t, _) => after.processes() == (if before.processes().dom().contains(pid) {
                before.processes().insert(pid, ProcessContext { end_time: Some(t), is_alive: false, ..before.processes()[pid] })
            } else {
                before.processes()
            }) && after.threads() == before.threads() && after.modules() == before.modules(),
        ProcessedEvent::ThreadStart(c) => after.threads() == before.threads().insert(c.tid, c)
            && after.processes() == before.processes() && after.modules() == before.modules(),
        ProcessedEvent::ThreadEnd(tid, t) => after.threads() == (if before.threads().dom().contains(tid) {
                before.threads().insert(tid, ThreadContext { end_time: Some(t), is_alive: false, ..before.threads()[tid] })
            } else {
                before.threads()
            }) && after.processes() == before.processes() && after.modules() == before.modules(),
        ProcessedEvent::ImageLoad(pid, m) => after.modules() == (if m.base_address + m.size <= u64::MAX {
                before.modules().insert(pid, with_module(
                    if before.modules().dom().contains(pid) { before.modules()[pid] } else { Seq::empty() }, m))
            } else {
                before.modules()
            }) && after.processes() == before.processes() && after.threads() == before.threads(),
        ProcessedEvent::ImageUnload(pid, base) => after.modules() == (if before.modules().dom().contains(pid) {
                before.modules().insert(pid, without_module(before.modules()[pid], base))
            } else {
                before.modules()
            }) && after.processes() == before.processes() && after.threads() == before.threads(),
        _ => after.same_as(&before),
    }
}

impl ContextTracker {
    /// The same processes, threads and modules.
    pub open spec fn same_as(&self, other: &ContextTracker) -> bool {
        self.processes() == other.processes() && self.threads() == other.threads() && self.modules() == other.modules()
    }

    /// Records what a decoded event says of processes, threads and modules:
    /// a start adds the context, an end marks it ended, an image load adds
    /// the module (when its end address fits in 64 bits) and an image
    /// unload removes it; other events change nothing.
    pub fn apply_event(&mut self, event: &ProcessedEvent)
        requires
            old(self).wf(),
        ensures
            final(self).wf(),
            event_applied(*old(self), *final(self), *event),
    {
        match event {
            ProcessedEvent::ProcessStart(c) => {
                self.add_process(c.copy());
            },
            ProcessedEvent::ProcessEnd(pid, t, _) => {
                self.remove_process(*pid, *t);
            },
            ProcessedEvent::ThreadStart(c) => {
                self.add_thread(*c);
            },
            ProcessedEvent::ThreadEnd(tid, t) => {
                self.remove_thread(*tid, *t);
            },
            ProcessedEvent::ImageLoad(pid, m) => {
                if m.size <= u64::MAX - m.base_address {
                    self.add_module(*pid, m.copy());
                }
            },
            ProcessedEvent::ImageUnload(pid, base) => {
                self.remove_module(*pid, *base);
            },
            _ => {},
        }
    }
}

/// A started process can be looked up afterwards, as it was announced.
pub proof fn law_started_process_is_found(before: ContextTracker, after: ContextTracker, c: ProcessContext)
    requires
        event_applied(before, after, ProcessedEvent::ProcessStart(c)),
    ensures
        after.processes().dom().contains(c.pid),
        after.processes()[c.pid] == c,
{
}

/// Ending a known process keeps what was known of it and marks it ended at
/// the given time; ending an unknown process changes nothing.
pub proof fn law_ended_process_is_not_alive(before: ContextTracker, after: ContextTracker, pid: ProcessId,
    end_time: u64, exit_code: u32)
    requires
        event_applied(before, after, ProcessedEvent::ProcessEnd(pid, end_time, exit_code)),
    ensures
        before.processes().dom().contains(pid) ==> after.processes().dom().contains(pid)
            && after.processes()[pid] == (ProcessContext { end_time: Some(end_time), is_alive: false,
                ..before.processes()[pid] }),
        !before.processes().dom().contains(pid) ==> after.processes() == before.processes(),
{
}

/// A process started and then ended is found, not alive, with its start
/// and its end time.
pub proof fn law_start_then_end(t0: ContextTracker, t1: ContextTracker, t2: ContextTracker, c: ProcessContext,
    end_time: u64, exit_code: u32)
    requires
        event_applied(t0, t1, ProcessedEvent::ProcessStart(c)),
        event_applied(t1, t2, ProcessedEvent::ProcessEnd(c.pid, end_time, exit_code)),
    ensures
        t2.processes().dom().contains(c.pid),
        t2.processes()[c.pid] == (ProcessContext { end_time: Some(end_time), is_alive: false, ..c }),
        !t2.processes()[c.pid].is_alive,
{
}

/// A started thread can be looked up afterwards; ending it marks it ended.
pub proof fn law_thread_start_then_end(t0: ContextTracker, t1: ContextTracker, t2: ContextTracker, c: ThreadContext,
    end_time: u64)
    requires
        event_applied(t0, t1, ProcessedEvent::ThreadStart(c)),
        event_applied(t1, t2, ProcessedEvent::ThreadEnd(c.tid, end_time)),
    ensures
        t1.threads().dom().contains(c.tid) && t1.threads()[c.tid] == c,
        t2.threads().dom().contains(c.tid),
        t2.threads()[c.tid] == (ThreadContext { end_time: Some(end_time), is_alive: false, ..c }),
{
}

/// Once an image is loaded into a process (its end within 64 bits), every
/// address it spans resolves to a module of that process.
pub proof fn law_loaded_image_resolves(before: ContextTracker, after: ContextTracker, pid: ProcessId, m: ModuleInfo,
    address: u64)
    requires
        event_applied(before, after, ProcessedEvent::ImageLoad(pid, m)),
        m.base_address + m.size <= u64::MAX,
        m.spans(address),
    ensures
        after.modules().dom().contains(pid),
        after.modules()[pid].contains(m),
        exists|j: int| 0 <= j < after.modules()[pid].len() && (#[trigger] after.modules()[pid][j]).spans(address),
{
    let ms = if before.modules().dom().contains(pid) { before.modules()[pid] } else { Seq::<ModuleInfo>::empty() };
    let j = base_index(ms, m.base_address);
    lemma_base_index(ms, m.base_address);
    let after_ms = after.modules()[pid];
    if j >= 0 {
        assert(after_ms[j] == m);
        assert(after_ms.contains(m));
    } else {
        assert(after_ms[ms.len() as int] == m);
        assert(after_ms.contains(m));
    }
}

/// Once an image is unloaded from a process, no module of that process is
/// based at its address.
pub proof fn law_unloaded_image_is_gone(before: ContextTracker, after: ContextTracker, pid: ProcessId, base: u64)
    requires
        before.wf(),
        event_applied(before, after, ProcessedEvent::ImageUnload(pid, base)),
    ensures
        after.modules().dom().contains(pid) ==> forall|j: int| 0 <= j < after.modules()[pid].len()
            ==> (#[trigger] after.modules()[pid][j]).base_address != base,
{
    if before.modules().dom().contains(pid) {
        let ms = before.modules()[pid];
        lemma_index_of(before.modules@, pid);
        assert(modules_ok(before.modules@[index_of(before.modules@, pid)].1@));
        assert(modules_ok(ms));
        lemma_base_index(ms, base);
        let k = base_index(ms, base);
        let after_ms = after.modules()[pid];
        assert forall|j: int| 0 <= j < after_ms.len() implies (#[trigger] after_ms[j]).base_address != base by {
            if k >= 0 {
                if j < k {
                    assert(after_ms[j] == ms[j]);
                } else {
                    assert(after_ms[j] == ms[j + 1]);
                }
            }
        }
    }
}

/// Decodes events and keeps the trace's context and counters; the
/// dispatch to user callbacks is left to the caller, which receives each
/// decoded event.
pub struct EventProcessor {
    tracker: ContextTracker,
    samples: u64,
    raw_events: u64,
}

impl EventProcessor {
    pub closed spec fn tracker_spec(&self) -> ContextTracker {
        self.tracker
    }

    pub closed spec fn samples(&self) -> u64 {
        self.samples
    }

    pub closed spec fn raw_events(&self) -> u64 {
        self.raw_events
    }

    pub closed spec fn wf(&self) -> bool {
        self.tracker.wf()
    }

    pub fn new() -> (r: Self)
        ensures
            r.wf(),
            r.samples() == 0,
            r.raw_events() == 0,
            r.tracker_spec().processes().is_empty(),
            r.tracker_spec().threads().is_empty(),
            r.tracker_spec().modules().is_empty(),
    {
        EventProcessor { tracker: ContextTracker::new(), samples: 0, raw_events: 0 }
    }

    /// Handles one event record: counts it, decodes it when the kernel
    /// logger sent it (its timestamp converted) and passes others on as
    /// `Raw`, records what it says in the context, and counts samples.
    pub fn process_event(&mut self, provider: &Guid, opcode: u8, data: &[u8], raw_timestamp: u64, process_id: u32,
        thread_id: u32) -> (r: Option<ProcessedEvent>)
        requires
            old(self).wf(),
            old(self).raw_events() < u64::MAX,
            old(self).samples() < u64::MAX,
        ensures
            final(self).wf(),
            final(self).raw_events() == old(self).raw_events() + 1,
            final(self).samples() == old(self).samples() + if r matches Some(ProcessedEvent::Sample(_)) { 1int } else { 0 },
            is_kernel_guid(*provider) ==> decodes_to(opcode, data@, convert_timestamp_spec(raw_timestamp), process_id, thread_id, r),
            !is_kernel_guid(*provider) ==> r == Some(ProcessedEvent::Raw),
            match r {
                Some(e) => event_applied(old(self).tracker_spec(), final(self).tracker_spec(), e),
                None => final(self).tracker_spec().same_as(&old(self).tracker_spec()),
            },
    {
        self.raw_events = self.raw_events + 1;
        let timestamp = convert_timestamp(raw_timestamp);
        let processed = if is_kernel_provider(provider) {
            decode_kernel_event(opcode, data, timestamp, process_id, thread_id)
        } else {
            Some(ProcessedEvent::Raw)
        };
        match &processed {
            Some(e) => {
                self.tracker.apply_event(e);
                if let ProcessedEvent::Sample(_) = e {
                    self.samples = self.samples + 1;
                }
            },
            None => {},
        }
        processed
    }

    pub fn context_tracker(&self) -> (r: &ContextTracker)
        ensures
            *r == self.tracker_spec(),
    {
        &self.tracker
    }

    pub fn sample_count(&self) -> (r: u64)
        ensures
            r == self.samples(),
    {
        self.samples
    }

    pub fn raw_event_count(&self) -> (r: u64)
        ensures
            r == self.raw_events(),
    {
        self.raw_events
    }

    pub fn reset_counters(&mut self)
        ensures
            final(self).samples() == 0,
            final(self).raw_events() == 0,
            final(self).tracker_spec() == old(self).tracker_spec(),
    {
        self.samples = 0;
        self.raw_events = 0;
    }
}

impl Default for EventProcessor {
    fn default() -> (r: Self)
        ensures
            r.wf(),
            r.samples() == 0,
            r.raw_events() == 0,
    {
        Self::new()
    }
}

fn copy_modules(v: &Vec<ModuleInfo>) -> (r: Vec<ModuleInfo>)
    ensures
        r@ == v@,
{
    let mut out: Vec<ModuleInfo> = Vec::new();
    let mut i: usize = 0;
    while i < v.len()
        invariant
            i <= v@.len(),
            out@ == v@.subrange(0, i as int),
        decreases v@.len() - i,
    {
        out.push(v[i].copy());
        i = i + 1;
        assert(out@ =~= v@.subrange(0, i as int));
    }
    assert(out@ =~= v@);
    out
}

/// Keyed positions depend on the keys alone.
pub proof fn lemma_index_of_same_keys<T>(a: Seq<(u32, T)>, b: Seq<(u32, T)>, k: u32)
    requires
        a.len() == b.len(),
        forall|i: int| 0 <= i < a.len() ==> a[i].0 == b[i].0,
    ensures
        index_of(a, k) == index_of(b, k),
    decreases a.len(),
{
    if a.len() > 0 {
        lemma_index_of_same_keys(a.drop_last(), b.drop_last(), k);
    }
}

} // verus!
