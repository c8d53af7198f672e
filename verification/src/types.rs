//! Core data types shared by every part of the profiler: addresses and
//! identifiers, stack frames, module and symbol descriptions, sampling
//! events and per-function / per-thread / per-process statistics.
use vstd::prelude::*;
use vstd::string::{StrSliceExecFns, StringExecFns};
use crate::text::{copy_opt_string, copy_string, owned, push_char, push_str};

verus! {

/// A virtual address.
pub type Address = u64;
/// A process identifier.
pub type ProcessId = u32;
/// A thread identifier.
pub type ThreadId = u32;
/// A timestamp in the event source's ticks.
pub type Timestamp = u64;

/// One raw CPU sample.
#[derive(Debug, Clone, PartialEq)]
pub struct SampleEvent {
    pub timestamp: Timestamp,
    pub process_id: ProcessId,
    pub thread_id: ThreadId,
    pub instruction_pointer: Address,
    pub processor_core: Option<u16>,
    pub priority: Option<u8>,
}

impl SampleEvent {
    pub fn new(timestamp: Timestamp, process_id: ProcessId, thread_id: ThreadId, instruction_pointer: Address) -> (r: Self)
        ensures
            r.timestamp == timestamp,
            r.process_id == process_id,
            r.thread_id == thread_id,
            r.instruction_pointer == instruction_pointer,
            r.processor_core is None,
            r.priority is None,
    {
        SampleEvent { timestamp, process_id, thread_id, instruction_pointer, processor_core: None, priority: None }
    }

    pub fn with_processor_core(self, core: u16) -> (r: Self)
        ensures
            r == (SampleEvent { processor_core: Some(core), ..self }),
    {
        SampleEvent { processor_core: Some(core), ..self }
    }

    pub fn with_priority(self, priority: u8) -> (r: Self)
        ensures
            r == (SampleEvent { priority: Some(priority), ..self }),
    {
        SampleEvent { priority: Some(priority), ..self }
    }
}

/// A loaded executable image.
#[derive(Debug, Clone, PartialEq)]
pub struct ModuleInfo {
    pub base_address: Address,
    pub size: u64,
    pub name: String,
    pub path: Option<String>,
    pub pdb_path: Option<String>,
    pub timestamp: u32,
    pub checksum: u32,
}

impl ModuleInfo {
    pub fn new(base_address: Address, size: u64, name: &str) -> (r: Self)
        ensures
            r.base_address == base_address,
            r.size == size,
            r.name@ == name@,
            r.path is None,
            r.pdb_path is None,
            r.timestamp == 0,
            r.checksum == 0,
    {
        ModuleInfo { base_address, size, name: owned(name), path: None, pdb_path: None, timestamp: 0, checksum: 0 }
    }

    /// An exact copy.
    pub fn copy(&self) -> (r: Self)
        ensures
            r == *self,
    {
        ModuleInfo {
            base_address: self.base_address,
            size: self.size,
            name: copy_string(&self.name),
            path: copy_opt_string(&self.path),
            pdb_path: copy_opt_string(&self.pdb_path),
            timestamp: self.timestamp,
            checksum: self.checksum,
        }
    }
}

/// A resolved symbol.
#[derive(Debug, Clone, PartialEq)]
pub struct SymbolInfo {
    pub address: Address,
    pub name: String,
    pub module: Option<String>,
    pub source_file: Option<String>,
    pub line_number: Option<u32>,
}

impl SymbolInfo {
    pub fn new(address: Address, name: &str) -> (r: Self)
        ensures
            r.address == address,
            r.name@ == name@,
            r.module is None,
            r.source_file is None,
            r.line_number is None,
    {
        SymbolInfo { address, name: owned(name), module: None, source_file: None, line_number: None }
    }

    /// An exact copy.
    pub fn copy(&self) -> (r: Self)
        ensures
            r == *self,
    {
        SymbolInfo {
            address: self.address,
            name: copy_string(&self.name),
            module: copy_opt_string(&self.module),
            source_file: copy_opt_string(&self.source_file),
            line_number: self.line_number,
        }
    }
}

/// One frame of a call stack.
#[derive(Debug, Clone, PartialEq)]
pub struct StackFrame {
    pub address: Address,
    pub module_name: Option<String>,
    pub function_name: Option<String>,
    pub file_name: Option<String>,
    pub line_number: Option<u32>,
    pub column_number: Option<u32>,
    pub offset: Option<u64>,
}

/// `module!function` when both are known, otherwise the function name, the
/// module name, or the address in hexadecimal.
pub open spec fn full_function_name_spec(f: StackFrame) -> Seq<char> {
    match (f.module_name, f.function_name) {
        (Some(m), Some(n)) => m@.push('!') + n@,
        (None, Some(n)) => n@,
        (Some(m), None) => m@,
        (None, None) => seq!['0', 'x'] + crate::text::hex_seq(f.address as nat, 1),
    }
}

impl StackFrame {
    /// An exact copy.
    pub fn copy(&self) -> (r: Self)
        ensures
            r == *self,
    {
        StackFrame {
            address: self.address,
            module_name: copy_opt_string(&self.module_name),
            function_name: copy_opt_string(&self.function_name),
            file_name: copy_opt_string(&self.file_name),
            line_number: self.line_number,
            column_number: self.column_number,
            offset: self.offset,
        }
    }

    pub fn new(address: Address) -> (r: Self)
        ensures
            r.address == address,
            r.module_name is None,
            r.function_name is None,
            r.file_name is None,
            r.line_number is None,
            r.column_number is None,
            r.offset is None,
    {
        StackFrame {
            address,
            module_name: None,
            function_name: None,
            file_name: None,
            line_number: None,
            column_number: None,
            offset: None,
        }
    }

    pub fn with_symbol(address: Address, module: &str, function: &str) -> (r: Self)
        ensures
            r.address == address,
            r.module_name matches Some(m) && m@ == module@,
            r.function_name matches Some(f) && f@ == function@,
            r.file_name is None,
            r.line_number is None,
            r.column_number is None,
            r.offset is None,
    {
        StackFrame {
            address,
            module_name: Some(owned(module)),
            function_name: Some(owned(function)),
            file_name: None,
            line_number: None,
            column_number: None,
            offset: None,
        }
    }

    pub fn full_function_name(&self) -> (r: String)
        ensures
            r@ == full_function_name_spec(*self),
    {
        match (&self.module_name, &self.function_name) {
            (Some(m), Some(n)) => {
                let mut s = copy_string(m);
                push_char(&mut s, '!');
                push_str(&mut s, n.as_str());
                s
            },
            (None, Some(n)) => copy_string(n),
            (Some(m), None) => copy_string(m),
            (None, None) => {
                let mut s = owned("0x");
                proof { reveal_strlit("0x"); }
                crate::text::write_hex(&mut s, self.address, 1);
                s
            },
        }
    }

    pub fn has_symbol_info(&self) -> (r: bool)
        ensures
            r == self.function_name.is_some(),
    {
        self.function_name.is_some()
    }
}

/// A captured call stack.
#[derive(Debug, Clone, PartialEq)]
pub struct CallStack {
    pub frames: Vec<StackFrame>,
    pub depth: usize,
    pub is_complete: bool,
}

impl CallStack {
    pub fn new() -> (r: Self)
        ensures
            r.frames@.len() == 0,
            r.depth == 0,
            !r.is_complete,
    {
        CallStack { frames: Vec::new(), depth: 0, is_complete: false }
    }

    pub fn with_capacity(capacity: usize) -> (r: Self)
        ensures
            r.frames@.len() == 0,
            r.depth == 0,
            !r.is_complete,
    {
        CallStack { frames: Vec::with_capacity(capacity), depth: 0, is_complete: false }
    }

    /// Appends a frame and keeps `depth` equal to the number of frames.
    pub fn push(&mut self, frame: StackFrame)
        requires
            old(self).depth < usize::MAX,
        ensures
            final(self).frames@ == old(self).frames@.push(frame),
            final(self).depth == old(self).depth + 1,
            final(self).is_complete == old(self).is_complete,
    {
        self.frames.push(frame);
        self.depth = self.depth + 1;
    }

    pub fn len(&self) -> (r: usize)
        ensures
            r == self.frames@.len(),
    {
        self.frames.len()
    }
}


/// Index of the last occurrence of `c` in `s`, or -1.
pub open spec fn last_index_of(s: Seq<char>, c: char) -> int
    decreases s.len(),
{
    if s.len() == 0 {
        -1
    } else if s.last() == c {
        s.len() - 1
    } else {
        last_index_of(s.drop_last(), c)
    }
}

pub proof fn lemma_last_index_of(s: Seq<char>, c: char)
    ensures
        -1 <= last_index_of(s, c) < s.len(),
        last_index_of(s, c) >= 0 ==> s[last_index_of(s, c)] == c,
        forall|j: int| last_index_of(s, c) < j < s.len() ==> s[j] != c,
    decreases s.len(),
{
    if s.len() > 0 && s.last() != c {
        lemma_last_index_of(s.drop_last(), c);
        assert forall|j: int| last_index_of(s, c) < j < s.len() implies s[j] != c by {
            if j < s.len() - 1 {
                assert(s.drop_last()[j] == s[j]);
            }
        }
    }
}

/// The part of a `module!function` name after the last `!`, or the whole
/// name when it holds no `!`.
pub open spec fn simple_name_spec(name: Seq<char>) -> Seq<char> {
    name.subrange(last_index_of(name, '!') + 1, name.len() as int)
}

/// Finds the last `!` of a string, scanning from the end.
pub fn last_bang(s: &str) -> (r: Option<usize>)
    ensures
        match r {
            Some(i) => i as int == last_index_of(s@, '!'),
            None => last_index_of(s@, '!') == -1,
        },
{
    let n = s.unicode_len();
    let mut i: usize = n;
    proof { lemma_last_index_of(s@, '!'); }
    while i > 0
        invariant
            i <= n,
            n == s@.len(),
            forall|j: int| i <= j < n ==> s@[j] != '!',
            -1 <= last_index_of(s@, '!') < n,
            last_index_of(s@, '!') >= 0 ==> s@[last_index_of(s@, '!')] == '!',
            forall|j: int| last_index_of(s@, '!') < j < n ==> s@[j] != '!',
        decreases i,
    {
        if s.get_char(i - 1) == '!' {
            return Some(i - 1);
        }
        i = i - 1;
    }
    None
}

/// Execution statistics of one function.
#[derive(Debug, Clone, PartialEq)]
pub struct FunctionStats {
    pub function_name: String,
    pub module_name: Option<String>,
    pub thread_id: Option<ThreadId>,
    pub call_count: u64,
    pub total_time_us: u64,
    pub self_time_us: u64,
    pub min_time_us: u64,
    pub max_time_us: u64,
    /// `total_time_us / call_count`, rounded down (0 when never called).
    pub average_time_us: u64,
}

pub open spec fn sat_add(a: u64, b: u64) -> u64 {
    if a + b > u64::MAX { u64::MAX } else { (a + b) as u64 }
}

pub open spec fn min_u64(a: u64, b: u64) -> u64 {
    if a <= b { a } else { b }
}

pub open spec fn max_u64(a: u64, b: u64) -> u64 {
    if a >= b { a } else { b }
}

/// `a` with the counts and times of `b` added in, as `merge` leaves it.
pub open spec fn merged(a: FunctionStats, b: FunctionStats) -> FunctionStats {
    let cc = sat_add(a.call_count, b.call_count);
    let tt = sat_add(a.total_time_us, b.total_time_us);
    FunctionStats {
        call_count: cc,
        total_time_us: tt,
        self_time_us: sat_add(a.self_time_us, b.self_time_us),
        min_time_us: min_u64(a.min_time_us, b.min_time_us),
        max_time_us: max_u64(a.max_time_us, b.max_time_us),
        average_time_us: if cc > 0 { tt / cc } else { a.average_time_us },
        ..a
    }
}

impl FunctionStats {
    pub fn new(function_name: &str) -> (r: Self)
        ensures
            r.function_name@ == function_name@,
            r.module_name is None,
            r.thread_id is None,
            r.call_count == 0,
            r.total_time_us == 0,
            r.self_time_us == 0,
            r.min_time_us == u64::MAX,
            r.max_time_us == 0,
            r.average_time_us == 0,
    {
        FunctionStats {
            function_name: owned(function_name),
            module_name: None,
            thread_id: None,
            call_count: 0,
            total_time_us: 0,
            self_time_us: 0,
            min_time_us: u64::MAX,
            max_time_us: 0,
            average_time_us: 0,
        }
    }

    /// An exact copy.
    pub fn copy(&self) -> (r: Self)
        ensures
            r == *self,
    {
        FunctionStats {
            function_name: copy_string(&self.function_name),
            module_name: copy_opt_string(&self.module_name),
            thread_id: self.thread_id,
            call_count: self.call_count,
            total_time_us: self.total_time_us,
            self_time_us: self.self_time_us,
            min_time_us: self.min_time_us,
            max_time_us: self.max_time_us,
            average_time_us: self.average_time_us,
        }
    }

    /// Adds the counts and times of `other` into `self` (saturating at
    /// `u64::MAX`), widens the min/max range and recomputes the average.
    pub fn merge(&mut self, other: &FunctionStats)
        ensures
            *final(self) == merged(*old(self), *other),
            final(self).function_name == old(self).function_name,
            final(self).module_name == old(self).module_name,
            final(self).thread_id == old(self).thread_id,
            final(self).call_count == sat_add(old(self).call_count, other.call_count),
            final(self).total_time_us == sat_add(old(self).total_time_us, other.total_time_us),
            final(self).self_time_us == sat_add(old(self).self_time_us, other.self_time_us),
            final(self).min_time_us == min_u64(old(self).min_time_us, other.min_time_us),
            final(self).max_time_us == max_u64(old(self).max_time_us, other.max_time_us),
            final(self).average_time_us == if final(self).call_count > 0 {
                final(self).total_time_us / final(self).call_count
            } else {
                old(self).average_time_us
            },
    {
        self.call_count = self.call_count.saturating_add(other.call_count);
        self.total_time_us = self.total_time_us.saturating_add(other.total_time_us);
        self.self_time_us = self.self_time_us.saturating_add(other.self_time_us);
        if other.min_time_us < self.min_time_us {
            self.min_time_us = other.min_time_us;
        }
        if other.max_time_us > self.max_time_us {
            self.max_time_us = other.max_time_us;
        }
        if self.call_count > 0 {
            self.average_time_us = self.total_time_us / self.call_count;
        }
    }

    /// The function name without its `module!` prefix.
    pub fn simple_name(&self) -> (r: String)
        ensures
            r@ == simple_name_spec(self.function_name@),
    {
        let s = self.function_name.as_str();
        let n = s.unicode_len();
        proof { lemma_last_index_of(s@, '!'); }
        let start: usize = match last_bang(s) {
            Some(i) => i + 1,
            None => 0,
        };
        String::from_str(s.substring_char(start, n))
    }
}

/// Position of the entry named `name` in `s`, or -1.
pub open spec fn fn_index(s: Seq<FunctionStats>, name: Seq<char>) -> int
    decreases s.len(),
{
    if s.len() == 0 {
        -1
    } else if s.last().function_name@ == name {
        s.len() - 1
    } else {
        fn_index(s.drop_last(), name)
    }
}

pub proof fn lemma_fn_index(s: Seq<FunctionStats>, name: Seq<char>)
    ensures
        -1 <= fn_index(s, name) < s.len(),
        fn_index(s, name) >= 0 ==> s[fn_index(s, name)].function_name@ == name,
        fn_index(s, name) == -1 ==> forall|j: int| 0 <= j < s.len() ==> s[j].function_name@ != name,
        forall|j: int| fn_index(s, name) < j < s.len() ==> s[j].function_name@ != name,
    decreases s.len(),
{
    if s.len() > 0 && s.last().function_name@ != name {
        lemma_fn_index(s.drop_last(), name);
        assert forall|j: int| fn_index(s, name) < j < s.len() implies s[j].function_name@ != name by {
            if j < s.len() - 1 {
                assert(s.drop_last()[j] == s[j]);
            }
        }
    }
}

/// No two entries share a function name.
pub open spec fn distinct_fn_names(s: Seq<FunctionStats>) -> bool {
    forall|i: int, j: int| 0 <= i < j < s.len() ==> s[i].function_name@ != s[j].function_name@
}

/// Entry positions depend on the entries' names alone.
pub proof fn lemma_fn_index_same_names(a: Seq<FunctionStats>, b: Seq<FunctionStats>, name: Seq<char>)
    requires
        a.len() == b.len(),
        forall|i: int| 0 <= i < a.len() ==> a[i].function_name@ == b[i].function_name@,
    ensures
        fn_index(a, name) == fn_index(b, name),
    decreases a.len(),
{
    if a.len() > 0 {
        lemma_fn_index_same_names(a.drop_last(), b.drop_last(), name);
    }
}

pub proof fn lemma_fn_index_push(s: Seq<FunctionStats>, e: FunctionStats, name: Seq<char>)
    ensures
        fn_index(s.push(e), name) == if e.function_name@ == name { s.len() as int } else { fn_index(s, name) },
{
    assert(s.push(e).drop_last() =~= s);
}

/// Finds the entry named `name`.
pub fn find_fn(s: &Vec<FunctionStats>, name: &str) -> (r: Option<usize>)
    ensures
        match r {
            Some(i) => i as int == fn_index(s@, name@),
            None => fn_index(s@, name@) == -1,
        },
{
    proof { lemma_fn_index(s@, name@); }
    let mut i: usize = s.len();
    while i > 0
        invariant
            i <= s@.len(),
            forall|j: int| i <= j < s@.len() ==> s@[j].function_name@ != name@,
            -1 <= fn_index(s@, name@) < s@.len(),
            fn_index(s@, name@) >= 0 ==> s@[fn_index(s@, name@)].function_name@ == name@,
            forall|j: int| fn_index(s@, name@) < j < s@.len() ==> s@[j].function_name@ != name@,
        decreases i,
    {
        if crate::text::str_eq(s[i - 1].function_name.as_str(), name) {
            return Some(i - 1);
        }
        i = i - 1;
    }
    None
}

/// The total times of a sequence of function statistics.
pub open spec fn call_count_keys(s: Seq<FunctionStats>) -> Seq<u64> {
    s.map_values(|f: FunctionStats| f.call_count)
}

pub open spec fn time_keys(s: Seq<FunctionStats>) -> Seq<u64> {
    s.map_values(|f: FunctionStats| f.total_time_us)
}

/// Statistics of one thread: its samples and its functions, at most one
/// entry per function name.
#[derive(Debug, Clone, PartialEq)]
pub struct ThreadStats {
    pub thread_id: ThreadId,
    pub process_id: ProcessId,
    pub total_samples: u64,
    pub total_execution_time_us: u64,
    pub function_stats: Vec<FunctionStats>,
}

impl ThreadStats {
    pub open spec fn wf(&self) -> bool {
        distinct_fn_names(self.function_stats@)
    }

    pub fn new(thread_id: ThreadId, process_id: ProcessId) -> (r: Self)
        ensures
            r.thread_id == thread_id,
            r.process_id == process_id,
            r.total_samples == 0,
            r.total_execution_time_us == 0,
            r.function_stats@.len() == 0,
            r.wf(),
    {
        ThreadStats { thread_id, process_id, total_samples: 0, total_execution_time_us: 0, function_stats: Vec::new() }
    }

    /// Stores `stats` under its function name, replacing an entry of the
    /// same name.
    pub fn add_function_stats(&mut self, stats: FunctionStats)
        requires
            old(self).wf(),
        ensures
            final(self).wf(),
            final(self).thread_id == old(self).thread_id,
            final(self).process_id == old(self).process_id,
            final(self).total_samples == old(self).total_samples,
            final(self).total_execution_time_us == old(self).total_execution_time_us,
            final(self).function_stats@ == if fn_index(old(self).function_stats@, stats.function_name@) >= 0 {
                old(self).function_stats@.update(fn_index(old(self).function_stats@, stats.function_name@), stats)
            } else {
                old(self).function_stats@.push(stats)
            },
    {
        proof { lemma_fn_index(self.function_stats@, stats.function_name@); }
        match find_fn(&self.function_stats, stats.function_name.as_str()) {
            Some(i) => {
                self.function_stats.set(i, stats);
            },
            None => {
                self.function_stats.push(stats);
            },
        }
    }

    /// The entry for `name`, if any.
    pub fn get(&self, name: &str) -> (r: Option<&FunctionStats>)
        ensures
            -1 <= fn_index(self.function_stats@, name@) < self.function_stats@.len(),
            match r {
                Some(f) => fn_index(self.function_stats@, name@) >= 0
                    && *f == self.function_stats@[fn_index(self.function_stats@, name@)],
                None => fn_index(self.function_stats@, name@) == -1,
            },
    {
        proof { lemma_fn_index(self.function_stats@, name@); }
        match find_fn(&self.function_stats, name) {
            Some(i) => Some(&self.function_stats[i]),
            None => None,
        }
    }

    /// An exact copy.
    pub fn copy(&self) -> (r: Self)
        ensures
            r.same_as(*self),
    {
        let mut fs: Vec<FunctionStats> = Vec::new();
        let mut i: usize = 0;
        while i < self.function_stats.len()
            invariant
                i <= self.function_stats@.len(),
                fs@ == self.function_stats@.subrange(0, i as int),
            decreases self.function_stats@.len() - i,
        {
            fs.push(self.function_stats[i].copy());
            i = i + 1;
            assert(fs@ =~= self.function_stats@.subrange(0, i as int));
        }
        assert(fs@ =~= self.function_stats@);
        let r = ThreadStats {
            thread_id: self.thread_id,
            process_id: self.process_id,
            total_samples: self.total_samples,
            total_execution_time_us: self.total_execution_time_us,
            function_stats: fs,
        };
        r
    }

    /// Equal field by field, the function list by its contents.
    pub open spec fn same_as(self, other: ThreadStats) -> bool {
        &&& self.thread_id == other.thread_id
        &&& self.process_id == other.process_id
        &&& self.total_samples == other.total_samples
        &&& self.total_execution_time_us == other.total_execution_time_us
        &&& self.function_stats@ == other.function_stats@
    }

    /// Copies of the `limit` functions with the largest total time, largest
    /// first.
    pub fn top_functions_by_time(&self, limit: usize) -> (r: Vec<FunctionStats>)
        ensures
            exists|idx: Seq<usize>| #[trigger] crate::rank::is_top_selection(
                time_keys(self.function_stats@), limit as nat, idx)
                && r@ == idx.map_values(|i: usize| self.function_stats@[i as int]),
    {
        let mut keys: Vec<u64> = Vec::new();
        let mut i: usize = 0;
        while i < self.function_stats.len()
            invariant
                i <= self.function_stats@.len(),
                keys@ == self.function_stats@.subrange(0, i as int).map_values(|f: FunctionStats| f.total_time_us),
            decreases self.function_stats@.len() - i,
        {
            keys.push(self.function_stats[i].total_time_us);
            i = i + 1;
            assert(keys@ =~= self.function_stats@.subrange(0, i as int).map_values(|f: FunctionStats| f.total_time_us));
        }
        assert(self.function_stats@.subrange(0, i as int) =~= self.function_stats@);
        assert(keys@ == time_keys(self.function_stats@));
        let idx = crate::rank::top_indices(&keys, limit);
        let mut out: Vec<FunctionStats> = Vec::new();
        let mut k: usize = 0;
        while k < idx.len()
            invariant
                k <= idx@.len(),
                crate::rank::is_top_selection(keys@, limit as nat, idx@),
                keys@.len() == self.function_stats@.len(),
                out@ == idx@.subrange(0, k as int).map_values(|i: usize| self.function_stats@[i as int]),
            decreases idx@.len() - k,
        {
            out.push(self.function_stats[idx[k]].copy());
            k = k + 1;
            assert(out@ =~= idx@.subrange(0, k as int).map_values(|i: usize| self.function_stats@[i as int]));
        }
        assert(idx@.subrange(0, k as int) =~= idx@);
        out
    }

    /// Copies of the `limit` functions called most often, most first.
    pub fn top_functions_by_calls(&self, limit: usize) -> (r: Vec<FunctionStats>)
        ensures
            exists|idx: Seq<usize>| #[trigger] crate::rank::is_top_selection(
                call_count_keys(self.function_stats@), limit as nat, idx)
                && r@ == idx.map_values(|i: usize| self.function_stats@[i as int]),
    {
        let mut keys: Vec<u64> = Vec::new();
        let mut i: usize = 0;
        while i < self.function_stats.len()
            invariant
                i <= self.function_stats@.len(),
                keys@ == self.function_stats@.subrange(0, i as int).map_values(|f: FunctionStats| f.call_count),
            decreases self.function_stats@.len() - i,
        {
            keys.push(self.function_stats[i].call_count);
            i = i + 1;
            assert(keys@ =~= self.function_stats@.subrange(0, i as int).map_values(|f: FunctionStats| f.call_count));
        }
        assert(self.function_stats@.subrange(0, i as int) =~= self.function_stats@);
        assert(keys@ == call_count_keys(self.function_stats@));
        let idx = crate::rank::top_indices(&keys, limit);
        let mut out: Vec<FunctionStats> = Vec::new();
        let mut k: usize = 0;
        while k < idx.len()
            invariant
                k <= idx@.len(),
                crate::rank::is_top_selection(keys@, limit as nat, idx@),
                keys@.len() == self.function_stats@.len(),
                out@ == idx@.subrange(0, k as int).map_values(|i: usize| self.function_stats@[i as int]),
            decreases idx@.len() - k,
        {
            out.push(self.function_stats[idx[k]].copy());
            k = k + 1;
            assert(out@ =~= idx@.subrange(0, k as int).map_values(|i: usize| self.function_stats@[i as int]));
        }
        assert(idx@.subrange(0, k as int) =~= idx@);
        out
    }
}

/// Statistics of one process.
#[derive(Debug, Clone, PartialEq)]
pub struct ProcessStats {
    pub process_id: ProcessId,
    pub process_name: Option<String>,
    pub total_samples: u64,
    pub thread_count: usize,
}

impl ProcessStats {
    pub fn new(process_id: ProcessId) -> (r: Self)
        ensures
            r.process_id == process_id,
            r.process_name is None,
            r.total_samples == 0,
            r.thread_count == 0,
    {
        ProcessStats { process_id, process_name: None, total_samples: 0, thread_count: 0 }
    }
}

} // verus!
