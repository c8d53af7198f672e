//! Frames for addresses without symbols, and how a frame is shown.
use vstd::prelude::*;
use crate::text::{owned, copy_string, push_str, push_char, write_hex, hex_seq, write_dec, dec_seq, join_with,
    join_strings_with};
use crate::types::{Address, ProcessId, StackFrame};
use crate::etw::processor::{index_of, lemma_index_of, lemma_index_of_same_keys, find_key};

verus! {

/// Counters of symbol resolution.
#[derive(Debug, Clone, Copy)]
pub struct ResolveStats {
    pub total_requests: u64,
    pub cache_hits: u64,
    /// Addresses resolved to a symbol.
    pub resolved: u64,
    /// Addresses shown as `???`.
    pub failed: u64,
    pub batch_resolves: u64,
}

impl Default for ResolveStats {
    fn default() -> (r: Self)
        ensures
            r.total_requests == 0,
            r.cache_hits == 0,
            r.resolved == 0,
            r.failed == 0,
            r.batch_resolves == 0,
    {
        ResolveStats { total_requests: 0, cache_hits: 0, resolved: 0, failed: 0, batch_resolves: 0 }
    }
}

/// A frame whose symbol is unknown: function `???`.
pub fn create_unknown_frame(address: Address) -> (r: StackFrame)
    ensures
        r.address == address,
        r.module_name is None,
        r.function_name matches Some(f) && f@ == "???"@,
        r.file_name is None,
        r.line_number is None,
        r.column_number is None,
        r.offset is None,
{
    StackFrame {
        address,
        module_name: None,
        function_name: Some(owned("???")),
        file_name: None,
        line_number: None,
        column_number: None,
        offset: None,
    }
}

/// A frame known only by its module and offset: function `+0x` and the
/// offset in hexadecimal (0 when the address lies below the base).
pub fn create_module_offset_frame(address: Address, module_name: &str, module_base: Address) -> (r: StackFrame)
    ensures
        r.address == address,
        r.module_name matches Some(m) && m@ == module_name@,
        r.offset == Some(if address >= module_base { (address - module_base) as u64 } else { 0u64 }),
        r.function_name matches Some(f) && f@ == "+0x"@ + hex_seq(r.offset->0 as nat, 1),
        r.file_name is None,
        r.line_number is None,
        r.column_number is None,
{
    let offset = address.saturating_sub(module_base);
    let mut name = owned("+0x");
    write_hex(&mut name, offset, 1);
    StackFrame {
        address,
        module_name: Some(owned(module_name)),
        function_name: Some(name),
        file_name: None,
        line_number: None,
        column_number: None,
        offset: Some(offset),
    }
}

/// What a formatted frame shows.
#[derive(Debug, Clone, Copy)]
pub struct FrameFormatOptions {
    pub show_module: bool,
    pub show_source: bool,
    pub show_address: bool,
    pub show_offset: bool,
}

impl Default for FrameFormatOptions {
    fn default() -> (r: Self)
        ensures
            r.show_module && !r.show_source && r.show_address && !r.show_offset,
    {
        FrameFormatOptions { show_module: true, show_source: false, show_address: true, show_offset: false }
    }
}

/// The symbol part of a formatted frame.
pub open spec fn symbol_part(f: StackFrame, o: FrameFormatOptions) -> Seq<char> {
    match (f.function_name, f.module_name) {
        (Some(func), Some(m)) => if o.show_module { m@ + "!"@ + func@ } else { func@ },
        (Some(func), None) => func@,
        (None, Some(m)) => if o.show_offset && f.offset is Some {
            m@ + "+0x"@ + hex_seq(f.offset->0 as nat, 1)
        } else if o.show_module {
            m@
        } else {
            "???"@
        },
        (None, None) => "???"@,
    }
}

/// The parts of a formatted frame: the address (hexadecimal, at least 8
/// digits),
/// the symbol, and `[file:line]` when asked for and known.
pub open spec fn frame_parts(f: StackFrame, o: FrameFormatOptions) -> Seq<Seq<char>> {
    let a: Seq<Seq<char>> = if o.show_address { seq!["0x"@ + hex_seq(f.address as nat, 8)] } else { seq![] };
    let b = a.push(symbol_part(f, o));
    if o.show_source && f.file_name is Some && f.line_number is Some {
        b.push("["@ + f.file_name->0@ + ":"@ + dec_seq(f.line_number->0 as nat) + "]"@)
    } else {
        b
    }
}

/// Without the module shown, a frame with a function name shows that name
/// alone as its symbol, and with nothing else asked for the whole line is
/// that name; with the module shown and known, the symbol is
/// `module!function`.
pub proof fn law_symbol_without_module(f: StackFrame, o: FrameFormatOptions)
    requires
        f.function_name is Some,
    ensures
        !o.show_module ==> symbol_part(f, o) == f.function_name->0@,
        !o.show_module && !o.show_address && !o.show_source ==> join_with(frame_parts(f, o), " "@) == f.function_name->0@,
        o.show_module && f.module_name is Some ==> symbol_part(f, o) == f.module_name->0@ + "!"@ + f.function_name->0@,
{
    if !o.show_module && !o.show_address && !o.show_source {
        assert(frame_parts(f, o) =~= seq![symbol_part(f, o)]);
    }
}

fn symbol_text(frame: &StackFrame, options: FrameFormatOptions) -> (r: String)
    ensures
        r@ == symbol_part(*frame, options),
{
    match (&frame.function_name, &frame.module_name) {
        (Some(func), Some(m)) => {
            if options.show_module {
                let mut s = copy_string(m);
                push_str(&mut s, "!");
                push_str(&mut s, func.as_str());
                s
            } else {
                copy_string(func)
            }
        },
        (Some(func), None) => copy_string(func),
        (None, Some(m)) => {
            if options.show_offset && frame.offset.is_some() {
                let mut s = copy_string(m);
                push_str(&mut s, "+0x");
                match frame.offset {
                    Some(off) => write_hex(&mut s, off, 1),
                    None => {},
                }
                s
            } else if options.show_module {
                copy_string(m)
            } else {
                owned("???")
            }
        },
        (None, None) => owned("???"),
    }
}

/// A frame on one line: its parts joined with spaces.
pub fn format_frame(frame: &StackFrame, options: FrameFormatOptions) -> (r: String)
    ensures
        r@ == join_with(frame_parts(*frame, options), " "@),
{
    let mut parts: Vec<String> = Vec::new();
    if options.show_address {
        let mut a = owned("0x");
        write_hex(&mut a, frame.address, 8);
        parts.push(a);
    }
    parts.push(symbol_text(frame, options));
    if options.show_source {
        match (&frame.file_name, frame.line_number) {
            (Some(file), Some(line)) => {
                let mut s = owned("[");
                push_str(&mut s, file.as_str());
                push_str(&mut s, ":");
                write_dec(&mut s, line as u64);
                push_str(&mut s, "]");
                parts.push(s);
            },
            _ => {},
        }
    }
    assert(parts@.map_values(|p: String| p@) =~= frame_parts(*frame, options));
    join_strings_with(&parts, " ")
}

/// Position of the last entry for `a` in a cache table, or -1.
pub open spec fn addr_index(t: Seq<(u64, StackFrame)>, a: u64) -> int
    decreases t.len(),
{
    if t.len() == 0 { -1 } else if t.last().0 == a { t.len() - 1 } else { addr_index(t.drop_last(), a) }
}

pub proof fn lemma_addr_index(t: Seq<(u64, StackFrame)>, a: u64)
    ensures
        -1 <= addr_index(t, a) < t.len(),
        addr_index(t, a) >= 0 ==> t[addr_index(t, a)].0 == a,
        addr_index(t, a) == -1 ==> forall|j: int| 0 <= j < t.len() ==> t[j].0 != a,
    decreases t.len(),
{
    if t.len() > 0 && t.last().0 != a {
        lemma_addr_index(t.drop_last(), a);
        assert forall|j: int| addr_index(t, a) == -1 && 0 <= j < t.len() implies t[j].0 != a by {
            if j < t.len() - 1 {
                assert(t.drop_last()[j] == t[j]);
            }
        }
    }
}

proof fn lemma_addr_index_tail(t: Seq<(u64, StackFrame)>, a: u64, k: int)
    requires
        0 <= k < t.len(),
        t[k].0 == a,
        forall|j: int| k < j < t.len() ==> t[j].0 != a,
    ensures
        addr_index(t, a) == k,
    decreases t.len(),
{
    if k < t.len() - 1 {
        lemma_addr_index_tail(t.drop_last(), a, k);
    }
}

/// The frame cached for `a` in a table.
pub open spec fn cached_in(t: Seq<(u64, StackFrame)>, a: u64) -> Option<StackFrame> {
    let k = addr_index(t, a);
    if k >= 0 { Some(t[k].1) } else { None }
}

/// The table with `f` cached for `a`, replacing the entry for `a`.
pub open spec fn with_entry(t: Seq<(u64, StackFrame)>, a: u64, f: StackFrame) -> Seq<(u64, StackFrame)> {
    let k = addr_index(t, a);
    if k >= 0 { t.update(k, (a, f)) } else { t.push((a, f)) }
}

/// One resolved frame taken into a table: the table is emptied first when
/// it holds `max` entries or more.
pub open spec fn absorb_one(t: Seq<(u64, StackFrame)>, a: u64, f: StackFrame, max: nat) -> Seq<(u64, StackFrame)> {
    with_entry(if t.len() >= max { Seq::empty() } else { t }, a, f)
}

/// The table after taking in the first `n` resolved frames in order.
pub open spec fn absorbed(t: Seq<(u64, StackFrame)>, misses: Seq<u64>, frames: Seq<StackFrame>, n: nat, max: nat)
    -> Seq<(u64, StackFrame)>
    decreases n,
{
    if n == 0 || n > misses.len() || n > frames.len() {
        t
    } else {
        absorb_one(absorbed(t, misses, frames, (n - 1) as nat, max), misses[n - 1], frames[n - 1], max)
    }
}

/// The addresses that a table has no frame for, in order.
pub open spec fn misses_of(t: Seq<(u64, StackFrame)>, addresses: Seq<u64>) -> Seq<u64>
    decreases addresses.len(),
{
    if addresses.len() == 0 {
        Seq::empty()
    } else {
        let m = misses_of(t, addresses.drop_last());
        if cached_in(t, addresses.last()) is None { m.push(addresses.last()) } else { m }
    }
}

/// How many of the first positions are misses.
pub open spec fn miss_count(hits: Seq<Option<StackFrame>>) -> nat
    decreases hits.len(),
{
    if hits.len() == 0 { 0 } else { miss_count(hits.drop_last()) + if hits.last() is None { 1nat } else { 0 } }
}

/// The frames of a stack in address order: the cached frame at a hit, and
/// at a miss the next newly resolved frame (none when they have run out).
pub open spec fn merged(hits: Seq<Option<StackFrame>>, frames: Seq<StackFrame>) -> Seq<StackFrame>
    decreases hits.len(),
{
    if hits.len() == 0 {
        Seq::empty()
    } else {
        let m = merged(hits.drop_last(), frames);
        match hits.last() {
            Some(f) => m.push(f),
            None => {
                let k = miss_count(hits.drop_last());
                if k < frames.len() { m.push(frames[k as int]) } else { m }
            },
        }
    }
}

/// Resolved frames cached per process and address, each process's table
/// emptied when it reaches the entry limit.
pub struct ResolveCache {
    processes: Vec<(u32, Vec<(u64, StackFrame)>)>,
    max_entries: usize,
}

fn find_addr(t: &Vec<(u64, StackFrame)>, a: u64) -> (r: Option<usize>)
    ensures
        match r {
            Some(i) => i as int == addr_index(t@, a),
            None => addr_index(t@, a) == -1,
        },
{
    proof { lemma_addr_index(t@, a); }
    let mut i: usize = t.len();
    while i > 0
        invariant
            i <= t@.len(),
            forall|j: int| i <= j < t@.len() ==> t@[j].0 != a,
        decreases i,
    {
        if t[i - 1].0 == a {
            proof { lemma_addr_index_tail(t@, a, (i - 1) as int); }
            return Some(i - 1);
        }
        i = i - 1;
    }
    None
}

impl ResolveCache {
    /// The cache table of process `pid` (empty when it has none).
    pub closed spec fn table(&self, pid: ProcessId) -> Seq<(u64, StackFrame)> {
        let k = index_of(self.processes@, pid);
        if k >= 0 { self.processes@[k].1@ } else { Seq::empty() }
    }

    pub closed spec fn limit(&self) -> usize {
        self.max_entries
    }

    pub fn new(max_entries: usize) -> (r: Self)
        ensures
            forall|pid: ProcessId| #[trigger] r.table(pid).len() == 0,
            r.limit() == max_entries,
    {
        ResolveCache { processes: Vec::new(), max_entries }
    }

    pub fn max_entries(&self) -> (r: usize)
        ensures
            r == self.limit(),
    {
        self.max_entries
    }

    /// The frame cached for `address` in process `pid`.
    pub fn cached(&self, pid: ProcessId, address: u64) -> (r: Option<StackFrame>)
        ensures
            r == cached_in(self.table(pid), address),
    {
        proof { lemma_index_of(self.processes@, pid); }
        match find_key(&self.processes, pid) {
            Some(k) => {
                let t = &self.processes[k].1;
                proof { lemma_addr_index(t@, address); }
                match find_addr(t, address) {
                    Some(j) => Some(t[j].1.copy()),
                    None => None,
                }
            },
            None => None,
        }
    }

    /// For each address, its cached frame if any, and the addresses that
    /// miss, in order.
    pub fn plan(&self, addresses: &[u64], pid: ProcessId) -> (r: (Vec<Option<StackFrame>>, Vec<u64>))
        ensures
            r.0@.len() == addresses@.len(),
            forall|i: int| 0 <= i < addresses@.len() ==> #[trigger] r.0@[i] == cached_in(self.table(pid), addresses@[i]),
            r.1@ == misses_of(self.table(pid), addresses@),
    {
        let mut hits: Vec<Option<StackFrame>> = Vec::new();
        let mut misses: Vec<u64> = Vec::new();
        let mut i: usize = 0;
        while i < addresses.len()
            invariant
                i <= addresses@.len(),
                hits@.len() == i,
                forall|j: int| 0 <= j < i ==> #[trigger] hits@[j] == cached_in(self.table(pid), addresses@[j]),
                misses@ == misses_of(self.table(pid), addresses@.subrange(0, i as int)),
            decreases addresses@.len() - i,
        {
            let c = self.cached(pid, addresses[i]);
            proof {
                let s1 = addresses@.subrange(0, i + 1);
                assert(s1.drop_last() =~= addresses@.subrange(0, i as int));
                assert(s1.last() == addresses@[i as int]);
            }
            if c.is_none() {
                misses.push(addresses[i]);
            }
            hits.push(c);
            i = i + 1;
        }
        assert(addresses@.subrange(0, i as int) =~= addresses@);
        (hits, misses)
    }

    /// Takes the newly resolved frames into process `pid`'s table in order,
    /// each paired with its address, emptying the table whenever it holds
    /// the entry limit or more.
    pub fn absorb(&mut self, pid: ProcessId, misses: &[u64], frames: &[StackFrame])
        ensures
            final(self).limit() == old(self).limit(),
            final(self).table(pid) == absorbed(old(self).table(pid), misses@, frames@,
                if misses@.len() <= frames@.len() { misses@.len() } else { frames@.len() }, old(self).limit() as nat),
            forall|q: ProcessId| q != pid ==> #[trigger] final(self).table(q) == old(self).table(q),
    {
        let n: usize = if misses.len() <= frames.len() { misses.len() } else { frames.len() };
        proof { lemma_index_of(self.processes@, pid); }
        let found = find_key(&self.processes, pid);
        let mut t: Vec<(u64, StackFrame)> = match found {
            Some(k) => {
                let (_, t0) = self.processes.remove(k);
                t0
            },
            None => Vec::new(),
        };
        let ghost t0 = t@;
        assert(t0 == old(self).table(pid));
        let max = self.max_entries;
        let mut i: usize = 0;
        while i < n
            invariant
                i <= n,
                n <= misses@.len(),
                n <= frames@.len(),
                t@ == absorbed(t0, misses@, frames@, i as nat, max as nat),
            decreases n - i,
        {
            if t.len() >= max {
                t = Vec::new();
            }
            let f = frames[i].copy();
            proof { lemma_addr_index(t@, misses@[i as int]); }
            match find_addr(&t, misses[i]) {
                Some(j) => {
                    t.set(j, (misses[i], f));
                },
                None => {
                    t.push((misses[i], f));
                },
            }
            i = i + 1;
        }
        match found {
            Some(k) => {
                self.processes.insert(k, (pid, t));
                proof {
                    assert forall|q: ProcessId| q != pid implies #[trigger] self.table(q) == old(self).table(q) by {
                        lemma_index_of_same_keys(self.processes@, old(self).processes@, q);
                        lemma_index_of(old(self).processes@, q);
                        let kq = index_of(old(self).processes@, q);
                        if kq >= 0 {
                            assert(self.processes@[kq] == old(self).processes@[kq]);
                        }
                    }
                    lemma_index_of_same_keys(self.processes@, old(self).processes@, pid);
                }
            },
            None => {
                self.processes.push((pid, t));
                proof {
                    assert(self.processes@.drop_last() =~= old(self).processes@);
                    assert forall|q: ProcessId| q != pid implies #[trigger] self.table(q) == old(self).table(q) by {
                        lemma_index_of(old(self).processes@, q);
                        assert(index_of(self.processes@, q) == index_of(old(self).processes@, q));
                        let kq = index_of(old(self).processes@, q);
                        if kq >= 0 {
                            assert(self.processes@[kq] == old(self).processes@[kq]);
                        }
                    }
                }
            },
        }
    }
}

/// The frames of a stack in address order from the cache's hits and the
/// newly resolved frames of its misses.
pub fn merge_resolved(hits: &[Option<StackFrame>], frames: &[StackFrame]) -> (r: Vec<StackFrame>)
    ensures
        r@ == merged(hits@, frames@),
{
    let mut out: Vec<StackFrame> = Vec::new();
    let mut next: usize = 0;
    let mut i: usize = 0;
    while i < hits.len()
        invariant
            i <= hits@.len(),
            next == miss_count(hits@.subrange(0, i as int)),
            next <= i,
            out@ == merged(hits@.subrange(0, i as int), frames@),
        decreases hits@.len() - i,
    {
        proof {
            let s1 = hits@.subrange(0, i + 1);
            assert(s1.drop_last() =~= hits@.subrange(0, i as int));
            assert(s1.last() == hits@[i as int]);
        }
        match &hits[i] {
            Some(f) => {
                out.push(f.copy());
            },
            None => {
                if next < frames.len() {
                    out.push(frames[next].copy());
                }
                next = next + 1;
            },
        }
        i = i + 1;
    }
    assert(hits@.subrange(0, i as int) =~= hits@);
    out
}

} // verus!
