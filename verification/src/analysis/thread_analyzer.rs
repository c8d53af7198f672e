//! Per-thread analysis: call paths and the analyser's settings.
use vstd::prelude::*;
use crate::text::{join_strings_with, join_with, copy_string, owned, str_eq};
use crate::types::{sat_add, min_u64, max_u64, FunctionStats, ThreadId, ProcessId, fn_index, find_fn, lemma_fn_index, lemma_fn_index_same_names, lemma_fn_index_push};
use crate::text::{push_str, write_dec, dec_seq};
use crate::error::{ProfilerError, Result};
use crate::stackwalker::collector::{CollectedStack, ResolvedFrame, display_name_spec};
use crate::rank::{is_top_selection, top_indices};
use crate::types::time_keys;

verus! {

/// Settings of a thread analyser.
#[derive(Debug, Clone, Copy)]
pub struct ThreadAnalyzerConfig {
    /// How many stacks are kept for path analysis.
    pub max_history_size: usize,
    pub track_call_sources: bool,
    /// The fewest occurrences a hot path needs.
    pub hot_path_threshold: u64,
}

impl Default for ThreadAnalyzerConfig {
    fn default() -> (r: Self)
        ensures
            r.max_history_size == 10000,
            r.track_call_sources,
            r.hot_path_threshold == 1,
    {
        ThreadAnalyzerConfig { max_history_size: 10000, track_call_sources: true, hot_path_threshold: 1 }
    }
}

/// A call chain from the root to the leaf, with how often it was seen.
#[derive(Debug, Clone)]
pub struct CallPath {
    pub id: u64,
    pub functions: Vec<String>,
    pub count: u64,
    pub total_time_us: u64,
    pub depth: usize,
}

impl CallPath {
    pub fn new(id: u64, functions: Vec<String>) -> (r: Self)
        ensures
            r.id == id,
            r.functions == functions,
            r.count == 0,
            r.total_time_us == 0,
            r.depth == functions@.len(),
    {
        let depth = functions.len();
        CallPath { id, functions, count: 0, total_time_us: 0, depth }
    }

    /// Counts one more occurrence lasting `sample_interval_us`.
    pub fn record(&mut self, sample_interval_us: u64)
        requires
            old(self).count < u64::MAX,
            old(self).total_time_us + sample_interval_us <= u64::MAX,
        ensures
            *final(self) == (CallPath {
                count: (old(self).count + 1) as u64,
                total_time_us: (old(self).total_time_us + sample_interval_us) as u64,
                ..*old(self)
            }),
    {
        self.count = self.count + 1;
        self.total_time_us = self.total_time_us + sample_interval_us;
    }

    /// The functions joined with ` -> `.
    pub fn path_string(&self) -> (r: String)
        ensures
            r@ == join_with(self.functions@.map_values(|f: String| f@), " -> "@),
    {
        join_strings_with(&self.functions, " -> ")
    }
}

/// A function in a call graph, with how often it was on a stack.
#[derive(Debug, Clone)]
pub struct CallNode {
    pub function_name: String,
    pub module_name: Option<String>,
    /// How many times it was on a stack.
    pub call_count: u64,
    /// How many times it was the innermost frame.
    pub leaf_count: u64,
    /// The sum of its depths (the outermost frame has depth 0); the mean
    /// depth is this over `call_count`.
    pub total_depth: u64,
}

/// `n` after one more call at `depth` (counts saturate at `u64::MAX`).
pub open spec fn called(n: CallNode, depth: nat, leaf: bool) -> CallNode {
    CallNode {
        call_count: sat_add(n.call_count, 1),
        total_depth: if n.total_depth + depth > u64::MAX { u64::MAX } else { (n.total_depth + depth) as u64 },
        leaf_count: if leaf { sat_add(n.leaf_count, 1) } else { n.leaf_count },
        ..n
    }
}

impl CallNode {
    pub fn new(function_name: &str) -> (r: Self)
        ensures
            r.function_name@ == function_name@,
            r.module_name is None,
            r.call_count == 0,
            r.leaf_count == 0,
            r.total_depth == 0,
    {
        CallNode { function_name: owned(function_name), module_name: None, call_count: 0, leaf_count: 0, total_depth: 0 }
    }

    /// Counts one more call at `depth`, as a leaf or not.
    pub fn record_call(&mut self, depth: usize, is_leaf: bool)
        ensures
            *final(self) == called(*old(self), depth as nat, is_leaf),
    {
        self.call_count = self.call_count.saturating_add(1);
        self.total_depth = self.total_depth.saturating_add(depth as u64);
        if is_leaf {
            self.leaf_count = self.leaf_count.saturating_add(1);
        }
    }

    pub fn with_module(self, module: &str) -> (r: Self)
        ensures
            r.module_name matches Some(m) && m@ == module@,
            r == (CallNode { module_name: r.module_name, ..self }),
    {
        CallNode { module_name: Some(owned(module)), ..self }
    }
}

/// Position of the last node named `k`, or -1.
pub open spec fn node_index(s: Seq<CallNode>, k: Seq<char>) -> int
    decreases s.len(),
{
    if s.len() == 0 { -1 } else if s.last().function_name@ == k { s.len() - 1 } else { node_index(s.drop_last(), k) }
}

proof fn lemma_node_index(s: Seq<CallNode>, k: Seq<char>)
    ensures
        -1 <= node_index(s, k) < s.len(),
        node_index(s, k) >= 0 ==> s[node_index(s, k)].function_name@ == k,
        forall|j: int| node_index(s, k) < j < s.len() ==> s[j].function_name@ != k,
    decreases s.len(),
{
    if s.len() > 0 && s.last().function_name@ != k {
        lemma_node_index(s.drop_last(), k);
        assert forall|j: int| node_index(s, k) < j < s.len() implies s[j].function_name@ != k by {
            if j < s.len() - 1 {
                assert(s.drop_last()[j] == s[j]);
            }
        }
    }
}

proof fn lemma_node_index_at(s: Seq<CallNode>, k: Seq<char>, i: int)
    requires
        -1 <= i < s.len(),
        i >= 0 ==> s[i].function_name@ == k,
        forall|j: int| i < j < s.len() ==> s[j].function_name@ != k,
    ensures
        node_index(s, k) == i,
    decreases s.len(),
{
    if s.len() > 0 && i < s.len() - 1 {
        lemma_node_index_at(s.drop_last(), k, i);
    }
}

fn find_node(s: &Vec<CallNode>, k: &str) -> (r: Option<usize>)
    ensures
        match r {
            Some(i) => i as int == node_index(s@, k@),
            None => node_index(s@, k@) == -1,
        },
{
    let mut i: usize = s.len();
    while i > 0
        invariant
            i <= s@.len(),
            forall|j: int| i <= j < s@.len() ==> s@[j].function_name@ != k@,
        decreases i,
    {
        if str_eq(s[i - 1].function_name.as_str(), k) {
            proof { lemma_node_index_at(s@, k@, i - 1); }
            return Some(i - 1);
        }
        i = i - 1;
    }
    proof { lemma_node_index_at(s@, k@, -1); }
    None
}

/// A node with no calls yet.
pub open spec fn fresh_node(name: String) -> CallNode {
    CallNode { function_name: name, module_name: None, call_count: 0, leaf_count: 0, total_depth: 0 }
}

/// `nodes` with one more call of `name` at `depth`.
pub open spec fn node_called(nodes: Seq<CallNode>, name: String, depth: nat, leaf: bool) -> Seq<CallNode> {
    let i = node_index(nodes, name@);
    if i >= 0 { nodes.update(i, called(nodes[i], depth, leaf)) } else { nodes.push(called(fresh_node(name), depth, leaf)) }
}

/// `nodes` after the first `k` frames of a stack (innermost first): frame
/// `i` is a call at depth `len - i - 1`, a leaf when `i == 0`.
pub open spec fn nodes_after(nodes: Seq<CallNode>, names: Seq<String>, k: nat) -> Seq<CallNode>
    decreases k,
{
    if k == 0 {
        nodes
    } else {
        let i = (k - 1) as nat;
        node_called(nodes_after(nodes, names, i), names[i as int], (names.len() - i - 1) as nat, i == 0)
    }
}

/// A call count keyed by a function name, as text.
pub open spec fn counts_view(c: Seq<(String, u64)>) -> Seq<(Seq<char>, u64)> {
    c.map_values(|e: (String, u64)| (e.0@, e.1))
}

/// Edges as text: each key with its keyed counts.
pub open spec fn edges_view(e: Seq<(String, Vec<(String, u64)>)>) -> Seq<(Seq<char>, Seq<(Seq<char>, u64)>)> {
    e.map_values(|x: (String, Vec<(String, u64)>)| (x.0@, counts_view(x.1@)))
}

/// Position of the last entry keyed `k`, or -1.
pub open spec fn key_index<V>(s: Seq<(Seq<char>, V)>, k: Seq<char>) -> int
    decreases s.len(),
{
    if s.len() == 0 { -1 } else if s.last().0 == k { s.len() - 1 } else { key_index(s.drop_last(), k) }
}

proof fn lemma_key_index_at<V>(s: Seq<(Seq<char>, V)>, k: Seq<char>, i: int)
    requires
        -1 <= i < s.len(),
        i >= 0 ==> s[i].0 == k,
        forall|j: int| i < j < s.len() ==> s[j].0 != k,
    ensures
        key_index(s, k) == i,
    decreases s.len(),
{
    if s.len() > 0 && i < s.len() - 1 {
        lemma_key_index_at(s.drop_last(), k, i);
    }
}

pub proof fn lemma_key_index<V>(s: Seq<(Seq<char>, V)>, k: Seq<char>)
    ensures
        -1 <= key_index(s, k) < s.len(),
        key_index(s, k) >= 0 ==> s[key_index(s, k)].0 == k,
        forall|j: int| key_index(s, k) < j < s.len() ==> s[j].0 != k,
    decreases s.len(),
{
    if s.len() > 0 && s.last().0 != k {
        lemma_key_index(s.drop_last(), k);
        assert forall|j: int| key_index(s, k) < j < s.len() implies s[j].0 != k by {
            if j < s.len() - 1 {
                assert(s.drop_last()[j] == s[j]);
            }
        }
    }
}

/// `c` with the count of `k` raised by one (a new entry of 1 when absent).
pub open spec fn count_bumped(c: Seq<(Seq<char>, u64)>, k: Seq<char>) -> Seq<(Seq<char>, u64)> {
    let j = key_index(c, k);
    if j >= 0 { c.update(j, (c[j].0, sat_add(c[j].1, 1))) } else { c.push((k, 1u64)) }
}

/// `e` with the count of edge `a -> b` raised by one.
pub open spec fn edge_bumped(e: Seq<(Seq<char>, Seq<(Seq<char>, u64)>)>, a: Seq<char>, b: Seq<char>)
    -> Seq<(Seq<char>, Seq<(Seq<char>, u64)>)> {
    let i = key_index(e, a);
    if i >= 0 { e.update(i, (e[i].0, count_bumped(e[i].1, b))) } else { e.push((a, seq![(b, 1u64)])) }
}

/// The edges after the first `k` caller/callee pairs of a stack, taken from
/// the outermost pair inwards; `reverse` counts callee -> caller.
pub open spec fn edges_after(e: Seq<(Seq<char>, Seq<(Seq<char>, u64)>)>, names: Seq<Seq<char>>, k: nat, reverse: bool)
    -> Seq<(Seq<char>, Seq<(Seq<char>, u64)>)>
    decreases k,
{
    if k == 0 || names.len() < k + 1 {
        e
    } else {
        let i = names.len() - k;
        let prev = edges_after(e, names, (k - 1) as nat, reverse);
        if reverse { edge_bumped(prev, names[i - 1], names[i]) } else { edge_bumped(prev, names[i], names[i - 1]) }
    }
}

fn find_key_count(c: &Vec<(String, u64)>, k: &str) -> (r: Option<usize>)
    ensures
        match r {
            Some(i) => i as int == key_index(counts_view(c@), k@),
            None => key_index(counts_view(c@), k@) == -1,
        },
{
    let ghost v = counts_view(c@);
    let mut i: usize = c.len();
    while i > 0
        invariant
            i <= c@.len(),
            v == counts_view(c@),
            forall|j: int| i <= j < v.len() ==> v[j].0 != k@,
        decreases i,
    {
        if str_eq(c[i - 1].0.as_str(), k) {
            proof { lemma_key_index_at(v, k@, i - 1); }
            return Some(i - 1);
        }
        i = i - 1;
    }
    proof { lemma_key_index_at(v, k@, -1); }
    None
}

fn find_edge_key(e: &Vec<(String, Vec<(String, u64)>)>, k: &str) -> (r: Option<usize>)
    ensures
        match r {
            Some(i) => i as int == key_index(edges_view(e@), k@),
            None => key_index(edges_view(e@), k@) == -1,
        },
{
    let ghost v = edges_view(e@);
    let mut i: usize = e.len();
    while i > 0
        invariant
            i <= e@.len(),
            v == edges_view(e@),
            forall|j: int| i <= j < v.len() ==> v[j].0 != k@,
        decreases i,
    {
        if str_eq(e[i - 1].0.as_str(), k) {
            proof { lemma_key_index_at(v, k@, i - 1); }
            return Some(i - 1);
        }
        i = i - 1;
    }
    proof { lemma_key_index_at(v, k@, -1); }
    None
}

fn bump_count(c: &mut Vec<(String, u64)>, k: &String)
    ensures
        counts_view(final(c)@) == count_bumped(counts_view(old(c)@), k@),
{
    let ghost before = counts_view(c@);
    proof { lemma_key_index(before, k@); }
    match find_key_count(c, k.as_str()) {
        Some(j) => {
            let (name, n) = c.remove(j);
            c.insert(j, (name, n.saturating_add(1)));
            assert(counts_view(c@) =~= count_bumped(before, k@));
        },
        None => {
            c.push((copy_string(k), 1));
            assert(counts_view(c@) =~= count_bumped(before, k@));
        },
    }
}

fn bump_edge(e: &mut Vec<(String, Vec<(String, u64)>)>, a: &String, b: &String)
    ensures
        edges_view(final(e)@) == edge_bumped(edges_view(old(e)@), a@, b@),
{
    let ghost before = edges_view(e@);
    proof { lemma_key_index(before, a@); }
    match find_edge_key(e, a.as_str()) {
        Some(i) => {
            let (key, mut inner) = e.remove(i);
            assert(counts_view(inner@) == before[i as int].1);
            bump_count(&mut inner, b);
            e.insert(i, (key, inner));
            assert(edges_view(e@) =~= edge_bumped(before, a@, b@));
        },
        None => {
            let mut inner: Vec<(String, u64)> = Vec::new();
            inner.push((copy_string(b), 1));
            assert(counts_view(inner@) =~= seq![(b@, 1u64)]);
            e.push((copy_string(a), inner));
            assert(edges_view(e@) =~= edge_bumped(before, a@, b@));
        },
    }
}

/// Who calls whom, and how often.
#[derive(Debug, Clone)]
pub struct CallGraph {
    /// One node per function.
    pub nodes: Vec<CallNode>,
    /// Caller -> callee -> count.
    pub edges: Vec<(String, Vec<(String, u64)>)>,
    /// Callee -> caller -> count.
    pub reverse_edges: Vec<(String, Vec<(String, u64)>)>,
}

/// The counts of `c`, added with saturation.
pub open spec fn count_sum(c: Seq<(Seq<char>, u64)>) -> u64
    decreases c.len(),
{
    if c.len() == 0 { 0 } else { sat_add(count_sum(c.drop_last()), c.last().1) }
}

/// The entry counts of `e`, added with saturation.
pub open spec fn entry_total(e: Seq<(Seq<char>, Seq<(Seq<char>, u64)>)>) -> u64
    decreases e.len(),
{
    if e.len() == 0 { 0 } else { sat_add(entry_total(e.drop_last()), e.last().1.len() as u64) }
}

/// The nodes with no entry keyed by their name in `e`.
pub open spec fn nodes_without(nodes: Seq<CallNode>, e: Seq<(Seq<char>, Seq<(Seq<char>, u64)>)>) -> Seq<CallNode> {
    nodes.filter(|n: CallNode| key_index(e, n.function_name@) < 0)
}

fn sum_counts(c: &Vec<(String, u64)>) -> (r: u64)
    ensures
        r == count_sum(counts_view(c@)),
{
    let mut t: u64 = 0;
    let mut i: usize = 0;
    while i < c.len()
        invariant
            i <= c@.len(),
            t == count_sum(counts_view(c@.subrange(0, i as int))),
        decreases c@.len() - i,
    {
        proof {
            assert(counts_view(c@.subrange(0, i + 1)).drop_last() =~= counts_view(c@.subrange(0, i as int)));
        }
        t = t.saturating_add(c[i].1);
        i = i + 1;
    }
    assert(c@.subrange(0, i as int) =~= c@);
    t
}

fn nodes_missing_from<'a>(nodes: &'a Vec<CallNode>, e: &Vec<(String, Vec<(String, u64)>)>) -> (r: Vec<&'a CallNode>)
    ensures
        r@.map_values(|n: &CallNode| *n) == nodes_without(nodes@, edges_view(e@)),
{
    let mut out: Vec<&CallNode> = Vec::new();
    let mut i: usize = 0;
    while i < nodes.len()
        invariant
            i <= nodes@.len(),
            out@.map_values(|n: &CallNode| *n) == nodes_without(nodes@.subrange(0, i as int), edges_view(e@)),
        decreases nodes@.len() - i,
    {
        proof {
            let s1 = nodes@.subrange(0, i + 1);
            assert(s1.drop_last() =~= nodes@.subrange(0, i as int));
            reveal(Seq::filter);
        }
        let ghost before = out@;
        if find_edge_key(e, nodes[i].function_name.as_str()).is_none() {
            out.push(&nodes[i]);
            assert(out@.map_values(|n: &CallNode| *n) =~= before.map_values(|n: &CallNode| *n).push(nodes@[i as int]));
        }
        i = i + 1;
    }
    assert(nodes@.subrange(0, i as int) =~= nodes@);
    out
}

impl CallGraph {
    pub fn new() -> (r: Self)
        ensures
            r.nodes@.len() == 0,
            r.edges@.len() == 0,
            r.reverse_edges@.len() == 0,
    {
        CallGraph { nodes: Vec::new(), edges: Vec::new(), reverse_edges: Vec::new() }
    }

    /// How often `function_name` was called, over all its callers.
    pub fn in_degree(&self, function_name: &str) -> (r: u64)
        ensures
            ({
                let v = edges_view(self.reverse_edges@);
                let i = key_index(v, function_name@);
                r == if i >= 0 { count_sum(v[i].1) } else { 0 }
            }),
    {
        proof { lemma_key_index(edges_view(self.reverse_edges@), function_name@); }
        match find_edge_key(&self.reverse_edges, function_name) {
            Some(i) => {
                assert(counts_view(self.reverse_edges@[i as int].1@) == edges_view(self.reverse_edges@)[i as int].1);
                sum_counts(&self.reverse_edges[i].1)
            },
            None => 0,
        }
    }

    /// How often `function_name` called others.
    pub fn out_degree(&self, function_name: &str) -> (r: u64)
        ensures
            ({
                let v = edges_view(self.edges@);
                let i = key_index(v, function_name@);
                r == if i >= 0 { count_sum(v[i].1) } else { 0 }
            }),
    {
        proof { lemma_key_index(edges_view(self.edges@), function_name@); }
        match find_edge_key(&self.edges, function_name) {
            Some(i) => {
                assert(counts_view(self.edges@[i as int].1@) == edges_view(self.edges@)[i as int].1);
                sum_counts(&self.edges[i].1)
            },
            None => 0,
        }
    }

    /// The nodes that called nothing.
    pub fn get_leaf_nodes(&self) -> (r: Vec<&CallNode>)
        ensures
            r@.map_values(|n: &CallNode| *n) == nodes_without(self.nodes@, edges_view(self.edges@)),
    {
        nodes_missing_from(&self.nodes, &self.edges)
    }

    /// The nodes nothing called.
    pub fn get_root_nodes(&self) -> (r: Vec<&CallNode>)
        ensures
            r@.map_values(|n: &CallNode| *n) == nodes_without(self.nodes@, edges_view(self.reverse_edges@)),
    {
        nodes_missing_from(&self.nodes, &self.reverse_edges)
    }

    /// The number of distinct caller -> callee pairs.
    pub fn total_edges(&self) -> (r: u64)
        ensures
            r == entry_total(edges_view(self.edges@)),
    {
        let mut t: u64 = 0;
        let mut i: usize = 0;
        while i < self.edges.len()
            invariant
                i <= self.edges@.len(),
                t == entry_total(edges_view(self.edges@.subrange(0, i as int))),
            decreases self.edges@.len() - i,
        {
            proof {
                assert(edges_view(self.edges@.subrange(0, i + 1)).drop_last() =~= edges_view(self.edges@.subrange(0, i as int)));
            }
            t = t.saturating_add(self.edges[i].1.len() as u64);
            i = i + 1;
        }
        assert(self.edges@.subrange(0, i as int) =~= self.edges@);
        t
    }

    /// Records a stack (innermost first): each frame is a call at its
    /// depth, and each caller/callee pair an edge both ways.
    pub fn record_path(&mut self, names: &Vec<String>)
        ensures
            final(self).nodes@ == nodes_after(old(self).nodes@, names@, names@.len()),
            edges_view(final(self).edges@) == edges_after(edges_view(old(self).edges@),
                names@.map_values(|n: String| n@), (if names@.len() > 0 { names@.len() - 1 } else { 0 }) as nat, false),
            edges_view(final(self).reverse_edges@) == edges_after(edges_view(old(self).reverse_edges@),
                names@.map_values(|n: String| n@), (if names@.len() > 0 { names@.len() - 1 } else { 0 }) as nat, true),
    {
        let n = names.len();
        let ghost nodes0 = self.nodes@;
        let mut i: usize = 0;
        while i < n
            invariant
                i <= n,
                n == names@.len(),
                self.nodes@ == nodes_after(nodes0, names@, i as nat),
                nodes0 == old(self).nodes@,
                self.edges@ == old(self).edges@,
                self.reverse_edges@ == old(self).reverse_edges@,
            decreases n - i,
        {
            let name = &names[i];
            proof { lemma_node_index(self.nodes@, name@); }
            match find_node(&self.nodes, name.as_str()) {
                Some(j) => {
                    let mut node = self.nodes.remove(j);
                    node.record_call(n - i - 1, i == 0);
                    self.nodes.insert(j, node);
                },
                None => {
                    let mut node = CallNode { function_name: copy_string(name), module_name: None, call_count: 0, leaf_count: 0, total_depth: 0 };
                    node.record_call(n - i - 1, i == 0);
                    self.nodes.push(node);
                },
            }
            i = i + 1;
            assert(self.nodes@ =~= nodes_after(nodes0, names@, i as nat));
        }
        let ghost nv = names@.map_values(|x: String| x@);
        let ghost e0 = edges_view(self.edges@);
        let ghost r0 = edges_view(self.reverse_edges@);
        let mut k: usize = 0;
        let steps: usize = if n > 0 { n - 1 } else { 0 };
        while k < steps
            invariant
                k <= steps,
                n == names@.len(),
                steps == (if n > 0 { n - 1 } else { 0 }),
                nv == names@.map_values(|x: String| x@),
                edges_view(self.edges@) == edges_after(e0, nv, k as nat, false),
                edges_view(self.reverse_edges@) == edges_after(r0, nv, k as nat, true),
                self.nodes@ == nodes_after(old(self).nodes@, names@, n as nat),
                e0 == edges_view(old(self).edges@),
                r0 == edges_view(old(self).reverse_edges@),
            decreases steps - k,
        {
            let idx = n - (k + 1);
            bump_edge(&mut self.edges, &names[idx], &names[idx - 1]);
            bump_edge(&mut self.reverse_edges, &names[idx - 1], &names[idx]);
            k = k + 1;
        }
    }
}

impl Default for CallGraph {
    fn default() -> (r: Self)
        ensures
            r.nodes@.len() == 0,
            r.edges@.len() == 0,
            r.reverse_edges@.len() == 0,
    {
        Self::new()
    }
}

/// A new entry for `name`, on thread `tid`, with the frame's module.
pub open spec fn fresh_stats(name: String, frame: ResolvedFrame, tid: ThreadId) -> FunctionStats {
    FunctionStats {
        function_name: name,
        module_name: match frame.module { Some(m) => Some(m.name), None => None },
        thread_id: Some(tid),
        call_count: 0,
        total_time_us: 0,
        self_time_us: 0,
        min_time_us: u64::MAX,
        max_time_us: 0,
        average_time_us: 0,
    }
}

/// One sample (a millisecond) of `f`: total time, and for a leaf self time
/// and a call; the time range widened to include a millisecond.
pub open spec fn touched(f: FunctionStats, leaf: bool) -> FunctionStats {
    FunctionStats {
        total_time_us: sat_add(f.total_time_us, 1000),
        self_time_us: if leaf { sat_add(f.self_time_us, 1000) } else { f.self_time_us },
        call_count: if leaf { sat_add(f.call_count, 1) } else { f.call_count },
        min_time_us: min_u64(f.min_time_us, 1000),
        max_time_us: if f.max_time_us == 0 { 1000 } else { max_u64(f.max_time_us, 1000) },
        ..f
    }
}

pub open spec fn stats_touched(fs: Seq<FunctionStats>, name: String, frame: ResolvedFrame, tid: ThreadId, leaf: bool) -> Seq<FunctionStats> {
    let i = fn_index(fs, name@);
    if i >= 0 { fs.update(i, touched(fs[i], leaf)) } else { fs.push(touched(fresh_stats(name, frame, tid), leaf)) }
}

/// The statistics after the first `k` frames of a stack (innermost first).
pub open spec fn stats_after(fs: Seq<FunctionStats>, names: Seq<String>, frames: Seq<ResolvedFrame>, tid: ThreadId, k: nat)
    -> Seq<FunctionStats>
    decreases k,
{
    if k == 0 {
        fs
    } else {
        let i = (k - 1) as nat;
        stats_touched(stats_after(fs, names, frames, tid, i), names[i as int], frames[i as int], tid, i == 0)
    }
}

/// The self time recorded for `n` (0 when it has no entry).
pub open spec fn self_time_of(fs: Seq<FunctionStats>, n: Seq<char>) -> int {
    let i = fn_index(fs, n);
    if i >= 0 { fs[i].self_time_us as int } else { 0 }
}

/// One sample adds self time (and a call) only when the function was
/// innermost: a non-innermost sample leaves the self time as it was, and
/// while no counter saturates the self time stays a millisecond per call.
pub proof fn law_touch_self_time(f: FunctionStats, leaf: bool)
    requires
        f.self_time_us == f.call_count * 1000,
        f.self_time_us + 1000 <= u64::MAX,
        f.self_time_us <= f.total_time_us,
    ensures
        !leaf ==> touched(f, leaf).self_time_us == f.self_time_us && touched(f, leaf).call_count == f.call_count,
        leaf ==> touched(f, leaf).self_time_us == f.self_time_us + 1000 && touched(f, leaf).call_count == f.call_count + 1,
        touched(f, leaf).self_time_us == touched(f, leaf).call_count * 1000,
        touched(f, leaf).self_time_us <= touched(f, leaf).total_time_us,
{
    assert(f.call_count < u64::MAX) by (nonlinear_arith)
        requires f.self_time_us == f.call_count * 1000, f.self_time_us + 1000 <= u64::MAX;
    assert((f.call_count + 1) * 1000 == f.call_count * 1000 + 1000) by (nonlinear_arith);
}

/// Recording the first `k` frames of a stack gives self time only to the
/// function of its innermost frame: every other function keeps its self
/// time (0 for one seen for the first time).
pub proof fn law_only_innermost_gains_self_time(fs: Seq<FunctionStats>, names: Seq<String>, frames: Seq<ResolvedFrame>,
    tid: ThreadId, k: nat, n: Seq<char>)
    requires
        k <= names.len(),
        names.len() > 0,
        n != names[0]@,
    ensures
        self_time_of(stats_after(fs, names, frames, tid, k), n) == self_time_of(fs, n),
    decreases k,
{
    if k > 0 {
        let j = (k - 1) as nat;
        law_only_innermost_gains_self_time(fs, names, frames, tid, j, n);
        let prev = stats_after(fs, names, frames, tid, j);
        let m = names[j as int];
        let leaf = j == 0;
        let i = fn_index(prev, m@);
        lemma_fn_index(prev, m@);
        lemma_fn_index(prev, n);
        if i >= 0 {
            let next = prev.update(i, touched(prev[i], leaf));
            assert forall|x: int| 0 <= x < prev.len() implies prev[x].function_name@ == next[x].function_name@ by {}
            lemma_fn_index_same_names(prev, next, n);
        } else {
            let e = touched(fresh_stats(m, frames[j as int], tid), leaf);
            lemma_fn_index_push(prev, e, n);
            if m@ == n {
                assert(j != 0);
            }
        }
    }
}

/// The stacks kept for path analysis, as text.
pub open spec fn history_view(h: Seq<Vec<String>>) -> Seq<Seq<Seq<char>>> {
    h.map_values(|v: Vec<String>| v@.map_values(|n: String| n@))
}

/// Analyses the stacks of one thread: its functions' statistics, its call
/// graph, and the stacks themselves for path analysis.
#[derive(Debug)]
pub struct ThreadAnalyzer {
    thread_id: ThreadId,
    process_id: ProcessId,
    function_stats: Vec<FunctionStats>,
    call_graph: CallGraph,
    total_samples: u64,
    first_sample_time: Option<u64>,
    last_sample_time: Option<u64>,
    call_stack_history: Vec<Vec<String>>,
    config: ThreadAnalyzerConfig,
}

impl ThreadAnalyzer {
    pub closed spec fn tid(&self) -> ThreadId { self.thread_id }
    pub closed spec fn pid(&self) -> ProcessId { self.process_id }
    pub closed spec fn stats(&self) -> Seq<FunctionStats> { self.function_stats@ }
    pub closed spec fn graph(&self) -> CallGraph { self.call_graph }
    pub closed spec fn samples(&self) -> u64 { self.total_samples }
    pub closed spec fn first_time(&self) -> Option<u64> { self.first_sample_time }
    pub closed spec fn last_time(&self) -> Option<u64> { self.last_sample_time }
    pub closed spec fn history(&self) -> Seq<Seq<Seq<char>>> { history_view(self.call_stack_history@) }
    pub closed spec fn cfg(&self) -> ThreadAnalyzerConfig { self.config }

    pub fn new(thread_id: ThreadId, process_id: ProcessId) -> (r: Self)
        ensures
            r.tid() == thread_id,
            r.pid() == process_id,
            r.stats().len() == 0,
            r.graph().nodes@.len() == 0 && r.graph().edges@.len() == 0 && r.graph().reverse_edges@.len() == 0,
            r.samples() == 0,
            (r.first_time() is None && r.last_time() is None),
            r.history().len() == 0,
            r.cfg() == (ThreadAnalyzerConfig { max_history_size: 10000, track_call_sources: true, hot_path_threshold: 1 }),
    {
        Self::with_config(thread_id, process_id, ThreadAnalyzerConfig::default())
    }

    pub fn with_config(thread_id: ThreadId, process_id: ProcessId, config: ThreadAnalyzerConfig) -> (r: Self)
        ensures
            r.tid() == thread_id,
            r.pid() == process_id,
            r.stats().len() == 0,
            r.graph().nodes@.len() == 0 && r.graph().edges@.len() == 0 && r.graph().reverse_edges@.len() == 0,
            r.samples() == 0,
            (r.first_time() is None && r.last_time() is None),
            r.history().len() == 0,
            r.cfg() == config,
    {
        let r = ThreadAnalyzer {
            thread_id,
            process_id,
            function_stats: Vec::new(),
            call_graph: CallGraph::new(),
            total_samples: 0,
            first_sample_time: None,
            last_sample_time: None,
            call_stack_history: Vec::new(),
            config,
        };
        assert(r.history() =~= Seq::<Seq<Seq<char>>>::empty());
        r
    }

    pub fn thread_id(&self) -> (r: ThreadId)
        ensures
            r == self.tid(),
    {
        self.thread_id
    }

    pub fn process_id(&self) -> (r: ProcessId)
        ensures
            r == self.pid(),
    {
        self.process_id
    }

    pub fn function_stats(&self) -> (r: &Vec<FunctionStats>)
        ensures
            r@ == self.stats(),
    {
        &self.function_stats
    }

    pub fn call_graph(&self) -> (r: &CallGraph)
        ensures
            *r == self.graph(),
    {
        &self.call_graph
    }

    /// Records one stack of the thread. A stack of another thread is
    /// refused. The first and last sample times are kept; a non-empty stack
    /// is kept for path analysis (up to the configured number), recorded in
    /// the call graph and in the functions' statistics, and counted (counts
    /// saturate at `u64::MAX`).
    pub fn record_stack(&mut self, stack: &CollectedStack) -> (r: Result<()>)
        ensures
            stack.thread_id != old(self).tid() ==> (r matches Err(ProfilerError::Generic(m))
                && m@ == "Thread ID mismatch: expected "@ + dec_seq(old(self).tid() as nat) + ", got "@
                    + dec_seq(stack.thread_id as nat)
                && *final(self) == *old(self)),
            stack.thread_id == old(self).tid() ==> ({
                let names = stack.frames@.map_values(|f: ResolvedFrame| display_name_spec(f));
                &&& r is Ok
                &&& final(self).tid() == old(self).tid() && final(self).pid() == old(self).pid()
                &&& final(self).cfg() == old(self).cfg()
                &&& final(self).first_time() == if old(self).first_time() is None { Some(stack.timestamp) } else { old(self).first_time() }
                &&& final(self).last_time() == Some(stack.timestamp)
                &&& names.len() == 0 ==> final(self).stats() == old(self).stats() && final(self).graph() == old(self).graph()
                    && final(self).samples() == old(self).samples() && final(self).history() == old(self).history()
                &&& names.len() > 0 ==> {
                    &&& final(self).history() == if old(self).history().len() < old(self).cfg().max_history_size {
                            old(self).history().push(names)
                        } else {
                            old(self).history()
                        }
                    &&& exists|ns: Seq<String>| ns.map_values(|n: String| n@) == names
                        && final(self).graph().nodes@ == nodes_after(old(self).graph().nodes@, ns, ns.len())
                        && final(self).stats() == stats_after(old(self).stats(), ns, stack.frames@, old(self).tid(), ns.len())
                    &&& edges_view(final(self).graph().edges@) == edges_after(edges_view(old(self).graph().edges@), names,
                            (names.len() - 1) as nat, false)
                    &&& edges_view(final(self).graph().reverse_edges@) == edges_after(
                            edges_view(old(self).graph().reverse_edges@), names, (names.len() - 1) as nat, true)
                    &&& final(self).samples() == sat_add(old(self).samples(), 1)
                }
            }),
    {
        if stack.thread_id != self.thread_id {
            let mut m = owned("Thread ID mismatch: expected ");
            write_dec(&mut m, self.thread_id as u64);
            push_str(&mut m, ", got ");
            write_dec(&mut m, stack.thread_id as u64);
            return Err(ProfilerError::Generic(m));
        }
        if self.first_sample_time.is_none() {
            self.first_sample_time = Some(stack.timestamp);
        }
        self.last_sample_time = Some(stack.timestamp);
        let names = frame_names(&stack.frames);
        if names.len() == 0 {
            return Ok(());
        }
        if self.call_stack_history.len() < self.config.max_history_size {
            let ghost before = self.call_stack_history@;
            self.call_stack_history.push(copy_names(&names));
            assert(history_view(self.call_stack_history@) =~= history_view(before).push(names@.map_values(|n: String| n@)));
        }
        self.call_graph.record_path(&names);
        self.update_function_stats(stack, &names);
        self.total_samples = self.total_samples.saturating_add(1);
        Ok(())
    }

    fn update_function_stats(&mut self, stack: &CollectedStack, names: &Vec<String>)
        requires
            names@.len() == stack.frames@.len(),
        ensures
            final(self).function_stats@ == stats_after(old(self).function_stats@, names@, stack.frames@, old(self).thread_id,
                names@.len()),
            final(self).thread_id == old(self).thread_id,
            final(self).process_id == old(self).process_id,
            final(self).call_graph == old(self).call_graph,
            final(self).total_samples == old(self).total_samples,
            final(self).first_sample_time == old(self).first_sample_time,
            final(self).last_sample_time == old(self).last_sample_time,
            final(self).call_stack_history == old(self).call_stack_history,
            final(self).config == old(self).config,
    {
        let ghost fs0 = self.function_stats@;
        let mut i: usize = 0;
        while i < names.len()
            invariant
                i <= names@.len(),
                names@.len() == stack.frames@.len(),
                self.function_stats@ == stats_after(fs0, names@, stack.frames@, self.thread_id, i as nat),
                fs0 == old(self).function_stats@,
                self.thread_id == old(self).thread_id,
                self.process_id == old(self).process_id,
                self.call_graph == old(self).call_graph,
                self.total_samples == old(self).total_samples,
                self.first_sample_time == old(self).first_sample_time,
                self.last_sample_time == old(self).last_sample_time,
                self.call_stack_history == old(self).call_stack_history,
                self.config == old(self).config,
            decreases names@.len() - i,
        {
            let name = &names[i];
            let frame = &stack.frames[i];
            let leaf = i == 0;
            proof { lemma_fn_index(self.function_stats@, name@); }
            match find_fn(&self.function_stats, name.as_str()) {
                Some(j) => {
                    let mut entry = self.function_stats[j].copy();
                    touch(&mut entry, leaf);
                    self.function_stats.set(j, entry);
                },
                None => {
                    let mut entry = FunctionStats {
                        function_name: copy_string(name),
                        module_name: match &frame.module { Some(m) => Some(copy_string(&m.name)), None => None },
                        thread_id: Some(self.thread_id),
                        call_count: 0,
                        total_time_us: 0,
                        self_time_us: 0,
                        min_time_us: u64::MAX,
                        max_time_us: 0,
                        average_time_us: 0,
                    };
                    assert(entry == fresh_stats(*name, *frame, self.thread_id));
                    touch(&mut entry, leaf);
                    self.function_stats.push(entry);
                },
            }
            i = i + 1;
        }
    }

    /// The statistics of `function_name`, if any.
    pub fn get_function_stats(&self, function_name: &str) -> (r: Option<&FunctionStats>)
        ensures
            match r {
                Some(f) => fn_index(self.stats(), function_name@) >= 0 && *f == self.stats()[fn_index(self.stats(), function_name@)],
                None => fn_index(self.stats(), function_name@) == -1,
            },
    {
        proof { lemma_fn_index(self.function_stats@, function_name@); }
        match find_fn(&self.function_stats, function_name) {
            Some(i) => Some(&self.function_stats[i]),
            None => None,
        }
    }

    pub fn total_samples(&self) -> (r: u64)
        ensures
            r == self.samples(),
    {
        self.total_samples
    }

    /// Last sample time minus first (0 before two samples or when earlier).
    pub fn sampling_duration_us(&self) -> (r: u64)
        ensures
            r == match (self.first_time(), self.last_time()) {
                (Some(f), Some(l)) => if l >= f { (l - f) as u64 } else { 0 },
                _ => 0,
            },
    {
        match (self.first_sample_time, self.last_sample_time) {
            (Some(first), Some(last)) => last.saturating_sub(first),
            _ => 0,
        }
    }

    /// Forgets every stack recorded (the settings stay).
    pub fn reset(&mut self)
        ensures
            final(self).tid() == old(self).tid(),
            final(self).pid() == old(self).pid(),
            final(self).cfg() == old(self).cfg(),
            final(self).stats().len() == 0,
            final(self).graph().nodes@.len() == 0 && final(self).graph().edges@.len() == 0
                && final(self).graph().reverse_edges@.len() == 0,
            final(self).samples() == 0,
            (final(self).first_time() is None && final(self).last_time() is None),
            final(self).history().len() == 0,
    {
        self.function_stats = Vec::new();
        self.call_graph = CallGraph::new();
        self.total_samples = 0;
        self.first_sample_time = None;
        self.last_sample_time = None;
        self.call_stack_history = Vec::new();
        assert(self.history() =~= Seq::<Seq<Seq<char>>>::empty());
    }

    /// The `limit` functions with the largest total time, largest first.
    pub fn get_hottest_functions(&self, limit: usize) -> (r: Vec<&FunctionStats>)
        ensures
            exists|idx: Seq<usize>| #[trigger] is_top_selection(time_keys(self.stats()), limit as nat, idx)
                && r@.len() == idx.len()
                && forall|k: int| 0 <= k < idx.len() ==> *r@[k] == self.stats()[idx[k] as int],
    {
        let mut keys: Vec<u64> = Vec::new();
        let mut i: usize = 0;
        while i < self.function_stats.len()
            invariant
                i <= self.function_stats@.len(),
                keys@ == time_keys(self.function_stats@.subrange(0, i as int)),
            decreases self.function_stats@.len() - i,
        {
            keys.push(self.function_stats[i].total_time_us);
            i = i + 1;
            assert(keys@ =~= time_keys(self.function_stats@.subrange(0, i as int)));
        }
        assert(self.function_stats@.subrange(0, i as int) =~= self.function_stats@);
        let r = pick_stats(&self.function_stats, &keys, limit);
        proof {
            let idx = choose|idx: Seq<usize>| #[trigger] is_top_selection(keys@, limit as nat, idx)
                && r@.len() == idx.len()
                && forall|k: int| 0 <= k < idx.len() ==> *r@[k] == self.function_stats@[idx[k] as int];
            assert(keys@ == time_keys(self.stats()));
            assert(is_top_selection(time_keys(self.stats()), limit as nat, idx));
        }
        r
    }

    /// The `limit` functions called most often, most first.
    pub fn get_most_called_functions(&self, limit: usize) -> (r: Vec<&FunctionStats>)
        ensures
            exists|idx: Seq<usize>| #[trigger] is_top_selection(call_keys(self.stats()), limit as nat, idx)
                && r@.len() == idx.len()
                && forall|k: int| 0 <= k < idx.len() ==> *r@[k] == self.stats()[idx[k] as int],
    {
        let mut keys: Vec<u64> = Vec::new();
        let mut i: usize = 0;
        while i < self.function_stats.len()
            invariant
                i <= self.function_stats@.len(),
                keys@ == call_keys(self.function_stats@.subrange(0, i as int)),
            decreases self.function_stats@.len() - i,
        {
            keys.push(self.function_stats[i].call_count);
            i = i + 1;
            assert(keys@ =~= call_keys(self.function_stats@.subrange(0, i as int)));
        }
        assert(self.function_stats@.subrange(0, i as int) =~= self.function_stats@);
        let r = pick_stats(&self.function_stats, &keys, limit);
        proof {
            let idx = choose|idx: Seq<usize>| #[trigger] is_top_selection(keys@, limit as nat, idx)
                && r@.len() == idx.len()
                && forall|k: int| 0 <= k < idx.len() ==> *r@[k] == self.function_stats@[idx[k] as int];
            assert(keys@ == call_keys(self.stats()));
            assert(is_top_selection(call_keys(self.stats()), limit as nat, idx));
        }
        r
    }

    /// The callers of `function_name` with how often each called it, most
    /// frequent first; none when it was never called.
    pub fn get_callers(&self, function_name: &str) -> (r: Vec<(String, u64)>)
        ensures
            ranked_entries(edges_view(self.graph().reverse_edges@), function_name@, counts_view(r@)),
    {
        ranked(&self.call_graph.reverse_edges, function_name)
    }

    /// The functions `function_name` called with how often, most frequent
    /// first; none when it called nothing.
    pub fn get_callees(&self, function_name: &str) -> (r: Vec<(String, u64)>)
        ensures
            ranked_entries(edges_view(self.graph().edges@), function_name@, counts_view(r@)),
    {
        ranked(&self.call_graph.edges, function_name)
    }

    /// Sets each function's self time to its total time less the time of
    /// its callees, and its mean time to total time over calls.
    pub fn calculate_exclusive_time(&mut self)
        ensures
            final(self).stats() == old(self).stats().map_values(
                |f: FunctionStats| with_exclusive_time(f, old(self).stats(), edges_view(old(self).graph().edges@))),
            final(self).tid() == old(self).tid(),
            final(self).pid() == old(self).pid(),
            final(self).graph() == old(self).graph(),
            final(self).samples() == old(self).samples(),
            final(self).first_time() == old(self).first_time(),
            final(self).last_time() == old(self).last_time(),
            final(self).history() == old(self).history(),
            final(self).cfg() == old(self).cfg(),
    {
        let ghost fs0 = self.function_stats@;
        let ghost ev = edges_view(self.call_graph.edges@);
        let n = self.function_stats.len();
        let mut out: Vec<FunctionStats> = Vec::new();
        let mut i: usize = 0;
        while i < n
            invariant
                i <= n,
                n == fs0.len(),
                fs0 == self.function_stats@,
                ev == edges_view(self.call_graph.edges@),
                out@ == fs0.subrange(0, i as int).map_values(|f: FunctionStats| with_exclusive_time(f, fs0, ev)),
            decreases n - i,
        {
            let f = &self.function_stats[i];
            let mut g = f.copy();
            proof { lemma_key_index(ev, f.function_name@); }
            match find_edge_key(&self.call_graph.edges, f.function_name.as_str()) {
                Some(k) => {
                    let child = children_time(&self.function_stats, &self.call_graph.edges[k].1);
                    g.self_time_us = g.total_time_us.saturating_sub(child);
                },
                None => {},
            }
            if g.call_count > 0 {
                g.average_time_us = g.total_time_us / g.call_count;
            }
            let ghost before = out@;
            out.push(g);
            i = i + 1;
            assert(out@ =~= fs0.subrange(0, i as int).map_values(|f: FunctionStats| with_exclusive_time(f, fs0, ev)));
        }
        assert(fs0.subrange(0, n as int) =~= fs0);
        self.function_stats = out;
    }

    /// The stacks kept for path analysis grouped by their first `depth`
    /// functions; the groups of at least the configured threshold, most
    /// frequent first, each with its group number as id and a millisecond
    /// per stack.
    pub fn get_hot_paths(&self, depth: usize) -> (r: Vec<CallPath>)
        ensures
            ({
                let g = path_groups(self.history(), depth as nat);
                let hot = hot_groups(g, self.cfg().hot_path_threshold, g.len());
                exists|idx: Seq<usize>| #[trigger] is_top_selection(group_sizes(g, hot), hot.len(), idx)
                    && r@.len() == idx.len()
                    && forall|a: int| 0 <= a < idx.len() ==> group_path(r@[a], g, hot[idx[a] as int])
            }),
    {
        let ghost hv = self.history();
        let ghost d = depth as nat;
        let mut paths: Vec<Vec<String>> = Vec::new();
        let mut keys: Vec<String> = Vec::new();
        let mut counts: Vec<u64> = Vec::new();
        let mut s: usize = 0;
        while s < self.call_stack_history.len()
            invariant
                s <= self.call_stack_history@.len(),
                d == depth as nat,
                hv == history_view(self.call_stack_history@),
                paths@.len() == keys@.len(),
                paths@.len() == counts@.len(),
                groups_view(paths@, counts@) == path_groups(hv.subrange(0, s as int), d),
                forall|j: int| 0 <= j < keys@.len() ==> #[trigger] keys@[j]@ == join_with(paths@[j]@.map_values(|f: String| f@), "|"@),
                forall|j: int| 0 <= j < counts@.len() ==> #[trigger] counts@[j] <= s,
            decreases self.call_stack_history@.len() - s,
        {
            let stack = &self.call_stack_history[s];
            let prefix = take_names(stack, depth);
            let key = join_strings_with(&prefix, "|");
            let ghost g0 = groups_view(paths@, counts@);
            let ghost pv = prefix@.map_values(|f: String| f@);
            proof {
                assert(hv[s as int] == stack@.map_values(|f: String| f@));
                assert(hv.subrange(0, s + 1).drop_last() =~= hv.subrange(0, s as int));
                assert(hv.subrange(0, s + 1).last() == hv[s as int]);
                assert(path_groups(hv.subrange(0, s + 1).drop_last(), d) == g0);
                assert(path_prefix(hv.subrange(0, s + 1).last(), d) == pv);
                assert(join_with(pv, "|"@) == key@);
                lemma_group_index(g0, key@);
            }
            match find_key(&keys, key.as_str()) {
                Some(j) => {
                    proof {
                        assert forall|x: int| j < x < g0.len() implies join_with(#[trigger] g0[x].0, "|"@) != key@ by {
                            assert(keys@[x]@ == join_with(paths@[x]@.map_values(|f: String| f@), "|"@));
                        }
                        assert(keys@[j as int]@ == join_with(paths@[j as int]@.map_values(|f: String| f@), "|"@));
                        lemma_group_index_at(g0, key@, j as int);
                    }
                    let c = counts[j] + 1;
                    counts.set(j, c);
                    assert(groups_view(paths@, counts@) =~= g0.update(j as int, (g0[j as int].0, g0[j as int].1 + 1)));
                },
                None => {
                    proof {
                        assert forall|x: int| -1 < x < g0.len() implies join_with(#[trigger] g0[x].0, "|"@) != key@ by {
                            assert(keys@[x]@ == join_with(paths@[x]@.map_values(|f: String| f@), "|"@));
                        }
                        lemma_group_index_at(g0, key@, -1);
                    }
                    paths.push(prefix);
                    keys.push(key);
                    counts.push(1);
                    assert(groups_view(paths@, counts@) =~= g0.push((pv, 1nat)));
                },
            }
            s = s + 1;
        }
        assert(hv.subrange(0, s as int) =~= hv);
        let ghost g = groups_view(paths@, counts@);
        let threshold = self.config.hot_path_threshold;
        let mut hot: Vec<usize> = Vec::new();
        let mut hot_counts: Vec<u64> = Vec::new();
        let mut j: usize = 0;
        while j < counts.len()
            invariant
                j <= counts@.len(),
                paths@.len() == counts@.len(),
                g == groups_view(paths@, counts@),
                threshold == self.config.hot_path_threshold,
                hot@.map_values(|x: usize| x as int) == hot_groups(g, threshold, j as nat),
                hot_counts@ == group_sizes(g, hot_groups(g, threshold, j as nat)),
                forall|a: int| 0 <= a < hot@.len() ==> (#[trigger] hot@[a] as int) < j,
            decreases counts@.len() - j,
        {
            assert(g[j as int].1 == counts@[j as int] as nat);
            if counts[j] >= threshold {
                hot.push(j);
                hot_counts.push(counts[j]);
                assert(hot@.map_values(|x: usize| x as int) =~= hot_groups(g, threshold, j as nat).push(j as int));
            }
            j = j + 1;
            assert(hot_counts@ =~= group_sizes(g, hot_groups(g, threshold, j as nat)));
        }
        let idx = top_indices(&hot_counts, hot_counts.len());
        let ghost hg = hot_groups(g, threshold, g.len());
        let mut out: Vec<CallPath> = Vec::new();
        let mut a: usize = 0;
        while a < idx.len()
            invariant
                a <= idx@.len(),
                is_top_selection(hot_counts@, hot_counts@.len(), idx@),
                hot_counts@.len() == hot@.len(),
                hot_counts@ == group_sizes(g, hg),
                paths@.len() == counts@.len(),
                g == groups_view(paths@, counts@),
                hot@.map_values(|x: usize| x as int) == hg,
                forall|b: int| 0 <= b < hot@.len() ==> (#[trigger] hot@[b] as int) < counts@.len(),
                out@.len() == a,
                forall|b: int| 0 <= b < a ==> group_path(#[trigger] out@[b], g, hg[idx@[b] as int]),
            decreases idx@.len() - a,
        {
            let k = hot[idx[a]];
            let count = counts[k];
            let time = if count <= u64::MAX / 1000 { count * 1000 } else { u64::MAX };
            let functions = copy_names(&paths[k]);
            let depth_k = functions.len();
            assert(hg[idx@[a as int] as int] == k as int);
            assert(g[k as int] == (paths@[k as int]@.map_values(|f: String| f@), counts@[k as int] as nat));
            assert(functions@.map_values(|f: String| f@) == g[k as int].0);
            out.push(CallPath { id: k as u64, functions, count, total_time_us: time, depth: depth_k });
            a = a + 1;
        }
        assert(g == path_groups(self.history(), depth as nat));
        assert(hg == hot_groups(g, self.cfg().hot_path_threshold, g.len()));
        assert(hg.len() == hot_counts@.len());
        assert(is_top_selection(group_sizes(g, hg), hg.len(), idx@));
        out
    }

    /// A summary of the thread: its sample count, distinct functions, the
    /// depths of the kept stacks (their sum, saturating, for the mean, and
    /// the largest), a function with the largest total time, and a
    /// millisecond per sample.
    pub fn get_stats_summary(&self) -> (r: ThreadStatsSummary)
        ensures
            r.thread_id == self.tid(),
            r.process_id == self.pid(),
            r.total_samples == self.samples(),
            r.unique_functions == self.stats().len(),
            r.total_call_depth == if depth_sum(self.history()) > u64::MAX { u64::MAX as int } else { depth_sum(self.history()) as int },
            r.stack_count == self.history().len(),
            r.max_call_depth == depth_max(self.history()),
            r.total_time_us == if self.samples() * 1000 > u64::MAX { u64::MAX as int } else { (self.samples() * 1000) as int },
            self.stats().len() == 0 ==> r.hottest_function is None,
            self.stats().len() > 0 ==> (r.hottest_function matches Some(name) && exists|i: int| 0 <= i < self.stats().len()
                && #[trigger] self.stats()[i].function_name@ == name@
                && forall|j: int| 0 <= j < self.stats().len() ==> (#[trigger] self.stats()[j]).total_time_us <= self.stats()[i].total_time_us),
    {
        let ghost hv = self.history();
        let mut total_depth: u64 = 0;
        let mut max_depth: usize = 0;
        let mut s: usize = 0;
        while s < self.call_stack_history.len()
            invariant
                s <= self.call_stack_history@.len(),
                hv == history_view(self.call_stack_history@),
                total_depth == if depth_sum(hv.subrange(0, s as int)) > u64::MAX { u64::MAX as int } else {
                    depth_sum(hv.subrange(0, s as int)) as int },
                max_depth == depth_max(hv.subrange(0, s as int)),
            decreases self.call_stack_history@.len() - s,
        {
            let len = self.call_stack_history[s].len();
            proof {
                assert(hv.subrange(0, s + 1).drop_last() =~= hv.subrange(0, s as int));
                assert(hv[s as int].len() == len);
            }
            total_depth = total_depth.saturating_add(len as u64);
            if len > max_depth {
                max_depth = len;
            }
            s = s + 1;
        }
        assert(hv.subrange(0, s as int) =~= hv);
        let mut hottest: Option<String> = None;
        if self.function_stats.len() > 0 {
            let mut best: usize = 0;
            let mut i: usize = 1;
            while i < self.function_stats.len()
                invariant
                    1 <= i <= self.function_stats@.len(),
                    best < i,
                    forall|j: int| 0 <= j < i ==> (#[trigger] self.function_stats@[j]).total_time_us
                        <= self.function_stats@[best as int].total_time_us,
                decreases self.function_stats@.len() - i,
            {
                if self.function_stats[i].total_time_us >= self.function_stats[best].total_time_us {
                    best = i;
                }
                i = i + 1;
            }
            hottest = Some(copy_string(&self.function_stats[best].function_name));
            assert(self.stats()[best as int].function_name@ == hottest.unwrap()@);
        }
        let total_time = if self.total_samples <= u64::MAX / 1000 { self.total_samples * 1000 } else { u64::MAX };
        ThreadStatsSummary {
            thread_id: self.thread_id,
            process_id: self.process_id,
            total_samples: self.total_samples,
            unique_functions: self.function_stats.len(),
            total_call_depth: total_depth,
            stack_count: self.call_stack_history.len(),
            max_call_depth: max_depth,
            hottest_function: hottest,
            total_time_us: total_time,
        }
    }

}

fn touch(f: &mut FunctionStats, leaf: bool)
    ensures
        *final(f) == touched(*old(f), leaf),
{
    f.total_time_us = f.total_time_us.saturating_add(1000);
    if leaf {
        f.self_time_us = f.self_time_us.saturating_add(1000);
        f.call_count = f.call_count.saturating_add(1);
    }
    if 1000 < f.min_time_us {
        f.min_time_us = 1000;
    }
    if f.max_time_us == 0 {
        f.max_time_us = 1000;
    } else if f.max_time_us < 1000 {
        f.max_time_us = 1000;
    }
}

/// The display names of a stack's frames.
fn frame_names(frames: &Vec<ResolvedFrame>) -> (r: Vec<String>)
    ensures
        r@.len() == frames@.len(),
        r@.map_values(|n: String| n@) == frames@.map_values(|f: ResolvedFrame| display_name_spec(f)),
{
    let mut out: Vec<String> = Vec::new();
    let mut i: usize = 0;
    while i < frames.len()
        invariant
            i <= frames@.len(),
            out@.len() == i,
            out@.map_values(|n: String| n@) == frames@.subrange(0, i as int).map_values(|f: ResolvedFrame| display_name_spec(f)),
        decreases frames@.len() - i,
    {
        let ghost before = out@;
        let d = frames[i].display_name();
        out.push(d);
        assert(out@.map_values(|n: String| n@) =~= before.map_values(|n: String| n@).push(d@));
        i = i + 1;
        assert(out@.map_values(|n: String| n@) =~= frames@.subrange(0, i as int).map_values(|f: ResolvedFrame| display_name_spec(f)));
    }
    assert(frames@.subrange(0, i as int) =~= frames@);
    out
}

fn copy_names(v: &Vec<String>) -> (r: Vec<String>)
    ensures
        r@ == v@,
{
    let mut out: Vec<String> = Vec::new();
    let mut i: usize = 0;
    while i < v.len()
        invariant
            i <= v@.len(),
            out@ == v@.subrange(0, i as int),
        decreases v@.len() - i,
    {
        out.push(copy_string(&v[i]));
        i = i + 1;
        assert(out@ =~= v@.subrange(0, i as int));
    }
    assert(out@ =~= v@);
    out
}

/// The total time of the first function called exactly `c` times (0 when
/// none was).
pub open spec fn time_of_count(fs: Seq<FunctionStats>, c: u64) -> u64
    decreases fs.len(),
{
    if fs.len() == 0 {
        0
    } else if fs[0].call_count == c {
        fs[0].total_time_us
    } else {
        time_of_count(fs.drop_first(), c)
    }
}

/// The time spent in callees: for each callee count, the time of a function
/// with that call count, summed (saturating at `u64::MAX`).
pub open spec fn child_time(fs: Seq<FunctionStats>, callees: Seq<(Seq<char>, u64)>) -> u64
    decreases callees.len(),
{
    if callees.len() == 0 {
        0
    } else {
        sat_add(child_time(fs, callees.drop_last()), time_of_count(fs, callees.last().1))
    }
}

/// `f` with its exclusive time: self time is total time less the time of
/// its callees (where it called any), mean time is total time over calls
/// (where it was called).
pub open spec fn with_exclusive_time(f: FunctionStats, fs: Seq<FunctionStats>,
    e: Seq<(Seq<char>, Seq<(Seq<char>, u64)>)>) -> FunctionStats
{
    let i = key_index(e, f.function_name@);
    let child = if i >= 0 { child_time(fs, e[i].1) } else { 0 };
    FunctionStats {
        self_time_us: if i < 0 { f.self_time_us } else if f.total_time_us >= child { (f.total_time_us - child) as u64 } else { 0 },
        average_time_us: if f.call_count > 0 { (f.total_time_us / f.call_count) as u64 } else { f.average_time_us },
        ..f
    }
}

fn time_with_count(fs: &Vec<FunctionStats>, c: u64) -> (r: u64)
    ensures
        r == time_of_count(fs@, c),
{
    let mut i: usize = 0;
    assert(fs@.subrange(0, fs@.len() as int) =~= fs@);
    while i < fs.len()
        invariant
            i <= fs@.len(),
            time_of_count(fs@, c) == time_of_count(fs@.subrange(i as int, fs@.len() as int), c),
        decreases fs@.len() - i,
    {
        let ghost rest = fs@.subrange(i as int, fs@.len() as int);
        assert(rest[0] == fs@[i as int]);
        if fs[i].call_count == c {
            return fs[i].total_time_us;
        }
        assert(rest.drop_first() =~= fs@.subrange(i + 1, fs@.len() as int));
        i = i + 1;
    }
    0
}

fn children_time(fs: &Vec<FunctionStats>, callees: &Vec<(String, u64)>) -> (r: u64)
    ensures
        r == child_time(fs@, counts_view(callees@)),
{
    let ghost cv = counts_view(callees@);
    let mut total: u64 = 0;
    let mut i: usize = 0;
    while i < callees.len()
        invariant
            i <= callees@.len(),
            cv == counts_view(callees@),
            total == child_time(fs@, cv.subrange(0, i as int)),
        decreases callees@.len() - i,
    {
        let t = time_with_count(fs, callees[i].1);
        total = total.saturating_add(t);
        i = i + 1;
        assert(cv.subrange(0, i as int).drop_last() =~= cv.subrange(0, i - 1));
    }
    assert(cv.subrange(0, i as int) =~= cv);
    total
}

/// The first `depth` functions of a stack (all of it when shorter).
pub open spec fn path_prefix(p: Seq<Seq<char>>, depth: nat) -> Seq<Seq<char>> {
    if depth < p.len() { p.subrange(0, depth as int) } else { p }
}

/// Position of the last group whose path, joined with `|`, is `key`, or -1.
pub open spec fn group_index(g: Seq<(Seq<Seq<char>>, nat)>, key: Seq<char>) -> int
    decreases g.len(),
{
    if g.len() == 0 {
        -1
    } else if join_with(g.last().0, "|"@) == key {
        g.len() - 1
    } else {
        group_index(g.drop_last(), key)
    }
}

/// Stacks grouped by their first `depth` functions joined with `|`, in
/// order of first appearance: each group's path (as first seen) and size.
pub open spec fn path_groups(h: Seq<Seq<Seq<char>>>, depth: nat) -> Seq<(Seq<Seq<char>>, nat)>
    decreases h.len(),
{
    if h.len() == 0 {
        Seq::empty()
    } else {
        let g = path_groups(h.drop_last(), depth);
        let p = path_prefix(h.last(), depth);
        let i = group_index(g, join_with(p, "|"@));
        if i >= 0 { g.update(i, (g[i].0, g[i].1 + 1)) } else { g.push((p, 1nat)) }
    }
}

/// The numbers of the groups, among the first `k`, with at least
/// `threshold` stacks.
pub open spec fn hot_groups(g: Seq<(Seq<Seq<char>>, nat)>, threshold: u64, k: nat) -> Seq<int>
    decreases k,
{
    if k == 0 {
        Seq::empty()
    } else {
        let c = hot_groups(g, threshold, (k - 1) as nat);
        if g[k - 1].1 >= threshold { c.push(k - 1) } else { c }
    }
}

/// The sizes of the groups numbered in `sel`.
pub open spec fn group_sizes(g: Seq<(Seq<Seq<char>>, nat)>, sel: Seq<int>) -> Seq<u64> {
    sel.map_values(|j: int| g[j].1 as u64)
}

/// `p` reports group `j`: its number as id, its path, its size, and a
/// millisecond per stack (saturating at `u64::MAX`).
pub open spec fn group_path(p: CallPath, g: Seq<(Seq<Seq<char>>, nat)>, j: int) -> bool {
    &&& p.id == j
    &&& p.functions@.map_values(|f: String| f@) == g[j].0
    &&& p.count == g[j].1
    &&& p.total_time_us == if g[j].1 * 1000 > u64::MAX { u64::MAX as int } else { (g[j].1 * 1000) as int }
    &&& p.depth == g[j].0.len()
}

pub open spec fn groups_view(paths: Seq<Vec<String>>, counts: Seq<u64>) -> Seq<(Seq<Seq<char>>, nat)> {
    Seq::new(paths.len(), |j: int| (paths[j]@.map_values(|f: String| f@), counts[j] as nat))
}

proof fn lemma_group_index(g: Seq<(Seq<Seq<char>>, nat)>, key: Seq<char>)
    ensures
        -1 <= group_index(g, key) < g.len(),
    decreases g.len(),
{
    if g.len() > 0 && join_with(g.last().0, "|"@) != key {
        lemma_group_index(g.drop_last(), key);
    }
}

proof fn lemma_group_index_at(g: Seq<(Seq<Seq<char>>, nat)>, key: Seq<char>, i: int)
    requires
        -1 <= i < g.len(),
        i >= 0 ==> join_with(g[i].0, "|"@) == key,
        forall|j: int| i < j < g.len() ==> join_with(#[trigger] g[j].0, "|"@) != key,
    ensures
        group_index(g, key) == i,
    decreases g.len(),
{
    if g.len() > 0 && i < g.len() - 1 {
        assert(join_with(g[g.len() - 1].0, "|"@) != key);
        lemma_group_index_at(g.drop_last(), key, i);
    }
}

/// The last position of `key` in `keys`.
fn find_key(keys: &Vec<String>, key: &str) -> (r: Option<usize>)
    ensures
        match r {
            Some(i) => i < keys@.len() && keys@[i as int]@ == key@
                && forall|j: int| i < j < keys@.len() ==> (#[trigger] keys@[j])@ != key@,
            None => forall|j: int| 0 <= j < keys@.len() ==> (#[trigger] keys@[j])@ != key@,
        },
{
    let mut i: usize = keys.len();
    while i > 0
        invariant
            i <= keys@.len(),
            forall|j: int| i <= j < keys@.len() ==> (#[trigger] keys@[j])@ != key@,
        decreases i,
    {
        if str_eq(keys[i - 1].as_str(), key) {
            return Some(i - 1);
        }
        i = i - 1;
    }
    None
}

/// The first `depth` names of a stack (all of them when fewer).
fn take_names(stack: &Vec<String>, depth: usize) -> (r: Vec<String>)
    ensures
        r@.map_values(|f: String| f@) == path_prefix(stack@.map_values(|f: String| f@), depth as nat),
{
    let n = if depth < stack.len() { depth } else { stack.len() };
    let mut out: Vec<String> = Vec::new();
    let mut i: usize = 0;
    while i < n
        invariant
            i <= n,
            n <= stack@.len(),
            out@ == stack@.subrange(0, i as int),
        decreases n - i,
    {
        out.push(copy_string(&stack[i]));
        i = i + 1;
        assert(out@ =~= stack@.subrange(0, i as int));
    }
    assert(out@.map_values(|f: String| f@) =~= path_prefix(stack@.map_values(|f: String| f@), depth as nat));
    out
}

/// A summary of one thread's analysis.
#[derive(Debug, Clone)]
pub struct ThreadStatsSummary {
    pub thread_id: ThreadId,
    pub process_id: ProcessId,
    pub total_samples: u64,
    pub unique_functions: usize,
    /// The depths of the kept stacks summed (saturating); over
    /// `stack_count` it gives the mean depth.
    pub total_call_depth: u64,
    /// How many stacks were kept.
    pub stack_count: usize,
    pub max_call_depth: usize,
    pub hottest_function: Option<String>,
    pub total_time_us: u64,
}

/// The depths of the stacks summed.
pub open spec fn depth_sum(h: Seq<Seq<Seq<char>>>) -> nat
    decreases h.len(),
{
    if h.len() == 0 { 0 } else { depth_sum(h.drop_last()) + h.last().len() }
}

/// The largest depth of the stacks (0 for none).
pub open spec fn depth_max(h: Seq<Seq<Seq<char>>>) -> nat
    decreases h.len(),
{
    if h.len() == 0 {
        0
    } else {
        let m = depth_max(h.drop_last());
        if h.last().len() > m { h.last().len() } else { m }
    }
}

/// The call counts of a sequence of function statistics.
pub open spec fn call_keys(s: Seq<FunctionStats>) -> Seq<u64> {
    s.map_values(|f: FunctionStats| f.call_count)
}

/// The counts of keyed counts.
pub open spec fn entry_counts(c: Seq<(Seq<char>, u64)>) -> Seq<u64> {
    c.map_values(|e: (Seq<char>, u64)| e.1)
}

/// `r` holds the entries of key `k` in `e`, largest count first (nothing
/// when `k` is absent).
pub open spec fn ranked_entries(e: Seq<(Seq<char>, Seq<(Seq<char>, u64)>)>, k: Seq<char>, r: Seq<(Seq<char>, u64)>) -> bool {
    let i = key_index(e, k);
    if i < 0 {
        r.len() == 0
    } else {
        exists|idx: Seq<usize>| #[trigger] is_top_selection(entry_counts(e[i].1), e[i].1.len(), idx)
            && r == idx.map_values(|j: usize| e[i].1[j as int])
    }
}

fn pick_stats<'a>(stats: &'a Vec<FunctionStats>, keys: &Vec<u64>, limit: usize) -> (r: Vec<&'a FunctionStats>)
    requires
        keys@.len() == stats@.len(),
    ensures
        exists|idx: Seq<usize>| #[trigger] is_top_selection(keys@, limit as nat, idx)
            && r@.len() == idx.len()
            && forall|k: int| 0 <= k < idx.len() ==> *r@[k] == stats@[idx[k] as int],
{
    let idx = top_indices(keys, limit);
    let mut out: Vec<&FunctionStats> = Vec::new();
    let mut k: usize = 0;
    while k < idx.len()
        invariant
            k <= idx@.len(),
            is_top_selection(keys@, limit as nat, idx@),
            keys@.len() == stats@.len(),
            out@.len() == k,
            forall|a: int| 0 <= a < k ==> *out@[a] == stats@[idx@[a] as int],
        decreases idx@.len() - k,
    {
        out.push(&stats[idx[k]]);
        k = k + 1;
    }
    out
}

fn ranked(e: &Vec<(String, Vec<(String, u64)>)>, k: &str) -> (r: Vec<(String, u64)>)
    ensures
        ranked_entries(edges_view(e@), k@, counts_view(r@)),
{
    let ghost ev = edges_view(e@);
    proof { lemma_key_index(ev, k@); }
    match find_edge_key(e, k) {
        None => Vec::new(),
        Some(i) => {
            let entries = &e[i].1;
            let ghost cv = counts_view(entries@);
            assert(cv == ev[i as int].1);
            let mut keys: Vec<u64> = Vec::new();
            let mut j: usize = 0;
            while j < entries.len()
                invariant
                    j <= entries@.len(),
                    cv == counts_view(entries@),
                    keys@ == entry_counts(cv.subrange(0, j as int)),
                decreases entries@.len() - j,
            {
                keys.push(entries[j].1);
                j = j + 1;
                assert(keys@ =~= entry_counts(cv.subrange(0, j as int)));
            }
            assert(cv.subrange(0, j as int) =~= cv);
            let idx = top_indices(&keys, keys.len());
            let mut out: Vec<(String, u64)> = Vec::new();
            let mut a: usize = 0;
            while a < idx.len()
                invariant
                    a <= idx@.len(),
                    is_top_selection(keys@, keys@.len(), idx@),
                    keys@.len() == entries@.len(),
                    cv == counts_view(entries@),
                    counts_view(out@) == idx@.subrange(0, a as int).map_values(|x: usize| cv[x as int]),
                decreases idx@.len() - a,
            {
                let (name, count) = (&entries[idx[a]].0, entries[idx[a]].1);
                let ghost before = out@;
                let copied = copy_string(name);
                out.push((copied, count));
                assert(counts_view(out@) =~= counts_view(before).push((copied@, count)));
                assert(cv[idx@[a as int] as int] == (copied@, count));
                a = a + 1;
                assert(counts_view(out@) =~= idx@.subrange(0, a as int).map_values(|x: usize| cv[x as int]));
            }
            assert(idx@.subrange(0, a as int) =~= idx@);
            out
        },
    }
}

} // verus!
