//! Flame graphs: a tree of call paths weighted by sample counts.
use vstd::prelude::*;
use crate::text::{copy_string, owned, push_char, push_str, write_dec, dec_seq, join_seq, sort_strings, lex_sorted, views, chars_of, string_of_chars, split_seq, split_chars, trim_seq, trim_bounds, parse_u64_spec, parse_u64_chars, last_index_in, starts_with, occurs_at_exec, lemma_split_prefix, lemma_split_nonempty};
use crate::types::{last_index_of, StackFrame, full_function_name_spec};
use crate::stackwalker::collector::{CollectedStack, ResolvedFrame, display_name_spec};
use crate::error::{ProfilerError, Result};

verus! {

/// A node of a flame graph: a function, the samples whose stacks pass
/// through it, and its callees, at most one per name.
#[derive(Debug)]
pub struct FlameNode {
    pub name: String,
    pub value: u64,
    pub children: Vec<FlameNode>,
}

/// Position of the last child named `name`, or -1.
pub open spec fn child_pos(ch: Seq<FlameNode>, name: Seq<char>) -> int
    decreases ch.len(),
{
    if ch.len() == 0 {
        -1
    } else if ch.last().name@ == name {
        ch.len() - 1
    } else {
        child_pos(ch.drop_last(), name)
    }
}

/// No two children share a name.
pub open spec fn names_distinct(ch: Seq<FlameNode>) -> bool {
    forall|i: int, j: int| 0 <= i < j < ch.len() ==> ch[i].name@ != ch[j].name@
}

impl FlameNode {
    /// Well-formed: children have distinct names, no child holds more
    /// samples than its parent, and every child is well-formed.
    pub open spec fn wf(self) -> bool
        decreases self,
    {
        &&& names_distinct(self.children@)
        &&& forall|i: int| 0 <= i < self.children@.len() ==> (#[trigger] self.children@[i]).value <= self.value
        &&& forall|i: int| 0 <= i < self.children@.len() ==> (#[trigger] self.children@[i]).wf()
    }
}


/// The samples held by the children together.
pub open spec fn children_sum(ch: Seq<FlameNode>) -> int
    decreases ch.len(),
{
    if ch.len() == 0 {
        0
    } else {
        children_sum(ch.drop_last()) + ch.last().value
    }
}

impl FlameNode {
    /// Every node holds at least the samples of its children together.
    pub open spec fn dominates(self) -> bool
        decreases self,
    {
        &&& children_sum(self.children@) <= self.value
        &&& forall|i: int| 0 <= i < self.children@.len() ==> (#[trigger] self.children@[i]).dominates()
    }
}

/// Replacing one child changes the sum by the difference of the values.
pub proof fn lemma_children_sum_update(ch: Seq<FlameNode>, k: int, c: FlameNode)
    requires
        0 <= k < ch.len(),
    ensures
        children_sum(ch.update(k, c)) == children_sum(ch) - ch[k].value + c.value,
    decreases ch.len(),
{
    let u = ch.update(k, c);
    if k < ch.len() - 1 {
        lemma_children_sum_update(ch.drop_last(), k, c);
        assert(u.drop_last() =~= ch.drop_last().update(k, c));
    } else {
        assert(u.drop_last() =~= ch.drop_last());
    }
}

pub proof fn lemma_children_sum_push(ch: Seq<FlameNode>, c: FlameNode)
    ensures
        children_sum(ch.push(c)) == children_sum(ch) + c.value,
{
    assert(ch.push(c).drop_last() =~= ch);
}

/// The names along a path of strings.
pub open spec fn path_view(p: Seq<String>) -> Seq<Seq<char>> {
    p.map_values(|s: String| s@)
}

/// `q` is a prefix of `p` (the empty path is a prefix of every path).
pub open spec fn is_prefix(q: Seq<Seq<char>>, p: Seq<Seq<char>>) -> bool {
    q.len() <= p.len() && p.subrange(0, q.len() as int) == q
}

/// Samples recorded at the node reached from `node` by following the
/// child names in `path`, or 0 when there is no such node.
pub open spec fn value_at(node: FlameNode, path: Seq<Seq<char>>) -> int
    decreases path.len(),
{
    if path.len() == 0 {
        node.value as int
    } else {
        let k = child_pos(node.children@, path[0]);
        if 0 <= k < node.children@.len() {
            value_at(node.children@[k], path.drop_first())
        } else {
            0
        }
    }
}

/// There is a node at `path` below `node`.
pub open spec fn has_path(node: FlameNode, path: Seq<Seq<char>>) -> bool
    decreases path.len(),
{
    if path.len() == 0 {
        true
    } else {
        let k = child_pos(node.children@, path[0]);
        0 <= k < node.children@.len() && has_path(node.children@[k], path.drop_first())
    }
}

pub proof fn lemma_child_pos(ch: Seq<FlameNode>, name: Seq<char>)
    ensures
        -1 <= child_pos(ch, name) < ch.len(),
        child_pos(ch, name) >= 0 ==> ch[child_pos(ch, name)].name@ == name,
        child_pos(ch, name) == -1 ==> forall|j: int| 0 <= j < ch.len() ==> ch[j].name@ != name,
    decreases ch.len(),
{
    if ch.len() > 0 && ch.last().name@ != name {
        lemma_child_pos(ch.drop_last(), name);
        assert forall|j: int| child_pos(ch, name) == -1 && 0 <= j < ch.len() implies ch[j].name@ != name by {
            if j < ch.len() - 1 {
                assert(ch.drop_last()[j] == ch[j]);
            }
        }
    }
}

/// With distinct names, the child named like the `k`-th child is the `k`-th.
pub proof fn lemma_child_pos_distinct(ch: Seq<FlameNode>, k: int)
    requires
        names_distinct(ch),
        0 <= k < ch.len(),
    ensures
        child_pos(ch, ch[k].name@) == k,
    decreases ch.len(),
{
    if k < ch.len() - 1 {
        lemma_child_pos_distinct(ch.drop_last(), k);
    }
}

/// Child positions depend on the children's names alone.
pub proof fn lemma_child_pos_same_names(a: Seq<FlameNode>, b: Seq<FlameNode>, name: Seq<char>)
    requires
        a.len() == b.len(),
        forall|i: int| 0 <= i < a.len() ==> a[i].name@ == b[i].name@,
    ensures
        child_pos(a, name) == child_pos(b, name),
    decreases a.len(),
{
    if a.len() > 0 {
        lemma_child_pos_same_names(a.drop_last(), b.drop_last(), name);
    }
}

/// Appending a child whose name is new.
pub proof fn lemma_child_pos_push(ch: Seq<FlameNode>, c: FlameNode, name: Seq<char>)
    ensures
        child_pos(ch.push(c), name) == if c.name@ == name { ch.len() as int } else { child_pos(ch, name) },
{
    assert(ch.push(c).drop_last() =~= ch);
}

/// No node below a well-formed node holds more samples than it.
pub proof fn lemma_value_at_bounded(node: FlameNode, path: Seq<Seq<char>>)
    requires
        node.wf(),
    ensures
        0 <= value_at(node, path) <= node.value,
    decreases path.len(),
{
    if path.len() > 0 {
        let k = child_pos(node.children@, path[0]);
        if 0 <= k < node.children@.len() {
            assert(node.children@[k].wf());
            lemma_value_at_bounded(node.children@[k], path.drop_first());
        }
    }
}

/// A node with a name, no samples and no children.
pub open spec fn is_fresh(node: FlameNode, name: Seq<char>) -> bool {
    node.name@ == name && node.value == 0 && node.children@.len() == 0
}

pub proof fn lemma_fresh_values(node: FlameNode, path: Seq<Seq<char>>)
    requires
        node.value == 0,
        node.children@.len() == 0,
    ensures
        value_at(node, path) == 0,
        has_path(node, path) == (path.len() == 0),
{
}

impl FlameNode {
    pub fn new(name: &str) -> (r: Self)
        ensures
            is_fresh(r, name@),
            r.wf(),
            r.dominates(),
    {
        FlameNode { name: owned(name), value: 0, children: Vec::new() }
    }

    pub fn with_value(name: &str, value: u64) -> (r: Self)
        ensures
            r.name@ == name@,
            r.value == value,
            r.children@.len() == 0,
            r.wf(),
    {
        FlameNode { name: owned(name), value, children: Vec::new() }
    }

    /// Position of the child named `name`.
    pub fn find_child(&self, name: &String) -> (r: Option<usize>)
        ensures
            match r {
                Some(k) => k as int == child_pos(self.children@, name@),
                None => child_pos(self.children@, name@) == -1,
            },
    {
        proof { lemma_child_pos(self.children@, name@); }
        let mut i: usize = self.children.len();
        while i > 0
            invariant
                i <= self.children@.len(),
                forall|j: int| i <= j < self.children@.len() ==> self.children@[j].name@ != name@,
                child_pos(self.children@, name@) < self.children@.len(),
            decreases i,
        {
            if self.children[i - 1].name == *name {
                proof { lemma_child_pos_tail(self.children@, name@, (i - 1) as int); }
                return Some(i - 1);
            }
            i = i - 1;
        }
        proof { lemma_child_pos(self.children@, name@); }
        None
    }

    /// Adds `value` samples along `path` (from position `start` on),
    /// creating the missing nodes.
    fn insert_from(&mut self, path: &[String], start: usize, value: u64)
        requires
            old(self).wf(),
            start <= path@.len(),
            old(self).value + value <= u64::MAX,
        ensures
            final(self).wf(),
            final(self).name == old(self).name,
            final(self).value == old(self).value + value,
            forall|q: Seq<Seq<char>>| #[trigger] value_at(*final(self), q)
                == value_at(*old(self), q) + if is_prefix(q, path_view(path@.subrange(start as int, path@.len() as int))) { value as int } else { 0 },
            forall|q: Seq<Seq<char>>| #[trigger] has_path(*final(self), q)
                == (has_path(*old(self), q) || is_prefix(q, path_view(path@.subrange(start as int, path@.len() as int)))),
            old(self).dominates() ==> final(self).dominates(),
        decreases path@.len() - start,
    {
        let ghost p = path_view(path@.subrange(start as int, path@.len() as int));
        if start == path.len() {
            self.value = self.value + value;
            proof {
                assert forall|q: Seq<Seq<char>>| #[trigger] value_at(*self, q)
                    == value_at(*old(self), q) + if is_prefix(q, p) { value as int } else { 0 } by {
                    if q.len() > 0 {
                        assert(!is_prefix(q, p));
                    } else {
                        assert(p.subrange(0, 0) =~= q);
                    }
                }
                assert forall|q: Seq<Seq<char>>| #[trigger] has_path(*self, q)
                    == (has_path(*old(self), q) || is_prefix(q, p)) by {
                    if q.len() == 0 {
                        assert(p.subrange(0, 0) =~= q);
                    }
                }
            }
            return;
        }
        let ghost old_children = self.children@;
        let k: usize = match self.find_child(&path[start]) {
            Some(k) => k,
            None => {
                let fresh = FlameNode::new(path[start].as_str());
                proof { lemma_child_pos_push(self.children@, fresh, path@[start as int]@); }
                self.children.push(fresh);
                self.children.len() - 1
            },
        };
        let ghost mid_children = self.children@;
        proof {
            lemma_child_pos(old_children, path[start as int]@);
            lemma_value_at_bounded(*old(self), seq![path[start as int]@]);
        }
        let mut child = self.children.remove(k);
        let ghost old_child = child;
        proof {
            assert(old_child == mid_children[k as int]);
            assert(old_child.wf());
            assert(old_child.value <= old(self).value);
        }
        child.insert_from(path, start + 1, value);
        self.children.insert(k, child);
        self.value = self.value + value;
        proof {
            let new_children = self.children@;
            let found = mid_children.len() == old_children.len();
            assert(new_children =~= mid_children.update(k as int, child));
            let p_rest = path_view(path@.subrange(start + 1, path@.len() as int));
            assert(p =~= seq![path@[start as int]@] + p_rest);
            if found {
                assert(mid_children =~= old_children);
            }
            assert forall|q: Seq<Seq<char>>| #[trigger] value_at(*self, q)
                == value_at(*old(self), q) + if is_prefix(q, p) { value as int } else { 0 } by {
                lemma_insert_step(*old(self), *self, mid_children, k as int, path@[start as int]@, child, value as int, p_rest, q);
            }
            assert forall|q: Seq<Seq<char>>| #[trigger] has_path(*self, q)
                == (has_path(*old(self), q) || is_prefix(q, p)) by {
                lemma_insert_step(*old(self), *self, mid_children, k as int, path@[start as int]@, child, value as int, p_rest, q);
            }
            // well-formedness
            assert forall|i: int, j: int| 0 <= i < j < new_children.len() implies new_children[i].name@ != new_children[j].name@ by {
                if !found && j == mid_children.len() - 1 {
                    assert(mid_children[i] == old_children[i]);
                } else {
                    assert(mid_children[i] == old_children[i]);
                    assert(mid_children[j] == old_children[j]);
                }
            }
            assert forall|i: int| 0 <= i < new_children.len() implies (#[trigger] new_children[i]).value <= self.value && new_children[i].wf() by {
                if i != k {
                    assert(mid_children[i] == old_children[i]);
                }
            }
            if old(self).dominates() {
                if found {
                    assert(children_sum(mid_children) == children_sum(old_children));
                    assert(old_child.dominates());
                } else {
                    lemma_children_sum_push(old_children, mid_children[k as int]);
                    assert(mid_children =~= old_children.push(mid_children[k as int]));
                    assert(old_child.children@.len() == 0);
                    assert(children_sum(old_child.children@) == 0);
                    assert(old_child.dominates());
                }
                lemma_children_sum_update(mid_children, k as int, child);
                assert forall|i: int| 0 <= i < new_children.len() implies (#[trigger] new_children[i]).dominates() by {
                    if i != k {
                        assert(mid_children[i] == old_children[i]);
                    }
                }
                assert(self.dominates());
            }
        }
    }

    /// Adds `value` samples to this node and to every node along `path`,
    /// creating the nodes that are missing.
    pub fn insert(&mut self, path: &[String], value: u64)
        requires
            old(self).wf(),
            old(self).value + value <= u64::MAX,
        ensures
            final(self).wf(),
            final(self).name == old(self).name,
            final(self).value == old(self).value + value,
            forall|q: Seq<Seq<char>>| #[trigger] value_at(*final(self), q)
                == value_at(*old(self), q) + if is_prefix(q, path_view(path@)) { value as int } else { 0 },
            forall|q: Seq<Seq<char>>| #[trigger] has_path(*final(self), q)
                == (has_path(*old(self), q) || is_prefix(q, path_view(path@))),
            old(self).dominates() ==> final(self).dominates(),
    {
        assert(path@.subrange(0, path@.len() as int) =~= path@);
        self.insert_from(path, 0, value);
    }
}

impl FlameNode {
    /// Adds the samples of `other` into this node, name by name, down the
    /// whole tree.
    pub fn merge(&mut self, other: &FlameNode)
        requires
            old(self).wf(),
            other.wf(),
            old(self).value + other.value <= u64::MAX,
        ensures
            final(self).wf(),
            final(self).name == old(self).name,
            final(self).value == old(self).value + other.value,
            forall|q: Seq<Seq<char>>| #[trigger] value_at(*final(self), q) == value_at(*old(self), q) + value_at(*other, q),
            forall|q: Seq<Seq<char>>| q.len() > 0 ==> (#[trigger] has_path(*final(self), q) == (has_path(*old(self), q) || has_path(*other, q))),
        decreases other,
    {
        let ghost o = *self;
        self.value = self.value + other.value;
        let ghost oth = other.children@;
        let mut i: usize = 0;
        while i < other.children.len()
            invariant
                other.wf(),
                o.wf(),
                oth == other.children@,
                i <= oth.len(),
                self.name == o.name,
                self.value == o.value + other.value,
                names_distinct(self.children@),
                forall|j: int| 0 <= j < self.children@.len() ==> (#[trigger] self.children@[j]).value <= self.value,
                forall|j: int| 0 <= j < self.children@.len() ==> (#[trigger] self.children@[j]).wf(),
                forall|q: Seq<Seq<char>>| q.len() > 0 ==> #[trigger] value_below(self.children@, q)
                    == value_below(o.children@, q) + value_below(oth.subrange(0, i as int), q),
                forall|q: Seq<Seq<char>>| q.len() > 0 ==> #[trigger] has_below(self.children@, q)
                    == (has_below(o.children@, q) || has_below(oth.subrange(0, i as int), q)),
            decreases oth.len() - i,
        {
            let oc = &other.children[i];
            let ghost cur = self.children@;
            proof {
                assert(oc.wf());
                assert(oc.value <= other.value);
            }
            let k: usize = match self.find_child(&oc.name) {
                Some(k) => k,
                None => {
                    let fresh = FlameNode::new(oc.name.as_str());
                    proof { lemma_child_pos_push(self.children@, fresh, oc.name@); }
                    self.children.push(fresh);
                    self.children.len() - 1
                },
            };
            let ghost mid = self.children@;
            proof {
                lemma_child_pos(cur, oc.name@);
                lemma_child_pos_prefix(oth, i as int, oc.name@);
                lemma_child_pos_distinct(oth, i as int);
                // the child's samples so far come from the old node alone
                if mid.len() == cur.len() {
                    let q1 = seq![oc.name@];
                    assert(q1[0] == oc.name@);
                    assert(value_below(cur, q1) == value_below(o.children@, q1) + value_below(oth.subrange(0, i as int), q1));
                    assert(value_below(oth.subrange(0, i as int), q1) == 0);
                    lemma_child_pos(o.children@, oc.name@);
                    if child_pos(o.children@, oc.name@) >= 0 {
                        assert(o.children@[child_pos(o.children@, oc.name@)].value <= o.value);
                    }
                    assert(mid[k as int].value == value_below(cur, q1));
                }
            }
            let mut child = self.children.remove(k);
            let ghost old_child = child;
            proof {
                assert(old_child == mid[k as int]);
            }
            child.merge(oc);
            self.children.insert(k, child);
            proof {
                let nc = self.children@;
                assert(nc =~= mid.update(k as int, child));
                let done = oth.subrange(0, i + 1);
                let prev = oth.subrange(0, i as int);
                assert(done =~= prev.push(*oc));
                assert(names_distinct(done));
                lemma_child_pos_prefix(oth, i as int + 1, oc.name@);
                assert forall|q: Seq<Seq<char>>| q.len() > 0 implies #[trigger] value_below(self.children@, q)
                    == value_below(o.children@, q) + value_below(done, q) by {
                    lemma_replace_child(cur, nc, mid, k as int, oc.name@, child, q);
                    lemma_child_pos_push(prev, *oc, q[0]);
                    assert(done.drop_last() =~= prev);
                    assert(value_below(cur, q) == value_below(o.children@, q) + value_below(prev, q));
                    if q[0] == oc.name@ {
                        assert(child_pos(done, q[0]) == i);
                        assert(done[i as int] == *oc);
                        assert(value_below(prev, q) == 0) by {
                            lemma_child_pos_prefix(oth, i as int, q[0]);
                        }
                        assert(value_at(child, q.drop_first()) == value_at(old_child, q.drop_first()) + value_at(*oc, q.drop_first()));
                    } else {
                        let j = child_pos(prev, q[0]);
                        lemma_child_pos(prev, q[0]);
                        if j >= 0 {
                            assert(done[j] == prev[j]);
                        }
                    }
                }
                assert forall|q: Seq<Seq<char>>| q.len() > 0 implies #[trigger] has_below(self.children@, q)
                    == (has_below(o.children@, q) || has_below(done, q)) by {
                    lemma_replace_child(cur, nc, mid, k as int, oc.name@, child, q);
                    lemma_child_pos_push(prev, *oc, q[0]);
                    assert(done.drop_last() =~= prev);
                    assert(has_below(cur, q) == (has_below(o.children@, q) || has_below(prev, q)));
                    if q[0] != oc.name@ {
                        let j = child_pos(prev, q[0]);
                        lemma_child_pos(prev, q[0]);
                        if j >= 0 {
                            assert(done[j] == prev[j]);
                        }
                    } else {
                        assert(child_pos(done, q[0]) == i);
                        assert(done[i as int] == *oc);
                        assert(!has_below(prev, q)) by {
                            lemma_child_pos_prefix(oth, i as int, q[0]);
                        }
                        if q.drop_first().len() > 0 {
                            assert(has_path(child, q.drop_first()) == (has_path(old_child, q.drop_first()) || has_path(*oc, q.drop_first())));
                        }
                    }
                }
                assert forall|a: int, b: int| 0 <= a < b < nc.len() implies nc[a].name@ != nc[b].name@ by {
                    if mid.len() != cur.len() && b == mid.len() - 1 {
                        assert(mid[a] == cur[a]);
                    } else {
                        assert(mid[a] == cur[a]);
                        assert(mid[b] == cur[b]);
                    }
                }
                assert forall|j: int| 0 <= j < nc.len() implies (#[trigger] nc[j]).value <= self.value && nc[j].wf() by {
                    if j != k {
                        assert(mid[j] == cur[j]);
                    }
                }
            }
            i = i + 1;
        }
        proof {
            assert(oth.subrange(0, i as int) =~= oth);
            assert forall|q: Seq<Seq<char>>| #[trigger] value_at(*self, q) == value_at(o, q) + value_at(*other, q) by {
                if q.len() > 0 {
                    assert(value_below(self.children@, q) == value_below(o.children@, q) + value_below(oth.subrange(0, i as int), q));
                }
            }
            assert forall|q: Seq<Seq<char>>| q.len() > 0 implies (#[trigger] has_path(*self, q) == (has_path(o, q) || has_path(*other, q))) by {
                assert(has_below(self.children@, q) == (has_below(o.children@, q) || has_below(oth.subrange(0, i as int), q)));
            }
        }
    }
}

/// The node at `q` below `node` exists and every node on the way there,
/// `node` included, holds at least `m` samples.
pub open spec fn kept(node: FlameNode, q: Seq<Seq<char>>, m: u64) -> bool
    decreases q.len(),
{
    node.value >= m && (q.len() == 0 || {
        let k = child_pos(node.children@, q[0]);
        0 <= k < node.children@.len() && kept(node.children@[k], q.drop_first(), m)
    })
}

/// `kept` for a nonempty path starting among the children `ch`.
pub open spec fn kept_below(ch: Seq<FlameNode>, q: Seq<Seq<char>>, m: u64) -> bool {
    let k = child_pos(ch, q[0]);
    0 <= k < ch.len() && kept(ch[k], q.drop_first(), m)
}

impl FlameNode {
    /// A copy of the tree without the nodes holding fewer than `min_samples`
    /// samples (and everything below them); a root below the threshold
    /// becomes an empty node of the same name.
    pub fn filter_min_samples(&self, min_samples: u64) -> (r: FlameNode)
        requires
            self.wf(),
        ensures
            r.wf(),
            r.name == self.name,
            r.value == if self.value >= min_samples { self.value } else { 0 },
            self.value < min_samples ==> r.children@.len() == 0,
            forall|q: Seq<Seq<char>>| #[trigger] value_at(r, q)
                == if kept(*self, q, min_samples) { value_at(*self, q) } else { 0 },
            forall|q: Seq<Seq<char>>| q.len() > 0 ==> #[trigger] has_path(r, q) == kept(*self, q, min_samples),
        decreases self,
    {
        let m = min_samples;
        if self.value < m {
            let r = FlameNode { name: copy_string(&self.name), value: 0, children: Vec::new() };
            proof {
                assert forall|q: Seq<Seq<char>>| #[trigger] value_at(r, q)
                    == if kept(*self, q, m) { value_at(*self, q) } else { 0 } by {
                    lemma_fresh_values(r, q);
                }
                assert forall|q: Seq<Seq<char>>| q.len() > 0 implies #[trigger] has_path(r, q) == kept(*self, q, m) by {
                    lemma_fresh_values(r, q);
                }
            }
            return r;
        }
        let ch = &self.children;
        let mut out: Vec<FlameNode> = Vec::new();
        let mut i: usize = 0;
        while i < ch.len()
            invariant
                self.wf(),
                self.value >= m,
                ch@ == self.children@,
                i <= ch@.len(),
                names_distinct(out@),
                forall|j: int| 0 <= j < out@.len() ==> (#[trigger] out@[j]).value <= self.value && out@[j].wf(),
                forall|j: int| 0 <= j < out@.len() ==> exists|t: int| 0 <= t < i && #[trigger] out@[j].name@ == ch@[t].name@,
                forall|q: Seq<Seq<char>>| q.len() > 0 ==> #[trigger] value_below(out@, q)
                    == if kept_below(ch@.subrange(0, i as int), q, m) { value_below(ch@.subrange(0, i as int), q) } else { 0 },
                forall|q: Seq<Seq<char>>| q.len() > 0 ==> #[trigger] has_below(out@, q) == kept_below(ch@.subrange(0, i as int), q, m),
            decreases ch@.len() - i,
        {
            let c = &ch[i];
            proof { assert(c.wf()); }
            let fc = c.filter_min_samples(m);
            let ghost prev = ch@.subrange(0, i as int);
            let ghost next = ch@.subrange(0, i + 1);
            let ghost old_out = out@;
            proof {
                assert(next =~= prev.push(*c));
                assert(next.drop_last() =~= prev);
                lemma_child_pos_prefix(ch@, i as int, c.name@);
                lemma_child_pos_distinct(ch@, i as int);
                lemma_child_pos(old_out, c.name@);
                assert(child_pos(old_out, c.name@) == -1) by {
                    if child_pos(old_out, c.name@) >= 0 {
                        let j = child_pos(old_out, c.name@);
                        let t = choose|t: int| 0 <= t < i && old_out[j].name@ == ch@[t].name@;
                        assert(ch@[t].name@ == ch@[i as int].name@);
                    }
                }
            }
            let keep = fc.value >= m || fc.children.len() > 0;
            if keep {
                out.push(fc);
            }
            proof {
                assert(keep == (c.value >= m));
                assert forall|q: Seq<Seq<char>>| q.len() > 0 implies #[trigger] value_below(out@, q)
                    == if kept_below(next, q, m) { value_below(next, q) } else { 0 } by {
                    assert(value_below(old_out, q) == if kept_below(prev, q, m) { value_below(prev, q) } else { 0 });
                    lemma_child_pos_push(prev, *c, q[0]);
                    lemma_child_pos_push(old_out, fc, q[0]);
                    lemma_child_pos(prev, q[0]);
                    lemma_child_pos(old_out, q[0]);
                    if q[0] == c.name@ {
                        assert(child_pos(next, q[0]) == i);
                        assert(next[i as int] == *c);
                        if keep {
                            assert(out@[old_out.len() as int] == fc);
                        }
                    } else {
                        let j = child_pos(prev, q[0]);
                        if j >= 0 { assert(next[j] == prev[j]); }
                        let j2 = child_pos(old_out, q[0]);
                        if j2 >= 0 && keep { assert(out@[j2] == old_out[j2]); }
                    }
                }
                assert forall|q: Seq<Seq<char>>| q.len() > 0 implies #[trigger] has_below(out@, q) == kept_below(next, q, m) by {
                    assert(has_below(old_out, q) == kept_below(prev, q, m));
                    lemma_child_pos_push(prev, *c, q[0]);
                    lemma_child_pos_push(old_out, fc, q[0]);
                    lemma_child_pos(prev, q[0]);
                    lemma_child_pos(old_out, q[0]);
                    if q[0] == c.name@ {
                        assert(child_pos(next, q[0]) == i);
                        assert(next[i as int] == *c);
                        if keep {
                            assert(out@[old_out.len() as int] == fc);
                        }
                    } else {
                        let j = child_pos(prev, q[0]);
                        if j >= 0 { assert(next[j] == prev[j]); }
                        let j2 = child_pos(old_out, q[0]);
                        if j2 >= 0 && keep { assert(out@[j2] == old_out[j2]); }
                    }
                }
                assert forall|j: int| 0 <= j < out@.len() implies exists|t: int| 0 <= t < i + 1 && #[trigger] out@[j].name@ == ch@[t].name@ by {
                    if j < old_out.len() {
                        assert(out@[j] == old_out[j]);
                        let t = choose|t: int| 0 <= t < i && old_out[j].name@ == ch@[t].name@;
                        assert(out@[j].name@ == ch@[t].name@);
                    } else {
                        assert(out@[j].name@ == ch@[i as int].name@);
                    }
                }
                assert forall|a: int, b: int| 0 <= a < b < out@.len() implies out@[a].name@ != out@[b].name@ by {
                    if b == old_out.len() && keep {
                        assert(out@[a] == old_out[a]);
                        lemma_child_pos(old_out, c.name@);
                    } else {
                        assert(out@[a] == old_out[a]);
                        assert(out@[b] == old_out[b]);
                    }
                }
            }
            i = i + 1;
        }
        let r = FlameNode { name: copy_string(&self.name), value: self.value, children: out };
        proof {
            assert(ch@.subrange(0, i as int) =~= ch@);
            assert forall|q: Seq<Seq<char>>| #[trigger] value_at(r, q)
                == if kept(*self, q, m) { value_at(*self, q) } else { 0 } by {
                if q.len() > 0 {
                    assert(value_below(r.children@, q) == if kept_below(ch@, q, m) { value_below(ch@, q) } else { 0 });
                }
            }
            assert forall|q: Seq<Seq<char>>| q.len() > 0 implies #[trigger] has_path(r, q) == kept(*self, q, m) by {
                assert(has_below(r.children@, q) == kept_below(ch@, q, m));
            }
        }
        r
    }

    /// An exact copy of the tree (every node holds at least 0 samples).
    pub fn deep_copy(&self) -> (r: FlameNode)
        requires
            self.wf(),
        ensures
            r.wf(),
            r.name == self.name,
            r.value == self.value,
            forall|q: Seq<Seq<char>>| #[trigger] value_at(r, q) == value_at(*self, q),
            forall|q: Seq<Seq<char>>| #[trigger] has_path(r, q) == has_path(*self, q),
    {
        let r = self.filter_min_samples(0);
        proof {
            assert forall|q: Seq<Seq<char>>| #[trigger] has_path(r, q) == has_path(*self, q) by {
                lemma_kept_zero(*self, q);
            }
            assert forall|q: Seq<Seq<char>>| #[trigger] value_at(r, q) == value_at(*self, q) by {
                lemma_kept_zero(*self, q);
                if !has_path(*self, q) {
                    lemma_no_path_no_value(*self, q);
                }
            }
        }
        r
    }
}

/// `n`, or `usize::MAX` when larger.
pub open spec fn cap(n: nat) -> nat {
    if n > usize::MAX { usize::MAX as nat } else { n }
}

/// Number of nodes of the tree.
pub open spec fn count_spec(node: FlameNode) -> nat
    decreases node, 1nat,
{
    1 + count_seq(node.children@)
}

/// Number of nodes of the trees in `ch`.
pub open spec fn count_seq(ch: Seq<FlameNode>) -> nat
    decreases ch, 0nat,
{
    if ch.len() == 0 {
        0
    } else {
        count_seq(ch.subrange(0, ch.len() - 1)) + count_spec(ch[ch.len() - 1])
    }
}

/// Number of levels of the tree.
pub open spec fn depth_spec(node: FlameNode) -> nat
    decreases node, 1nat,
{
    1 + depth_seq(node.children@)
}

/// Largest number of levels among the trees in `ch`, 0 for none.
pub open spec fn depth_seq(ch: Seq<FlameNode>) -> nat
    decreases ch, 0nat,
{
    if ch.len() == 0 {
        0
    } else {
        let a = depth_seq(ch.subrange(0, ch.len() - 1));
        let b = depth_spec(ch[ch.len() - 1]);
        if a >= b { a } else { b }
    }
}

pub proof fn lemma_count_seq_step(ch: Seq<FlameNode>, i: int)
    requires
        0 <= i < ch.len(),
    ensures
        count_seq(ch.subrange(0, i + 1)) == count_seq(ch.subrange(0, i)) + count_spec(ch[i]),
        depth_seq(ch.subrange(0, i + 1)) == if depth_seq(ch.subrange(0, i)) >= depth_spec(ch[i]) {
            depth_seq(ch.subrange(0, i))
        } else {
            depth_spec(ch[i])
        },
{
    assert(ch.subrange(0, i + 1).subrange(0, i) =~= ch.subrange(0, i));
}

pub proof fn lemma_count_seq_mono(ch: Seq<FlameNode>, i: int)
    requires
        0 <= i <= ch.len(),
    ensures
        count_seq(ch.subrange(0, i)) <= count_seq(ch),
        depth_seq(ch.subrange(0, i)) <= depth_seq(ch),
        i < ch.len() ==> count_spec(ch[i]) <= count_seq(ch),
        i < ch.len() ==> depth_spec(ch[i]) <= depth_seq(ch),
    decreases ch.len() - i,
{
    if i < ch.len() {
        lemma_count_seq_step(ch, i);
        lemma_count_seq_mono(ch, i + 1);
    } else {
        assert(ch.subrange(0, i) =~= ch);
    }
}

impl FlameNode {
    /// Number of nodes of the tree, this one included (saturating at
    /// `usize::MAX`).
    pub fn count_nodes(&self) -> (r: usize)
        ensures
            r == cap(count_spec(*self)),
        decreases self,
    {
        let mut total: usize = 1;
        let mut i: usize = 0;
        while i < self.children.len()
            invariant
                i <= self.children@.len(),
                total == cap(1 + count_seq(self.children@.subrange(0, i as int))),
            decreases self.children@.len() - i,
        {
            proof {
                lemma_count_seq_step(self.children@, i as int);
            }
            let c = self.children[i].count_nodes();
            total = total.saturating_add(c);
            i = i + 1;
        }
        assert(self.children@.subrange(0, i as int) =~= self.children@);
        total
    }

    /// Number of levels of the tree: 1 for a node without children
    /// (saturating at `usize::MAX`).
    pub fn depth(&self) -> (r: usize)
        ensures
            r == cap(depth_spec(*self)),
        decreases self,
    {
        let mut deepest: usize = 0;
        let mut i: usize = 0;
        while i < self.children.len()
            invariant
                i <= self.children@.len(),
                deepest == cap(depth_seq(self.children@.subrange(0, i as int))),
            decreases self.children@.len() - i,
        {
            proof {
                lemma_count_seq_step(self.children@, i as int);
            }
            let d = self.children[i].depth();
            if d > deepest {
                deepest = d;
            }
            i = i + 1;
        }
        assert(self.children@.subrange(0, i as int) =~= self.children@);
        deepest.saturating_add(1)
    }

    /// Total samples of the direct children.
    pub fn children_value_sum(&self) -> (r: u64)
        requires
            value_sum(self.children@) <= u64::MAX,
        ensures
            r == value_sum(self.children@),
    {
        let mut total: u64 = 0;
        let mut i: usize = 0;
        while i < self.children.len()
            invariant
                value_sum(self.children@) <= u64::MAX,
                i <= self.children@.len(),
                total == value_sum(self.children@.subrange(0, i as int)),
            decreases self.children@.len() - i,
        {
            proof {
                lemma_value_sum_step(self.children@, i as int);
                lemma_value_sum_mono(self.children@, i as int + 1);
            }
            total = total + self.children[i].value;
            i = i + 1;
        }
        assert(self.children@.subrange(0, i as int) =~= self.children@);
        total
    }

    pub fn is_leaf(&self) -> (r: bool)
        ensures
            r == (self.children@.len() == 0),
    {
        self.children.len() == 0
    }
}

/// Sum of the samples of the nodes in `ch`.
pub open spec fn value_sum(ch: Seq<FlameNode>) -> nat
    decreases ch.len(),
{
    if ch.len() == 0 { 0 } else { value_sum(ch.drop_last()) + ch.last().value as nat }
}

pub proof fn lemma_value_sum_step(ch: Seq<FlameNode>, i: int)
    requires
        0 <= i < ch.len(),
    ensures
        value_sum(ch.subrange(0, i + 1)) == value_sum(ch.subrange(0, i)) + ch[i].value,
{
    assert(ch.subrange(0, i + 1).drop_last() =~= ch.subrange(0, i));
}

pub proof fn lemma_value_sum_mono(ch: Seq<FlameNode>, i: int)
    requires
        0 <= i <= ch.len(),
    ensures
        value_sum(ch.subrange(0, i)) <= value_sum(ch),
    decreases ch.len() - i,
{
    if i < ch.len() {
        lemma_value_sum_step(ch, i);
        lemma_value_sum_mono(ch, i + 1);
    } else {
        assert(ch.subrange(0, i) =~= ch);
    }
}

/// With threshold 0 a node is kept exactly when it exists.
pub proof fn lemma_kept_zero(node: FlameNode, q: Seq<Seq<char>>)
    ensures
        kept(node, q, 0) == has_path(node, q),
    decreases q.len(),
{
    if q.len() > 0 {
        let k = child_pos(node.children@, q[0]);
        if 0 <= k < node.children@.len() {
            lemma_kept_zero(node.children@[k], q.drop_first());
        }
    }
}

/// No node, no samples.
pub proof fn lemma_no_path_no_value(node: FlameNode, q: Seq<Seq<char>>)
    requires
        !has_path(node, q),
    ensures
        value_at(node, q) == 0,
    decreases q.len(),
{
    if q.len() > 0 {
        let k = child_pos(node.children@, q[0]);
        if 0 <= k < node.children@.len() {
            lemma_no_path_no_value(node.children@[k], q.drop_first());
        }
    }
}

/// A leaf of the tree: its path from the root and its samples.
pub type LeafView = (Seq<Seq<char>>, u64);

/// `p` put in front of every leaf path.
pub open spec fn prefix_all(p: Seq<Seq<char>>, ls: Seq<LeafView>) -> Seq<LeafView> {
    ls.map_values(|e: LeafView| (p + e.0, e.1))
}

/// The leaves holding samples, paths relative to `node`, in child order.
pub open spec fn leaves_spec(node: FlameNode) -> Seq<LeafView>
    decreases node, 1nat,
{
    if node.children@.len() == 0 {
        if node.value > 0 { seq![(Seq::<Seq<char>>::empty(), node.value)] } else { Seq::empty() }
    } else {
        leaves_seq(node.children@)
    }
}

/// The leaves below the trees `ch`, each path starting with its tree's name.
pub open spec fn leaves_seq(ch: Seq<FlameNode>) -> Seq<LeafView>
    decreases ch, 0nat,
{
    if ch.len() == 0 {
        Seq::empty()
    } else {
        leaves_seq(ch.subrange(0, ch.len() - 1)) + prefix_all(seq![ch[ch.len() - 1].name@], leaves_spec(ch[ch.len() - 1]))
    }
}

/// The view of one computed leaf.
pub open spec fn leaf_view(e: (Vec<String>, u64)) -> LeafView {
    (path_view(e.0@), e.1)
}

pub open spec fn leaf_views(s: Seq<(Vec<String>, u64)>) -> Seq<LeafView> {
    s.map_values(|e: (Vec<String>, u64)| leaf_view(e))
}

fn copy_strings(v: &Vec<String>) -> (r: Vec<String>)
    ensures
        r@ == v@,
{
    let mut out: Vec<String> = Vec::new();
    let mut i: usize = 0;
    while i < v.len()
        invariant
            i <= v@.len(),
            out@ == v@.subrange(0, i as int),
        decreases v@.len() - i,
    {
        out.push(copy_string(&v[i]));
        i = i + 1;
        assert(out@ =~= v@.subrange(0, i as int));
    }
    assert(out@ =~= v@);
    out
}

/// Appends the leaves below `node`, their paths prefixed with `path`.
fn collect_leaves(node: &FlameNode, path: &Vec<String>, out: &mut Vec<(Vec<String>, u64)>)
    ensures
        leaf_views(final(out)@) == leaf_views(old(out)@) + prefix_all(path_view(path@), leaves_spec(*node)),
    decreases node,
{
    if node.children.len() == 0 {
        if node.value > 0 {
            let ghost before = out@;
            out.push((copy_strings(path), node.value));
            proof {
                assert(path_view(path@) + Seq::<Seq<char>>::empty() =~= path_view(path@));
                assert(leaf_views(out@) =~= leaf_views(before) + prefix_all(path_view(path@), leaves_spec(*node)));
            }
        } else {
            assert(leaf_views(out@) =~= leaf_views(out@) + prefix_all(path_view(path@), leaves_spec(*node)));
        }
        return;
    }
    let ghost start = leaf_views(out@);
    let mut i: usize = 0;
    assert(leaves_seq(node.children@.subrange(0, 0)) =~= Seq::<LeafView>::empty());
    assert(leaf_views(out@) =~= start + prefix_all(path_view(path@), leaves_seq(node.children@.subrange(0, 0))));
    while i < node.children.len()
        invariant
            i <= node.children@.len(),
            leaf_views(out@) == start + prefix_all(path_view(path@), leaves_seq(node.children@.subrange(0, i as int))),
        decreases node.children@.len() - i,
    {
        let c = &node.children[i];
        let mut p = copy_strings(path);
        p.push(copy_string(&c.name));
        collect_leaves(c, &p, out);
        proof {
            let sub = node.children@.subrange(0, i + 1);
            assert(sub.subrange(0, i as int) =~= node.children@.subrange(0, i as int));
            assert(sub[i as int] == *c);
            assert(path_view(p@) =~= path_view(path@) + seq![c.name@]);
            let a = prefix_all(path_view(path@), leaves_seq(node.children@.subrange(0, i as int)));
            let b = prefix_all(path_view(p@), leaves_spec(*c));
            assert(prefix_all(path_view(path@), leaves_seq(sub)) =~= a + b) by {
                assert(leaves_seq(sub) == leaves_seq(node.children@.subrange(0, i as int)) + prefix_all(seq![c.name@], leaves_spec(*c)));
                assert forall|k: int| 0 <= k < b.len() implies
                    prefix_all(path_view(path@), prefix_all(seq![c.name@], leaves_spec(*c)))[k] == b[k] by {
                    assert(path_view(path@) + (seq![c.name@] + leaves_spec(*c)[k].0) =~= path_view(p@) + leaves_spec(*c)[k].0);
                }
            }
        }
        i = i + 1;
    }
    assert(node.children@.subrange(0, i as int) =~= node.children@);
}

/// `prefix` without one leading `delim`, if it starts with one.
pub open spec fn strip_delim(prefix: Seq<char>, delim: Seq<char>) -> Seq<char> {
    if starts_with(prefix, delim) { prefix.subrange(delim.len() as int, prefix.len() as int) } else { prefix }
}

/// The path of a child: its name, after the parent's path and `delim` when
/// the parent's path is not empty.
pub open spec fn extend_path(prefix: Seq<char>, delim: Seq<char>, name: Seq<char>) -> Seq<char> {
    if prefix.len() == 0 { name } else { prefix + delim + name }
}

/// One folded line: the path, a space and the sample count.
pub open spec fn folded_line(prefix: Seq<char>, delim: Seq<char>, value: u64) -> Seq<char> {
    strip_delim(prefix, delim).push(' ') + dec_seq(value as nat)
}

/// The folded lines of the tree below `node`, reached by the path `prefix`:
/// a line for every node with samples and a nonempty path, in child order.
pub open spec fn folded_node(node: FlameNode, prefix: Seq<char>, delim: Seq<char>) -> Seq<Seq<char>>
    decreases node, 1nat,
{
    (if node.value > 0 && prefix.len() > 0 { seq![folded_line(prefix, delim, node.value)] } else { Seq::empty() })
        + folded_children(node.children@, prefix, delim)
}

pub open spec fn folded_children(ch: Seq<FlameNode>, prefix: Seq<char>, delim: Seq<char>) -> Seq<Seq<char>>
    decreases ch, 0nat,
{
    if ch.len() == 0 {
        Seq::empty()
    } else {
        folded_children(ch.subrange(0, ch.len() - 1), prefix, delim)
            + folded_node(ch[ch.len() - 1], extend_path(prefix, delim, ch[ch.len() - 1].name@), delim)
    }
}

/// Appends the folded lines of the tree below `node`.
fn build_folded_lines(node: &FlameNode, prefix: &String, delim: &str, lines: &mut Vec<String>)
    ensures
        views(final(lines)@) == views(old(lines)@) + folded_node(*node, prefix@, delim@),
    decreases node,
{
    let ghost start = views(lines@);
    if node.value > 0 && !prefix.as_str().is_empty() {
        let p = chars_of(prefix.as_str());
        let d = chars_of(delim);
        let from: usize = if occurs_at_exec(&p, &d, 0) { d.len() } else { 0 };
        let mut line = string_of_chars(&p, from, p.len());
        push_char(&mut line, ' ');
        write_dec(&mut line, node.value);
        proof {
            assert(p@.subrange(0, p@.len() as int) =~= p@);
        }
        lines.push(line);
    }
    let ghost own = if node.value > 0 && prefix@.len() > 0 { seq![folded_line(prefix@, delim@, node.value)] } else { Seq::<Seq<char>>::empty() };
    assert(views(lines@) =~= start + own);
    let mut i: usize = 0;
    assert(folded_children(node.children@.subrange(0, 0), prefix@, delim@) =~= Seq::<Seq<char>>::empty());
    while i < node.children.len()
        invariant
            i <= node.children@.len(),
            views(lines@) == start + own + folded_children(node.children@.subrange(0, i as int), prefix@, delim@),
        decreases node.children@.len() - i,
    {
        let c = &node.children[i];
        let new_prefix = if prefix.as_str().is_empty() {
            copy_string(&c.name)
        } else {
            let mut np = copy_string(prefix);
            push_str(&mut np, delim);
            push_str(&mut np, c.name.as_str());
            np
        };
        proof {
            assert(new_prefix@ == extend_path(prefix@, delim@, c.name@));
        }
        build_folded_lines(c, &new_prefix, delim, lines);
        proof {
            let sub = node.children@.subrange(0, i + 1);
            assert(sub.subrange(0, i as int) =~= node.children@.subrange(0, i as int));
            assert(sub[i as int] == *c);
        }
        i = i + 1;
    }
    assert(node.children@.subrange(0, i as int) =~= node.children@);
}

/// The folded text of a tree: its folded lines sorted and joined by newlines.
pub open spec fn is_folded_text(text: Seq<char>, node: FlameNode, delim: Seq<char>) -> bool {
    exists|sorted: Seq<Seq<char>>|
        lex_sorted(sorted) && #[trigger] sorted.to_multiset() == folded_node(node, Seq::empty(), delim).to_multiset()
            && text == join_seq(sorted, '\n')
}

fn export_folded_text(root: &FlameNode, delim: &str) -> (r: String)
    ensures
        is_folded_text(r@, *root, delim@),
{
    let mut lines: Vec<String> = Vec::new();
    let empty = String::new();
    build_folded_lines(root, &empty, delim, &mut lines);
    assert(views(lines@) =~= folded_node(*root, Seq::empty(), delim@));
    let sorted = sort_strings(lines);
    let r = crate::text::join_strings(&sorted, '\n');
    assert(views(sorted@) == sorted@.map_values(|p: String| p@));
    r
}

/// The sample count of one line of folded text: the number after the last
/// space of the trimmed line, or 0 when the line is blank, has no space or
/// its count does not parse.
pub open spec fn folded_line_count(line: Seq<char>) -> nat {
    let t = trim_seq(line);
    let k = last_index_of(t, ' ');
    if t.len() == 0 || k < 0 {
        0
    } else {
        match parse_u64_spec(t.subrange(k + 1, t.len() as int)) {
            Some(c) => c as nat,
            None => 0,
        }
    }
}

/// The call path of one line of folded text: the part before the last space,
/// split at `;`.
pub open spec fn folded_line_path(line: Seq<char>) -> Seq<Seq<char>> {
    let t = trim_seq(line);
    split_seq(t.subrange(0, last_index_of(t, ' ')), ';')
}

/// Total sample count of folded lines.
pub open spec fn folded_total(lines: Seq<Seq<char>>) -> nat
    decreases lines.len(),
{
    if lines.len() == 0 { 0 } else { folded_total(lines.drop_last()) + folded_line_count(lines.last()) }
}

/// Samples the folded lines put at the path `q`: the counts of the lines
/// whose path starts with `q`.
pub open spec fn folded_value(lines: Seq<Seq<char>>, q: Seq<Seq<char>>) -> int
    decreases lines.len(),
{
    if lines.len() == 0 {
        0
    } else {
        folded_value(lines.drop_last(), q)
            + if is_prefix(q, folded_line_path(lines.last())) { folded_line_count(lines.last()) as int } else { 0 }
    }
}

/// The lines of a folded text.
pub open spec fn folded_lines(text: Seq<char>) -> Seq<Seq<char>> {
    split_seq(text, '\n')
}

pub proof fn lemma_folded_total_prefix(lines: Seq<Seq<char>>, k: int)
    requires
        0 <= k <= lines.len(),
    ensures
        folded_total(lines.subrange(0, k)) <= folded_total(lines),
    decreases lines.len() - k,
{
    if k < lines.len() {
        lemma_folded_total_prefix(lines, k + 1);
        assert(lines.subrange(0, k + 1).drop_last() =~= lines.subrange(0, k));
    } else {
        assert(lines.subrange(0, k) =~= lines);
    }
}

/// Adds one folded line (`v[from..to]`) to the tree.
fn add_folded_line(v: &Vec<char>, from: usize, to: usize, root: &mut FlameNode, total: &mut u64)
    requires
        from <= to <= v@.len(),
        old(root).wf(),
        old(root).value == *old(total),
        *old(total) + folded_line_count(v@.subrange(from as int, to as int)) <= u64::MAX,
    ensures
        final(root).wf(),
        final(root).name == old(root).name,
        final(root).value == *final(total),
        *final(total) == *old(total) + folded_line_count(v@.subrange(from as int, to as int)),
        forall|q: Seq<Seq<char>>| #[trigger] value_at(*final(root), q) == value_at(*old(root), q)
            + if is_prefix(q, folded_line_path(v@.subrange(from as int, to as int))) {
                folded_line_count(v@.subrange(from as int, to as int)) as int
            } else {
                0
            },
{
    let ghost line = v@.subrange(from as int, to as int);
    let (a, b) = trim_bounds(v, from, to);
    let ghost t = v@.subrange(a as int, b as int);
    if a == b {
        return;
    }
    let k = match last_index_in(v, a, b, ' ') {
        Some(k) => k,
        None => { return; },
    };
    proof { crate::types::lemma_last_index_of(t, ' '); }
    let count = match parse_u64_chars(v, a + k + 1, b) {
        Some(c) => c,
        None => {
            assert(t.subrange(k + 1, t.len() as int) =~= v@.subrange(a + k + 1, b as int));
            return;
        },
    };
    assert(t.subrange(k + 1, t.len() as int) =~= v@.subrange(a + k + 1, b as int));
    if count > 0 {
        let names = split_chars(v, a, a + k, ';');
        assert(t.subrange(0, k as int) =~= v@.subrange(a as int, a + k));
        assert(path_view(names@) == views(names@));
        root.insert(&names, count);
        *total = *total + count;
    }
}

/// Builds the tree of a folded text, line by line.
fn parse_folded(text: &str) -> (r: (FlameNode, u64))
    requires
        folded_total(folded_lines(text@)) <= u64::MAX,
    ensures
        r.0.wf(),
        r.0.name@ == "root"@,
        r.0.value == r.1,
        r.1 == folded_total(folded_lines(text@)),
        forall|q: Seq<Seq<char>>| #[trigger] value_at(r.0, q) == folded_value(folded_lines(text@), q),
{
    let v = chars_of(text);
    let n = v.len();
    let mut root = FlameNode::new("root");
    let mut total: u64 = 0;
    let mut start: usize = 0;
    let mut i: usize = 0;
    proof {
        assert(v@.subrange(0, 0) =~= Seq::<char>::empty());
        assert(split_seq(v@.subrange(0, 0), '\n') =~= seq![Seq::<char>::empty()]);
        assert(v@.subrange(start as int, 0) =~= Seq::<char>::empty());
        assert forall|q: Seq<Seq<char>>| #[trigger] value_at(root, q) == folded_value(Seq::<Seq<char>>::empty(), q) by {
            lemma_fresh_values(root, q);
        }
    }
    while i < n
        invariant
            n == v@.len(),
            v@ == text@,
            start <= i <= n,
            folded_total(folded_lines(text@)) <= u64::MAX,
            root.wf(),
            root.name@ == "root"@,
            root.value == total,
            split_seq(v@.subrange(0, i as int), '\n') == split_seq(v@.subrange(0, start as int), '\n').drop_last().push(v@.subrange(start as int, i as int)),
            start == 0 || v@[start - 1] == '\n',
            total == folded_total(split_seq(v@.subrange(0, start as int), '\n').drop_last()),
            forall|q: Seq<Seq<char>>| #[trigger] value_at(root, q) == folded_value(split_seq(v@.subrange(0, start as int), '\n').drop_last(), q),
            split_seq(v@.subrange(0, start as int), '\n').len() >= 1,
            split_seq(v@.subrange(0, start as int), '\n').last() == Seq::<char>::empty(),
        decreases n - i,
    {
        let ghost done = split_seq(v@.subrange(0, start as int), '\n').drop_last();
        proof {
            assert(v@.subrange(0, i + 1).drop_last() =~= v@.subrange(0, i as int));
            lemma_split_nonempty(v@.subrange(0, i as int), '\n');
        }
        if v[i] == '\n' {
            let ghost cur = v@.subrange(start as int, i as int);
            let ghost done2 = done.push(cur);
            proof {
                // the lines so far are a prefix of all lines
                assert(split_seq(v@.subrange(0, i + 1), '\n') == done2.push(Seq::<char>::empty()));
                lemma_split_prefix(v@, '\n', i + 1, n as int);
                assert(v@.subrange(0, n as int) =~= v@);
                let all = folded_lines(text@);
                assert(all.subrange(0, done2.len() as int) =~= done2) by {
                    assert forall|k: int| 0 <= k < done2.len() implies all[k] == done2[k] by {
                        assert(split_seq(v@.subrange(0, n as int), '\n')[k] == split_seq(v@.subrange(0, i + 1), '\n')[k]);
                    }
                }
                lemma_folded_total_prefix(all, done2.len() as int);
                assert(done2.drop_last() =~= done);
            }
            let ghost old_root = root;
            add_folded_line(&v, start, i, &mut root, &mut total);
            proof {
                assert forall|q: Seq<Seq<char>>| #[trigger] value_at(root, q) == folded_value(done2, q) by {
                    assert(value_at(old_root, q) == folded_value(done, q));
                }
                assert(split_seq(v@.subrange(0, i + 1), '\n').drop_last() =~= done2);
                assert(v@.subrange(i + 1, i + 1) =~= Seq::<char>::empty());
                assert(split_seq(v@.subrange(0, i + 1), '\n').drop_last().push(v@.subrange(i + 1, i + 1))
                    =~= split_seq(v@.subrange(0, i + 1), '\n'));
            }
            start = i + 1;
        } else {
            proof {
                assert(v@.subrange(start as int, i + 1) =~= v@.subrange(start as int, i as int).push(v@[i as int]));
                assert(split_seq(v@.subrange(0, i + 1), '\n') =~= done.push(v@.subrange(start as int, i + 1)));
            }
        }
        i = i + 1;
    }
    let ghost done = split_seq(v@.subrange(0, start as int), '\n').drop_last();
    let ghost cur = v@.subrange(start as int, n as int);
    proof {
        assert(v@.subrange(0, n as int) =~= v@);
        let all = folded_lines(text@);
        assert(all == done.push(cur));
        assert(all.drop_last() =~= done);
    }
    let ghost old_root = root;
    add_folded_line(&v, start, n, &mut root, &mut total);
    proof {
        assert forall|q: Seq<Seq<char>>| #[trigger] value_at(root, q) == folded_value(folded_lines(text@), q) by {
            assert(value_at(old_root, q) == folded_value(done, q));
        }
    }
    (root, total)
}

/// The node reached from `node` by the path `q` (meaningful when
/// `has_path(node, q)`).
pub open spec fn subtree(node: FlameNode, q: Seq<Seq<char>>) -> FlameNode
    decreases q.len(),
{
    if q.len() == 0 {
        node
    } else {
        let k = child_pos(node.children@, q[0]);
        if 0 <= k < node.children@.len() { subtree(node.children@[k], q.drop_first()) } else { node }
    }
}

impl FlameNode {
    fn get_child_from(&self, path: &[String], start: usize) -> (r: Option<&FlameNode>)
        requires
            start <= path@.len(),
        ensures
            r.is_some() == has_path(*self, path_view(path@.subrange(start as int, path@.len() as int))),
            r matches Some(n) ==> *n == subtree(*self, path_view(path@.subrange(start as int, path@.len() as int))),
        decreases path@.len() - start,
    {
        let ghost p = path_view(path@.subrange(start as int, path@.len() as int));
        if start == path.len() {
            return Some(self);
        }
        proof {
            assert(p[0] == path@[start as int]@);
            assert(p.drop_first() =~= path_view(path@.subrange(start + 1, path@.len() as int)));
        }
        proof { lemma_child_pos(self.children@, path@[start as int]@); }
        match self.find_child(&path[start]) {
            Some(k) => self.children[k].get_child_from(path, start + 1),
            None => None,
        }
    }

    /// The node at `path` below this one (this node for an empty path).
    pub fn get_child(&self, path: &[String]) -> (r: Option<&FlameNode>)
        ensures
            r.is_some() == has_path(*self, path_view(path@)),
            r matches Some(n) ==> *n == subtree(*self, path_view(path@)),
    {
        assert(path@.subrange(0, path@.len() as int) =~= path@);
        self.get_child_from(path, 0)
    }
}

impl FlameNode {
    fn get_child_mut_from(&mut self, path: &[String], start: usize) -> (r: Option<&mut FlameNode>)
        requires
            start <= path@.len(),
        ensures
            r.is_some() == has_path(*old(self), path_view(path@.subrange(start as int, path@.len() as int))),
            r matches Some(n) ==> *n == subtree(*old(self), path_view(path@.subrange(start as int, path@.len() as int))),
        decreases path@.len() - start,
    {
        let ghost p = path_view(path@.subrange(start as int, path@.len() as int));
        if start == path.len() {
            return Some(self);
        }
        proof {
            assert(p[0] == path@[start as int]@);
            assert(p.drop_first() =~= path_view(path@.subrange(start + 1, path@.len() as int)));
            lemma_child_pos(self.children@, path@[start as int]@);
        }
        match self.find_child(&path[start]) {
            Some(k) => self.children[k].get_child_mut_from(path, start + 1),
            None => None,
        }
    }

    /// Mutable access to the node at `path` below this one.
    pub fn get_child_mut(&mut self, path: &[String]) -> (r: Option<&mut FlameNode>)
        ensures
            r.is_some() == has_path(*old(self), path_view(path@)),
            r matches Some(n) ==> *n == subtree(*old(self), path_view(path@)),
    {
        assert(path@.subrange(0, path@.len() as int) =~= path@);
        self.get_child_mut_from(path, 0)
    }
}

/// The node at a path holds the samples recorded for the path.
pub proof fn lemma_subtree_value(node: FlameNode, q: Seq<Seq<char>>)
    ensures
        value_at(node, q) == if has_path(node, q) { subtree(node, q).value as int } else { 0 },
    decreases q.len(),
{
    if q.len() > 0 {
        let k = child_pos(node.children@, q[0]);
        if 0 <= k < node.children@.len() {
            lemma_subtree_value(node.children@[k], q.drop_first());
        }
    }
}

/// A flame graph: the tree, the number of samples it was built from, and
/// whether its stacks run from the outermost frame.
pub struct FlameGraph {
    pub root: FlameNode,
    pub total_samples: u64,
    pub reverse_stack: bool,
}

impl FlameGraph {
    pub open spec fn wf(&self) -> bool {
        self.root.wf()
    }

    pub fn new() -> (r: Self)
        ensures
            r.wf(),
            is_fresh(r.root, "root"@),
            r.total_samples == 0,
            !r.reverse_stack,
    {
        FlameGraph { root: FlameNode::new("root"), total_samples: 0, reverse_stack: false }
    }

    /// Reads folded text: one `path count` line per stack, the path's frames
    /// separated by `;`. Blank lines, lines without a space and lines whose
    /// count does not parse or is 0 are skipped.
    pub fn from_folded(folded_data: &str) -> (r: Result<FlameGraph>)
        requires
            folded_total(folded_lines(folded_data@)) <= u64::MAX,
        ensures
            r matches Ok(g) && g.wf() && g.root.name@ == "root"@ && !g.reverse_stack
                && g.total_samples == folded_total(folded_lines(folded_data@))
                && g.root.value == g.total_samples
                && forall|q: Seq<Seq<char>>| #[trigger] value_at(g.root, q) == folded_value(folded_lines(folded_data@), q),
    {
        let (root, total) = parse_folded(folded_data);
        Ok(FlameGraph { root, total_samples: total, reverse_stack: false })
    }

    /// An exact copy.
    pub fn copy(&self) -> (r: FlameGraph)
        requires
            self.wf(),
        ensures
            r.wf(),
            r.total_samples == self.total_samples,
            r.reverse_stack == self.reverse_stack,
            r.root.name == self.root.name,
            r.root.value == self.root.value,
            forall|q: Seq<Seq<char>>| #[trigger] value_at(r.root, q) == value_at(self.root, q),
            forall|q: Seq<Seq<char>>| #[trigger] has_path(r.root, q) == has_path(self.root, q),
    {
        FlameGraph { root: self.root.deep_copy(), total_samples: self.total_samples, reverse_stack: self.reverse_stack }
    }

    pub fn get_node(&self, path: &[String]) -> (r: Option<&FlameNode>)
        ensures
            r.is_some() == has_path(self.root, path_view(path@)),
            r matches Some(n) ==> *n == subtree(self.root, path_view(path@)),
    {
        self.root.get_child(path)
    }

    /// Samples at the node of `path`, 0 when there is none.
    pub fn get_value(&self, path: &[String]) -> (r: u64)
        ensures
            r == value_at(self.root, path_view(path@)),
    {
        proof { lemma_subtree_value(self.root, path_view(path@)); }
        match self.get_node(path) {
            Some(n) => n.value,
            None => 0,
        }
    }

    /// The leaves with samples, as (path, samples).
    pub fn get_leaf_nodes(&self) -> (r: Vec<(Vec<String>, u64)>)
        ensures
            leaf_views(r@) == leaves_spec(self.root),
    {
        let mut out: Vec<(Vec<String>, u64)> = Vec::new();
        let path: Vec<String> = Vec::new();
        collect_leaves(&self.root, &path, &mut out);
        assert(path_view(path@) =~= Seq::<Seq<char>>::empty());
        assert forall|k: int| 0 <= k < leaves_spec(self.root).len() implies
            prefix_all(Seq::<Seq<char>>::empty(), leaves_spec(self.root))[k] == leaves_spec(self.root)[k] by {
            assert(Seq::<Seq<char>>::empty() + leaves_spec(self.root)[k].0 =~= leaves_spec(self.root)[k].0);
        }
        assert(leaf_views(out@) =~= leaves_spec(self.root));
        out
    }

    /// The `limit` leaves with the most samples, most first.
    pub fn get_hottest_paths(&self, limit: usize) -> (r: Vec<(Vec<String>, u64)>)
        ensures
            exists|idx: Seq<usize>| #[trigger] crate::rank::is_top_selection(leaf_counts(leaves_spec(self.root)), limit as nat, idx)
                && leaf_views(r@) == idx.map_values(|i: usize| leaves_spec(self.root)[i as int]),
    {
        let leaves = self.get_leaf_nodes();
        let mut keys: Vec<u64> = Vec::new();
        let mut i: usize = 0;
        while i < leaves.len()
            invariant
                i <= leaves@.len(),
                keys@.len() == i,
                forall|j: int| 0 <= j < i ==> keys@[j] == leaves@[j].1,
            decreases leaves@.len() - i,
        {
            keys.push(leaves[i].1);
            i = i + 1;
        }
        assert(keys@ =~= leaf_counts(leaves_spec(self.root))) by {
            assert forall|j: int| 0 <= j < keys@.len() implies keys@[j] == leaf_counts(leaves_spec(self.root))[j] by {
                assert(leaf_views(leaves@)[j] == leaf_view(leaves@[j]));
            }
        }
        let idx = crate::rank::top_indices(&keys, limit);
        let mut out: Vec<(Vec<String>, u64)> = Vec::new();
        let mut k: usize = 0;
        while k < idx.len()
            invariant
                k <= idx@.len(),
                crate::rank::is_top_selection(keys@, limit as nat, idx@),
                keys@.len() == leaves@.len(),
                out@.len() == k,
                leaf_views(leaves@) == leaves_spec(self.root),
                leaf_views(out@) == idx@.subrange(0, k as int).map_values(|i: usize| leaves_spec(self.root)[i as int]),
            decreases idx@.len() - k,
        {
            let e = &leaves[idx[k]];
            let ghost j = idx@[k as int] as int;
            let ghost before = out@;
            out.push((copy_strings(&e.0), e.1));
            proof {
                assert(leaf_views(leaves@)[j] == leaf_view(leaves@[j]));
                assert(leaf_view(out@[k as int]) == leaf_view(leaves@[j]));
                assert(leaf_views(out@) =~= leaf_views(before).push(leaves_spec(self.root)[j]));
            }
            k = k + 1;
            assert(leaf_views(out@) =~= idx@.subrange(0, k as int).map_values(|i: usize| leaves_spec(self.root)[i as int]));
        }
        assert(idx@.subrange(0, k as int) =~= idx@);
        out
    }

    /// Adds the samples of `other` into this graph.
    pub fn merge(&mut self, other: &FlameGraph)
        requires
            old(self).wf(),
            other.wf(),
            old(self).root.value + other.root.value <= u64::MAX,
            old(self).total_samples + other.total_samples <= u64::MAX,
        ensures
            final(self).wf(),
            final(self).total_samples == old(self).total_samples + other.total_samples,
            final(self).reverse_stack == old(self).reverse_stack,
            final(self).root.name == old(self).root.name,
            forall|q: Seq<Seq<char>>| #[trigger] value_at(final(self).root, q) == value_at(old(self).root, q) + value_at(other.root, q),
            forall|q: Seq<Seq<char>>| #[trigger] has_path(final(self).root, q) == (has_path(old(self).root, q) || has_path(other.root, q)),
    {
        self.root.merge(&other.root);
        self.total_samples = self.total_samples + other.total_samples;
    }

    /// Drops the nodes holding fewer than `min_samples` samples.
    pub fn filter_min_samples(&mut self, min_samples: u64)
        requires
            old(self).wf(),
        ensures
            final(self).wf(),
            final(self).total_samples == old(self).total_samples,
            final(self).reverse_stack == old(self).reverse_stack,
            final(self).root.name == old(self).root.name,
            forall|q: Seq<Seq<char>>| #[trigger] value_at(final(self).root, q)
                == if kept(old(self).root, q, min_samples) { value_at(old(self).root, q) } else { 0 },
            forall|q: Seq<Seq<char>>| #[trigger] has_path(final(self).root, q) == (q.len() == 0 || kept(old(self).root, q, min_samples)),
    {
        self.root = self.root.filter_min_samples(min_samples);
    }

    /// Number of nodes (saturating at `usize::MAX`).
    pub fn node_count(&self) -> (r: usize)
        ensures
            r == cap(count_spec(self.root)),
    {
        self.root.count_nodes()
    }

    /// Number of levels (saturating at `usize::MAX`).
    pub fn depth(&self) -> (r: usize)
        ensures
            r == cap(depth_spec(self.root)),
    {
        self.root.depth()
    }

    /// The folded text of the graph, with `;` between frames.
    pub fn to_folded_format(&self) -> (r: String)
        ensures
            is_folded_text(r@, self.root, ";"@),
    {
        export_folded_text(&self.root, ";")
    }
}

/// The sample counts of leaves.
pub open spec fn leaf_counts(ls: Seq<LeafView>) -> Seq<u64> {
    ls.map_values(|e: LeafView| e.1)
}

/// How many of the stacks have frames.
pub open spec fn nonempty_stacks(stacks: Seq<CollectedStack>) -> nat
    decreases stacks.len(),
{
    if stacks.len() == 0 {
        0
    } else {
        nonempty_stacks(stacks.drop_last()) + if stacks.last().frames@.len() > 0 { 1nat } else { 0 }
    }
}

/// How many of the stacks have frames and pass through `q`, their names
/// taken in the order that `reverse` gives.
pub open spec fn stacks_through(stacks: Seq<CollectedStack>, q: Seq<Seq<char>>, reverse: bool) -> nat
    decreases stacks.len(),
{
    if stacks.len() == 0 {
        0
    } else {
        stacks_through(stacks.drop_last(), q, reverse)
            + if stacks.last().frames@.len() > 0 && is_prefix(q, stack_names(stacks.last().frames@, reverse)) { 1nat } else { 0 }
    }
}

/// The frame names of a stack, innermost first, or outermost first when
/// `reverse`.
pub open spec fn stack_names(frames: Seq<ResolvedFrame>, reverse: bool) -> Seq<Seq<char>> {
    let names = frames.map_values(|f: ResolvedFrame| display_name_spec(f));
    if reverse { names.reverse() } else { names }
}

/// Builds a flame graph from collected stacks.
pub struct FlameGraphBuilder {
    root: FlameNode,
    total_samples: u64,
    reverse_stack: bool,
    min_samples: u64,
    delimiter: String,
}

impl FlameGraphBuilder {
    /// The root holds one sample per stack added.
    pub closed spec fn wf(&self) -> bool {
        self.root.wf() && self.root.value == self.total_samples && self.root.name@ == "root"@
    }

    pub closed spec fn root_spec(&self) -> FlameNode {
        self.root
    }

    /// The root of a builder holds exactly its sample count.
    pub proof fn lemma_root_is_sample_count(&self)
        requires
            self.wf(),
        ensures
            self.root_spec().value == self.samples(),
    {
    }

    pub closed spec fn samples(&self) -> u64 {
        self.total_samples
    }

    pub closed spec fn reversed(&self) -> bool {
        self.reverse_stack
    }

    pub closed spec fn min_samples_spec(&self) -> u64 {
        self.min_samples
    }

    pub closed spec fn delimiter_spec(&self) -> Seq<char> {
        self.delimiter@
    }

    pub fn new() -> (r: Self)
        ensures
            r.wf(),
            r.samples() == 0,
            is_fresh(r.root_spec(), "root"@),
            r.root_spec().value == r.samples(),
            !r.reversed(),
            r.min_samples_spec() == 1,
            r.delimiter_spec() == ";"@,
    {
        FlameGraphBuilder { root: FlameNode::new("root"), total_samples: 0, reverse_stack: false, min_samples: 1, delimiter: owned(";") }
    }

    pub fn with_options(reverse_stack: bool, min_samples: u64) -> (r: Self)
        ensures
            r.wf(),
            r.samples() == 0,
            is_fresh(r.root_spec(), "root"@),
            r.root_spec().value == r.samples(),
            r.reversed() == reverse_stack,
            r.min_samples_spec() == min_samples,
            r.delimiter_spec() == ";"@,
    {
        FlameGraphBuilder { root: FlameNode::new("root"), total_samples: 0, reverse_stack, min_samples, delimiter: owned(";") }
    }

    pub fn with_reverse_stack(self, reverse: bool) -> (r: Self)
        requires
            self.wf(),
        ensures
            r.wf(),
            r.root_spec() == self.root_spec(),
            r.samples() == self.samples(),
            r.reversed() == reverse,
            r.min_samples_spec() == self.min_samples_spec(),
            r.delimiter_spec() == self.delimiter_spec(),
    {
        FlameGraphBuilder { reverse_stack: reverse, ..self }
    }

    pub fn with_min_samples(self, min_samples: u64) -> (r: Self)
        requires
            self.wf(),
        ensures
            r.wf(),
            r.root_spec() == self.root_spec(),
            r.samples() == self.samples(),
            r.reversed() == self.reversed(),
            r.min_samples_spec() == min_samples,
            r.delimiter_spec() == self.delimiter_spec(),
    {
        FlameGraphBuilder { min_samples, ..self }
    }

    pub fn with_delimiter(self, delimiter: &str) -> (r: Self)
        requires
            self.wf(),
        ensures
            r.wf(),
            r.root_spec() == self.root_spec(),
            r.samples() == self.samples(),
            r.reversed() == self.reversed(),
            r.min_samples_spec() == self.min_samples_spec(),
            r.delimiter_spec() == delimiter@,
    {
        FlameGraphBuilder { delimiter: owned(delimiter), ..self }
    }

    /// Counts one sample along the stack's frame names; an empty stack is
    /// ignored.
    pub fn add_stack(&mut self, stack: &CollectedStack)
        requires
            old(self).wf(),
            old(self).samples() < u64::MAX,
        ensures
            final(self).wf(),
            final(self).reversed() == old(self).reversed(),
            final(self).min_samples_spec() == old(self).min_samples_spec(),
            final(self).delimiter_spec() == old(self).delimiter_spec(),
            stack.frames@.len() == 0 ==> final(self).samples() == old(self).samples(),
            stack.frames@.len() > 0 ==> final(self).samples() == old(self).samples() + 1,
            final(self).root_spec().value == final(self).samples(),
            forall|q: Seq<Seq<char>>| #[trigger] value_at(final(self).root_spec(), q) == value_at(old(self).root_spec(), q)
                + if stack.frames@.len() > 0 && is_prefix(q, stack_names(stack.frames@, old(self).reversed())) { 1int } else { 0 },
            forall|q: Seq<Seq<char>>| #[trigger] has_path(final(self).root_spec(), q) == (has_path(old(self).root_spec(), q)
                || (stack.frames@.len() > 0 && is_prefix(q, stack_names(stack.frames@, old(self).reversed())))),
            stack.frames@.len() == 0 ==> *final(self) == *old(self),
    {
        if stack.frames.len() == 0 {
            return;
        }
        let mut names: Vec<String> = Vec::new();
        let n = stack.frames.len();
        let mut i: usize = 0;
        while i < n
            invariant
                n == stack.frames@.len(),
                i <= n,
                names@.len() == i,
                forall|j: int| 0 <= j < i ==> #[trigger] names@[j]@ == if self.reverse_stack {
                    display_name_spec(stack.frames@[n - 1 - j])
                } else {
                    display_name_spec(stack.frames@[j])
                },
            decreases n - i,
        {
            let f = if self.reverse_stack { &stack.frames[n - 1 - i] } else { &stack.frames[i] };
            names.push(f.display_name());
            i = i + 1;
        }
        assert(path_view(names@) =~= stack_names(stack.frames@, self.reverse_stack));
        self.root.insert(&names, 1);
        self.total_samples = self.total_samples + 1;
    }

    /// Adds every stack in turn.
    pub fn add_stacks(&mut self, stacks: &[CollectedStack])
        requires
            old(self).wf(),
            old(self).samples() + stacks@.len() <= u64::MAX,
        ensures
            final(self).wf(),
            final(self).samples() <= old(self).samples() + stacks@.len(),
            final(self).samples() == old(self).samples() + nonempty_stacks(stacks@),
            final(self).root_spec().value == final(self).samples(),
            forall|q: Seq<Seq<char>>| #[trigger] value_at(final(self).root_spec(), q)
                == value_at(old(self).root_spec(), q) + stacks_through(stacks@, q, old(self).reversed()),
            forall|q: Seq<Seq<char>>| #[trigger] has_path(final(self).root_spec(), q)
                == (has_path(old(self).root_spec(), q) || stacks_through(stacks@, q, old(self).reversed()) > 0),
            final(self).reversed() == old(self).reversed(),
            final(self).min_samples_spec() == old(self).min_samples_spec(),
            final(self).delimiter_spec() == old(self).delimiter_spec(),
    {
        let mut i: usize = 0;
        while i < stacks.len()
            invariant
                i <= stacks@.len(),
                self.wf(),
                self.samples() <= old(self).samples() + i,
                nonempty_stacks(stacks@.take(i as int)) <= i,
                self.samples() == old(self).samples() + nonempty_stacks(stacks@.take(i as int)),
                forall|q: Seq<Seq<char>>| #[trigger] value_at(self.root_spec(), q)
                    == value_at(old(self).root_spec(), q) + stacks_through(stacks@.take(i as int), q, old(self).reversed()),
                forall|q: Seq<Seq<char>>| #[trigger] has_path(self.root_spec(), q)
                    == (has_path(old(self).root_spec(), q) || stacks_through(stacks@.take(i as int), q, old(self).reversed()) > 0),
                old(self).samples() + stacks@.len() <= u64::MAX,
                self.reversed() == old(self).reversed(),
                self.min_samples_spec() == old(self).min_samples_spec(),
                self.delimiter_spec() == old(self).delimiter_spec(),
            decreases stacks@.len() - i,
        {
            let ghost prev = *self;
            self.add_stack(&stacks[i]);
            proof {
                let t = stacks@.take(i + 1);
                assert(t.drop_last() =~= stacks@.take(i as int));
                assert(t.last() == stacks@[i as int]);
                assert(nonempty_stacks(t) == nonempty_stacks(stacks@.take(i as int)) + if stacks@[i as int].frames@.len() > 0 { 1nat } else { 0 });
                assert forall|q: Seq<Seq<char>>| #[trigger] value_at(self.root_spec(), q)
                    == value_at(old(self).root_spec(), q) + stacks_through(t, q, old(self).reversed()) by {
                    assert(value_at(prev.root_spec(), q) == value_at(old(self).root_spec(), q) + stacks_through(stacks@.take(i as int), q, old(self).reversed()));
                }
                assert forall|q: Seq<Seq<char>>| #[trigger] has_path(self.root_spec(), q)
                    == (has_path(old(self).root_spec(), q) || stacks_through(t, q, old(self).reversed()) > 0) by {
                    assert(has_path(prev.root_spec(), q) == (has_path(old(self).root_spec(), q)
                        || stacks_through(stacks@.take(i as int), q, old(self).reversed()) > 0));
                }
            }
            i = i + 1;
        }
        assert(stacks@.take(stacks@.len() as int) =~= stacks@);
    }

    /// The flame graph, without the nodes under the sample threshold when the
    /// threshold is above 1.
    pub fn build(&self) -> (r: FlameGraph)
        requires
            self.wf(),
        ensures
            r.wf(),
            r.total_samples == self.samples(),
            r.reverse_stack == self.reversed(),
            r.root.name@ == "root"@,
            forall|q: Seq<Seq<char>>| #[trigger] value_at(r.root, q) == if self.min_samples_spec() > 1 {
                if kept(self.root_spec(), q, self.min_samples_spec()) { value_at(self.root_spec(), q) } else { 0 }
            } else {
                value_at(self.root_spec(), q)
            },
            forall|q: Seq<Seq<char>>| #[trigger] has_path(r.root, q) == if self.min_samples_spec() > 1 {
                q.len() == 0 || kept(self.root_spec(), q, self.min_samples_spec())
            } else {
                has_path(self.root_spec(), q)
            },
    {
        let root = if self.min_samples > 1 {
            self.root.filter_min_samples(self.min_samples)
        } else {
            self.root.deep_copy()
        };
        FlameGraph { root, total_samples: self.total_samples, reverse_stack: self.reverse_stack }
    }

    /// The folded text of the samples added so far, with the builder's
    /// delimiter between frames.
    pub fn export_folded(&self) -> (r: String)
        requires
            self.wf(),
        ensures
            is_folded_text(r@, self.root_spec(), self.delimiter_spec()),
    {
        export_folded_text(&self.root, self.delimiter.as_str())
    }

    pub fn total_samples(&self) -> (r: u64)
        ensures
            r == self.samples(),
    {
        self.total_samples
    }

    pub fn root(&self) -> (r: &FlameNode)
        ensures
            *r == self.root_spec(),
    {
        &self.root
    }

    /// Forgets every stack added.
    pub fn reset(&mut self)
        ensures
            final(self).wf(),
            final(self).samples() == 0,
            is_fresh(final(self).root_spec(), "root"@),
            final(self).root_spec().value == final(self).samples(),
            final(self).reversed() == old(self).reversed(),
            final(self).min_samples_spec() == old(self).min_samples_spec(),
            final(self).delimiter_spec() == old(self).delimiter_spec(),
    {
        self.root = FlameNode::new("root");
        self.total_samples = 0;
    }
}

/// The flame-graph path of plain stack frames: their `module!function`
/// names, innermost first, or outermost first when `reverse`.
pub fn build_flame_path(stack: &[StackFrame], reverse: bool) -> (r: Vec<String>)
    ensures
        views(r@) == if reverse {
            stack@.map_values(|f: StackFrame| full_function_name_spec(f)).reverse()
        } else {
            stack@.map_values(|f: StackFrame| full_function_name_spec(f))
        },
{
    let n = stack.len();
    let mut out: Vec<String> = Vec::new();
    let mut i: usize = 0;
    while i < n
        invariant
            n == stack@.len(),
            i <= n,
            out@.len() == i,
            forall|j: int| 0 <= j < i ==> #[trigger] out@[j]@ == full_function_name_spec(if reverse { stack@[n - 1 - j] } else { stack@[j] }),
        decreases n - i,
    {
        let f = if reverse { &stack[n - 1 - i] } else { &stack[i] };
        out.push(f.full_function_name());
        i = i + 1;
    }
    if reverse {
        assert(views(out@) =~= stack@.map_values(|f: StackFrame| full_function_name_spec(f)).reverse());
    } else {
        assert(views(out@) =~= stack@.map_values(|f: StackFrame| full_function_name_spec(f)));
    }
    out
}

/// Sum of the root samples of flame graphs.
pub open spec fn roots_total(gs: Seq<FlameGraph>) -> nat
    decreases gs.len(),
{
    if gs.len() == 0 { 0 } else { roots_total(gs.drop_last()) + gs.last().root.value as nat }
}

/// Sum of the sample counts of flame graphs.
pub open spec fn samples_total(gs: Seq<FlameGraph>) -> nat
    decreases gs.len(),
{
    if gs.len() == 0 { 0 } else { samples_total(gs.drop_last()) + gs.last().total_samples as nat }
}

/// Samples at `q` summed over flame graphs.
pub open spec fn values_total(gs: Seq<FlameGraph>, q: Seq<Seq<char>>) -> int
    decreases gs.len(),
{
    if gs.len() == 0 { 0 } else { values_total(gs.drop_last(), q) + value_at(gs.last().root, q) }
}

/// Some graph has a node at `q`.
pub open spec fn some_has_path(gs: Seq<FlameGraph>, q: Seq<Seq<char>>) -> bool
    decreases gs.len(),
{
    if gs.len() == 0 { false } else { some_has_path(gs.drop_last(), q) || has_path(gs.last().root, q) }
}

/// One flame graph holding the samples of all of `graphs` (an empty graph
/// for none); it keeps the first graph's root name and stack direction.
pub fn merge_flame_graphs(graphs: &[FlameGraph]) -> (r: FlameGraph)
    requires
        forall|i: int| 0 <= i < graphs@.len() ==> (#[trigger] graphs@[i]).wf(),
        roots_total(graphs@) <= u64::MAX,
        samples_total(graphs@) <= u64::MAX,
    ensures
        r.wf(),
        r.total_samples == samples_total(graphs@),
        forall|q: Seq<Seq<char>>| #[trigger] value_at(r.root, q) == values_total(graphs@, q),
        forall|q: Seq<Seq<char>>| q.len() > 0 ==> #[trigger] has_path(r.root, q) == some_has_path(graphs@, q),
        graphs@.len() == 0 ==> is_fresh(r.root, "root"@) && !r.reverse_stack,
        graphs@.len() > 0 ==> r.reverse_stack == graphs@[0].reverse_stack && r.root.name == graphs@[0].root.name,
{
    if graphs.len() == 0 {
        let r = FlameGraph::new();
        assert forall|q: Seq<Seq<char>>| #[trigger] value_at(r.root, q) == values_total(graphs@, q) by {
            lemma_fresh_values(r.root, q);
        }
        return r;
    }
    let mut merged = graphs[0].copy();
    proof {
        let first = graphs@.subrange(0, 1);
        assert(first.drop_last() =~= Seq::<FlameGraph>::empty());
        assert(first.last() == graphs@[0]);
        assert(roots_total(first.drop_last()) == 0);
        assert(samples_total(first.drop_last()) == 0);
        assert(roots_total(first) == graphs@[0].root.value);
        assert(samples_total(first) == graphs@[0].total_samples);
        assert forall|q: Seq<Seq<char>>| #[trigger] value_at(merged.root, q) == values_total(graphs@.subrange(0, 1), q) by {
            assert(values_total(first.drop_last(), q) == 0);
            assert(values_total(first, q) == value_at(graphs@[0].root, q));
        }
        assert forall|q: Seq<Seq<char>>| q.len() > 0 implies #[trigger] has_path(merged.root, q) == some_has_path(graphs@.subrange(0, 1), q) by {
            assert(!some_has_path(first.drop_last(), q));
        }
    }
    let mut i: usize = 1;
    while i < graphs.len()
        invariant
            1 <= i <= graphs@.len(),
            forall|j: int| 0 <= j < graphs@.len() ==> (#[trigger] graphs@[j]).wf(),
            roots_total(graphs@) <= u64::MAX,
            samples_total(graphs@) <= u64::MAX,
            merged.wf(),
            merged.root.value == roots_total(graphs@.subrange(0, i as int)),
            merged.total_samples == samples_total(graphs@.subrange(0, i as int)),
            merged.reverse_stack == graphs@[0].reverse_stack,
            merged.root.name == graphs@[0].root.name,
            forall|q: Seq<Seq<char>>| #[trigger] value_at(merged.root, q) == values_total(graphs@.subrange(0, i as int), q),
            forall|q: Seq<Seq<char>>| q.len() > 0 ==> #[trigger] has_path(merged.root, q) == some_has_path(graphs@.subrange(0, i as int), q),
        decreases graphs@.len() - i,
    {
        proof {
            assert(graphs@.subrange(0, i + 1).drop_last() =~= graphs@.subrange(0, i as int));
            lemma_totals_prefix(graphs@, i as int + 1);
        }
        let ghost before = merged.root;
        merged.merge(&graphs[i]);
        proof {
            assert forall|q: Seq<Seq<char>>| #[trigger] value_at(merged.root, q) == values_total(graphs@.subrange(0, i + 1), q) by {
                assert(value_at(before, q) == values_total(graphs@.subrange(0, i as int), q));
            }
            assert forall|q: Seq<Seq<char>>| q.len() > 0 implies #[trigger] has_path(merged.root, q) == some_has_path(graphs@.subrange(0, i + 1), q) by {
                assert(has_path(before, q) == some_has_path(graphs@.subrange(0, i as int), q));
            }
            assert(value_at(merged.root, Seq::empty()) == merged.root.value);
        }
        i = i + 1;
    }
    assert(graphs@.subrange(0, i as int) =~= graphs@);
    merged
}

pub proof fn lemma_totals_prefix(gs: Seq<FlameGraph>, k: int)
    requires
        0 <= k <= gs.len(),
    ensures
        roots_total(gs.subrange(0, k)) <= roots_total(gs),
        samples_total(gs.subrange(0, k)) <= samples_total(gs),
    decreases gs.len() - k,
{
    if k < gs.len() {
        lemma_totals_prefix(gs, k + 1);
        assert(gs.subrange(0, k + 1).drop_last() =~= gs.subrange(0, k));
    } else {
        assert(gs.subrange(0, k) =~= gs);
    }
}

/// The children before position `i` find a name exactly when its child sits
/// before `i`.
pub proof fn lemma_child_pos_prefix(ch: Seq<FlameNode>, i: int, name: Seq<char>)
    requires
        names_distinct(ch),
        0 <= i <= ch.len(),
    ensures
        names_distinct(ch.subrange(0, i)),
        child_pos(ch.subrange(0, i), name) == if 0 <= child_pos(ch, name) < i { child_pos(ch, name) } else { -1 },
{
    let s = ch.subrange(0, i);
    lemma_child_pos(ch, name);
    lemma_child_pos(s, name);
    let k = child_pos(s, name);
    if k >= 0 {
        assert(s[k] == ch[k]);
        lemma_child_pos_distinct(ch, k);
    } else if 0 <= child_pos(ch, name) < i {
        assert(s[child_pos(ch, name)] == ch[child_pos(ch, name)]);
    }
}

/// A prefix relation step: a nonempty `q` is a prefix of `p` exactly when
/// their first names agree and the rests are prefix-related.
pub proof fn lemma_prefix_step(q: Seq<Seq<char>>, p: Seq<Seq<char>>)
    ensures
        q.len() == 0 ==> is_prefix(q, p),
        q.len() > 0 ==> (is_prefix(q, p) == (p.len() > 0 && q[0] == p[0] && is_prefix(q.drop_first(), p.drop_first()))),
{
    if q.len() == 0 {
        assert(p.subrange(0, 0) =~= q);
    } else if p.len() > 0 && q.len() <= p.len() {
        if is_prefix(q, p) {
            assert(p.drop_first().subrange(0, q.len() - 1) =~= q.drop_first());
        }
        if q[0] == p[0] && is_prefix(q.drop_first(), p.drop_first()) {
            assert forall|i: int| 0 <= i < q.len() implies p.subrange(0, q.len() as int)[i] == q[i] by {
                if i > 0 {
                    assert(p.drop_first().subrange(0, q.len() - 1)[i - 1] == q.drop_first()[i - 1]);
                }
            }
            assert(p.subrange(0, q.len() as int) =~= q);
        }
    }
}

/// Samples at the node reached through the children `ch` by the nonempty
/// path `q`, or 0.
pub open spec fn value_below(ch: Seq<FlameNode>, q: Seq<Seq<char>>) -> int {
    let k = child_pos(ch, q[0]);
    if 0 <= k < ch.len() { value_at(ch[k], q.drop_first()) } else { 0 }
}

/// There is a node reached through the children `ch` by the nonempty path `q`.
pub open spec fn has_below(ch: Seq<FlameNode>, q: Seq<Seq<char>>) -> bool {
    let k = child_pos(ch, q[0]);
    0 <= k < ch.len() && has_path(ch[k], q.drop_first())
}

/// Replacing the child named `name` (at `k` of `mid`: the old children,
/// plus a fresh child of that name when there was none) by `cn` changes
/// what lies below that name only.
proof fn lemma_replace_child(
    oc: Seq<FlameNode>, nc: Seq<FlameNode>, mid: Seq<FlameNode>, k: int, name: Seq<char>,
    cn: FlameNode, q: Seq<Seq<char>>,
)
    requires
        q.len() > 0,
        0 <= k < mid.len(),
        mid[k].name@ == name,
        cn.name == mid[k].name,
        nc == mid.update(k, cn),
        (mid == oc && child_pos(oc, name) == k)
            || (mid == oc.push(mid[k]) && k == oc.len() && child_pos(oc, name) == -1
                && mid[k].value == 0 && mid[k].children@.len() == 0),
    ensures
        q[0] == name ==> value_below(nc, q) == value_at(cn, q.drop_first()),
        q[0] == name ==> has_below(nc, q) == has_path(cn, q.drop_first()),
        q[0] == name ==> value_below(oc, q) == value_at(mid[k], q.drop_first()),
        q[0] == name ==> has_below(oc, q) == (has_path(mid[k], q.drop_first()) && mid == oc),
        q[0] != name ==> value_below(nc, q) == value_below(oc, q),
        q[0] != name ==> has_below(nc, q) == has_below(oc, q),
{
    assert forall|i: int| 0 <= i < nc.len() implies nc[i].name@ == mid[i].name@ by {}
    lemma_child_pos_same_names(nc, mid, q[0]);
    lemma_child_pos(mid, q[0]);
    lemma_child_pos(oc, q[0]);
    if mid.len() != oc.len() {
        assert(mid.drop_last() =~= oc);
        lemma_child_pos_push(oc, mid[k], q[0]);
    }
    let q1 = q.drop_first();
    if q[0] == name {
        assert(child_pos(mid, name) == k);
        assert(nc[k] == cn);
        if mid.len() != oc.len() {
            lemma_fresh_values(mid[k], q1);
        }
    } else {
        let j = child_pos(mid, q[0]);
        if j >= 0 {
            assert(j != k);
            assert(nc[j] == mid[j]);
            assert(mid[j] == oc[j]);
        }
    }
}

/// One step of an insertion: the node `n` is `o` with the child named
/// `name` (at `k` of `mid`, which is `o`'s children, plus a fresh child when
/// `o` had none of that name) replaced by `cn`, itself `mid[k]` with
/// `v` samples added along `rest`.
proof fn lemma_insert_step(
    o: FlameNode, n: FlameNode, mid: Seq<FlameNode>, k: int, name: Seq<char>,
    cn: FlameNode, v: int, rest: Seq<Seq<char>>, q: Seq<Seq<char>>,
)
    requires
        n.value == o.value + v,
        0 <= k < mid.len(),
        mid[k].name@ == name,
        cn.name == mid[k].name,
        n.children@ == mid.update(k, cn),
        (mid.len() == o.children@.len() && mid == o.children@ && child_pos(o.children@, name) == k)
            || (mid == o.children@.push(mid[k]) && k == o.children@.len() && child_pos(o.children@, name) == -1
                && mid[k].value == 0 && mid[k].children@.len() == 0),
        forall|q2: Seq<Seq<char>>| #[trigger] value_at(cn, q2) == value_at(mid[k], q2) + if is_prefix(q2, rest) { v } else { 0 },
        forall|q2: Seq<Seq<char>>| #[trigger] has_path(cn, q2) == (has_path(mid[k], q2) || is_prefix(q2, rest)),
    ensures
        value_at(n, q) == value_at(o, q) + if is_prefix(q, seq![name] + rest) { v } else { 0 },
        has_path(n, q) == (has_path(o, q) || is_prefix(q, seq![name] + rest)),
{
    let p = seq![name] + rest;
    lemma_prefix_step(q, p);
    assert(p[0] == name);
    assert(p.drop_first() =~= rest);
    if q.len() == 0 {
        assert(p.subrange(0, 0) =~= q);
    } else {
        let oc = o.children@;
        let nc = n.children@;
        assert forall|i: int| 0 <= i < nc.len() implies nc[i].name@ == mid[i].name@ by {}
        lemma_child_pos_same_names(nc, mid, q[0]);
        lemma_child_pos(mid, q[0]);
        lemma_child_pos(oc, q[0]);
        if mid.len() != oc.len() {
            assert(mid.drop_last() =~= oc);
            lemma_child_pos_push(oc, mid[k], q[0]);
        }
        let q1 = q.drop_first();
        if q[0] == name {
            assert(child_pos(mid, name) == k);
            assert(child_pos(nc, q[0]) == k);
            assert(nc[k] == cn);
            assert(value_at(n, q) == value_at(cn, q1));
            assert(has_path(n, q) == has_path(cn, q1));
            if mid.len() != oc.len() {
                lemma_fresh_values(mid[k], q1);
                lemma_prefix_step(q1, rest);
                assert(child_pos(oc, q[0]) == -1);
                assert(value_at(o, q) == 0);
                assert(!has_path(o, q));
            } else {
                assert(mid == oc);
                assert(value_at(o, q) == value_at(mid[k], q1));
                assert(has_path(o, q) == has_path(mid[k], q1));
            }
        } else {
            let j = child_pos(mid, q[0]);
            assert(child_pos(oc, q[0]) == j);
            assert(!is_prefix(q, p));
            if j >= 0 {
                assert(j != k);
                assert(nc[j] == mid[j]);
                assert(mid[j] == oc[j]);
            }
        }
    }
}

/// A child found by scanning from the back is the last of its name.
proof fn lemma_child_pos_tail(ch: Seq<FlameNode>, name: Seq<char>, k: int)
    requires
        0 <= k < ch.len(),
        ch[k].name@ == name,
        forall|j: int| k < j < ch.len() ==> ch[j].name@ != name,
    ensures
        child_pos(ch, name) == k,
    decreases ch.len(),
{
    if k < ch.len() - 1 {
        lemma_child_pos_tail(ch.drop_last(), name, k);
    }
}

} // verus!
