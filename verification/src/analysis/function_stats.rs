//! Per-function sampling statistics: counts, times, call depths and
//! callers of one function, and a table of them by function name.
use vstd::prelude::*;
use crate::text::{copy_opt_string, copy_string, owned, str_eq, views};
use crate::types::{FunctionStats, ThreadId};

verus! {

/// One sample of a function.
#[derive(Debug, Clone)]
pub struct SampleRecord {
    pub function_name: String,
    pub stack_depth: usize,
    pub is_leaf: bool,
    pub timestamp: u64,
    pub duration_us: u64,
    pub caller: Option<String>,
}

impl SampleRecord {
    /// A sample of one millisecond, without timestamp or caller.
    pub fn new(function_name: &str, stack_depth: usize, is_leaf: bool) -> (r: Self)
        ensures
            r.function_name@ == function_name@,
            r.stack_depth == stack_depth,
            r.is_leaf == is_leaf,
            r.timestamp == 0,
            r.duration_us == 1000,
            r.caller is None,
    {
        SampleRecord { function_name: owned(function_name), stack_depth, is_leaf, timestamp: 0, duration_us: 1000, caller: None }
    }

    pub fn with_timestamp(self, timestamp: u64) -> (r: Self)
        ensures
            r == (SampleRecord { timestamp, ..self }),
    {
        SampleRecord { timestamp, ..self }
    }

    pub fn with_duration(self, duration_us: u64) -> (r: Self)
        ensures
            r == (SampleRecord { duration_us, ..self }),
    {
        SampleRecord { duration_us, ..self }
    }

    pub fn with_caller(self, caller: &str) -> (r: Self)
        ensures
            r.function_name == self.function_name,
            r.stack_depth == self.stack_depth,
            r.is_leaf == self.is_leaf,
            r.timestamp == self.timestamp,
            r.duration_us == self.duration_us,
            r.caller matches Some(c) && c@ == caller@,
    {
        SampleRecord { caller: Some(owned(caller)), ..self }
    }
}

#[verifier::external_type_specification]
#[verifier::external_body]
pub struct ExSystemTime(std::time::SystemTime);

/// The system clock's current time (`SystemTime::now`); nothing is known
/// of it.
#[verifier::external_body]
fn system_now() -> (r: std::time::SystemTime) {
    std::time::SystemTime::now()
}

/// The time since the Unix epoch (`SystemTime::duration_since`), zero when
/// the time lies before the epoch; it depends on the clock's reading only
/// through `t`, which is opaque here, so nothing is stated.
#[verifier::external_body]
fn since_epoch(t: &std::time::SystemTime) -> (r: std::time::Duration) {
    t.duration_since(std::time::UNIX_EPOCH).unwrap_or_default()
}

/// Microseconds since the Unix epoch, from the system clock, cut to 64
/// bits.
fn now_micros() -> u64 {
    let t = system_now();
    let d = since_epoch(&t);
    let us = crate::session::whole_micros(&d);
    #[verifier::truncate]
    (us as u64)
}

/// Position of `key` in a table of counts, or -1.
pub open spec fn key_index<K>(s: Seq<(K, u64)>, key: K) -> int
    decreases s.len(),
{
    if s.len() == 0 { -1 } else if s.last().0 == key { s.len() - 1 } else { key_index(s.drop_last(), key) }
}

pub proof fn lemma_key_index<K>(s: Seq<(K, u64)>, key: K)
    ensures
        -1 <= key_index(s, key) < s.len(),
        key_index(s, key) >= 0 ==> s[key_index(s, key)].0 == key,
        key_index(s, key) == -1 ==> forall|j: int| 0 <= j < s.len() ==> s[j].0 != key,
    decreases s.len(),
{
    if s.len() > 0 && s.last().0 != key {
        lemma_key_index(s.drop_last(), key);
        assert forall|j: int| key_index(s, key) == -1 && 0 <= j < s.len() implies s[j].0 != key by {
            if j < s.len() - 1 {
                assert(s.drop_last()[j] == s[j]);
            }
        }
    }
}

proof fn lemma_key_index_tail<K>(s: Seq<(K, u64)>, key: K, k: int)
    requires
        0 <= k < s.len(),
        s[k].0 == key,
        forall|j: int| k < j < s.len() ==> s[j].0 != key,
    ensures
        key_index(s, key) == k,
    decreases s.len(),
{
    if k < s.len() - 1 {
        lemma_key_index_tail(s.drop_last(), key, k);
    }
}

/// Keys occur at most once.
pub open spec fn distinct_keys<K>(s: Seq<(K, u64)>) -> bool {
    forall|i: int, j: int| 0 <= i < j < s.len() ==> s[i].0 != s[j].0
}

/// The table with one more occurrence of `key`.
pub open spec fn count_one<K>(s: Seq<(K, u64)>, key: K) -> Seq<(K, u64)> {
    let k = key_index(s, key);
    if k >= 0 { s.update(k, (key, (s[k].1 + 1) as u64)) } else { s.push((key, 1u64)) }
}

/// Every count is at most `bound`.
pub open spec fn counts_bounded<K>(s: Seq<(K, u64)>, bound: u64) -> bool {
    forall|i: int| 0 <= i < s.len() ==> (#[trigger] s[i]).1 <= bound
}

fn count_depth(s: &mut Vec<(usize, u64)>, key: usize)
    requires
        distinct_keys(old(s)@),
        key_index(old(s)@, key) >= 0 ==> old(s)@[key_index(old(s)@, key)].1 < u64::MAX,
    ensures
        final(s)@ == count_one(old(s)@, key),
        distinct_keys(final(s)@),
{
    proof { lemma_key_index(s@, key); }
    let mut i: usize = s.len();
    while i > 0
        invariant
            s@ == old(s)@,
            distinct_keys(s@),
            key_index(s@, key) >= 0 ==> s@[key_index(s@, key)].1 < u64::MAX,
            i <= s@.len(),
            forall|j: int| i <= j < s@.len() ==> s@[j].0 != key,
        decreases i,
    {
        if s[i - 1].0 == key {
            proof { lemma_key_index_tail(s@, key, (i - 1) as int); }
            let c = s[i - 1].1;
            s.set(i - 1, (key, c + 1));
            proof { lemma_count_one_distinct(old(s)@, key); }
            return;
        }
        i = i - 1;
    }
    proof {
        lemma_key_index(s@, key);
        lemma_count_one_distinct(old(s)@, key);
    }
    s.push((key, 1));
}

/// The view of a caller table.
pub open spec fn caller_views(s: Seq<(String, u64)>) -> Seq<(Seq<char>, u64)> {
    s.map_values(|e: (String, u64)| (e.0@, e.1))
}

fn count_caller(s: &mut Vec<(String, u64)>, key: &String)
    requires
        distinct_keys(caller_views(old(s)@)),
        key_index(caller_views(old(s)@), key@) >= 0 ==> caller_views(old(s)@)[key_index(caller_views(old(s)@), key@)].1 < u64::MAX,
    ensures
        caller_views(final(s)@) == count_one(caller_views(old(s)@), key@),
        distinct_keys(caller_views(final(s)@)),
{
    let ghost v = caller_views(s@);
    proof { lemma_key_index(v, key@); }
    let mut i: usize = s.len();
    while i > 0
        invariant
            s@ == old(s)@,
            v == caller_views(s@),
            distinct_keys(v),
            key_index(v, key@) >= 0 ==> v[key_index(v, key@)].1 < u64::MAX,
            i <= s@.len(),
            forall|j: int| i <= j < s@.len() ==> v[j].0 != key@,
        decreases i,
    {
        assert(v[i - 1] == (s@[i - 1].0@, s@[i - 1].1));
        if str_eq(s[i - 1].0.as_str(), key.as_str()) {
            proof { lemma_key_index_tail(v, key@, (i - 1) as int); }
            let c = s[i - 1].1;
            s.set(i - 1, (copy_string(key), c + 1));
            assert(caller_views(s@) =~= count_one(v, key@));
            proof { lemma_count_one_distinct(v, key@); }
            return;
        }
        i = i - 1;
    }
    proof {
        lemma_key_index(v, key@);
        lemma_count_one_distinct(v, key@);
    }
    s.push((copy_string(key), 1));
    assert(caller_views(s@) =~= count_one(v, key@));
}

/// What a statistics calculator holds.
pub struct CalculatorView {
    pub function_name: Seq<char>,
    pub module_name: Option<Seq<char>>,
    pub thread_id: Option<ThreadId>,
    pub total_samples: u64,
    pub self_samples: u64,
    pub total_time_us: u64,
    pub self_time_us: u64,
    pub depths: Seq<(usize, u64)>,
    pub callers: Seq<(Seq<char>, u64)>,
    pub first_seen: Option<u64>,
    pub last_seen: Option<u64>,
    pub min_depth: usize,
    pub max_depth: usize,
    pub total_depth: u64,
    pub sample_interval_ms: u32,
    pub detailed_stats: bool,
}

/// Collects the samples of one function.
pub struct FunctionStatsCalculator {
    function_name: String,
    module_name: Option<String>,
    thread_id: Option<ThreadId>,
    total_samples: u64,
    self_samples: u64,
    total_time_us: u64,
    self_time_us: u64,
    depth_distribution: Vec<(usize, u64)>,
    caller_distribution: Vec<(String, u64)>,
    first_seen: Option<u64>,
    last_seen: Option<u64>,
    min_depth: usize,
    max_depth: usize,
    total_depth: u64,
    sample_interval_ms: u32,
    detailed_stats: bool,
}

pub open spec fn opt_view(o: Option<String>) -> Option<Seq<char>> {
    match o { Some(s) => Some(s@), None => None }
}

impl View for FunctionStatsCalculator {
    type V = CalculatorView;

    closed spec fn view(&self) -> CalculatorView {
        CalculatorView {
            function_name: self.function_name@,
            module_name: opt_view(self.module_name),
            thread_id: self.thread_id,
            total_samples: self.total_samples,
            self_samples: self.self_samples,
            total_time_us: self.total_time_us,
            self_time_us: self.self_time_us,
            depths: self.depth_distribution@,
            callers: caller_views(self.caller_distribution@),
            first_seen: self.first_seen,
            last_seen: self.last_seen,
            min_depth: self.min_depth,
            max_depth: self.max_depth,
            total_depth: self.total_depth,
            sample_interval_ms: self.sample_interval_ms,
            detailed_stats: self.detailed_stats,
        }
    }
}

impl CalculatorView {
    /// Each depth and caller occurs once in its table, and no depth or caller
    /// has more samples than the function.
    pub open spec fn wf(self) -> bool {
        &&& distinct_keys(self.depths)
        &&& distinct_keys(self.callers)
        &&& counts_bounded(self.depths, self.total_samples)
        &&& self.self_samples <= self.total_samples
    }

    /// The sample interval in microseconds.
    pub open spec fn interval_us(self) -> u64 {
        (self.sample_interval_ms as nat * 1000) as u64
    }

    /// Every counter can take one more sample at `depth`.
    pub open spec fn has_room(self, depth: usize) -> bool {
        &&& self.total_samples < u64::MAX
        &&& self.total_time_us + self.interval_us() <= u64::MAX
        &&& self.self_time_us + self.interval_us() <= u64::MAX
        &&& self.total_depth + depth <= u64::MAX
    }

    /// The calculator after one sample of the function at `depth` (`leaf`
    /// when the function was innermost), timestamps aside.
    pub open spec fn counted(self, depth: usize, leaf: bool) -> CalculatorView {
        let iu = self.interval_us();
        CalculatorView {
            total_samples: (self.total_samples + 1) as u64,
            total_time_us: (self.total_time_us + iu) as u64,
            self_samples: if leaf { (self.self_samples + 1) as u64 } else { self.self_samples },
            self_time_us: if leaf { (self.self_time_us + iu) as u64 } else { self.self_time_us },
            min_depth: if depth < self.min_depth { depth } else { self.min_depth },
            max_depth: if depth > self.max_depth { depth } else { self.max_depth },
            total_depth: (self.total_depth + depth) as u64,
            depths: if self.detailed_stats { count_one(self.depths, depth) } else { self.depths },
            ..self
        }
    }
}

/// A sample adds the interval to the self time exactly when it is a leaf
/// sample (the function was innermost), so the self time stays the self
/// samples times the interval; the total time always grows by the interval.
pub proof fn law_self_time_follows_leaf_samples(v: CalculatorView, depth: usize, leaf: bool)
    requires
        v.wf(),
        v.has_room(depth),
        v.self_time_us == v.self_samples * v.interval_us(),
    ensures
        v.counted(depth, leaf).self_time_us == v.counted(depth, leaf).self_samples * v.interval_us(),
        !leaf ==> v.counted(depth, leaf).self_time_us == v.self_time_us
            && v.counted(depth, leaf).self_samples == v.self_samples,
        leaf ==> v.counted(depth, leaf).self_time_us == v.self_time_us + v.interval_us(),
        v.counted(depth, leaf).total_time_us == v.total_time_us + v.interval_us(),
        v.counted(depth, leaf).self_samples <= v.counted(depth, leaf).total_samples,
{
    let iu = v.interval_us();
    assert((v.self_samples + 1) * iu == v.self_samples * iu + iu) by (nonlinear_arith);
}

/// `v` with a sample seen at time `t`: the first time set if there was none,
/// and the last time set to `t`.
pub open spec fn stamped(v: CalculatorView, first: Option<u64>, t: u64) -> CalculatorView {
    CalculatorView { first_seen: if first is None { Some(t) } else { first }, last_seen: Some(t), ..v }
}

pub proof fn lemma_counts_bound_step<K>(s: Seq<(K, u64)>, key: K, bound: u64)
    requires
        counts_bounded(s, bound),
        bound < u64::MAX,
    ensures
        counts_bounded(count_one(s, key), (bound + 1) as u64),
        key_index(s, key) >= 0 ==> s[key_index(s, key)].1 < u64::MAX,
{
    lemma_key_index(s, key);
    let t = count_one(s, key);
    assert forall|i: int| 0 <= i < t.len() implies (#[trigger] t[i]).1 <= bound + 1 by {
        if i < s.len() {
            assert(s[i].1 <= bound);
        }
    }
}

pub proof fn lemma_count_one_distinct<K>(s: Seq<(K, u64)>, key: K)
    requires
        distinct_keys(s),
    ensures
        distinct_keys(count_one(s, key)),
{
    lemma_key_index(s, key);
    let t = count_one(s, key);
    assert forall|i: int, j: int| 0 <= i < j < t.len() implies t[i].0 != t[j].0 by {
        if j < s.len() {
            assert(t[i].0 == s[i].0);
            assert(t[j].0 == s[j].0);
        } else {
            assert(t[i].0 == s[i].0);
        }
    }
}

impl FunctionStatsCalculator {
    pub fn new(function_name: &str) -> (r: Self)
        ensures
            r@.wf(),
            r@ == (CalculatorView {
                function_name: function_name@, module_name: None, thread_id: None,
                total_samples: 0, self_samples: 0, total_time_us: 0, self_time_us: 0,
                depths: Seq::empty(), callers: Seq::empty(), first_seen: None, last_seen: None,
                min_depth: usize::MAX, max_depth: 0, total_depth: 0, sample_interval_ms: 1, detailed_stats: true,
            }),
    {
        let r = FunctionStatsCalculator {
            function_name: owned(function_name),
            module_name: None,
            thread_id: None,
            total_samples: 0,
            self_samples: 0,
            total_time_us: 0,
            self_time_us: 0,
            depth_distribution: Vec::new(),
            caller_distribution: Vec::new(),
            first_seen: None,
            last_seen: None,
            min_depth: usize::MAX,
            max_depth: 0,
            total_depth: 0,
            sample_interval_ms: 1,
            detailed_stats: true,
        };
        assert(caller_views(r.caller_distribution@) =~= Seq::empty());
        r
    }

    pub fn with_module(self, module: &str) -> (r: Self)
        ensures
            r@ == (CalculatorView { module_name: Some(module@), ..self@ }),
    {
        FunctionStatsCalculator { module_name: Some(owned(module)), ..self }
    }

    pub fn with_thread_id(self, thread_id: ThreadId) -> (r: Self)
        ensures
            r@ == (CalculatorView { thread_id: Some(thread_id), ..self@ }),
    {
        FunctionStatsCalculator { thread_id: Some(thread_id), ..self }
    }

    pub fn with_sample_interval(self, interval_ms: u32) -> (r: Self)
        ensures
            r@ == (CalculatorView { sample_interval_ms: interval_ms, ..self@ }),
    {
        FunctionStatsCalculator { sample_interval_ms: interval_ms, ..self }
    }

    pub fn with_detailed_stats(self, detailed: bool) -> (r: Self)
        ensures
            r@ == (CalculatorView { detailed_stats: detailed, ..self@ }),
    {
        FunctionStatsCalculator { detailed_stats: detailed, ..self }
    }

    /// Counts one sample of the function at `stack_depth`; a sample of
    /// another function is ignored. The first and last seen times are taken
    /// from the system clock.
    pub fn record_sample(&mut self, function_name: &str, stack_depth: usize, is_leaf: bool)
        requires
            old(self)@.wf(),
            function_name@ == old(self)@.function_name ==> old(self)@.has_room(stack_depth),
        ensures
            final(self)@.wf(),
            function_name@ != old(self)@.function_name ==> final(self)@ == old(self)@,
            function_name@ == old(self)@.function_name ==> exists|t: u64|
                final(self)@ == #[trigger] stamped(old(self)@.counted(stack_depth, is_leaf), old(self)@.first_seen, t),
            function_name@ == old(self)@.function_name ==> final(self)@.total_time_us == old(self)@.total_time_us + old(self)@.interval_us()
                && final(self)@.self_samples == old(self)@.self_samples + if is_leaf { 1int } else { 0 }
                && final(self)@.self_time_us == old(self)@.self_time_us + if is_leaf { old(self)@.interval_us() as int } else { 0 },
    {
        if !str_eq(function_name, self.function_name.as_str()) {
            return;
        }
        let ghost v0 = self@;
        let sample_duration: u64 = self.sample_interval_ms as u64 * 1000;
        proof {
            lemma_counts_bound_step(self.depth_distribution@, stack_depth, self.total_samples);
            lemma_count_one_distinct(self.depth_distribution@, stack_depth);
        }
        self.total_samples = self.total_samples + 1;
        self.total_time_us = self.total_time_us + sample_duration;
        if is_leaf {
            self.self_samples = self.self_samples + 1;
            self.self_time_us = self.self_time_us + sample_duration;
        }
        if stack_depth < self.min_depth {
            self.min_depth = stack_depth;
        }
        if stack_depth > self.max_depth {
            self.max_depth = stack_depth;
        }
        self.total_depth = self.total_depth + stack_depth as u64;
        if self.detailed_stats {
            count_depth(&mut self.depth_distribution, stack_depth);
        }
        let now = now_micros();
        if self.first_seen.is_none() {
            self.first_seen = Some(now);
        }
        self.last_seen = Some(now);
        assert(self@ == stamped(v0.counted(stack_depth, is_leaf), v0.first_seen, now));
    }
}


/// The calculator after a sample record seen at clock time `t`: the sample
/// counted when it is of this function, its caller counted, the first seen
/// time set to the record's timestamp if still unset, and the last seen
/// time set to the record's timestamp when it is not 0.
pub open spec fn after_record(v: CalculatorView, rec: SampleRecord, t: u64) -> CalculatorView {
    let mid = if rec.function_name@ == v.function_name {
        stamped(v.counted(rec.stack_depth, rec.is_leaf), v.first_seen, t)
    } else {
        v
    };
    CalculatorView {
        callers: match rec.caller { Some(c) => count_one(mid.callers, c@), None => mid.callers },
        first_seen: if mid.first_seen is None { Some(rec.timestamp) } else { mid.first_seen },
        last_seen: if rec.timestamp > 0 { Some(rec.timestamp) } else { mid.last_seen },
        ..mid
    }
}

/// The calculator after the records in order, the `k`th seen at clock time
/// `ts[k]`.
pub open spec fn records_applied(v0: CalculatorView, recs: Seq<SampleRecord>, ts: Seq<u64>) -> CalculatorView
    decreases recs.len(),
{
    if recs.len() == 0 {
        v0
    } else {
        after_record(records_applied(v0, recs.drop_last(), ts.drop_last()), recs.last(), ts.last())
    }
}

/// The statistics a calculator produces.
pub open spec fn built_stats(v: CalculatorView, r: FunctionStats) -> bool {
    &&& r.function_name@ == v.function_name
    &&& opt_view(r.module_name) == v.module_name
    &&& r.thread_id == v.thread_id
    &&& r.call_count == v.total_samples
    &&& r.total_time_us == v.total_time_us
    &&& r.self_time_us == v.self_time_us
    &&& r.average_time_us == if v.total_samples > 0 { v.total_time_us / v.total_samples } else { 0 }
    &&& r.min_time_us == if v.total_samples > 0 { v.interval_us() } else { u64::MAX }
    &&& r.max_time_us == if v.total_samples > 0 { v.interval_us() } else { 0 }
}

/// `r` is a key with the largest count in a nonempty table, and nothing for
/// an empty one.
pub open spec fn is_most_common<K>(s: Seq<(K, u64)>, r: Option<K>) -> bool {
    match r {
        None => s.len() == 0,
        Some(k) => exists|i: int| 0 <= i < s.len() && s[i].0 == k && forall|j: int| 0 <= j < s.len() ==> (#[trigger] s[j]).1 <= s[i].1,
    }
}

impl FunctionStatsCalculator {
    /// Counts a sample record: the sample itself (when it is of this
    /// function), its caller, and its timestamp.
    pub fn record(&mut self, record: &SampleRecord)
        requires
            old(self)@.wf(),
            record.function_name@ == old(self)@.function_name ==> old(self)@.has_room(record.stack_depth),
            record.caller matches Some(c) ==> (key_index(old(self)@.callers, c@) >= 0
                ==> old(self)@.callers[key_index(old(self)@.callers, c@)].1 < u64::MAX),
        ensures
            final(self)@.wf(),
            exists|t: u64| final(self)@ == #[trigger] after_record(old(self)@, *record, t),
    {
        let ghost v0 = self@;
        self.record_sample(record.function_name.as_str(), record.stack_depth, record.is_leaf);
        let ghost t: u64 = choose|t: u64| self@ == stamped(v0.counted(record.stack_depth, record.is_leaf), v0.first_seen, t);
        let ghost mid = self@;
        assert(mid == if record.function_name@ == v0.function_name {
            stamped(v0.counted(record.stack_depth, record.is_leaf), v0.first_seen, t)
        } else {
            v0
        });
        match &record.caller {
            Some(c) => {
                count_caller(&mut self.caller_distribution, c);
            },
            None => {},
        }
        if self.first_seen.is_none() {
            self.first_seen = Some(record.timestamp);
        }
        if record.timestamp > 0 {
            self.last_seen = Some(record.timestamp);
        }
        assert(self@ == after_record(v0, *record, t));
    }

    /// Counts the records in order.
    pub fn record_batch(&mut self, records: &[SampleRecord])
        requires
            old(self)@.wf(),
            old(self)@.total_samples + records@.len() < u64::MAX,
            old(self)@.total_time_us + records@.len() * old(self)@.interval_us() <= u64::MAX,
            old(self)@.self_time_us + records@.len() * old(self)@.interval_us() <= u64::MAX,
            forall|i: int| 0 <= i < records@.len() ==> (#[trigger] records@[i]).stack_depth <= 0x1_0000_0000,
            old(self)@.total_depth + records@.len() * 0x1_0000_0000 <= u64::MAX,
            forall|i: int| 0 <= i < old(self)@.callers.len() ==> (#[trigger] old(self)@.callers[i]).1 + records@.len() < u64::MAX,
        ensures
            final(self)@.wf(),
            final(self)@.total_samples <= old(self)@.total_samples + records@.len(),
            exists|ts: Seq<u64>| ts.len() == records@.len() && final(self)@ == #[trigger] records_applied(old(self)@, records@, ts),
    {
        let mut i: usize = 0;
        assert(self@ == records_applied(old(self)@, records@.take(0), Seq::<u64>::empty()));
        while i < records.len()
            invariant
                i <= records@.len(),
                self@.wf(),
                self@.function_name == old(self)@.function_name,
                self@.sample_interval_ms == old(self)@.sample_interval_ms,
                self@.total_samples <= old(self)@.total_samples + i,
                exists|ts: Seq<u64>| ts.len() == i && self@ == #[trigger] records_applied(old(self)@, records@.take(i as int), ts),
                self@.total_time_us <= old(self)@.total_time_us + i * old(self)@.interval_us(),
                self@.self_time_us <= old(self)@.self_time_us + i * old(self)@.interval_us(),
                self@.total_depth <= old(self)@.total_depth + i * 0x1_0000_0000,
                old(self)@.total_samples + records@.len() < u64::MAX,
                old(self)@.total_time_us + records@.len() * old(self)@.interval_us() <= u64::MAX,
                old(self)@.self_time_us + records@.len() * old(self)@.interval_us() <= u64::MAX,
                forall|j: int| 0 <= j < records@.len() ==> (#[trigger] records@[j]).stack_depth <= 0x1_0000_0000,
                old(self)@.total_depth + records@.len() * 0x1_0000_0000 <= u64::MAX,
                forall|j: int| 0 <= j < self@.callers.len() ==> (#[trigger] self@.callers[j]).1 <= u64::MAX - records@.len() + i,
            decreases records@.len() - i,
        {
            let ghost v = self@;
            let ghost iu = v.interval_us();
            proof {
                assert((i + 1) * iu == i * iu + iu) by (nonlinear_arith);
                assert(i * iu + iu <= records@.len() * iu) by (nonlinear_arith)
                    requires i < records@.len();
                assert(i * 0x1_0000_0000 + 0x1_0000_0000 <= records@.len() * 0x1_0000_0000) by (nonlinear_arith)
                    requires i < records@.len();
                match records@[i as int].caller {
                    Some(c) => {
                        lemma_key_index(v.callers, c@);
                        if key_index(v.callers, c@) >= 0 {
                            assert(v.callers[key_index(v.callers, c@)].1 <= u64::MAX - records@.len() + i);
                        }
                    },
                    None => {},
                }
            }
            self.record(&records[i]);
            proof {
                let t = choose|t: u64| self@ == after_record(v, records@[i as int], t);
                let rec = records@[i as int];
                let ts0 = choose|ts: Seq<u64>| ts.len() == i && v == #[trigger] records_applied(old(self)@, records@.take(i as int), ts);
                let rs = records@.take(i + 1);
                let ts1 = ts0.push(t);
                assert(rs.drop_last() =~= records@.take(i as int));
                assert(ts1.drop_last() =~= ts0);
                assert(self@ == records_applied(old(self)@, rs, ts1));
                match rec.caller {
                    Some(c) => {
                        lemma_key_index(self@.callers, c@);
                        let mid_callers = v.callers;
                        assert forall|j: int| 0 <= j < self@.callers.len() implies (#[trigger] self@.callers[j]).1 <= u64::MAX - records@.len() + i + 1 by {
                            lemma_key_index(mid_callers, c@);
                            if j < mid_callers.len() {
                                assert(mid_callers[j].1 <= u64::MAX - records@.len() + i);
                            }
                        }
                    },
                    None => {},
                }
            }
            i = i + 1;
        }
        assert(records@.take(records@.len() as int) =~= records@);
    }

    /// Percentages are derived on demand from the totals; nothing is stored.
    pub fn calculate_percentages(&mut self, total_samples: u64)
        ensures
            final(self)@ == old(self)@,
    {
    }

    /// Sets the sample interval and recomputes the times from the sample
    /// counts.
    pub fn update_time_estimates(&mut self, sample_interval_ms: u32)
        requires
            old(self)@.wf(),
            old(self)@.total_samples * (sample_interval_ms as nat * 1000) <= u64::MAX,
        ensures
            final(self)@.wf(),
            final(self)@ == (CalculatorView {
                sample_interval_ms,
                total_time_us: (old(self)@.total_samples * (sample_interval_ms as nat * 1000)) as u64,
                self_time_us: (old(self)@.self_samples * (sample_interval_ms as nat * 1000)) as u64,
                ..old(self)@
            }),
    {
        self.sample_interval_ms = sample_interval_ms;
        let interval_us: u64 = sample_interval_ms as u64 * 1000;
        proof {
            assert(self.self_samples * interval_us <= self.total_samples * interval_us) by (nonlinear_arith)
                requires self.self_samples <= self.total_samples;
        }
        self.total_time_us = self.total_samples * interval_us;
        self.self_time_us = self.self_samples * interval_us;
    }

    /// A call depth seen most often.
    pub fn most_common_depth(&self) -> (r: Option<usize>)
        ensures
            is_most_common(self@.depths, r),
    {
        let d = &self.depth_distribution;
        if d.len() == 0 {
            return None;
        }
        let mut best: usize = 0;
        let mut i: usize = 1;
        while i < d.len()
            invariant
                1 <= i <= d@.len(),
                best < i,
                forall|j: int| 0 <= j < i ==> (#[trigger] d@[j]).1 <= d@[best as int].1,
            decreases d@.len() - i,
        {
            if d[i].1 >= d[best].1 {
                best = i;
            }
            i = i + 1;
        }
        Some(d[best].0)
    }

    /// A caller seen most often.
    pub fn most_common_caller(&self) -> (r: Option<&str>)
        ensures
            is_most_common(self@.callers, match r { Some(s) => Some(s@), None => None }),
    {
        let d = &self.caller_distribution;
        let ghost v = caller_views(d@);
        if d.len() == 0 {
            return None;
        }
        let mut best: usize = 0;
        let mut i: usize = 1;
        while i < d.len()
            invariant
                v == caller_views(d@),
                1 <= i <= d@.len(),
                best < i,
                forall|j: int| 0 <= j < i ==> (#[trigger] v[j]).1 <= v[best as int].1,
            decreases d@.len() - i,
        {
            assert(v[i as int].1 == d@[i as int].1 && v[best as int].1 == d@[best as int].1);
            if d[i].1 >= d[best].1 {
                best = i;
            }
            i = i + 1;
        }
        assert(v[best as int].0 == d@[best as int].0@);
        Some(d[best].0.as_str())
    }

    /// Number of distinct callers seen.
    pub fn caller_count(&self) -> (r: usize)
        ensures
            r == self@.callers.len(),
    {
        self.caller_distribution.len()
    }

    /// The function's statistics: one call per sample, the times summed, the
    /// average time per sample and the interval as the time range.
    pub fn build_stats(&self) -> (r: FunctionStats)
        ensures
            built_stats(self@, r),
    {
        let mut stats = FunctionStats::new(self.function_name.as_str());
        stats.module_name = copy_opt_string(&self.module_name);
        stats.thread_id = self.thread_id;
        stats.call_count = self.total_samples;
        stats.total_time_us = self.total_time_us;
        stats.self_time_us = self.self_time_us;
        if self.total_samples > 0 {
            stats.average_time_us = self.total_time_us / self.total_samples;
            stats.min_time_us = self.sample_interval_ms as u64 * 1000;
            stats.max_time_us = stats.min_time_us;
        }
        stats
    }

    pub fn function_name(&self) -> (r: &str)
        ensures
            r@ == self@.function_name,
    {
        self.function_name.as_str()
    }

    pub fn total_samples(&self) -> (r: u64)
        ensures
            r == self@.total_samples,
    {
        self.total_samples
    }

    pub fn self_samples(&self) -> (r: u64)
        ensures
            r == self@.self_samples,
    {
        self.self_samples
    }

    pub fn total_time_us(&self) -> (r: u64)
        ensures
            r == self@.total_time_us,
    {
        self.total_time_us
    }

    pub fn self_time_us(&self) -> (r: u64)
        ensures
            r == self@.self_time_us,
    {
        self.self_time_us
    }

    /// Sum of the call depths of the samples (their average is this over
    /// the sample count).
    pub fn total_depth(&self) -> (r: u64)
        ensures
            r == self@.total_depth,
    {
        self.total_depth
    }

    pub fn first_seen(&self) -> (r: Option<u64>)
        ensures
            r == self@.first_seen,
    {
        self.first_seen
    }

    pub fn last_seen(&self) -> (r: Option<u64>)
        ensures
            r == self@.last_seen,
    {
        self.last_seen
    }

    /// Time between the first and the last sample, 0 when unknown or
    /// negative.
    pub fn duration_us(&self) -> (r: u64)
        ensures
            r == match (self@.first_seen, self@.last_seen) {
                (Some(f), Some(l)) => if l >= f { (l - f) as u64 } else { 0 },
                _ => 0,
            },
    {
        match (self.first_seen, self.last_seen) {
            (Some(first), Some(last)) => last.saturating_sub(first),
            _ => 0,
        }
    }

    /// Forgets the samples; the function, module, thread, interval and
    /// detail setting stay.
    pub fn reset(&mut self)
        ensures
            final(self)@.wf(),
            final(self)@ == (CalculatorView {
                total_samples: 0, self_samples: 0, total_time_us: 0, self_time_us: 0,
                depths: Seq::empty(), callers: Seq::empty(), first_seen: None, last_seen: None,
                min_depth: usize::MAX, max_depth: 0, total_depth: 0,
                ..old(self)@
            }),
    {
        self.total_samples = 0;
        self.self_samples = 0;
        self.total_time_us = 0;
        self.self_time_us = 0;
        self.depth_distribution = Vec::new();
        self.caller_distribution = Vec::new();
        self.first_seen = None;
        self.last_seen = None;
        self.min_depth = usize::MAX;
        self.max_depth = 0;
        self.total_depth = 0;
        assert(caller_views(self.caller_distribution@) =~= Seq::empty());
    }
}

/// The views of calculators.
pub open spec fn calc_views(s: Seq<FunctionStatsCalculator>) -> Seq<CalculatorView> {
    s.map_values(|c: FunctionStatsCalculator| c@)
}

/// Position of the calculator of `name`, or -1.
pub open spec fn calc_index(s: Seq<CalculatorView>, name: Seq<char>) -> int
    decreases s.len(),
{
    if s.len() == 0 { -1 } else if s.last().function_name == name { s.len() - 1 } else { calc_index(s.drop_last(), name) }
}

pub proof fn lemma_calc_index(s: Seq<CalculatorView>, name: Seq<char>)
    ensures
        -1 <= calc_index(s, name) < s.len(),
        calc_index(s, name) >= 0 ==> s[calc_index(s, name)].function_name == name,
        calc_index(s, name) == -1 ==> forall|j: int| 0 <= j < s.len() ==> s[j].function_name != name,
    decreases s.len(),
{
    if s.len() > 0 && s.last().function_name != name {
        lemma_calc_index(s.drop_last(), name);
        assert forall|j: int| calc_index(s, name) == -1 && 0 <= j < s.len() implies s[j].function_name != name by {
            if j < s.len() - 1 {
                assert(s.drop_last()[j] == s[j]);
            }
        }
    }
}

proof fn lemma_calc_index_tail(s: Seq<CalculatorView>, name: Seq<char>, k: int)
    requires
        0 <= k < s.len(),
        s[k].function_name == name,
        forall|j: int| k < j < s.len() ==> s[j].function_name != name,
    ensures
        calc_index(s, name) == k,
    decreases s.len(),
{
    if k < s.len() - 1 {
        lemma_calc_index_tail(s.drop_last(), name, k);
    }
}

/// A fresh calculator for `name` with the given interval and detail setting.
pub open spec fn fresh_calc(name: Seq<char>, interval: u32, detailed: bool) -> CalculatorView {
    CalculatorView {
        function_name: name, module_name: None, thread_id: None,
        total_samples: 0, self_samples: 0, total_time_us: 0, self_time_us: 0,
        depths: Seq::empty(), callers: Seq::empty(), first_seen: None, last_seen: None,
        min_depth: usize::MAX, max_depth: 0, total_depth: 0, sample_interval_ms: interval, detailed_stats: detailed,
    }
}

/// Where the calculator of `name` sits after it is looked up or created.
pub open spec fn slot(s: Seq<CalculatorView>, name: Seq<char>) -> int {
    if calc_index(s, name) >= 0 { calc_index(s, name) } else { s.len() as int }
}

/// The calculator of `name` before a sample: the existing one or a fresh one.
pub open spec fn base_calc(s: Seq<CalculatorView>, name: Seq<char>, interval: u32, detailed: bool) -> CalculatorView {
    if calc_index(s, name) >= 0 { s[calc_index(s, name)] } else { fresh_calc(name, interval, detailed) }
}

/// Statistics calculators by function name.
pub struct FunctionStatsAggregator {
    calculators: Vec<FunctionStatsCalculator>,
    sample_interval_ms: u32,
    total_samples: u64,
    detailed_stats: bool,
}

impl FunctionStatsAggregator {
    pub closed spec fn calcs(&self) -> Seq<CalculatorView> {
        calc_views(self.calculators@)
    }

    pub closed spec fn interval(&self) -> u32 {
        self.sample_interval_ms
    }

    pub closed spec fn samples(&self) -> u64 {
        self.total_samples
    }

    pub closed spec fn detailed(&self) -> bool {
        self.detailed_stats
    }

    /// One calculator per function, each well-formed.
    pub open spec fn wf(&self) -> bool {
        &&& forall|i: int, j: int| 0 <= i < j < self.calcs().len() ==> self.calcs()[i].function_name != self.calcs()[j].function_name
        &&& forall|i: int| 0 <= i < self.calcs().len() ==> (#[trigger] self.calcs()[i]).wf()
    }

    pub fn new() -> (r: Self)
        ensures
            r.wf(),
            r.calcs().len() == 0,
            r.interval() == 1,
            r.samples() == 0,
            r.detailed(),
    {
        let r = FunctionStatsAggregator { calculators: Vec::new(), sample_interval_ms: 1, total_samples: 0, detailed_stats: true };
        assert(r.calcs() =~= Seq::empty());
        r
    }

    pub fn with_sample_interval(self, interval_ms: u32) -> (r: Self)
        ensures
            r.calcs() == self.calcs(),
            r.interval() == interval_ms,
            r.samples() == self.samples(),
            r.detailed() == self.detailed(),
    {
        FunctionStatsAggregator { sample_interval_ms: interval_ms, ..self }
    }

    pub fn with_detailed_stats(self, detailed: bool) -> (r: Self)
        ensures
            r.calcs() == self.calcs(),
            r.interval() == self.interval(),
            r.samples() == self.samples(),
            r.detailed() == detailed,
    {
        FunctionStatsAggregator { detailed_stats: detailed, ..self }
    }

    fn find(&self, name: &str) -> (r: Option<usize>)
        ensures
            match r {
                Some(i) => i as int == calc_index(self.calcs(), name@),
                None => calc_index(self.calcs(), name@) == -1,
            },
    {
        let ghost v = self.calcs();
        proof { lemma_calc_index(v, name@); }
        let mut i: usize = self.calculators.len();
        while i > 0
            invariant
                v == calc_views(self.calculators@),
                i <= v.len(),
                forall|j: int| i <= j < v.len() ==> v[j].function_name != name@,
            decreases i,
        {
            assert(v[i - 1] == self.calculators@[i - 1]@);
            if str_eq(self.calculators[i - 1].function_name(), name) {
                proof { lemma_calc_index_tail(v, name@, (i - 1) as int); }
                return Some(i - 1);
            }
            i = i - 1;
        }
        None
    }

    /// The position of the calculator of `name`, created when missing.
    fn index_or_create(&mut self, name: &str) -> (r: usize)
        requires
            old(self).wf(),
        ensures
            final(self).wf(),
            final(self).interval() == old(self).interval(),
            final(self).samples() == old(self).samples(),
            final(self).detailed() == old(self).detailed(),
            r as int == calc_index(final(self).calcs(), name@),
            0 <= r < final(self).calcs().len(),
            calc_index(old(self).calcs(), name@) >= 0 ==> final(self).calcs() == old(self).calcs(),
            calc_index(old(self).calcs(), name@) < 0 ==> final(self).calcs()
                == old(self).calcs().push(fresh_calc(name@, old(self).interval(), old(self).detailed())),
    {
        proof { lemma_calc_index(self.calcs(), name@); }
        match self.find(name) {
            Some(i) => i,
            None => {
                let c = FunctionStatsCalculator::new(name)
                    .with_sample_interval(self.sample_interval_ms)
                    .with_detailed_stats(self.detailed_stats);
                let ghost before = self.calcs();
                self.calculators.push(c);
                proof {
                    assert(self.calcs() =~= before.push(c@));
                    assert(self.calcs().drop_last() =~= before);
                    assert forall|a: int, b: int| 0 <= a < b < self.calcs().len() implies self.calcs()[a].function_name != self.calcs()[b].function_name by {
                        if b < before.len() {
                            assert(self.calcs()[a] == before[a]);
                            assert(self.calcs()[b] == before[b]);
                        } else {
                            assert(self.calcs()[a] == before[a]);
                        }
                    }
                    assert forall|a: int| 0 <= a < self.calcs().len() implies (#[trigger] self.calcs()[a]).wf() by {
                        if a < before.len() {
                            assert(self.calcs()[a] == before[a]);
                        }
                    }
                    assert(caller_views(Seq::<(String, u64)>::empty()) =~= Seq::empty());
                }
                self.calculators.len() - 1
            },
        }
    }

    /// Counts one sample of `function_name`, creating its calculator.
    pub fn record_sample(&mut self, function_name: &str, stack_depth: usize, is_leaf: bool)
        requires
            old(self).wf(),
            old(self).samples() < u64::MAX,
            ({
                let k = calc_index(old(self).calcs(), function_name@);
                k >= 0 ==> old(self).calcs()[k].has_room(stack_depth)
            }),
        ensures
            final(self).wf(),
            final(self).samples() == old(self).samples() + 1,
            final(self).interval() == old(self).interval(),
            final(self).detailed() == old(self).detailed(),
            final(self).calcs().len() == old(self).calcs().len() + if calc_index(old(self).calcs(), function_name@) >= 0 { 0int } else { 1 },
            forall|j: int| 0 <= j < old(self).calcs().len() && j != slot(old(self).calcs(), function_name@)
                ==> final(self).calcs()[j] == old(self).calcs()[j],
            exists|t: u64| final(self).calcs()[slot(old(self).calcs(), function_name@)] == #[trigger] stamped(
                base_calc(old(self).calcs(), function_name@, old(self).interval(), old(self).detailed()).counted(stack_depth, is_leaf),
                base_calc(old(self).calcs(), function_name@, old(self).interval(), old(self).detailed()).first_seen, t),
    {
        let k = self.index_or_create(function_name);
        let ghost mid = self.calcs();
        let mut c = self.calculators.remove(k);
        c.record_sample(function_name, stack_depth, is_leaf);
        self.calculators.insert(k, c);
        self.total_samples = self.total_samples + 1;
        proof {
            let k0 = calc_index(old(self).calcs(), function_name@);
            lemma_calc_index(old(self).calcs(), function_name@);
            lemma_calc_index(mid, function_name@);
            if k0 >= 0 {
                assert(k as int == k0);
            } else {
                assert(k as int == old(self).calcs().len());
                assert(mid[k as int] == fresh_calc(function_name@, old(self).interval(), old(self).detailed()));
            }
            let t = choose|t: u64| c@ == stamped(mid[k as int].counted(stack_depth, is_leaf), mid[k as int].first_seen, t);
            assert(self.calcs()[k as int] == stamped(mid[k as int].counted(stack_depth, is_leaf), mid[k as int].first_seen, t));
            assert forall|j: int| 0 <= j < old(self).calcs().len() && j != k implies self.calcs()[j] == old(self).calcs()[j] by {
                assert(mid[j] == old(self).calcs()[j]);
            }
            let base = if k0 >= 0 { old(self).calcs()[k0] } else { fresh_calc(function_name@, old(self).interval(), old(self).detailed()) };
            assert(self.calcs()[k as int] == stamped(base.counted(stack_depth, is_leaf), base.first_seen, t));
            let at = if k0 >= 0 { k0 } else { old(self).calcs().len() as int };
            assert(exists|t2: u64| self.calcs()[at] == #[trigger] stamped(base.counted(stack_depth, is_leaf), base.first_seen, t2));
            assert(self.calcs() =~= mid.update(k as int, c@));
            assert forall|a: int, b: int| 0 <= a < b < self.calcs().len() implies self.calcs()[a].function_name != self.calcs()[b].function_name by {
                assert(self.calcs()[a].function_name == mid[a].function_name);
                assert(self.calcs()[b].function_name == mid[b].function_name);
            }
            assert forall|a: int| 0 <= a < self.calcs().len() implies (#[trigger] self.calcs()[a]).wf() by {
                if a != k {
                    assert(self.calcs()[a] == mid[a]);
                }
            }
        }
    }

    /// Counts a sample record, creating its function's calculator.
    pub fn record(&mut self, record: &SampleRecord)
        requires
            old(self).wf(),
            old(self).samples() < u64::MAX,
            ({
                let k = calc_index(old(self).calcs(), record.function_name@);
                k >= 0 ==> old(self).calcs()[k].has_room(record.stack_depth)
                    && (record.caller matches Some(c) ==> (key_index(old(self).calcs()[k].callers, c@) >= 0
                        ==> old(self).calcs()[k].callers[key_index(old(self).calcs()[k].callers, c@)].1 < u64::MAX))
            }),
        ensures
            final(self).wf(),
            final(self).samples() == old(self).samples() + 1,
            final(self).interval() == old(self).interval(),
            final(self).detailed() == old(self).detailed(),
            final(self).calcs().len() == old(self).calcs().len() + if calc_index(old(self).calcs(), record.function_name@) >= 0 { 0int } else { 1 },
            forall|j: int| 0 <= j < old(self).calcs().len() && j != slot(old(self).calcs(), record.function_name@)
                ==> final(self).calcs()[j] == old(self).calcs()[j],
            exists|t: u64| final(self).calcs()[slot(old(self).calcs(), record.function_name@)] == #[trigger] after_record(
                base_calc(old(self).calcs(), record.function_name@, old(self).interval(), old(self).detailed()), *record, t),
    {
        let k = self.index_or_create(record.function_name.as_str());
        let ghost mid = self.calcs();
        let mut c = self.calculators.remove(k);
        proof {
            assert(c@ == mid[k as int]);
            assert(c@.wf());
        }
        c.record(record);
        self.calculators.insert(k, c);
        self.total_samples = self.total_samples + 1;
        proof {
            let k0 = calc_index(old(self).calcs(), record.function_name@);
            lemma_calc_index(old(self).calcs(), record.function_name@);
            lemma_calc_index(mid, record.function_name@);
            if k0 >= 0 {
                assert(k as int == k0);
            } else {
                assert(k as int == old(self).calcs().len());
                assert(mid[k as int] == fresh_calc(record.function_name@, old(self).interval(), old(self).detailed()));
            }
            let t = choose|t: u64| c@ == after_record(mid[k as int], *record, t);
            assert(self.calcs()[k as int] == after_record(mid[k as int], *record, t));
            assert forall|j: int| 0 <= j < old(self).calcs().len() && j != k implies self.calcs()[j] == old(self).calcs()[j] by {
                assert(mid[j] == old(self).calcs()[j]);
            }
            assert(self.calcs() =~= mid.update(k as int, c@));
            assert forall|a: int, b: int| 0 <= a < b < self.calcs().len() implies self.calcs()[a].function_name != self.calcs()[b].function_name by {
                assert(self.calcs()[a].function_name == mid[a].function_name);
                assert(self.calcs()[b].function_name == mid[b].function_name);
            }
            assert forall|a: int| 0 <= a < self.calcs().len() implies (#[trigger] self.calcs()[a]).wf() by {
                if a != k {
                    assert(self.calcs()[a] == mid[a]);
                }
            }
        }
    }

    /// The calculator of `function_name`.
    pub fn get_calculator(&self, function_name: &str) -> (r: Option<&FunctionStatsCalculator>)
        ensures
            calc_index(self.calcs(), function_name@) >= 0 ==> (r matches Some(c) && c@ == self.calcs()[calc_index(self.calcs(), function_name@)]),
            calc_index(self.calcs(), function_name@) < 0 ==> r is None,
    {
        proof { lemma_calc_index(self.calcs(), function_name@); }
        match self.find(function_name) {
            Some(i) => Some(&self.calculators[i]),
            None => None,
        }
    }

    /// Mutable access to the calculator of `function_name`.
    pub fn get_calculator_mut(&mut self, function_name: &str) -> (r: Option<&mut FunctionStatsCalculator>)
        ensures
            calc_index(old(self).calcs(), function_name@) >= 0 ==> (r matches Some(c) && c@ == old(self).calcs()[calc_index(old(self).calcs(), function_name@)]),
            calc_index(old(self).calcs(), function_name@) < 0 ==> r is None,
    {
        proof { lemma_calc_index(self.calcs(), function_name@); }
        match self.find(function_name) {
            Some(i) => Some(&mut self.calculators[i]),
            None => None,
        }
    }

    /// Mutable access to the calculator of `function_name`, created when
    /// missing.
    pub fn get_or_create_calculator(&mut self, function_name: &str) -> (r: &mut FunctionStatsCalculator)
        requires
            old(self).wf(),
        ensures
            r@.function_name == function_name@,
            calc_index(old(self).calcs(), function_name@) >= 0 ==> r@ == old(self).calcs()[calc_index(old(self).calcs(), function_name@)],
            calc_index(old(self).calcs(), function_name@) < 0 ==> r@ == fresh_calc(function_name@, old(self).interval(), old(self).detailed()),
    {
        proof { lemma_calc_index(self.calcs(), function_name@); }
        let k = self.index_or_create(function_name);
        proof {
            lemma_calc_index(self.calcs(), function_name@);
            assert(self.calculators@[k as int]@ == self.calcs()[k as int]);
        }
        &mut self.calculators[k]
    }

    /// Percentages are derived on demand from the totals; nothing is stored.
    pub fn calculate_all_percentages(&mut self)
        ensures
            final(self).calcs() == old(self).calcs(),
            final(self).samples() == old(self).samples(),
            final(self).interval() == old(self).interval(),
            final(self).detailed() == old(self).detailed(),
    {
    }

    /// The statistics of every function, with its name.
    pub fn build_all_stats(&self) -> (r: Vec<(String, FunctionStats)>)
        ensures
            r@.len() == self.calcs().len(),
            forall|i: int| 0 <= i < r@.len() ==> (#[trigger] r@[i]).0@ == self.calcs()[i].function_name
                && built_stats(self.calcs()[i], r@[i].1),
    {
        let mut out: Vec<(String, FunctionStats)> = Vec::new();
        let mut i: usize = 0;
        while i < self.calculators.len()
            invariant
                i <= self.calculators@.len(),
                out@.len() == i,
                forall|j: int| 0 <= j < i ==> (#[trigger] out@[j]).0@ == self.calcs()[j].function_name
                    && built_stats(self.calcs()[j], out@[j].1),
            decreases self.calculators@.len() - i,
        {
            let c = &self.calculators[i];
            assert(self.calcs()[i as int] == c@);
            out.push((owned(c.function_name()), c.build_stats()));
            i = i + 1;
        }
        out
    }

    fn top_by(&self, key: u8, limit: usize) -> (r: Vec<&FunctionStatsCalculator>)
        requires
            key < 3,
        ensures
            exists|idx: Seq<usize>| #[trigger] crate::rank::is_top_selection(calc_keys(self.calcs(), key), limit as nat, idx)
                && r@.len() == idx.len()
                && forall|i: int| 0 <= i < idx.len() ==> (#[trigger] r@[i])@ == self.calcs()[idx[i] as int],
    {
        let mut keys: Vec<u64> = Vec::new();
        let mut i: usize = 0;
        while i < self.calculators.len()
            invariant
                key < 3,
                i <= self.calculators@.len(),
                keys@.len() == i,
                forall|j: int| 0 <= j < i ==> #[trigger] keys@[j] == calc_key(self.calcs()[j], key),
            decreases self.calculators@.len() - i,
        {
            let c = &self.calculators[i];
            assert(self.calcs()[i as int] == c@);
            let k = if key == 0 { c.total_time_us() } else if key == 1 { c.self_time_us() } else { c.total_samples() };
            keys.push(k);
            i = i + 1;
        }
        assert(keys@ =~= calc_keys(self.calcs(), key));
        let idx = crate::rank::top_indices(&keys, limit);
        let mut out: Vec<&FunctionStatsCalculator> = Vec::new();
        let mut k: usize = 0;
        while k < idx.len()
            invariant
                k <= idx@.len(),
                crate::rank::is_top_selection(keys@, limit as nat, idx@),
                keys@.len() == self.calculators@.len(),
                out@.len() == k,
                forall|j: int| 0 <= j < k ==> (#[trigger] out@[j])@ == self.calcs()[idx@[j] as int],
            decreases idx@.len() - k,
        {
            let c = &self.calculators[idx[k]];
            assert(self.calcs()[idx@[k as int] as int] == c@);
            out.push(c);
            k = k + 1;
        }
        out
    }

    /// The `limit` calculators with the largest total time.
    pub fn get_top_by_total_time(&self, limit: usize) -> (r: Vec<&FunctionStatsCalculator>)
        ensures
            exists|idx: Seq<usize>| #[trigger] crate::rank::is_top_selection(calc_keys(self.calcs(), 0), limit as nat, idx)
                && r@.len() == idx.len()
                && forall|i: int| 0 <= i < idx.len() ==> (#[trigger] r@[i])@ == self.calcs()[idx[i] as int],
    {
        self.top_by(0, limit)
    }

    /// The `limit` calculators with the largest self time.
    pub fn get_top_by_self_time(&self, limit: usize) -> (r: Vec<&FunctionStatsCalculator>)
        ensures
            exists|idx: Seq<usize>| #[trigger] crate::rank::is_top_selection(calc_keys(self.calcs(), 1), limit as nat, idx)
                && r@.len() == idx.len()
                && forall|i: int| 0 <= i < idx.len() ==> (#[trigger] r@[i])@ == self.calcs()[idx[i] as int],
    {
        self.top_by(1, limit)
    }

    /// The `limit` calculators with the most samples.
    pub fn get_top_by_call_count(&self, limit: usize) -> (r: Vec<&FunctionStatsCalculator>)
        ensures
            exists|idx: Seq<usize>| #[trigger] crate::rank::is_top_selection(calc_keys(self.calcs(), 2), limit as nat, idx)
                && r@.len() == idx.len()
                && forall|i: int| 0 <= i < idx.len() ==> (#[trigger] r@[i])@ == self.calcs()[idx[i] as int],
    {
        self.top_by(2, limit)
    }

    pub fn function_count(&self) -> (r: usize)
        ensures
            r == self.calcs().len(),
    {
        self.calculators.len()
    }

    pub fn total_samples(&self) -> (r: u64)
        ensures
            r == self.samples(),
    {
        self.total_samples
    }

    /// Forgets every calculator and sample.
    pub fn reset(&mut self)
        ensures
            final(self).wf(),
            final(self).calcs().len() == 0,
            final(self).samples() == 0,
            final(self).interval() == old(self).interval(),
            final(self).detailed() == old(self).detailed(),
    {
        self.calculators = Vec::new();
        self.total_samples = 0;
        assert(self.calcs() =~= Seq::empty());
    }
}

impl Default for FunctionStatsAggregator {
    fn default() -> (r: Self)
        ensures
            r.wf(),
            r.calcs().len() == 0,
            r.interval() == 1,
            r.samples() == 0,
            r.detailed(),
    {
        FunctionStatsAggregator::new()
    }
}

/// A ranking key of a calculator: total time (0), self time (1) or samples.
pub open spec fn calc_key(c: CalculatorView, key: u8) -> u64 {
    if key == 0 { c.total_time_us } else if key == 1 { c.self_time_us } else { c.total_samples }
}

pub open spec fn calc_keys(s: Seq<CalculatorView>, key: u8) -> Seq<u64> {
    s.map_values(|c: CalculatorView| calc_key(c, key))
}

/// `end - start`, or 0 when `end` is earlier.
pub fn calculate_duration_us(start: u64, end: u64) -> (r: u64)
    ensures
        r == if end >= start { (end - start) as u64 } else { 0 },
{
    end.saturating_sub(start)
}

} // verus!
