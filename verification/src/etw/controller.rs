//! The session controller: its settings, the sessions it keeps by name,
//! and what it reports of them. The system calls that start and stop
//! sessions are made by its caller, around the controller's decisions.
use vstd::prelude::*;
use crate::text::{owned, copy_string, push_str, write_dec, dec_seq, str_eq};
use crate::types::ProcessId;
use crate::config::ProfilerConfig;
use crate::error::{EtwError, ProfilerError, Result};
use crate::etw::provider::KernelProviderFlags;
use crate::etw::session::{SessionMode, SessionConfig, EtwSession, utf16_of};
use crate::etw::processor::EventProcessor;
use crate::etw::valid_session_name;

verus! {

/// How the controller names, enables and limits its sessions.
#[derive(Debug, Clone)]
pub struct ControllerConfig {
    pub base_session_name: String,
    pub auto_enable_kernel_provider: bool,
    pub default_kernel_flags: KernelProviderFlags,
    pub max_concurrent_sessions: usize,
    /// Stop the sessions when the program exits.
    pub auto_cleanup: bool,
}

impl ControllerConfig {
    /// Sessions named after the profiler's, with the profiling flags.
    pub fn from_profiler_config(config: &ProfilerConfig) -> (r: Self)
        ensures
            r.base_session_name@ == config.session_name@,
            r.auto_enable_kernel_provider,
            r.default_kernel_flags.spec_bits() == (0x01000000u32 | 0x00000001u32 | 0x00040000u32 | 0x02000000u32 | 0x00000010u32),
            r.max_concurrent_sessions == 4,
            r.auto_cleanup,
    {
        ControllerConfig {
            base_session_name: copy_string(&config.session_name),
            auto_enable_kernel_provider: true,
            default_kernel_flags: KernelProviderFlags::profiling(),
            max_concurrent_sessions: 4,
            auto_cleanup: true,
        }
    }

    pub fn with_max_sessions(self, max: usize) -> (r: Self)
        ensures
            r == (ControllerConfig { max_concurrent_sessions: max, ..self }),
    {
        ControllerConfig { max_concurrent_sessions: max, ..self }
    }

    pub fn with_auto_enable_kernel(self, enable: bool) -> (r: Self)
        ensures
            r == (ControllerConfig { auto_enable_kernel_provider: enable, ..self }),
    {
        ControllerConfig { auto_enable_kernel_provider: enable, ..self }
    }

    pub fn with_kernel_flags(self, flags: KernelProviderFlags) -> (r: Self)
        ensures
            r == (ControllerConfig { default_kernel_flags: flags, ..self }),
    {
        ControllerConfig { default_kernel_flags: flags, ..self }
    }
}

impl Default for ControllerConfig {
    fn default() -> (r: Self)
        ensures
            r.base_session_name@ == "EtwController"@,
            r.auto_enable_kernel_provider,
            r.default_kernel_flags.spec_bits() == (0x01000000u32 | 0x00000001u32 | 0x00040000u32 | 0x02000000u32 | 0x00000010u32),
            r.max_concurrent_sessions == 4,
            r.auto_cleanup,
    {
        ControllerConfig {
            base_session_name: owned("EtwController"),
            auto_enable_kernel_provider: true,
            default_kernel_flags: KernelProviderFlags::profiling(),
            max_concurrent_sessions: 4,
            auto_cleanup: true,
        }
    }
}

/// What the controller reports of one session.
#[derive(Debug, Clone)]
pub struct SessionInfo {
    pub name: String,
    pub id: usize,
    pub mode: SessionMode,
    pub is_running: bool,
    pub provider_count: usize,
    pub process_filter: Vec<ProcessId>,
}

/// The kind of session the controller creates, with its log file.
pub enum SessionKind {
    RealTime,
    File(String),
    Hybrid(String),
}

/// `c` is the settings of a session in `mode`: the default session's
/// settings, real-time with 64 KiB buffers, 2 to 8 of them, or to the file
/// at `path` (file or hybrid) with 128 KiB buffers, 4 to 16 of them.
pub open spec fn is_kind_config(c: SessionConfig, mode: SessionMode, path: Seq<char>) -> bool {
    &&& c.name@ == "EtwProfilerSession"@
    &&& c.flush_interval_secs == 1
    &&& c.process_filter@.len() == 0
    &&& c.enable_stack_trace
    &&& c.mode == mode
    &&& if mode == SessionMode::RealTime {
        c.log_file_path is None && c.buffer_size_kb == 64 && c.min_buffers == 2 && c.max_buffers == 8
    } else {
        (c.log_file_path matches Some(x) && x@ == path) && c.buffer_size_kb == 128 && c.min_buffers == 4
            && c.max_buffers == 16
    }
}

pub open spec fn kind_mode(kind: SessionKind) -> SessionMode {
    match kind {
        SessionKind::RealTime => SessionMode::RealTime,
        SessionKind::File(_) => SessionMode::File,
        SessionKind::Hybrid(_) => SessionMode::Hybrid,
    }
}

pub open spec fn kind_path(kind: SessionKind) -> Seq<char> {
    match kind {
        SessionKind::RealTime => Seq::empty(),
        SessionKind::File(p) => p@,
        SessionKind::Hybrid(p) => p@,
    }
}

/// The settings the controller gives a session of the given kind.
pub fn session_config_for(kind: &SessionKind) -> (r: SessionConfig)
    ensures
        is_kind_config(r, kind_mode(*kind), kind_path(*kind)),
{
    let d = SessionConfig::default();
    match kind {
        SessionKind::RealTime => d.with_buffer_size(64).with_buffers(2, 8),
        SessionKind::File(p) => d.with_file_path(p.as_str()).with_buffer_size(128).with_buffers(4, 16),
        SessionKind::Hybrid(p) => d.with_hybrid_path(p.as_str()).with_buffer_size(128).with_buffers(4, 16),
    }
}

/// Position of the last session registered under `k`, or -1.
pub open spec fn name_pos(s: Seq<(String, EtwSession)>, k: Seq<char>) -> int
    decreases s.len(),
{
    if s.len() == 0 { -1 } else if s.last().0@ == k { s.len() - 1 } else { name_pos(s.drop_last(), k) }
}

proof fn lemma_name_pos_at(s: Seq<(String, EtwSession)>, k: Seq<char>, i: int)
    requires
        -1 <= i < s.len(),
        i >= 0 ==> s[i].0@ == k,
        forall|j: int| i < j < s.len() ==> (#[trigger] s[j]).0@ != k,
    ensures
        name_pos(s, k) == i,
    decreases s.len(),
{
    if s.len() > 0 && i < s.len() - 1 {
        assert(s[s.len() - 1].0@ != k);
        lemma_name_pos_at(s.drop_last(), k, i);
    }
}

proof fn lemma_name_pos(s: Seq<(String, EtwSession)>, k: Seq<char>)
    ensures
        -1 <= name_pos(s, k) < s.len(),
        name_pos(s, k) >= 0 ==> s[name_pos(s, k)].0@ == k,
    decreases s.len(),
{
    if s.len() > 0 && s.last().0@ != k {
        lemma_name_pos(s.drop_last(), k);
    }
}

fn find_session(s: &Vec<(String, EtwSession)>, k: &str) -> (r: Option<usize>)
    ensures
        match r {
            Some(i) => i < s@.len() && i as int == name_pos(s@, k@),
            None => name_pos(s@, k@) == -1,
        },
{
    let mut i: usize = s.len();
    while i > 0
        invariant
            i <= s@.len(),
            forall|j: int| i <= j < s@.len() ==> (#[trigger] s@[j]).0@ != k@,
        decreases i,
    {
        if str_eq(s[i - 1].0.as_str(), k) {
            proof { lemma_name_pos_at(s@, k@, i - 1); }
            return Some(i - 1);
        }
        i = i - 1;
    }
    proof { lemma_name_pos_at(s@, k@, -1); }
    None
}

proof fn lemma_name_pos_same_names(a: Seq<(String, EtwSession)>, b: Seq<(String, EtwSession)>, k: Seq<char>)
    requires
        session_names(a) == session_names(b),
    ensures
        name_pos(a, k) == name_pos(b, k),
    decreases a.len(),
{
    assert(a.len() == session_names(a).len());
    assert(b.len() == session_names(b).len());
    if a.len() > 0 {
        assert(a.last().0@ == session_names(a)[a.len() - 1]);
        assert(b.last().0@ == session_names(b)[b.len() - 1]);
        assert(session_names(a.drop_last()) =~= session_names(a).drop_last());
        assert(session_names(b.drop_last()) =~= session_names(b).drop_last());
        lemma_name_pos_same_names(a.drop_last(), b.drop_last(), k);
    }
}

proof fn lemma_name_pos_none(s: Seq<(String, EtwSession)>, k: Seq<char>, a: int)
    requires
        name_pos(s, k) == -1,
        0 <= a < s.len(),
    ensures
        s[a].0@ != k,
    decreases s.len(),
{
    if a < s.len() - 1 {
        assert(s.drop_last()[a] == s[a]);
        lemma_name_pos_none(s.drop_last(), k, a);
    }
}

fn copy_pids(v: &Vec<ProcessId>) -> (r: Vec<ProcessId>)
    ensures
        r@ == v@,
{
    let mut out: Vec<ProcessId> = Vec::new();
    let mut i: usize = 0;
    while i < v.len()
        invariant
            i <= v@.len(),
            out@ == v@.subrange(0, i as int),
        decreases v@.len() - i,
    {
        out.push(v[i]);
        i = i + 1;
        assert(out@ =~= v@.subrange(0, i as int));
    }
    assert(out@ =~= v@);
    out
}

/// The names of registered sessions.
pub open spec fn session_names(s: Seq<(String, EtwSession)>) -> Seq<Seq<char>> {
    s.map_values(|e: (String, EtwSession)| e.0@)
}

/// Creates, names and keeps trace sessions, up to a limit, and the event
/// processor their events go to.
pub struct EtwController {
    config: ControllerConfig,
    sessions: Vec<(String, EtwSession)>,
    session_counter: usize,
    event_processor: EventProcessor,
    running: bool,
    shutdown: bool,
}

impl EtwController {
    pub closed spec fn cfg(&self) -> ControllerConfig {
        self.config
    }

    /// The sessions kept, with their names.
    pub closed spec fn kept(&self) -> Seq<(String, EtwSession)> {
        self.sessions@
    }

    pub closed spec fn created(&self) -> usize {
        self.session_counter
    }

    pub closed spec fn is_down(&self) -> bool {
        self.shutdown
    }

    pub closed spec fn runs(&self) -> bool {
        self.running
    }

    pub closed spec fn processor(&self) -> EventProcessor {
        self.event_processor
    }

    /// Each name is kept once.
    pub closed spec fn wf(&self) -> bool {
        &&& forall|a: int, b: int| 0 <= a < b < self.sessions@.len() ==> self.sessions@[a].0@ != self.sessions@[b].0@
        &&& self.event_processor.wf()
    }

    /// A controller named after the profiler's session.
    pub fn new(config: &ProfilerConfig) -> (r: Result<Self>)
        ensures
            r matches Ok(c) && c.wf() && c.cfg().base_session_name@ == config.session_name@ && c.kept().len() == 0
                && !c.is_down() && !c.runs() && c.created() == 0,
    {
        Self::with_config(ControllerConfig::from_profiler_config(config))
    }

    pub fn with_config(config: ControllerConfig) -> (r: Result<Self>)
        ensures
            r matches Ok(c) && c.wf() && c.cfg() == config && c.kept().len() == 0 && !c.is_down() && !c.runs()
                && c.created() == 0,
    {
        Ok(EtwController {
            config,
            sessions: Vec::new(),
            session_counter: 0,
            event_processor: EventProcessor::new(),
            running: false,
            shutdown: false,
        })
    }

    /// The name a session called `name` is kept under: the base name, `_`
    /// and `name`.
    pub fn session_key(&self, name: &str) -> (r: String)
        ensures
            r@ == self.cfg().base_session_name@ + "_"@ + name@,
    {
        let mut k = copy_string(&self.config.base_session_name);
        push_str(&mut k, "_");
        push_str(&mut k, name);
        k
    }

    fn prepare(&self, kind: SessionKind, name: &str, limited: bool) -> (r: Result<(String, EtwSession)>)
        ensures
            self.is_down() ==> (r matches Err(ProfilerError::EtwError(e)) && e.message@ == "Controller is shutdown"@),
            !self.is_down() && limited && self.kept().len() >= self.cfg().max_concurrent_sessions ==> (
                r matches Err(ProfilerError::EtwError(e)) && e.message@ == "Maximum number of sessions ("@
                    + dec_seq(self.cfg().max_concurrent_sessions as nat) + ") reached"@),
            !self.is_down() && !(limited && self.kept().len() >= self.cfg().max_concurrent_sessions) ==> (
                r matches Ok((k, s)) && k@ == self.cfg().base_session_name@ + "_"@ + name@
                    && is_kind_config(s.cfg(), kind_mode(kind), kind_path(kind))
                    && !s.runs() && s.providers().len() == 0),
    {
        if self.shutdown {
            return Err(ProfilerError::EtwError(EtwError::new("Controller is shutdown")));
        }
        if limited && self.sessions.len() >= self.config.max_concurrent_sessions {
            let mut m = owned("Maximum number of sessions (");
            write_dec(&mut m, self.config.max_concurrent_sessions as u64);
            push_str(&mut m, ") reached");
            return Err(ProfilerError::EtwError(EtwError { message: m, code: None }));
        }
        let key = self.session_key(name);
        let config = session_config_for(&kind);
        proof {
            reveal_strlit("EtwProfilerSession");
            let n = "EtwProfilerSession"@;
            assert(vstd::utf8::is_ascii_chars(n));
            vstd::utf8::is_ascii_chars_encode_utf8(n);
            assert(valid_session_name(n));
        }
        match EtwSession::with_config(config) {
            Ok(s) => Ok((key, s)),
            Err(e) => Err(e),
        }
    }

    /// The first step of creating a real-time session called `name`:
    /// refused once shut down or at the session limit; otherwise the name
    /// it is kept under and the session, stopped, for the caller to start.
    pub fn prepare_realtime_session(&self, name: &str) -> (r: Result<(String, EtwSession)>)
        ensures
            self.is_down() ==> (r matches Err(ProfilerError::EtwError(e)) && e.message@ == "Controller is shutdown"@),
            !self.is_down() && self.kept().len() >= self.cfg().max_concurrent_sessions ==> (
                r matches Err(ProfilerError::EtwError(e)) && e.message@ == "Maximum number of sessions ("@
                    + dec_seq(self.cfg().max_concurrent_sessions as nat) + ") reached"@),
            !self.is_down() && self.kept().len() < self.cfg().max_concurrent_sessions ==> (
                r matches Ok((k, s)) && k@ == self.cfg().base_session_name@ + "_"@ + name@
                    && is_kind_config(s.cfg(), SessionMode::RealTime, Seq::empty()) && !s.runs() && s.providers().len() == 0),
    {
        self.prepare(SessionKind::RealTime, name, true)
    }

    /// As `prepare_realtime_session`, for a session logging to `path`.
    pub fn prepare_file_session(&self, name: &str, path: &str) -> (r: Result<(String, EtwSession)>)
        ensures
            self.is_down() ==> (r matches Err(ProfilerError::EtwError(e)) && e.message@ == "Controller is shutdown"@),
            !self.is_down() && self.kept().len() >= self.cfg().max_concurrent_sessions ==> (
                r matches Err(ProfilerError::EtwError(e)) && e.message@ == "Maximum number of sessions ("@
                    + dec_seq(self.cfg().max_concurrent_sessions as nat) + ") reached"@),
            !self.is_down() && self.kept().len() < self.cfg().max_concurrent_sessions ==> (
                r matches Ok((k, s)) && k@ == self.cfg().base_session_name@ + "_"@ + name@
                    && is_kind_config(s.cfg(), SessionMode::File, path@) && !s.runs() && s.providers().len() == 0),
    {
        self.prepare(SessionKind::File(owned(path)), name, true)
    }

    /// As `prepare_file_session`, for a hybrid session; no session limit
    /// applies.
    pub fn prepare_hybrid_session(&self, name: &str, path: &str) -> (r: Result<(String, EtwSession)>)
        ensures
            self.is_down() ==> (r matches Err(ProfilerError::EtwError(e)) && e.message@ == "Controller is shutdown"@),
            !self.is_down() ==> (r matches Ok((k, s)) && k@ == self.cfg().base_session_name@ + "_"@ + name@
                && is_kind_config(s.cfg(), SessionMode::Hybrid, path@) && !s.runs()
                && s.providers().len() == 0),
    {
        self.prepare(SessionKind::Hybrid(owned(path)), name, false)
    }

    /// Keeps a session under `key` (replacing one of that name) and counts
    /// it.
    pub fn register_session(&mut self, key: String, session: EtwSession)
        requires
            old(self).wf(),
        ensures
            final(self).wf(),
            final(self).created() == if old(self).created() < usize::MAX { old(self).created() + 1 } else { usize::MAX as int },
            session_names(final(self).kept()) == if name_pos(old(self).kept(), key@) >= 0 {
                session_names(old(self).kept()) } else { session_names(old(self).kept()).push(key@) },
            name_pos(final(self).kept(), key@) >= 0 && final(self).kept()[name_pos(final(self).kept(), key@)].1 == session,
            forall|k: Seq<char>| k != key@ ==> name_pos(final(self).kept(), k) == name_pos(old(self).kept(), k)
                && (name_pos(old(self).kept(), k) >= 0 ==> final(self).kept()[name_pos(old(self).kept(), k)]
                    == old(self).kept()[name_pos(old(self).kept(), k)]),
            final(self).cfg() == old(self).cfg(),
            final(self).is_down() == old(self).is_down(),
            final(self).runs() == old(self).runs(),
            final(self).processor() == old(self).processor(),
    {
        self.session_counter = self.session_counter.saturating_add(1);
        let ghost old_s = self.sessions@;
        match find_session(&self.sessions, key.as_str()) {
            Some(i) => {
                let ghost k = key@;
                proof { lemma_name_pos(old_s, k); }
                self.sessions.set(i, (key, session));
                proof {
                    assert(session_names(self.sessions@) =~= session_names(old_s));
                    lemma_name_pos_same_names(self.sessions@, old_s, k);
                    assert forall|k2: Seq<char>| k2 != k implies name_pos(self.sessions@, k2) == name_pos(old_s, k2)
                        && (name_pos(old_s, k2) >= 0 ==> self.sessions@[name_pos(old_s, k2)] == old_s[name_pos(old_s, k2)]) by {
                        lemma_name_pos_same_names(self.sessions@, old_s, k2);
                        lemma_name_pos(old_s, k2);
                        lemma_name_pos(old_s, k);
                    }
                    assert forall|a: int, b: int| 0 <= a < b < self.sessions@.len()
                        implies self.sessions@[a].0@ != self.sessions@[b].0@ by {
                        assert(session_names(self.sessions@)[a] == session_names(old_s)[a]);
                        assert(session_names(self.sessions@)[b] == session_names(old_s)[b]);
                    }
                }
            },
            None => {
                let ghost k = key@;
                self.sessions.push((key, session));
                proof {
                    assert(session_names(self.sessions@) =~= session_names(old_s).push(k));
                    lemma_name_pos_at(self.sessions@, k, old_s.len() as int);
                    assert forall|k2: Seq<char>| k2 != k implies name_pos(self.sessions@, k2) == name_pos(old_s, k2)
                        && (name_pos(old_s, k2) >= 0 ==> self.sessions@[name_pos(old_s, k2)] == old_s[name_pos(old_s, k2)]) by {
                        assert(self.sessions@.drop_last() =~= old_s);
                        lemma_name_pos(old_s, k2);
                    }
                    assert forall|a: int, b: int| 0 <= a < b < self.sessions@.len()
                        implies self.sessions@[a].0@ != self.sessions@[b].0@ by {
                        if b == old_s.len() {
                            lemma_name_pos_none(old_s, k, a);
                        }
                    }
                }
            },
        }
    }

    /// The session kept under exactly `name`.
    pub fn get_session(&self, name: &str) -> (r: Option<&EtwSession>)
        ensures
            match r {
                Some(s) => name_pos(self.kept(), name@) >= 0 && *s == self.kept()[name_pos(self.kept(), name@)].1,
                None => name_pos(self.kept(), name@) == -1,
            },
    {
        match find_session(&self.sessions, name) {
            Some(i) => Some(&self.sessions[i].1),
            None => None,
        }
    }

    /// The session kept under exactly `name`, to work on in place.
    pub fn get_session_mut(&mut self, name: &str) -> (r: Option<&mut EtwSession>)
        requires
            old(self).wf(),
        ensures
            match r {
                Some(s) => {
                    let i = name_pos(old(self).kept(), name@);
                    &&& i >= 0
                    &&& *s == old(self).kept()[i].1
                    &&& final(self).kept() == old(self).kept().update(i, (old(self).kept()[i].0, *final(s)))
                },
                None => name_pos(old(self).kept(), name@) == -1 && final(self).kept() == old(self).kept(),
            },
            final(self).wf(),
            final(self).cfg() == old(self).cfg(),
            final(self).created() == old(self).created(),
            final(self).is_down() == old(self).is_down(),
            final(self).runs() == old(self).runs(),
            final(self).processor() == old(self).processor(),
    {
        match find_session(&self.sessions, name) {
            Some(i) => Some(&mut self.sessions[i].1),
            None => None,
        }
    }

    /// Takes out the session called `name` (kept under the base name, `_`
    /// and `name`) for the caller to stop; `None` when there is none.
    pub fn take_session(&mut self, name: &str) -> (r: Option<(String, EtwSession)>)
        requires
            old(self).wf(),
        ensures
            final(self).wf(),
            ({
                let key = old(self).cfg().base_session_name@ + "_"@ + name@;
                let i = name_pos(old(self).kept(), key);
                &&& i < 0 ==> r is None && final(self).kept() == old(self).kept()
                &&& i >= 0 ==> r == Some(old(self).kept()[i]) && final(self).kept() == old(self).kept().remove(i)
            }),
            final(self).cfg() == old(self).cfg(),
            final(self).created() == old(self).created(),
            final(self).is_down() == old(self).is_down(),
            final(self).runs() == old(self).runs(),
            final(self).processor() == old(self).processor(),
    {
        let key = self.session_key(name);
        match find_session(&self.sessions, key.as_str()) {
            Some(i) => {
                let ghost old_s = self.sessions@;
                let e = self.sessions.remove(i);
                proof {
                    assert forall|a: int, b: int| 0 <= a < b < self.sessions@.len()
                        implies self.sessions@[a].0@ != self.sessions@[b].0@ by {
                        let a0 = if a < i { a } else { a + 1 };
                        let b0 = if b < i { b } else { b + 1 };
                        assert(self.sessions@[a] == old_s[a0]);
                        assert(self.sessions@[b] == old_s[b0]);
                    }
                }
                Some(e)
            },
            None => None,
        }
    }

    /// Takes out every session, for the caller to stop; nothing once shut
    /// down.
    pub fn take_all_sessions(&mut self) -> (r: Vec<(String, EtwSession)>)
        requires
            old(self).wf(),
        ensures
            final(self).wf(),
            old(self).is_down() ==> r@.len() == 0 && *final(self) == *old(self),
            !old(self).is_down() ==> r@ == old(self).kept() && final(self).kept().len() == 0
                && final(self).cfg() == old(self).cfg() && final(self).created() == old(self).created()
                && final(self).is_down() == old(self).is_down() && final(self).runs() == old(self).runs()
                && final(self).processor() == old(self).processor(),
    {
        if self.shutdown {
            return Vec::new();
        }
        let mut all: Vec<(String, EtwSession)> = Vec::new();
        std::mem::swap(&mut all, &mut self.sessions);
        all
    }

    /// Records that every session was stopped: shut down, not running.
    pub fn mark_shutdown(&mut self)
        requires
            old(self).wf(),
        ensures
            final(self).wf(),
            final(self).is_down(),
            !final(self).runs(),
            final(self).kept() == old(self).kept(),
            final(self).cfg() == old(self).cfg(),
            final(self).created() == old(self).created(),
            final(self).processor() == old(self).processor(),
    {
        self.shutdown = true;
        self.running = false;
    }

    /// What is known of each session kept, in order.
    pub fn list_sessions(&self) -> (r: Vec<SessionInfo>)
        ensures
            r@.len() == self.kept().len(),
            forall|i: int| 0 <= i < r@.len() ==> {
                let (k, s) = #[trigger] self.kept()[i];
                &&& r@[i].name@ == k@
                &&& r@[i].id == 0
                &&& r@[i].mode == s.cfg().mode
                &&& r@[i].is_running == s.runs()
                &&& r@[i].provider_count == s.providers().len()
                &&& r@[i].process_filter@ == s.cfg().process_filter@
            },
    {
        let mut out: Vec<SessionInfo> = Vec::new();
        let mut i: usize = 0;
        while i < self.sessions.len()
            invariant
                i <= self.sessions@.len(),
                out@.len() == i,
                forall|j: int| 0 <= j < i ==> {
                    let (k, s) = #[trigger] self.sessions@[j];
                    &&& out@[j].name@ == k@
                    &&& out@[j].id == 0
                    &&& out@[j].mode == s.cfg().mode
                    &&& out@[j].is_running == s.runs()
                    &&& out@[j].provider_count == s.providers().len()
                    &&& out@[j].process_filter@ == s.cfg().process_filter@
                },
            decreases self.sessions@.len() - i,
        {
            let (k, s) = (&self.sessions[i].0, &self.sessions[i].1);
            let config = s.config();
            let filter = copy_pids(&config.process_filter);
            out.push(SessionInfo {
                name: copy_string(k),
                id: 0,
                mode: config.mode,
                is_running: s.is_running(),
                provider_count: s.enabled_providers().len(),
                process_filter: filter,
            });
            i = i + 1;
        }
        out
    }

    pub fn active_session_count(&self) -> (r: usize)
        ensures
            r == self.kept().len(),
    {
        self.sessions.len()
    }

    pub fn is_running(&self) -> (r: bool)
        ensures
            r == self.runs(),
    {
        self.running
    }

    pub fn is_shutdown(&self) -> (r: bool)
        ensures
            r == self.is_down(),
    {
        self.shutdown
    }

    pub fn config(&self) -> (r: &ControllerConfig)
        ensures
            *r == self.cfg(),
    {
        &self.config
    }

    pub fn event_processor(&self) -> (r: &EventProcessor)
        ensures
            *r == self.processor(),
    {
        &self.event_processor
    }

    /// The processor, for the caller to hand it the events of its sessions.
    pub fn event_processor_mut(&mut self) -> (r: &mut EventProcessor)
        ensures
            *r == old(self).processor(),
            final(self).kept() == old(self).kept(),
            final(self).cfg() == old(self).cfg(),
            final(self).created() == old(self).created(),
            final(self).is_down() == old(self).is_down(),
            final(self).runs() == old(self).runs(),
            final(self).processor() == *final(r),
    {
        &mut self.event_processor
    }

    /// Sets the processes every kept session is meant for.
    pub fn set_global_process_filter(&mut self, pids: &[ProcessId]) -> (r: Result<()>)
        requires
            old(self).wf(),
        ensures
            r is Ok,
            final(self).wf(),
            session_names(final(self).kept()) == session_names(old(self).kept()),
            forall|i: int| 0 <= i < final(self).kept().len() ==> (#[trigger] final(self).kept()[i]).1.cfg().process_filter@ == pids@
                && final(self).kept()[i].1.runs() == old(self).kept()[i].1.runs()
                && final(self).kept()[i].1.providers() == old(self).kept()[i].1.providers(),
            final(self).cfg() == old(self).cfg(),
            final(self).created() == old(self).created(),
            final(self).is_down() == old(self).is_down(),
            final(self).runs() == old(self).runs(),
            final(self).processor() == old(self).processor(),
    {
        let n = self.sessions.len();
        let ghost old_s = self.sessions@;
        let mut i: usize = 0;
        while i < n
            invariant
                i <= n,
                n == self.sessions@.len(),
                n == old_s.len(),
                old_s == old(self).sessions@,
                session_names(self.sessions@) == session_names(old_s),
                forall|j: int| 0 <= j < i ==> (#[trigger] self.sessions@[j]).1.cfg().process_filter@ == pids@
                    && self.sessions@[j].1.runs() == old_s[j].1.runs()
                    && self.sessions@[j].1.providers() == old_s[j].1.providers(),
                forall|j: int| i <= j < n ==> #[trigger] self.sessions@[j] == old_s[j],
                self.config == old(self).config,
                self.session_counter == old(self).session_counter,
                self.shutdown == old(self).shutdown,
                self.running == old(self).running,
                self.event_processor == old(self).event_processor,
            decreases n - i,
        {
            let (k, mut s) = self.sessions.remove(i);
            let ghost s0 = s;
            let _ = s.set_process_filter(pids);
            self.sessions.insert(i, (k, s));
            proof {
                assert(session_names(self.sessions@) =~= session_names(old_s));
                assert(self.sessions@[i as int].1.providers() == s0.providers());
            }
            i = i + 1;
        }
        proof {
            assert forall|a: int, b: int| 0 <= a < b < self.sessions@.len()
                implies self.sessions@[a].0@ != self.sessions@[b].0@ by {
                assert(session_names(self.sessions@)[a] == session_names(old_s)[a]);
                assert(session_names(self.sessions@)[b] == session_names(old_s)[b]);
            }
        }
        Ok(())
    }

    /// The names of the kept sessions, in order.
    pub fn session_keys(&self) -> (r: Vec<String>)
        ensures
            r@.map_values(|k: String| k@) == session_names(self.kept()),
    {
        let mut out: Vec<String> = Vec::new();
        let mut i: usize = 0;
        while i < self.sessions.len()
            invariant
                i <= self.sessions@.len(),
                out@.len() == i,
                forall|j: int| 0 <= j < i ==> (#[trigger] out@[j])@ == self.sessions@[j].0@,
            decreases self.sessions@.len() - i,
        {
            out.push(copy_string(&self.sessions[i].0));
            i = i + 1;
        }
        assert(out@.map_values(|k: String| k@) =~= session_names(self.sessions@));
        out
    }
}

} // verus!
