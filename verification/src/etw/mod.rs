//! Event-tracing layer: session names, sampling events, kernel provider
//! flags and provider settings, and the decoding of kernel events.
pub mod provider;
pub mod processor;
pub mod session;
pub mod controller;

use vstd::prelude::*;
use crate::text::{owned, push_char, push_str, write_dec, dec_seq};
use crate::types::{SampleEvent, ProcessId, ThreadId};
use vstd::string::{StringSliceAdditionalSpecFns, StrSliceExecFns};

verus! {

/// Longest session name accepted, in bytes.
pub const MAX_SESSION_NAME_LENGTH: usize = 1024;
/// Default trace buffer size, in KiB.
pub const DEFAULT_BUFFER_SIZE_KB: u32 = 64;
/// Default number of trace buffers.
pub const DEFAULT_BUFFER_COUNT: u32 = 3;

/// A session name is nonempty, at most 1024 bytes long, and holds no NUL,
/// backslash or slash.
pub open spec fn valid_session_name(name: Seq<char>) -> bool {
    &&& name.len() > 0
    &&& (vstd::utf8::encode_utf8(name).len() as usize) <= MAX_SESSION_NAME_LENGTH
    &&& !name.contains('\0')
    &&& !name.contains('\\')
    &&& !name.contains('/')
}

pub fn is_valid_session_name(name: &str) -> (r: bool)
    ensures
        r == valid_session_name(name@),
{
    if name.is_empty() || name.len() > MAX_SESSION_NAME_LENGTH {
        return false;
    }
    let n = name.unicode_len();
    let mut i: usize = 0;
    while i < n
        invariant
            n == name@.len(),
            i <= n,
            name@.len() > 0,
            (vstd::utf8::encode_utf8(name@).len() as usize) <= MAX_SESSION_NAME_LENGTH,
            forall|j: int| 0 <= j < i ==> name@[j] != '\0' && name@[j] != '\\' && name@[j] != '/',
        decreases n - i,
    {
        let c = name.get_char(i);
        if c == '\0' || c == '\\' || c == '/' {
            assert(name@.contains(c));
            return false;
        }
        i = i + 1;
    }
    assert(!name@.contains('\0') && !name@.contains('\\') && !name@.contains('/')) by {
        if name@.contains('\0') {
            let k = choose|k: int| 0 <= k < name@.len() && name@[k] == '\0';
        }
        if name@.contains('\\') {
            let k = choose|k: int| 0 <= k < name@.len() && name@[k] == '\\';
        }
        if name@.contains('/') {
            let k = choose|k: int| 0 <= k < name@.len() && name@[k] == '/';
        }
    }
    true
}

/// A session name made unique by a process id and a time in seconds:
/// `base_pid_secs`.
pub fn session_name_with(base_name: &str, pid: u32, secs: u64) -> (r: String)
    ensures
        r@ == base_name@.push('_') + dec_seq(pid as nat).push('_') + dec_seq(secs as nat),
{
    let mut s = owned(base_name);
    push_char(&mut s, '_');
    write_dec(&mut s, pid as u64);
    push_char(&mut s, '_');
    write_dec(&mut s, secs);
    assert(s@ =~= base_name@.push('_') + dec_seq(pid as nat).push('_') + dec_seq(secs as nat));
    s
}

/// One CPU sample as the kernel reports it.
#[derive(Debug, Clone, Copy, PartialEq, Eq, Structural)]
pub struct SampledProfileEvent {
    pub timestamp: u64,
    pub process_id: ProcessId,
    pub thread_id: ThreadId,
    pub instruction_pointer: u64,
    pub user_mode: bool,
    pub processor_core: Option<u16>,
    pub priority: Option<u8>,
}

impl SampledProfileEvent {
    /// A user-mode sample without core or priority.
    pub fn new(timestamp: u64, process_id: ProcessId, thread_id: ThreadId, instruction_pointer: u64) -> (r: Self)
        ensures
            r == (SampledProfileEvent { timestamp, process_id, thread_id, instruction_pointer, user_mode: true, processor_core: None, priority: None }),
    {
        SampledProfileEvent { timestamp, process_id, thread_id, instruction_pointer, user_mode: true, processor_core: None, priority: None }
    }

    pub fn kernel_mode(self) -> (r: Self)
        ensures
            r == (SampledProfileEvent { user_mode: false, ..self }),
    {
        SampledProfileEvent { user_mode: false, ..self }
    }

    pub fn with_processor_core(self, core: u16) -> (r: Self)
        ensures
            r == (SampledProfileEvent { processor_core: Some(core), ..self }),
    {
        SampledProfileEvent { processor_core: Some(core), ..self }
    }

    pub fn with_priority(self, priority: u8) -> (r: Self)
        ensures
            r == (SampledProfileEvent { priority: Some(priority), ..self }),
    {
        SampledProfileEvent { priority: Some(priority), ..self }
    }

    /// The generic sample event: time, process, thread, instruction pointer,
    /// core and priority.
    pub fn to_sample_event(&self) -> (r: SampleEvent)
        ensures
            r == (SampleEvent {
                timestamp: self.timestamp,
                process_id: self.process_id,
                thread_id: self.thread_id,
                instruction_pointer: self.instruction_pointer,
                processor_core: self.processor_core,
                priority: self.priority,
            }),
    {
        let mut event = SampleEvent::new(self.timestamp, self.process_id, self.thread_id, self.instruction_pointer);
        if let Some(core) = self.processor_core {
            event = event.with_processor_core(core);
        }
        if let Some(priority) = self.priority {
            event = event.with_priority(priority);
        }
        event
    }
}

/// UTF-16 decoded with each unpaired surrogate replaced by U+FFFD: a high
/// surrogate followed by a low one is one character, any other surrogate
/// unit is U+FFFD, and every other unit is the character of its code.
pub open spec fn utf16_lossy(units: Seq<u16>) -> Seq<char>
    decreases units.len(),
{
    if units.len() == 0 {
        Seq::empty()
    } else {
        let u = units[0];
        if 0xD800 <= u < 0xDC00 && units.len() >= 2 && 0xDC00 <= units[1] < 0xE000 {
            seq![(0x10000 + (u - 0xD800) * 0x400 + (units[1] - 0xDC00)) as char] + utf16_lossy(units.skip(2))
        } else if 0xD800 <= u < 0xE000 {
            seq!['\u{FFFD}'] + utf16_lossy(units.skip(1))
        } else {
            seq![u as char] + utf16_lossy(units.skip(1))
        }
    }
}

/// No unit is a surrogate, so each unit is one character.
pub open spec fn no_surrogates(units: Seq<u16>) -> bool {
    forall|i: int| 0 <= i < units.len() ==> (units[i] < 0xD800 || units[i] >= 0xE000)
}

/// Decodes UTF-16 (`String::from_utf16_lossy`), replacing invalid data with
/// U+FFFD as its documentation says: the result is `utf16_lossy` of the
/// units. A sequence without surrogates decodes unit by unit to the
/// characters of the same code.
#[verifier::external_body]
fn from_utf16_lossy(units: &[u16]) -> (r: String)
    ensures
        r@ == utf16_lossy(units@),
{
    String::from_utf16_lossy(units)
}

/// Without surrogates, decoding takes each unit to the character of its code.
pub proof fn lemma_lossy_plain(units: Seq<u16>)
    requires
        no_surrogates(units),
    ensures
        utf16_lossy(units) == units.map_values(|u: u16| u as char),
    decreases units.len(),
{
    if units.len() > 0 {
        let rest = units.skip(1);
        assert(no_surrogates(rest)) by {
            assert forall|i: int| 0 <= i < rest.len() implies (rest[i] < 0xD800 || rest[i] >= 0xE000) by {
                assert(rest[i] == units[i + 1]);
            }
        }
        lemma_lossy_plain(rest);
        assert(units[0] < 0xD800 || units[0] >= 0xE000);
        assert(units.map_values(|u: u16| u as char) =~= seq![units[0] as char] + rest.map_values(|u: u16| u as char));
    }
}

/// Position of the first zero unit, or the length.
pub open spec fn nul_position(units: Seq<u16>) -> int
    decreases units.len(),
{
    if units.len() == 0 {
        0
    } else if units[0] == 0 {
        0
    } else {
        1 + nul_position(units.drop_first())
    }
}

/// The UTF-16 text up to the first NUL unit (or all of it), decoded.
pub fn safe_utf16_to_string(data: &[u16]) -> (r: String)
    ensures
        r@ == utf16_lossy(data@.subrange(0, nul_position(data@))),
        no_surrogates(data@.subrange(0, nul_position(data@))) ==>
            r@ == data@.subrange(0, nul_position(data@)).map_values(|u: u16| u as char),
{
    let mut len: usize = 0;
    while len < data.len() && data[len] != 0
        invariant
            len <= data@.len(),
            forall|j: int| 0 <= j < len ==> data@[j] != 0,
        decreases data@.len() - len,
    {
        len = len + 1;
    }
    proof { lemma_nul_position(data@, len as int); }
    let prefix = crate::etw::processor::slice_prefix(data, len);
    let r = from_utf16_lossy(prefix.as_slice());
    proof {
        if no_surrogates(data@.subrange(0, nul_position(data@))) {
            lemma_lossy_plain(data@.subrange(0, nul_position(data@)));
        }
    }
    r
}

proof fn lemma_nul_position(units: Seq<u16>, k: int)
    requires
        0 <= k <= units.len(),
        forall|j: int| 0 <= j < k ==> units[j] != 0,
        k == units.len() || units[k] == 0,
    ensures
        nul_position(units) == k,
    decreases k,
{
    if k > 0 {
        lemma_nul_position(units.drop_first(), k - 1);
    }
}

} // verus!
