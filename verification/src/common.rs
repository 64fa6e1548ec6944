//! The event that the kernel probes emit on each process `exec` and `exit`,
//! and its byte layout on the ring buffer between kernel and user space.
use vstd::prelude::*;
use vstd::utf8::{decode_utf8, valid_utf8};

verus! {

/// `event_type` of a process `exec`.
pub const EVENT_EXEC: u32 = 0;

/// `event_type` of a process `exit`.
pub const EVENT_EXIT: u32 = 1;

/// Bytes of an encoded [`TraceEvent`]: `pid`, `event_type`, then `comm`.
pub const TRACE_EVENT_SIZE: usize = 24;

/// A process lifecycle event: the process, what happened to it, and its
/// command name, NUL-padded to 16 bytes.
#[derive(Copy, Clone, Debug)]
pub struct TraceEvent {
    pub pid: u32,
    pub event_type: u32,
    pub comm: [u8; 16],
}

/// The little-endian `u32` at `b[at..at + 4]`.
pub open spec fn le_u32(b: Seq<u8>, at: int) -> u32 {
    (b[at] as int + b[at + 1] as int * 0x100 + b[at + 2] as int * 0x1_0000 + b[at + 3] as int
        * 0x100_0000) as u32
}

/// The encoding of an event: `pid` and `event_type` little-endian, then the
/// 16 bytes of `comm` (the C layout of the struct on little-endian machines,
/// which the eBPF `bpfel` target and the host share).
pub open spec fn encoded(e: TraceEvent) -> Seq<u8> {
    seq![
        (e.pid % 0x100) as u8,
        ((e.pid / 0x100) % 0x100) as u8,
        ((e.pid / 0x1_0000) % 0x100) as u8,
        (e.pid / 0x100_0000) as u8,
        (e.event_type % 0x100) as u8,
        ((e.event_type / 0x100) % 0x100) as u8,
        ((e.event_type / 0x1_0000) % 0x100) as u8,
        (e.event_type / 0x100_0000) as u8,
    ] + e.comm@
}

/// `b` without its trailing NUL bytes.
pub open spec fn trim_nul_bytes(b: Seq<u8>) -> Seq<u8>
    decreases b.len(),
{
    if b.len() > 0 && b.last() == 0 {
        trim_nul_bytes(b.drop_last())
    } else {
        b
    }
}

/// `s` without its trailing NUL characters (`str::trim_end_matches('\0')`).
pub open spec fn trim_nul_chars(s: Seq<char>) -> Seq<char>
    decreases s.len(),
{
    if s.len() > 0 && s.last() == '\0' {
        trim_nul_chars(s.drop_last())
    } else {
        s
    }
}

/// The text of `String::from_utf8_lossy(b)`: the UTF-8 decoding of `b`, with
/// each invalid sequence replaced by U+FFFD.
pub uninterp spec fn utf8_lossy(b: Seq<u8>) -> Seq<char>;

/// `std::str::from_utf8`: as its documentation says, `Ok` exactly for valid
/// UTF-8, with the characters that the bytes encode.
#[verifier::external_body]
fn decode_utf8_strict(b: &[u8]) -> (r: Option<String>)
    ensures
        r is Some <==> valid_utf8(b@),
        r matches Some(s) ==> s@ == decode_utf8(b@),
{
    match std::str::from_utf8(b) {
        Ok(s) => Some(s.to_string()),
        Err(_) => None,
    }
}

/// `String::from_utf8_lossy`: for valid UTF-8 its decoding (as its
/// documentation says); in general the text named [`utf8_lossy`], which for
/// invalid input this contract does not spell out.
#[verifier::external_body]
fn decode_utf8_lossy(b: &[u8]) -> (r: String)
    ensures
        r@ == utf8_lossy(b@),
        valid_utf8(b@) ==> r@ == decode_utf8(b@),
{
    String::from_utf8_lossy(b).into_owned()
}

proof fn lemma_le_u32_roundtrip(v: u32)
    ensures
        ((v % 0x100) as u8) as int + (((v / 0x100) % 0x100) as u8) as int * 0x100 + (((v / 0x1_0000)
            % 0x100) as u8) as int * 0x1_0000 + ((v / 0x100_0000) as u8) as int * 0x100_0000 == v,
{
    assert(((v % 0x100) as u8) as int + (((v / 0x100) % 0x100) as u8) as int * 0x100 + (((v
        / 0x1_0000) % 0x100) as u8) as int * 0x1_0000 + ((v / 0x100_0000) as u8) as int
        * 0x100_0000 == v) by (nonlinear_arith);
}

fn le_u32_at(b: &[u8], at: usize) -> (r: u32)
    requires
        at + 4 <= b@.len(),
    ensures
        r == le_u32(b@, at as int),
{
    let v = b[at] as u32 + (b[at + 1] as u32) * 0x100 + (b[at + 2] as u32) * 0x1_0000 + (b[at
        + 3] as u32) * 0x100_0000;
    v
}

impl TraceEvent {
    /// The event that a probe records for the current task: the pid is the
    /// upper half of `bpf_get_current_pid_tgid()` (the thread group id).
    pub fn from_task(pid_tgid: u64, event_type: u32, comm: [u8; 16]) -> (r: TraceEvent)
        ensures
            r.pid == pid_tgid / 0x1_0000_0000,
            r.event_type == event_type,
            r.comm == comm,
    {
        TraceEvent { pid: (pid_tgid / 0x1_0000_0000) as u32, event_type, comm }
    }

    /// The bytes of the event as the ring buffer carries them (see
    /// [`encoded`]).
    pub fn encode(&self) -> (r: Vec<u8>)
        ensures
            r@ == encoded(*self),
    {
        let mut r: Vec<u8> = Vec::new();
        r.push((self.pid % 0x100) as u8);
        r.push(((self.pid / 0x100) % 0x100) as u8);
        r.push(((self.pid / 0x1_0000) % 0x100) as u8);
        r.push((self.pid / 0x100_0000) as u8);
        r.push((self.event_type % 0x100) as u8);
        r.push(((self.event_type / 0x100) % 0x100) as u8);
        r.push(((self.event_type / 0x1_0000) % 0x100) as u8);
        r.push((self.event_type / 0x100_0000) as u8);
        let mut i: usize = 0;
        while i < 16
            invariant
                i <= 16,
                r@.len() == 8 + i,
                r@ =~= encoded(*self).take(8 + i),
            decreases 16 - i,
        {
            r.push(self.comm[i]);
            i += 1;
        }
        assert(encoded(*self).take(24) =~= encoded(*self));
        r
    }

    /// Reads an event from the first [`TRACE_EVENT_SIZE`] bytes of `b`, which
    /// need not be aligned. `None` where `b` is shorter.
    pub fn decode(b: &[u8]) -> (r: Option<TraceEvent>)
        ensures
            b@.len() < 24 ==> r is None,
            b@.len() >= 24 ==> (r matches Some(e) && e.pid == le_u32(b@, 0) && e.event_type
                == le_u32(b@, 4) && e.comm@ == b@.subrange(8, 24)),
    {
        if b.len() < TRACE_EVENT_SIZE {
            return None;
        }
        let pid = le_u32_at(b, 0);
        let event_type = le_u32_at(b, 4);
        let mut comm = [0u8; 16];
        let mut i: usize = 0;
        while i < 16
            invariant
                i <= 16,
                b@.len() >= 24,
                comm@.len() == 16,
                forall|j: int| 0 <= j < i ==> comm@[j] == b@[8 + j],
            decreases 16 - i,
        {
            comm[i] = b[8 + i];
            i += 1;
        }
        assert(comm@ =~= b@.subrange(8, 24));
        Some(TraceEvent { pid, event_type, comm })
    }

    /// The length of `comm` without its trailing NUL bytes.
    pub fn comm_len(&self) -> (n: usize)
        ensures
            n <= 16,
            self.comm@.take(n as int) == trim_nul_bytes(self.comm@),
    {
        let mut n: usize = 16;
        assert(self.comm@.take(16) =~= self.comm@);
        while n > 0 && self.comm[n - 1] == 0
            invariant
                n <= 16,
                trim_nul_bytes(self.comm@) == trim_nul_bytes(self.comm@.take(n as int)),
            decreases n,
        {
            assert(self.comm@.take(n as int).drop_last() =~= self.comm@.take(n - 1));
            n -= 1;
        }
        n
    }

    /// The bytes of `comm` before its trailing NULs.
    pub fn comm_bytes(&self) -> (r: Vec<u8>)
        ensures
            r@ == trim_nul_bytes(self.comm@),
    {
        let n = self.comm_len();
        let mut r: Vec<u8> = Vec::new();
        let mut i: usize = 0;
        while i < n
            invariant
                i <= n <= 16,
                r@ =~= self.comm@.take(i as int),
            decreases n - i,
        {
            r.push(self.comm[i]);
            i += 1;
        }
        r
    }

    /// The command name as the event's debug output shows it: `comm` decoded
    /// as UTF-8 without its trailing NULs, or `unknown` where it is not valid
    /// UTF-8.
    pub fn comm_text(&self) -> (r: String)
        ensures
            valid_utf8(self.comm@) ==> r@ == trim_nul_chars(decode_utf8(self.comm@)),
            !valid_utf8(self.comm@) ==> r@ == "unknown"@,
    {
        match decode_utf8_strict(self.comm.as_slice()) {
            None => String::from_str("unknown"),
            Some(s) => {
                let cs = crate::text::to_chars(s.as_str());
                let mut n = cs.len();
                assert(cs@.take(n as int) =~= cs@);
                while n > 0 && cs[n - 1] == '\0'
                    invariant
                        n <= cs@.len(),
                        trim_nul_chars(cs@) == trim_nul_chars(cs@.take(n as int)),
                    decreases n,
                {
                    assert(cs@.take(n as int).drop_last() =~= cs@.take(n - 1));
                    n -= 1;
                }
                crate::text::string_of(&cs, 0, n)
            },
        }
    }

    /// The command name as the trace view shows it: `comm` without its
    /// trailing NULs, decoded as UTF-8 with invalid sequences replaced.
    pub fn comm_lossy(&self) -> (r: String)
        ensures
            r@ == utf8_lossy(trim_nul_bytes(self.comm@)),
            valid_utf8(trim_nul_bytes(self.comm@)) ==> r@ == decode_utf8(trim_nul_bytes(self.comm@)),
    {
        let b = self.comm_bytes();
        decode_utf8_lossy(b.as_slice())
    }
}

/// Decoding the bytes of an encoded event gives the event back.
pub proof fn lemma_decode_encoded(e: TraceEvent)
    ensures
        encoded(e).len() == 24,
        le_u32(encoded(e), 0) == e.pid,
        le_u32(encoded(e), 4) == e.event_type,
        encoded(e).subrange(8, 24) == e.comm@,
{
    lemma_le_u32_roundtrip(e.pid);
    lemma_le_u32_roundtrip(e.event_type);
    assert(encoded(e).subrange(8, 24) =~= e.comm@);
}

} // verus!
