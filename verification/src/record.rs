//! The records the audit helper streams back, and what they say.
//!
//! The eBPF programs fill one fixed-layout record per access and the helper
//! frames them onto its output: a tag byte, then the record's bytes, or a
//! tag byte and a count of records the kernel could not deliver. The layout
//! is versioned, so a helper and a tool built apart reject each other rather
//! than misreading. Reading the stream and the links a relative path is
//! resolved against is the caller's; decoding, counting and turning a record
//! into an access event is done here.

use vstd::prelude::*;

use crate::event::{AccessEvent, AccessKind, Resolution, Resource, ResourceView};
use crate::path::{join_spec, parse_spec, PathBuf, PathView};
use crate::text::{decimal, push_decimal, push_signed, push_str, signed_decimal, string_of};

verus! {

/// Version of the helper protocol and record layout.
pub const PROTOCOL_VERSION: u8 = 1;
/// Byte the helper writes once the observation scope is seeded, after which
/// the target may be released.
pub const ACK: u8 = 2;
/// Frame tag for a record.
pub const FRAME_RECORD: u8 = 16;
/// Frame tag for the closing summary, followed by a little-endian count of
/// records the kernel could not deliver.
pub const FRAME_SUMMARY: u8 = 17;

/// Filesystem read.
pub const KIND_READ: u32 = 0;
/// Filesystem write.
pub const KIND_WRITE: u32 = 1;
/// Filesystem execute.
pub const KIND_EXECUTE: u32 = 2;
/// Outbound connect.
pub const KIND_CONNECT: u32 = 3;
/// Socket bind.
pub const KIND_BIND: u32 = 4;

/// Address family for an event with no network address.
pub const FAMILY_NONE: u16 = 0;
/// IPv4, with the address in the first four bytes of the record's address.
pub const FAMILY_INET: u16 = 2;
/// IPv6, with the address in all sixteen bytes of the record's address.
pub const FAMILY_INET6: u16 = 10;

/// Directory-descriptor value meaning "relative to the working directory".
pub const AT_FDCWD: i32 = -100;

/// Maximum path length captured per record, in bytes.
pub const PATH_LEN: usize = 256;

/// Size of a record on the wire, in bytes.
pub const RECORD_SIZE: usize = 304;

/// Most events a trace keeps, to bound memory for chatty targets; the rest
/// are counted as dropped.
pub const MAX_EVENTS: usize = 200000;

/// A fixed-size access record passed from an eBPF program to userspace.
#[derive(Clone, Copy)]
pub struct AccessRecord {
    /// One of the `KIND_*` constants.
    pub kind: u32,
    /// PID of the accessing process.
    pub pid: u32,
    /// Monotonic timestamp of the access, in nanoseconds.
    pub timestamp_ns: u64,
    /// Network address, in network byte order. IPv4 uses the first four bytes.
    pub addr: [u8; 16],
    /// One of the `FAMILY_*` constants.
    pub family: u16,
    /// TCP or UDP port, in host byte order.
    pub port: u16,
    /// Number of valid bytes in `path`.
    pub path_len: u16,
    /// Padding, kept so the layout has no implicit holes.
    pub _padding: u16,
    /// Directory the path is relative to, or `AT_FDCWD`.
    pub dirfd: i32,
    /// Open flags as passed to the kernel.
    pub flags: u32,
    /// Accessed path, as the caller supplied it. Not NUL terminated.
    pub path: [u8; 256],
}

/// A record as plain values.
pub struct RecordView {
    pub kind: u32,
    pub pid: u32,
    pub timestamp_ns: u64,
    pub addr: Seq<u8>,
    pub family: u16,
    pub port: u16,
    pub path_len: u16,
    pub padding: u16,
    pub dirfd: i32,
    pub flags: u32,
    pub path: Seq<u8>,
}

impl View for AccessRecord {
    type V = RecordView;

    open spec fn view(&self) -> RecordView {
        RecordView {
            kind: self.kind,
            pid: self.pid,
            timestamp_ns: self.timestamp_ns,
            addr: self.addr@,
            family: self.family,
            port: self.port,
            path_len: self.path_len,
            padding: self._padding,
            dirfd: self.dirfd,
            flags: self.flags,
            path: self.path@,
        }
    }
}

impl AccessRecord {
    /// An empty record, for a program to fill in.
    pub fn empty() -> (r: AccessRecord)
        ensures
            r@.kind == KIND_READ,
            r@.pid == 0,
            r@.timestamp_ns == 0,
            r@.addr == Seq::new(16, |i: int| 0u8),
            r@.family == FAMILY_NONE,
            r@.port == 0,
            r@.path_len == 0,
            r@.padding == 0,
            r@.dirfd == AT_FDCWD,
            r@.flags == 0,
            r@.path == Seq::new(256, |i: int| 0u8),
    {
        let r = AccessRecord {
            kind: KIND_READ,
            pid: 0,
            timestamp_ns: 0,
            addr: [0u8; 16],
            family: FAMILY_NONE,
            port: 0,
            path_len: 0,
            _padding: 0,
            dirfd: AT_FDCWD,
            flags: 0,
            path: [0u8; 256],
        };
        assert(r@.addr =~= Seq::new(16, |i: int| 0u8));
        assert(r@.path =~= Seq::new(256, |i: int| 0u8));
        r
    }
}

// ---------------------------------------------------------------------------
// Decoding.

/// The little-endian number in `b[at..at + 2]`.
pub open spec fn le16(b: Seq<u8>, at: int) -> int {
    b[at] + 256 * b[at + 1]
}

/// The little-endian number in `b[at..at + 4]`.
pub open spec fn le32(b: Seq<u8>, at: int) -> int {
    le16(b, at) + 65536 * le16(b, at + 2)
}

/// The little-endian number in `b[at..at + 8]`.
pub open spec fn le64(b: Seq<u8>, at: int) -> int {
    le32(b, at) + 4294967296 * le32(b, at + 4)
}

/// The record laid out in `b`, which holds at least a record's bytes: each
/// field little-endian at its offset in the C layout.
pub open spec fn decode_spec(b: Seq<u8>) -> RecordView {
    RecordView {
        kind: le32(b, 0) as u32,
        pid: le32(b, 4) as u32,
        timestamp_ns: le64(b, 8) as u64,
        addr: b.subrange(16, 32),
        family: le16(b, 32) as u16,
        port: le16(b, 34) as u16,
        path_len: le16(b, 36) as u16,
        padding: le16(b, 38) as u16,
        dirfd: le32(b, 40) as i32,
        flags: le32(b, 44) as u32,
        path: b.subrange(48, 304),
    }
}

fn read16(b: &Vec<u8>, at: usize) -> (r: u16)
    requires
        at + 2 <= b@.len(),
    ensures
        r == le16(b@, at as int),
{
    let _n = b.len();
    (b[at] as u16) + (b[at + 1] as u16) * 256
}

fn read32(b: &Vec<u8>, at: usize) -> (r: u32)
    requires
        at + 4 <= b@.len(),
    ensures
        r == le32(b@, at as int),
{
    let _n = b.len();
    let lo = read16(b, at);
    let hi = read16(b, at + 2);
    (lo as u32) + (hi as u32) * 65536
}

fn read64(b: &Vec<u8>, at: usize) -> (r: u64)
    requires
        at + 8 <= b@.len(),
    ensures
        r == le64(b@, at as int),
{
    let _n = b.len();
    let lo = read32(b, at);
    let hi = read32(b, at + 4);
    (lo as u64) + (hi as u64) * 4294967296
}

/// Decodes the record whose bytes start at `at`.
pub fn decode_record(b: &Vec<u8>, at: usize) -> (r: AccessRecord)
    requires
        at + RECORD_SIZE <= b@.len(),
    ensures
        r@ == decode_spec(b@.subrange(at as int, at + RECORD_SIZE)),
{
    let ghost s = b@.subrange(at as int, at + RECORD_SIZE);
    let n = b.len();
    let mut addr = [0u8; 16];
    let mut i: usize = 0;
    while i < 16
        invariant
            at + RECORD_SIZE <= b@.len(),
            n == b@.len(),
            i <= 16,
            addr@.len() == 16,
            forall|j: int| 0 <= j < i ==> addr@[j] == b@[at + 16 + j],
        decreases 16 - i,
    {
        addr.set(i, b[at + 16 + i]);
        i = i + 1;
    }
    let mut path = [0u8; 256];
    let mut k: usize = 0;
    while k < 256
        invariant
            at + RECORD_SIZE <= b@.len(),
            n == b@.len(),
            k <= 256,
            path@.len() == 256,
            forall|j: int| 0 <= j < k ==> path@[j] == b@[at + 48 + j],
        decreases 256 - k,
    {
        path.set(k, b[at + 48 + k]);
        k = k + 1;
    }
    let dirfd_bits = read32(b, at + 40);
    let r = AccessRecord {
        kind: read32(b, at),
        pid: read32(b, at + 4),
        timestamp_ns: read64(b, at + 8),
        addr,
        family: read16(b, at + 32),
        port: read16(b, at + 34),
        path_len: read16(b, at + 36),
        _padding: read16(b, at + 38),
        dirfd: #[verifier::truncate] (dirfd_bits as i32),
        flags: read32(b, at + 44),
        path,
    };
    assert(r@.addr =~= s.subrange(16, 32));
    assert(r@.path =~= s.subrange(48, 304));
    assert(r@ == decode_spec(s));
    r
}

// ---------------------------------------------------------------------------
// The framed stream.

/// What the helper's stream from its front says: the records kept, given
/// that `kept` were kept before it, and how many records were lost, the
/// ones past the limit and the ones the kernel could not deliver. A frame
/// cut short, or an unknown tag, ends the stream.
pub open spec fn frames_spec(b: Seq<u8>, kept: nat) -> (Seq<RecordView>, int)
    decreases b.len(),
{
    if b.len() == 0 {
        (seq![], 0)
    } else if b[0] == FRAME_RECORD {
        if b.len() < 1 + RECORD_SIZE {
            (seq![], 0)
        } else {
            let rest = b.subrange(1 + RECORD_SIZE, b.len() as int);
            if kept >= MAX_EVENTS {
                let (rs, d) = frames_spec(rest, kept);
                (rs, d + 1)
            } else {
                let (rs, d) = frames_spec(rest, kept + 1);
                (seq![decode_spec(b.subrange(1, 1 + RECORD_SIZE))] + rs, d)
            }
        }
    } else if b[0] == FRAME_SUMMARY {
        if b.len() < 9 {
            (seq![], 0)
        } else {
            let (rs, d) = frames_spec(b.subrange(9, b.len() as int), kept);
            (rs, d + le64(b, 1))
        }
    } else {
        (seq![], 0)
    }
}

/// A trace keeps at most `MAX_EVENTS` records, however long the helper's
/// stream: past the limit, records are counted as lost instead.
pub proof fn law_trace_is_bounded(b: Seq<u8>, kept: nat)
    requires
        kept <= MAX_EVENTS,
    ensures
        kept + frames_spec(b, kept).0.len() <= MAX_EVENTS,
    decreases b.len(),
{
    if b.len() == 0 {
    } else if b[0] == FRAME_RECORD {
        if b.len() >= 1 + RECORD_SIZE {
            let rest = b.subrange(1 + RECORD_SIZE, b.len() as int);
            if kept >= MAX_EVENTS {
                law_trace_is_bounded(rest, kept);
            } else {
                law_trace_is_bounded(rest, kept + 1);
            }
        }
    } else if b[0] == FRAME_SUMMARY {
        if b.len() >= 9 {
            law_trace_is_bounded(b.subrange(9, b.len() as int), kept);
        }
    }
}

/// `n`, or the largest count when it does not fit.
pub open spec fn saturate(n: int) -> u64 {
    if n > u64::MAX { u64::MAX } else { n as u64 }
}

proof fn lemma_frames_lost_nonneg(b: Seq<u8>, kept: nat)
    ensures
        frames_spec(b, kept).1 >= 0,
    decreases b.len(),
{
    if b.len() == 0 {
    } else if b[0] == FRAME_RECORD {
        if b.len() >= 1 + RECORD_SIZE {
            let rest = b.subrange(1 + RECORD_SIZE, b.len() as int);
            if kept >= MAX_EVENTS {
                lemma_frames_lost_nonneg(rest, kept);
            } else {
                lemma_frames_lost_nonneg(rest, kept + 1);
            }
        }
    } else if b[0] == FRAME_SUMMARY {
        if b.len() >= 9 {
            lemma_frames_lost_nonneg(b.subrange(9, b.len() as int), kept);
        }
    }
}

/// The records in the helper's stream, and how many were lost (saturating
/// at the largest count).
pub fn read_frames(b: &Vec<u8>) -> (r: (Vec<AccessRecord>, u64))
    ensures
        r.0@.map_values(|x: AccessRecord| x@) == frames_spec(b@, 0).0,
        r.1 == saturate(frames_spec(b@, 0).1),
{
    let mut records: Vec<AccessRecord> = Vec::new();
    let mut dropped: u64 = 0;
    let mut pos: usize = 0;
    let ghost whole = frames_spec(b@, 0);
    assert(b@.subrange(0, b@.len() as int) =~= b@);
    assert(records@.map_values(|x: AccessRecord| x@) =~= Seq::<RecordView>::empty());
    proof {
        lemma_frames_lost_nonneg(b@, 0);
    }
    while pos < b.len()
        invariant_except_break
            pos <= b@.len(),
            records@.len() <= MAX_EVENTS,
            whole == frames_spec(b@, 0),
            records@.map_values(|x: AccessRecord| x@) + frames_spec(b@.subrange(pos as int, b@.len() as int), records@.len()).0 == whole.0,
            saturate(dropped + frames_spec(b@.subrange(pos as int, b@.len() as int), records@.len()).1) == saturate(whole.1),
        ensures
            records@.map_values(|x: AccessRecord| x@) == whole.0,
            dropped == saturate(whole.1),
        decreases b@.len() - pos,
    {
        let ghost rest = b@.subrange(pos as int, b@.len() as int);
        let ghost before = records@.map_values(|x: AccessRecord| x@);
        let ghost d0 = dropped;
        let tag = b[pos];
        assert(rest[0] == tag);
        if tag == FRAME_RECORD {
            if b.len() - pos < 1 + RECORD_SIZE {
                assert(frames_spec(rest, records@.len()).0 =~= Seq::<RecordView>::empty());
                assert(before =~= before + Seq::<RecordView>::empty());
                break;
            }
            let ghost next = rest.subrange(1 + RECORD_SIZE, rest.len() as int);
            assert(next =~= b@.subrange(pos + 1 + RECORD_SIZE, b@.len() as int));
            if records.len() >= MAX_EVENTS {
                proof {
                    lemma_frames_lost_nonneg(next, records@.len());
                }
                dropped = dropped.saturating_add(1);
            } else {
                let rec = decode_record(b, pos + 1);
                assert(b@.subrange(pos + 1, pos + 1 + RECORD_SIZE) =~= rest.subrange(1, 1 + RECORD_SIZE));
                records.push(rec);
                assert(records@.map_values(|x: AccessRecord| x@) =~= before.push(rec@));
                proof {
                    lemma_frames_lost_nonneg(next, records@.len());
                    assert(before.push(rec@) + frames_spec(next, records@.len()).0 =~= before + (seq![rec@] + frames_spec(next, records@.len()).0));
                }
            }
            pos = pos + 1 + RECORD_SIZE;
        } else if tag == FRAME_SUMMARY {
            if b.len() - pos < 9 {
                assert(frames_spec(rest, records@.len()).0 =~= Seq::<RecordView>::empty());
                assert(before =~= before + Seq::<RecordView>::empty());
                break;
            }
            let lost = read64(b, pos + 1);
            assert(le64(rest, 1) == le64(b@, pos + 1));
            let ghost next = rest.subrange(9, rest.len() as int);
            assert(next =~= b@.subrange(pos + 9, b@.len() as int));
            proof {
                lemma_frames_lost_nonneg(next, records@.len());
            }
            dropped = dropped.saturating_add(lost);
            pos = pos + 9;
        } else {
            assert(frames_spec(rest, records@.len()).0 =~= Seq::<RecordView>::empty());
            assert(before =~= before + Seq::<RecordView>::empty());
            break;
        }
    }
    (records, dropped)
}

// ---------------------------------------------------------------------------
// From record to event.

/// What `String::from_utf8_lossy` makes of `bytes`: the text they encode,
/// with each invalid sequence replaced.
pub uninterp spec fn utf8_lossy(bytes: Seq<u8>) -> Seq<char>;

/// `String::from_utf8_lossy` of std, as an owned string.
#[verifier::external_body]
fn lossy_text(bytes: &Vec<u8>) -> (r: String)
    ensures
        r@ == utf8_lossy(bytes@),
{
    String::from_utf8_lossy(bytes.as_slice()).into_owned()
}

/// The access kind a record's kind number names; an unknown number is read
/// as a read.
pub open spec fn kind_of(k: u32) -> AccessKind {
    if k == KIND_WRITE {
        AccessKind::Write
    } else if k == KIND_EXECUTE {
        AccessKind::Execute
    } else if k == KIND_CONNECT {
        AccessKind::Connect
    } else if k == KIND_BIND {
        AccessKind::Bind
    } else {
        AccessKind::Read
    }
}

/// Whether an access kind is a network one.
pub open spec fn is_net(k: AccessKind) -> bool {
    k == AccessKind::Connect || k == AccessKind::Bind
}

/// The dotted-quad text of the IPv4 address in the first four bytes of `a`.
pub open spec fn ipv4_text(a: Seq<u8>) -> Seq<char> {
    decimal(a[0] as nat) + "."@ + decimal(a[1] as nat) + "."@ + decimal(a[2] as nat) + "."@ + decimal(a[3] as nat)
}

/// `s` without its trailing NUL characters.
pub open spec fn trim_nuls(s: Seq<char>) -> Seq<char>
    decreases s.len(),
{
    if s.len() > 0 && s.last() == '\0' { trim_nuls(s.drop_last()) } else { s }
}

/// How many of a record's path bytes are valid.
pub open spec fn valid_len(r: RecordView) -> int {
    if r.path_len as int <= PATH_LEN { r.path_len as int } else { PATH_LEN as int }
}

/// The path a record names, as the caller supplied it.
pub open spec fn record_path(r: RecordView) -> PathView {
    parse_spec(trim_nuls(utf8_lossy(r.path.subrange(0, valid_len(r)))))
}

/// The host of a network record: the IPv4 address as text, the IPv6 address
/// as the caller rendered it, or nothing for another family.
pub open spec fn host_of(r: RecordView, inet6: Option<Seq<char>>) -> Option<Seq<char>> {
    if r.family == FAMILY_INET {
        Some(ipv4_text(r.addr))
    } else if r.family == FAMILY_INET6 {
        inet6
    } else {
        None
    }
}

/// The resource and resolution of a record's event. A network record names
/// its host and port. A record with an absolute path names it; a relative
/// path is resolved against `base`, the directory the accessing process
/// resolved it against, or kept as it is and marked unresolved when that
/// could not be read.
pub open spec fn resource_of(r: RecordView, inet6: Option<Seq<char>>, base: Option<PathView>) -> (ResourceView, Resolution) {
    if is_net(kind_of(r.kind)) {
        (ResourceView::Net { host: host_of(r, inet6), port: r.port }, Resolution::NotApplicable)
    } else {
        let p = record_path(r);
        if p.absolute {
            (ResourceView::Path(p), Resolution::Absolute)
        } else {
            match base {
                Some(b) => (ResourceView::Path(join_spec(b, p)), Resolution::Userspace),
                None => (ResourceView::Path(p), Resolution::Unresolved),
            }
        }
    }
}

/// The link a relative path of a record is resolved through: the accessing
/// process's working directory, or the directory descriptor it named.
pub open spec fn link_spec(r: RecordView) -> Option<Seq<char>> {
    if is_net(kind_of(r.kind)) || record_path(r).absolute {
        None
    } else if r.dirfd == AT_FDCWD {
        Some("/proc/"@ + decimal(r.pid as nat) + "/cwd"@)
    } else {
        Some("/proc/"@ + decimal(r.pid as nat) + "/fd/"@ + signed_decimal(r.dirfd as int))
    }
}

fn kind_from(k: u32) -> (r: AccessKind)
    ensures
        r == kind_of(k),
{
    if k == KIND_WRITE {
        AccessKind::Write
    } else if k == KIND_EXECUTE {
        AccessKind::Execute
    } else if k == KIND_CONNECT {
        AccessKind::Connect
    } else if k == KIND_BIND {
        AccessKind::Bind
    } else {
        AccessKind::Read
    }
}

/// The path a record names.
fn path_of(record: &AccessRecord) -> (r: PathBuf)
    ensures
        r@ == record_path(record@),
{
    let len: usize = if (record.path_len as usize) <= PATH_LEN { record.path_len as usize } else { PATH_LEN };
    let mut bytes: Vec<u8> = Vec::new();
    let mut i: usize = 0;
    while i < len
        invariant
            len <= PATH_LEN,
            record.path@.len() == PATH_LEN,
            i <= len,
            bytes@ == record.path@.subrange(0, i as int),
        decreases len - i,
    {
        bytes.push(record.path[i]);
        i = i + 1;
        assert(bytes@ =~= record.path@.subrange(0, i as int));
    }
    let text = lossy_text(&bytes);
    let cs = crate::text::chars_of(text.as_str());
    let mut end: usize = cs.len();
    assert(cs@.subrange(0, cs@.len() as int) =~= cs@);
    while end > 0 && cs[end - 1] == '\0'
        invariant
            end <= cs@.len(),
            trim_nuls(cs@.subrange(0, end as int)) == trim_nuls(cs@),
        decreases end,
    {
        assert(cs@.subrange(0, end as int).drop_last() =~= cs@.subrange(0, end - 1));
        end = end - 1;
    }
    let mut kept: Vec<char> = Vec::new();
    let mut k: usize = 0;
    while k < end
        invariant
            end <= cs@.len(),
            k <= end,
            kept@ == cs@.subrange(0, k as int),
        decreases end - k,
    {
        kept.push(cs[k]);
        k = k + 1;
        assert(kept@ =~= cs@.subrange(0, k as int));
    }
    assert(trim_nuls(kept@) == kept@);
    let s = string_of(&kept);
    PathBuf::parse(s.as_str())
}

/// The dotted-quad text of an IPv4 address.
fn ipv4_string(a: &[u8; 16]) -> (r: String)
    ensures
        r@ == ipv4_text(a@),
{
    let mut out: Vec<char> = Vec::new();
    push_decimal(&mut out, a[0] as u64);
    out.push('.');
    push_decimal(&mut out, a[1] as u64);
    out.push('.');
    push_decimal(&mut out, a[2] as u64);
    out.push('.');
    push_decimal(&mut out, a[3] as u64);
    proof {
        reveal_strlit(".");
    }
    assert(out@ =~= ipv4_text(a@));
    string_of(&out)
}

impl AccessRecord {
    /// The link the record's relative path is resolved through, when it
    /// names a relative path.
    pub fn relative_link(&self) -> (r: Option<String>)
        ensures
            match r {
                Some(l) => link_spec(self@) == Some(l@),
                None => link_spec(self@) is None,
            },
    {
        let kind = kind_from(self.kind);
        if matches!(kind, AccessKind::Connect | AccessKind::Bind) {
            return None;
        }
        let p = path_of(self);
        if p.absolute {
            return None;
        }
        let mut out: Vec<char> = Vec::new();
        push_str(&mut out, "/proc/");
        push_decimal(&mut out, self.pid as u64);
        if self.dirfd == AT_FDCWD {
            push_str(&mut out, "/cwd");
        } else {
            push_str(&mut out, "/fd/");
            push_signed(&mut out, self.dirfd);
        }
        Some(string_of(&out))
    }

    /// The access event a record describes. `inet6` is the text of the
    /// record's IPv6 address, for a record of that family; `base` is the
    /// directory its relative path resolves against, read through
    /// [`AccessRecord::relative_link`], or `None` when it could not be read.
    pub fn to_event(&self, inet6: Option<String>, base: Option<PathBuf>) -> (r: AccessEvent)
        ensures
            r.kind == kind_of(self@.kind),
            (r.resource@, r.resolution) == resource_of(
                self@,
                match inet6 { Some(s) => Some(s@), None => None },
                match base { Some(b) => Some(b@), None => None },
            ),
            r.pid == self.pid,
            r.timestamp_ns == self.timestamp_ns,
    {
        let kind = kind_from(self.kind);
        let (resource, resolution) = if matches!(kind, AccessKind::Connect | AccessKind::Bind) {
            let host = if self.family == FAMILY_INET {
                Some(ipv4_string(&self.addr))
            } else if self.family == FAMILY_INET6 {
                inet6
            } else {
                None
            };
            (Resource::Net { host, port: self.port }, Resolution::NotApplicable)
        } else {
            let p = path_of(self);
            if p.absolute {
                (Resource::Path(p), Resolution::Absolute)
            } else {
                match base {
                    Some(b) => (Resource::Path(b.join(&p)), Resolution::Userspace),
                    None => (Resource::Path(p), Resolution::Unresolved),
                }
            }
        };
        AccessEvent { kind, resource, pid: self.pid, timestamp_ns: self.timestamp_ns, resolution }
    }
}

} // verus!
