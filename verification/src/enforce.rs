//! The enforcement backend's decisions.
//!
//! Enforcement builds a deny-by-default confinement from a policy: Landlock
//! for filesystem and network access, seccomp for the syscall surface, a
//! network namespace for egress, namespace isolation for the target's view of
//! the filesystem, and cgroup v2 for resource limits. Every layer can be
//! absent or partial on a host and degrades quietly so a program still runs;
//! the run report is what keeps that from passing unnoticed. What the host
//! offers is probed by the caller, and the mechanisms are applied by it; which
//! layers apply, what each is given, and what the report says is decided
//! here.

use vstd::prelude::*;

use crate::merge::strs;
use crate::path::{parse_spec, render, PathBuf, PathView};
use crate::network::{select, select_spec, NetworkMode};
use crate::policy::{Access, Egress, Policy, ResourceLimits, beneath_a_grant, keep, no_limits, paths_view};
use crate::world::World;
use crate::profile::{joined, push_joined};
use crate::text::{chars_of, decimal, owned, push_decimal, push_signed, push_str, signed_decimal, string_of};

verus! {

/// A program to run under a backend.
#[derive(Debug, Clone)]
pub struct Target {
    /// Path to the executable.
    pub program: PathBuf,
    /// Arguments passed to the executable.
    pub args: Vec<String>,
    /// Working directory, or `None` to inherit the current one.
    pub cwd: Option<PathBuf>,
}

/// An error produced while establishing a sandbox or running a target.
#[derive(Debug, Clone)]
pub enum BackendError {
    /// The backend or a required feature is not yet implemented.
    Unimplemented(String),
    /// A required kernel feature is unavailable.
    Unsupported(String),
    /// An underlying I/O error occurred.
    Io(String),
}

impl BackendError {
    /// The error as a person reads it.
    pub fn message(&self) -> (r: String)
        ensures
            r@ == match self {
                BackendError::Unimplemented(s) => "not yet implemented: "@ + s@,
                BackendError::Unsupported(s) => "required kernel feature unavailable: "@ + s@,
                BackendError::Io(s) => "io error: "@ + s@,
            },
    {
        let mut out: Vec<char> = Vec::new();
        match self {
            BackendError::Unimplemented(s) => {
                push_str(&mut out, "not yet implemented: ");
                push_str(&mut out, s.as_str());
            },
            BackendError::Unsupported(s) => {
                push_str(&mut out, "required kernel feature unavailable: ");
                push_str(&mut out, s.as_str());
            },
            BackendError::Io(s) => {
                push_str(&mut out, "io error: ");
                push_str(&mut out, s.as_str());
            },
        }
        string_of(&out)
    }
}

/// A sandbox execution backend: runs a target confined by a policy and
/// returns the target's exit code.
pub trait Backend {
    /// Run `target` confined by `policy`, returning the target's exit code.
    fn run(&self, policy: &crate::policy::Policy, target: &Target) -> Result<i32, BackendError>;
}

/// How a run reports what it enforced.
#[derive(Debug, Clone, Copy, PartialEq, Eq)]
pub enum Summary {
    /// A short block on stderr after the target exits.
    Text,
    /// One line of JSON, for a caller that parses it.
    Json,
    /// Nothing.
    Quiet,
}

/// Deny-by-default enforcement backend.
#[derive(Debug, Clone, Copy)]
pub struct EnforceBackend {
    /// Reconstruct the target's world with namespaces (defense in depth).
    pub isolate: bool,
    /// Stop the target just before it executes, so a caller can attach
    /// something to it before it runs.
    pub stop_before_exec: bool,
    /// How to report what the run enforced.
    pub summary: Summary,
    /// Put the target in a cgroup of its own even when the policy sets no
    /// limits, so something else can scope to it.
    pub always_cgroup: bool,
}

impl EnforceBackend {
    /// The plain backend: no isolation, no stop before exec, a text summary,
    /// and a cgroup only when the policy sets limits.
    pub fn plain() -> (r: EnforceBackend)
        ensures
            !r.isolate,
            !r.stop_before_exec,
            r.summary == Summary::Text,
            !r.always_cgroup,
    {
        EnforceBackend { isolate: false, stop_before_exec: false, summary: Summary::Text, always_cgroup: false }
    }
}

/// What a run actually enforced: the layers applied, and the layers the host
/// could not provide with the reason.
#[derive(Debug, Clone)]
pub struct RunReport {
    /// Layers that were applied.
    pub applied: Vec<String>,
    /// Layers the host could not provide, with the reason.
    pub skipped: Vec<(String, String)>,
}

/// A run report as plain values.
pub struct RunReportView {
    pub applied: Seq<Seq<char>>,
    pub skipped: Seq<(Seq<char>, Seq<char>)>,
}

impl View for RunReport {
    type V = RunReportView;

    open spec fn view(&self) -> RunReportView {
        RunReportView {
            applied: strs(self.applied@),
            skipped: self.skipped@.map_values(|p: (String, String)| (p.0@, p.1@)),
        }
    }
}

/// A hexadecimal digit, lower case.
pub open spec fn hex_digit(d: nat) -> char {
    if d < 10 { ((d + 48) as u32) as char } else { ((d + 87) as u32) as char }
}

/// A character as it stands inside a JSON string: a quote and a backslash
/// behind a backslash, the control characters by their short escape where
/// JSON has one and as `\u00XX` otherwise, every other character as it is.
pub open spec fn json_escape_char(c: char) -> Seq<char> {
    if c == '"' {
        seq!['\\', '"']
    } else if c == '\\' {
        seq!['\\', '\\']
    } else if c == '\n' {
        seq!['\\', 'n']
    } else if c == '\r' {
        seq!['\\', 'r']
    } else if c == '\t' {
        seq!['\\', 't']
    } else if (c as u32) == 8 {
        seq!['\\', 'b']
    } else if (c as u32) == 12 {
        seq!['\\', 'f']
    } else if (c as u32) < 32 {
        seq!['\\', 'u', '0', '0', hex_digit((c as u32 / 16) as nat), hex_digit((c as u32 % 16) as nat)]
    } else {
        seq![c]
    }
}

/// A text with each character escaped for a JSON string.
pub open spec fn json_escaped(s: Seq<char>) -> Seq<char>
    decreases s.len(),
{
    if s.len() == 0 { seq![] } else { json_escaped(s.drop_last()) + json_escape_char(s.last()) }
}

/// The value of a hexadecimal digit, either case.
pub open spec fn hex_val(c: char) -> Option<nat> {
    if '0' <= c && c <= '9' {
        Some((c as u32 - 48) as nat)
    } else if 'a' <= c && c <= 'f' {
        Some((c as u32 - 87) as nat)
    } else if 'A' <= c && c <= 'F' {
        Some((c as u32 - 55) as nat)
    } else {
        None
    }
}

/// The character a two-character JSON escape `\e` stands for.
pub open spec fn short_escape(e: char) -> Option<char> {
    if e == '"' {
        Some('"')
    } else if e == '\\' {
        Some('\\')
    } else if e == '/' {
        Some('/')
    } else if e == 'b' {
        Some(8u32 as char)
    } else if e == 'f' {
        Some(12u32 as char)
    } else if e == 'n' {
        Some('\n')
    } else if e == 'r' {
        Some('\r')
    } else if e == 't' {
        Some('\t')
    } else {
        None
    }
}

/// The character a `\uXXXX` escape at the start of `t` stands for, when it
/// names one outside the surrogates.
pub open spec fn unicode_escape(t: Seq<char>) -> Option<char> {
    if t.len() >= 6 && t[0] == '\\' && t[1] == 'u' && hex_val(t[2]) is Some && hex_val(t[3]) is Some
        && hex_val(t[4]) is Some && hex_val(t[5]) is Some {
        let v = 4096 * hex_val(t[2])->0 + 256 * hex_val(t[3])->0 + 16 * hex_val(t[4])->0 + hex_val(t[5])->0;
        if v < 0xD800 || 0xE000 <= v { Some((v as u32) as char) } else { None }
    } else {
        None
    }
}

/// What the contents of a JSON string (between its quotes) read as, by the
/// grammar of JSON strings: any character but a quote, a backslash or a
/// control character stands for itself, and a backslash begins one of the
/// escapes. `None` where the text is not the contents of a JSON string.
pub open spec fn json_read(t: Seq<char>) -> Option<Seq<char>>
    decreases t.len(),
{
    if t.len() == 0 {
        Some(seq![])
    } else if t[0] == '"' || (t[0] as u32) < 32 {
        None
    } else if t[0] != '\\' {
        match json_read(t.drop_first()) {
            Some(r) => Some(seq![t[0]] + r),
            None => None,
        }
    } else if t.len() >= 2 && short_escape(t[1]) is Some {
        match json_read(t.subrange(2, t.len() as int)) {
            Some(r) => Some(seq![short_escape(t[1])->0] + r),
            None => None,
        }
    } else if unicode_escape(t) is Some {
        match json_read(t.subrange(6, t.len() as int)) {
            Some(r) => Some(seq![unicode_escape(t)->0] + r),
            None => None,
        }
    } else {
        None
    }
}

proof fn lemma_escaped_front(s: Seq<char>)
    requires
        s.len() > 0,
    ensures
        json_escaped(s) == json_escape_char(s[0]) + json_escaped(s.drop_first()),
    decreases s.len(),
{
    if s.len() == 1 {
        assert(s.drop_first() =~= Seq::<char>::empty());
        assert(json_escaped(s.drop_last()) == Seq::<char>::empty()) by {
            assert(s.drop_last() =~= Seq::<char>::empty());
        }
    } else {
        lemma_escaped_front(s.drop_last());
        assert(s.drop_last().drop_first() =~= s.drop_first().drop_last());
        assert(s.drop_first().last() == s.last());
        assert(s.drop_last()[0] == s[0]);
    }
}

proof fn lemma_hex_round_trip(d: nat)
    requires
        d < 16,
    ensures
        hex_val(hex_digit(d)) == Some(d),
{
}

proof fn lemma_read_one(c: char, rest: Seq<char>)
    ensures
        json_read(json_escape_char(c) + rest) == match json_read(rest) {
            Some(r) => Some(seq![c] + r),
            None => None::<Seq<char>>,
        },
{
    let t = json_escape_char(c) + rest;
    if c == '"' || c == '\\' || c == '\n' || c == '\r' || c == '\t' || (c as u32) == 8 || (c as u32) == 12 {
        assert(t.subrange(2, t.len() as int) =~= rest);
        assert(t[0] == '\\');
    } else if (c as u32) < 32 {
        let n = c as u32;
        lemma_hex_round_trip((n / 16) as nat);
        lemma_hex_round_trip((n % 16) as nat);
        assert(t.subrange(6, t.len() as int) =~= rest);
        assert(t[0] == '\\' && t[1] == 'u');
        assert(short_escape(t[1]) is None);
        assert(hex_val(t[2]) == Some(0nat));
        assert(hex_val(t[3]) == Some(0nat));
        assert(4096 * 0 + 256 * 0 + 16 * ((n / 16) as nat) + ((n % 16) as nat) == n);
        assert(unicode_escape(t) == Some(c));
    } else {
        assert(t.drop_first() =~= rest);
        assert(t[0] == c);
    }
}

/// The JSON summary's strings read back as what they were written from:
/// each escaped text is the contents of a valid JSON string, and reading it
/// by the JSON grammar gives the original text.
pub proof fn law_json_strings_read_back(s: Seq<char>)
    ensures
        json_read(json_escaped(s)) == Some(s),
    decreases s.len(),
{
    if s.len() == 0 {
        assert(json_escaped(s) =~= Seq::<char>::empty());
    } else {
        lemma_escaped_front(s);
        law_json_strings_read_back(s.drop_first());
        lemma_read_one(s[0], json_escaped(s.drop_first()));
        assert(seq![s[0]] + s.drop_first() =~= s);
    }
}

/// `s` as a JSON string.
pub open spec fn json_quoted(s: Seq<char>) -> Seq<char> {
    seq!['"'] + json_escaped(s) + seq!['"']
}

/// A skipped layer as a JSON object.
pub open spec fn json_skipped(p: (Seq<char>, Seq<char>)) -> Seq<char> {
    "{\"layer\":"@ + json_quoted(p.0) + ",\"reason\":"@ + json_quoted(p.1) + "}"@
}

fn hex_char(d: u32) -> (c: char)
    requires
        d < 16,
    ensures
        c == hex_digit(d as nat),
{
    if d < 10 { char_of(d + 48) } else { char_of(d + 87) }
}

fn char_of(n: u32) -> (c: char)
    requires
        48 <= n < 58 || 97 <= n < 103,
    ensures
        c == (n as char),
{
    if n == 48 { '0' } else if n == 49 { '1' } else if n == 50 { '2' } else if n == 51 { '3' }
    else if n == 52 { '4' } else if n == 53 { '5' } else if n == 54 { '6' } else if n == 55 { '7' }
    else if n == 56 { '8' } else if n == 57 { '9' } else if n == 97 { 'a' } else if n == 98 { 'b' }
    else if n == 99 { 'c' } else if n == 100 { 'd' } else if n == 101 { 'e' } else { 'f' }
}

/// Appends `s` as a JSON string, quotes included.
fn push_json_quoted(out: &mut Vec<char>, s: &str)
    ensures
        final(out)@ == old(out)@ + json_quoted(s@),
{
    let cs = chars_of(s);
    out.push('"');
    let ghost start = out@;
    let mut i: usize = 0;
    while i < cs.len()
        invariant
            i <= cs@.len(),
            cs@ == s@,
            out@ == start + json_escaped(cs@.subrange(0, i as int)),
        decreases cs@.len() - i,
    {
        let c = cs[i];
        let ghost before = out@;
        let n = c as u32;
        if c == '"' {
            out.push('\\');
            out.push('"');
        } else if c == '\\' {
            out.push('\\');
            out.push('\\');
        } else if c == '\n' {
            out.push('\\');
            out.push('n');
        } else if c == '\r' {
            out.push('\\');
            out.push('r');
        } else if c == '\t' {
            out.push('\\');
            out.push('t');
        } else if n == 8 {
            out.push('\\');
            out.push('b');
        } else if n == 12 {
            out.push('\\');
            out.push('f');
        } else if n < 32 {
            out.push('\\');
            out.push('u');
            out.push('0');
            out.push('0');
            out.push(hex_char(n / 16));
            out.push(hex_char(n % 16));
        } else {
            out.push(c);
        }
        assert(out@ =~= before + json_escape_char(c));
        let ghost pre = cs@.subrange(0, i + 1);
        assert(pre.drop_last() =~= cs@.subrange(0, i as int));
        assert(pre.last() == c);
        i = i + 1;
    }
    assert(cs@.subrange(0, cs@.len() as int) =~= cs@);
    out.push('"');
}

/// Each applied layer in double quotes.
pub open spec fn json_applied(s: Seq<Seq<char>>) -> Seq<Seq<char>>
    decreases s.len(),
{
    if s.len() == 0 { seq![] } else { json_applied(s.drop_last()).push(json_quoted(s.last())) }
}

/// Each skipped layer as a JSON object.
pub open spec fn json_skipped_all(s: Seq<(Seq<char>, Seq<char>)>) -> Seq<Seq<char>>
    decreases s.len(),
{
    if s.len() == 0 { seq![] } else { json_skipped_all(s.drop_last()).push(json_skipped(s.last())) }
}

/// The report as one line of JSON.
pub open spec fn json_spec(r: RunReportView, exit_code: i32) -> Seq<char> {
    "{\"applied\":["@ + joined(json_applied(r.applied), ","@) + "],\"skipped\":["@
        + joined(json_skipped_all(r.skipped), ","@) + "],\"exit_code\":"@
        + signed_decimal(exit_code as int) + "}"@
}

/// A skipped layer as a person reads it.
pub open spec fn skipped_line(p: (Seq<char>, Seq<char>)) -> Seq<char> {
    "bailey: not enforced, "@ + p.0 + ": "@ + p.1
}

/// Each skipped layer as a person reads it.
pub open spec fn skipped_lines(s: Seq<(Seq<char>, Seq<char>)>) -> Seq<Seq<char>>
    decreases s.len(),
{
    if s.len() == 0 { seq![] } else { skipped_lines(s.drop_last()).push(skipped_line(s.last())) }
}

/// The report's lines for a person: what was enforced, each layer that was
/// not with its reason, and the target's exit code when it failed.
pub open spec fn text_spec(r: RunReportView, exit_code: i32) -> Seq<Seq<char>> {
    seq!["bailey: enforced: "@ + joined(r.applied, ", "@)]
        + skipped_lines(r.skipped)
        + if exit_code != 0 { seq!["bailey: target exited with "@ + signed_decimal(exit_code as int)] } else { seq![] }
}

impl RunReport {
    /// A report with nothing in it yet.
    pub fn new() -> (r: RunReport)
        ensures
            r@.applied.len() == 0,
            r@.skipped.len() == 0,
    {
        RunReport { applied: Vec::new(), skipped: Vec::new() }
    }

    /// Notes a layer as applied.
    pub fn applied(&mut self, layer: &str)
        ensures
            final(self)@.applied == old(self)@.applied.push(layer@),
            final(self)@.skipped == old(self)@.skipped,
    {
        self.applied.push(owned(layer));
        assert(strs(self.applied@) =~= strs(old(self).applied@).push(layer@));
    }

    /// Notes a layer as not provided by the host, with the reason.
    pub fn skipped(&mut self, layer: &str, reason: &str)
        ensures
            final(self)@.applied == old(self)@.applied,
            final(self)@.skipped == old(self)@.skipped.push((layer@, reason@)),
    {
        self.skipped.push((owned(layer), owned(reason)));
        assert(self@.skipped =~= old(self)@.skipped.push((layer@, reason@)));
    }

    /// The summary as a person reads it, one line each.
    pub fn text(&self, exit_code: i32) -> (r: Vec<String>)
        ensures
            strs(r@) == text_spec(self@, exit_code),
    {
        let mut lines: Vec<String> = Vec::new();
        let mut first: Vec<char> = Vec::new();
        push_str(&mut first, "bailey: enforced: ");
        push_joined(&mut first, &self.applied, ", ");
        lines.push(string_of(&first));
        let ghost head = strs(lines@);
        let mut i: usize = 0;
        while i < self.skipped.len()
            invariant
                i <= self.skipped@.len(),
                strs(lines@) == head + skipped_lines(self@.skipped.subrange(0, i as int)),
            decreases self.skipped@.len() - i,
        {
            let mut line: Vec<char> = Vec::new();
            push_str(&mut line, "bailey: not enforced, ");
            push_str(&mut line, self.skipped[i].0.as_str());
            push_str(&mut line, ": ");
            push_str(&mut line, self.skipped[i].1.as_str());
            let ghost p = self@.skipped[i as int];
            assert(p == (self.skipped@[i as int].0@, self.skipped@[i as int].1@));
            assert(line@ =~= skipped_line(p));
            let ghost prev = lines@;
            let line_s = string_of(&line);
            lines.push(line_s);
            i = i + 1;
            assert(strs(lines@) =~= strs(prev).push(line_s@));
            assert(self@.skipped.subrange(0, i as int).drop_last() =~= self@.skipped.subrange(0, i - 1));
            assert(strs(lines@) =~= head + skipped_lines(self@.skipped.subrange(0, i as int)));
        }
        assert(self@.skipped.subrange(0, self@.skipped.len() as int) =~= self@.skipped);
        let ghost body = strs(lines@);
        if exit_code != 0 {
            let mut last: Vec<char> = Vec::new();
            push_str(&mut last, "bailey: target exited with ");
            push_signed(&mut last, exit_code);
            lines.push(string_of(&last));
            assert(strs(lines@) =~= body.push("bailey: target exited with "@ + signed_decimal(exit_code as int)));
        }
        assert(strs(lines@) =~= text_spec(self@, exit_code));
        lines
    }

    /// The summary as one line of JSON, for a caller that is not a person.
    pub fn to_json(&self, exit_code: i32) -> (r: String)
        ensures
            r@ == json_spec(self@, exit_code),
    {
        let mut applied: Vec<String> = Vec::new();
        let mut i: usize = 0;
        while i < self.applied.len()
            invariant
                i <= self.applied@.len(),
                strs(applied@) == json_applied(self@.applied.subrange(0, i as int)),
            decreases self.applied@.len() - i,
        {
            let mut item: Vec<char> = Vec::new();
            push_json_quoted(&mut item, self.applied[i].as_str());
            assert(self@.applied[i as int] == self.applied@[i as int]@);
            assert(item@ =~= json_quoted(self@.applied[i as int]));
            let ghost prev = applied@;
            let item_s = string_of(&item);
            applied.push(item_s);
            i = i + 1;
            assert(strs(applied@) =~= strs(prev).push(item_s@));
            assert(self@.applied.subrange(0, i as int).drop_last() =~= self@.applied.subrange(0, i - 1));
            assert(strs(applied@) =~= json_applied(self@.applied.subrange(0, i as int)));
        }
        assert(self@.applied.subrange(0, self@.applied.len() as int) =~= self@.applied);
        let mut skipped: Vec<String> = Vec::new();
        let mut j: usize = 0;
        while j < self.skipped.len()
            invariant
                j <= self.skipped@.len(),
                strs(skipped@) == json_skipped_all(self@.skipped.subrange(0, j as int)),
            decreases self.skipped@.len() - j,
        {
            let mut item: Vec<char> = Vec::new();
            push_str(&mut item, "{\"layer\":");
            push_json_quoted(&mut item, self.skipped[j].0.as_str());
            push_str(&mut item, ",\"reason\":");
            push_json_quoted(&mut item, self.skipped[j].1.as_str());
            push_str(&mut item, "}");
            let ghost p = self@.skipped[j as int];
            assert(p == (self.skipped@[j as int].0@, self.skipped@[j as int].1@));
            assert(item@ =~= json_skipped(p));
            let ghost prev = skipped@;
            let item_s = string_of(&item);
            skipped.push(item_s);
            j = j + 1;
            assert(strs(skipped@) =~= strs(prev).push(item_s@));
            assert(self@.skipped.subrange(0, j as int).drop_last() =~= self@.skipped.subrange(0, j - 1));
            assert(strs(skipped@) =~= json_skipped_all(self@.skipped.subrange(0, j as int)));
        }
        assert(self@.skipped.subrange(0, self@.skipped.len() as int) =~= self@.skipped);
        let mut out: Vec<char> = Vec::new();
        push_str(&mut out, "{\"applied\":[");
        push_joined(&mut out, &applied, ",");
        push_str(&mut out, "],\"skipped\":[");
        push_joined(&mut out, &skipped, ",");
        push_str(&mut out, "],\"exit_code\":");
        push_signed(&mut out, exit_code);
        push_str(&mut out, "}");
        assert(out@ =~= json_spec(self@, exit_code));
        string_of(&out)
    }
}

// ---------------------------------------------------------------------------
// Landlock rules.

/// The filesystem rights `AccessFs::from_read` of the landlock crate gives at
/// ABI 6: execute, read a file, read a directory.
#[verifier::external_body]
fn landlock_read_rights() -> (r: u64)
    ensures
        r == 13,
{
    landlock::AccessFs::from_read(landlock::ABI::V6).bits()
}

/// The filesystem rights `AccessFs::from_write` of the landlock crate gives at
/// ABI 6: write a file, remove a file or directory, make each kind of node,
/// refer, truncate, and device ioctls.
#[verifier::external_body]
fn landlock_write_rights() -> (r: u64)
    ensures
        r == 65522,
{
    landlock::AccessFs::from_write(landlock::ABI::V6).bits()
}

/// The filesystem right `AccessFs::Execute` of the landlock crate.
#[verifier::external_body]
fn landlock_execute_right() -> (r: u64)
    ensures
        r == 1,
{
    enumflags2::BitFlags::from_flag(landlock::AccessFs::Execute).bits()
}

/// The Landlock filesystem rights for a grant: the read rights for read, the
/// write rights for write, execute for execute, as a bit set.
pub open spec fn fs_rights(a: Access) -> u64 {
    (if a.read { 13u64 } else { 0u64 }) | (if a.write { 65522u64 } else { 0u64 }) | (if a.execute { 1u64 } else { 0u64 })
}

/// The Landlock filesystem rights for a grant, or `None` for a grant of
/// nothing.
pub open spec fn fs_access_spec(a: Access) -> Option<u64> {
    if !a.read && !a.write && !a.execute { None } else { Some(fs_rights(a)) }
}

/// The Landlock filesystem rights for a grant, or `None` for a grant of
/// nothing.
pub fn fs_access_bits(access: Access) -> (r: Option<u64>)
    ensures
        r == fs_access_spec(access),
{
    let read = landlock_read_rights();
    let write = landlock_write_rights();
    let execute = landlock_execute_right();
    let a: u64 = if access.read { read } else { 0 };
    let b: u64 = if access.write { write } else { 0 };
    let c: u64 = if access.execute { execute } else { 0 };
    let bits = a | b | c;
    assert(bits == fs_rights(access));
    assert((a == 13 || a == 0) && (b == 65522 || b == 0) && (c == 1 || c == 0) ==> ((a | b | c == 0) <==> (a == 0 && b == 0 && c == 0))) by (bit_vector);
    if bits == 0 {
        None
    } else {
        Some(bits)
    }
}

/// The Landlock rules derived from a policy.
#[derive(Debug, Clone)]
pub struct LandlockPlan {
    /// Each granted path with its filesystem rights.
    pub filesystem: Vec<(PathBuf, u64)>,
    /// Whether outbound TCP connections are handled (and so denied unless a
    /// port is listed).
    pub handle_connect: bool,
    /// Whether TCP binds are handled.
    pub handle_bind: bool,
    /// Ports the target may connect to.
    pub connect_ports: Vec<u16>,
    /// Ports the target may bind.
    pub bind_ports: Vec<u16>,
}

/// Each rule path with its rights, leaving out grants of nothing.
pub open spec fn rights_of(rules: Seq<(PathView, Access)>) -> Seq<(PathView, u64)>
    decreases rules.len(),
{
    if rules.len() == 0 {
        seq![]
    } else {
        let rest = rights_of(rules.drop_last());
        match fs_access_spec(rules.last().1) {
            Some(bits) => rest.push((rules.last().0, bits)),
            None => rest,
        }
    }
}

/// A policy's grants, filesystem then devices, each as its path and rights.
pub open spec fn grants_of(policy: Policy) -> Seq<(PathView, Access)> {
    policy.filesystem@.map_values(|r: crate::policy::FsRule| (r.path@, r.access))
        + policy.devices@.map_values(|r: crate::policy::DeviceRule| (r.path@, r.access))
}

/// The ports of the egress rules that name one, in order.
pub open spec fn rule_ports(rules: Seq<(Seq<char>, Option<u16>)>) -> Seq<u16>
    decreases rules.len(),
{
    if rules.len() == 0 {
        seq![]
    } else {
        let rest = rule_ports(rules.drop_last());
        match rules.last().1 {
            Some(p) => rest.push(p),
            None => rest,
        }
    }
}

/// The filesystem entries of a plan as plain values.
pub open spec fn plan_fs_view(v: Seq<(PathBuf, u64)>) -> Seq<(PathView, u64)> {
    v.map_values(|e: (PathBuf, u64)| (e.0@, e.1))
}

/// Whether `plan` holds the Landlock rules for `policy`: each grant with
/// rights, connect handled unless egress is allowed outright with the ports
/// of the allowed destinations, and bind handled when connect is or when the
/// policy lists ports to bind.
pub open spec fn landlock_plan_spec(plan: LandlockPlan, policy: Policy) -> bool {
    &&& plan_fs_view(plan.filesystem@) == rights_of(grants_of(policy))
    &&& plan.handle_connect == !(policy.network.egress@ is AllowAll)
    &&& plan.connect_ports@ == match policy.network.egress@ {
        crate::policy::EgressView::Allow(rules) => rule_ports(rules),
        _ => seq![],
    }
    &&& plan.handle_bind == (plan.handle_connect || policy.network.bind_ports@.len() > 0)
    &&& plan.bind_ports@ == policy.network.bind_ports@
}

/// The writable areas the sandbox itself provides: the private home, and the
/// private `/tmp` and `/dev/shm` under isolation.
pub open spec fn world_grants(world: World) -> Seq<(PathView, u64)> {
    (if world.home_host.is_some() { seq![(world.home_inside@, 65535u64)] } else { seq![] })
        + (if world.private_tmp { seq![(parse_spec("/tmp"@), 65535u64)] } else { seq![] })
        + (if world.private_shm { seq![(parse_spec("/dev/shm"@), 65535u64)] } else { seq![] })
}

/// A copy of a list of ports.
fn copy_ports(v: &Vec<u16>) -> (r: Vec<u16>)
    ensures
        r@ == v@,
{
    let mut r: Vec<u16> = Vec::new();
    let mut i: usize = 0;
    while i < v.len()
        invariant
            i <= v@.len(),
            r@ == v@.subrange(0, i as int),
        decreases v@.len() - i,
    {
        r.push(v[i]);
        i = i + 1;
        assert(r@ =~= v@.subrange(0, i as int));
    }
    assert(v@.subrange(0, v@.len() as int) =~= v@);
    r
}

impl LandlockPlan {
    /// The Landlock rules for a policy.
    pub fn from_policy(policy: &Policy) -> (r: LandlockPlan)
        ensures
            landlock_plan_spec(r, *policy),
    {
        let ghost g = grants_of(*policy);
        let ghost nf = policy.filesystem@.len();
        let mut filesystem: Vec<(PathBuf, u64)> = Vec::new();
        let mut i: usize = 0;
        assert(g.subrange(0, 0) =~= Seq::<(PathView, Access)>::empty());
        assert(plan_fs_view(filesystem@) =~= Seq::<(PathView, u64)>::empty());
        while i < policy.filesystem.len()
            invariant
                g == grants_of(*policy),
                nf == policy.filesystem@.len(),
                i <= nf,
                plan_fs_view(filesystem@) == rights_of(g.subrange(0, i as int)),
            decreases nf - i,
        {
            let rule = &policy.filesystem[i];
            assert(g[i as int] == (rule.path@, rule.access));
            assert(g.subrange(0, i + 1).drop_last() =~= g.subrange(0, i as int));
            let ghost before = filesystem@;
            match fs_access_bits(rule.access) {
                Some(bits) => {
                    let x = rule.path.duplicate();
                    filesystem.push((x, bits));
                    assert(plan_fs_view(filesystem@) =~= plan_fs_view(before).push((x@, bits)));
                },
                None => {},
            }
            i = i + 1;
        }
        let mut j: usize = 0;
        while j < policy.devices.len()
            invariant
                g == grants_of(*policy),
                nf == policy.filesystem@.len(),
                g.len() == nf + policy.devices@.len(),
                j <= policy.devices@.len(),
                plan_fs_view(filesystem@) == rights_of(g.subrange(0, nf + j)),
            decreases policy.devices@.len() - j,
        {
            let rule = &policy.devices[j];
            assert(g[nf + j] == (rule.path@, rule.access));
            assert(g.subrange(0, nf + j + 1).drop_last() =~= g.subrange(0, nf + j));
            let ghost before = filesystem@;
            match fs_access_bits(rule.access) {
                Some(bits) => {
                    let x = rule.path.duplicate();
                    filesystem.push((x, bits));
                    assert(plan_fs_view(filesystem@) =~= plan_fs_view(before).push((x@, bits)));
                },
                None => {},
            }
            j = j + 1;
        }
        assert(g.subrange(0, g.len() as int) =~= g);
        let (handle_connect, connect_ports) = match &policy.network.egress {
            Egress::AllowAll => (false, Vec::new()),
            Egress::DenyAll => (true, Vec::new()),
            Egress::Allow(rules) => {
                let ghost rv = crate::policy::rules_view(rules@);
                let mut ports: Vec<u16> = Vec::new();
                let mut k: usize = 0;
                while k < rules.len()
                    invariant
                        rv == crate::policy::rules_view(rules@),
                        k <= rules@.len(),
                        ports@ == rule_ports(rv.subrange(0, k as int)),
                    decreases rules@.len() - k,
                {
                    assert(rv.subrange(0, k + 1).drop_last() =~= rv.subrange(0, k as int));
                    assert(rv[k as int] == (rules@[k as int].host@, rules@[k as int].port));
                    match rules[k].port {
                        Some(p) => ports.push(p),
                        None => {},
                    }
                    k = k + 1;
                }
                assert(rv.subrange(0, rules@.len() as int) =~= rv);
                (true, ports)
            },
        };
        let handle_bind = handle_connect || policy.network.bind_ports.len() > 0;
        LandlockPlan {
            filesystem,
            handle_connect,
            handle_bind,
            connect_ports,
            bind_ports: copy_ports(&policy.network.bind_ports),
        }
    }

    /// Grants the writable areas the sandbox itself provides, which are not in
    /// the policy because they are decided when the world is built.
    pub fn add_world_grants(&mut self, world: &World)
        ensures
            plan_fs_view(final(self).filesystem@) == plan_fs_view(old(self).filesystem@) + world_grants(*world),
            final(self).handle_connect == old(self).handle_connect,
            final(self).handle_bind == old(self).handle_bind,
            final(self).connect_ports@ == old(self).connect_ports@,
            final(self).bind_ports@ == old(self).bind_ports@,
    {
        let read = landlock_read_rights();
        let write = landlock_write_rights();
        let read_write = read | write;
        assert(13u64 | 65522u64 == 65535u64) by (bit_vector);
        let ghost start = plan_fs_view(self.filesystem@);
        if world.home_host.is_some() {
            let x = world.home_inside.duplicate();
            self.filesystem.push((x, read_write));
        }
        let ghost after_home = plan_fs_view(self.filesystem@);
        assert(after_home =~= start + (if world.home_host.is_some() { seq![(world.home_inside@, 65535u64)] } else { seq![] }));
        if world.private_tmp {
            let x = PathBuf::parse("/tmp");
            self.filesystem.push((x, read_write));
        }
        let ghost after_tmp = plan_fs_view(self.filesystem@);
        assert(after_tmp =~= after_home + (if world.private_tmp { seq![(parse_spec("/tmp"@), 65535u64)] } else { seq![] }));
        if world.private_shm {
            let x = PathBuf::parse("/dev/shm");
            self.filesystem.push((x, read_write));
        }
        assert(plan_fs_view(self.filesystem@) =~= after_tmp + (if world.private_shm { seq![(parse_spec("/dev/shm"@), 65535u64)] } else { seq![] }));
        assert(plan_fs_view(self.filesystem@) =~= start + world_grants(*world));
    }
}

// ---------------------------------------------------------------------------
// Which layers a run gets.

/// What a run is to do, decided before the target is spawned.
#[derive(Debug, Clone)]
pub struct RunPlan {
    /// How the network is confined.
    pub mode: NetworkMode,
    /// Whether the world is rebuilt with namespaces.
    pub isolated: bool,
    /// Whether the network namespace is entered on its own, with no
    /// isolation layer around it.
    pub network_only: bool,
    /// The report so far: Landlock, seccomp, the network namespace and the
    /// isolation layer.
    pub report: RunReport,
}

/// The reason given for a network namespace the host cannot provide.
pub open spec fn no_netns_reason() -> Seq<char> {
    "unprivileged user namespaces unavailable, so only TCP is restricted"@
}

/// The reason given for an isolation layer the host cannot provide.
pub open spec fn no_isolation_reason() -> Seq<char> {
    "unprivileged user namespaces unavailable"@
}

/// The layers a run reports as applied, before resource limits: Landlock and
/// seccomp always, the network namespace when the network is isolated, and
/// the isolation layer when it was asked for and the host has user
/// namespaces.
pub open spec fn applied_spec(isolate: bool, mode: NetworkMode, userns: bool) -> Seq<Seq<char>> {
    seq!["landlock"@, "seccomp"@] + (if mode == NetworkMode::Isolated { seq!["network namespace"@] } else { seq![] })
        + (if isolate && userns { seq!["namespace isolation"@] } else { seq![] })
}

/// The layers a run reports as not provided, before resource limits. A
/// policy that allows egress cannot use an empty namespace, which is a
/// consequence of the policy rather than a gap in the host, so that is not
/// listed; nor is isolation that was not asked for.
pub open spec fn skipped_spec(isolate: bool, mode: NetworkMode, userns: bool) -> Seq<(Seq<char>, Seq<char>)> {
    (if mode == NetworkMode::LandlockOnly && !userns { seq![("network namespace"@, no_netns_reason())] } else { seq![] })
        + (if isolate && !userns { seq![("namespace isolation"@, no_isolation_reason())] } else { seq![] })
}

impl EnforceBackend {
    /// Decides the layers of a run of `policy` on a host where unprivileged
    /// user namespaces are available or not.
    pub fn plan_run(&self, policy: &Policy, userns: bool) -> (r: RunPlan)
        ensures
            r.mode == select_spec(*policy, userns),
            r.isolated == (self.isolate && userns),
            r.network_only == (!(self.isolate && userns) && r.mode == NetworkMode::Isolated),
            r.report@.applied == applied_spec(self.isolate, r.mode, userns),
            r.report@.skipped == skipped_spec(self.isolate, r.mode, userns),
    {
        let mode = select(policy, userns);
        let mut report = RunReport::new();
        report.applied("landlock");
        report.applied("seccomp");
        match mode {
            NetworkMode::Isolated => report.applied("network namespace"),
            NetworkMode::LandlockOnly => {
                if !userns {
                    report.skipped("network namespace", "unprivileged user namespaces unavailable, so only TCP is restricted");
                }
            },
        }
        let isolated = self.isolate && userns;
        if self.isolate {
            if userns {
                report.applied("namespace isolation");
            } else {
                report.skipped("namespace isolation", "unprivileged user namespaces unavailable");
            }
        }
        let network_only = !isolated && mode == NetworkMode::Isolated;
        assert(report@.applied =~= applied_spec(self.isolate, mode, userns));
        assert(report@.skipped =~= skipped_spec(self.isolate, mode, userns));
        RunPlan { mode, isolated, network_only, report }
    }
}

/// Whether a run gets a cgroup of its own: when the policy sets a limit the
/// cgroup enforces, or when one is wanted regardless.
pub open spec fn wants_cgroup_spec(limits: ResourceLimits, always: bool) -> bool {
    always || limits.memory_bytes.is_some() || limits.pids_max.is_some() || limits.cpu_percent.is_some()
}

/// Whether a run gets a cgroup of its own.
pub fn wants_cgroup(limits: &ResourceLimits, always: bool) -> (r: bool)
    ensures
        r == wants_cgroup_spec(*limits, always),
{
    always || limits.memory_bytes.is_some() || limits.pids_max.is_some() || limits.cpu_percent.is_some()
}

/// The reason given for limits no cgroup could be created for, when the
/// attempt gave none.
pub open spec fn no_cgroup_reason() -> Seq<char> {
    "no writable delegated cgroup"@
}

/// Notes the resource limits in the report: nothing when the policy asked for
/// none; applied when the run's cgroup was created; otherwise not provided,
/// with why the cgroup could not be created.
pub fn note_limits(report: &mut RunReport, limits: &ResourceLimits, created: bool, failure: &Option<String>)
    ensures
        *limits == no_limits() ==> final(report)@ == old(report)@,
        *limits != no_limits() && created ==> final(report)@.applied == old(report)@.applied.push("resource limits"@)
            && final(report)@.skipped == old(report)@.skipped,
        *limits != no_limits() && !created ==> final(report)@.applied == old(report)@.applied
            && final(report)@.skipped == old(report)@.skipped.push(("resource limits"@, match failure {
                Some(f) => f@,
                None => no_cgroup_reason(),
            })),
{
    if limits.is_none() {
    } else if created {
        report.applied("resource limits");
    } else {
        match failure {
            Some(f) => report.skipped("resource limits", f.as_str()),
            None => report.skipped("resource limits", "no writable delegated cgroup"),
        }
    }
}

/// The control files a run's cgroup is given and what is written to each:
/// the memory limit in bytes, the process limit, and the CPU share as a quota
/// per 100000 microseconds.
pub open spec fn limit_files_spec(limits: ResourceLimits) -> Seq<(Seq<char>, Seq<char>)> {
    (match limits.memory_bytes { Some(m) => seq![("memory.max"@, decimal(m as nat))], None => seq![] })
        + (match limits.pids_max { Some(p) => seq![("pids.max"@, decimal(p as nat))], None => seq![] })
        + (match limits.cpu_percent {
            Some(c) => seq![("cpu.max"@, decimal((c as nat) * 1000) + " 100000"@)],
            None => seq![],
        })
}

/// Every limit a policy sets reaches its control file, and nothing else is
/// written: a memory limit goes to `memory.max` as its byte count, a
/// process limit to `pids.max`, and a CPU quota to `cpu.max` as the quota
/// over a period of 100000 microseconds.
pub proof fn law_every_limit_reaches_its_file(limits: ResourceLimits)
    ensures
        limits.memory_bytes matches Some(m) ==> limit_files_spec(limits).contains(("memory.max"@, decimal(m as nat))),
        limits.pids_max matches Some(p) ==> limit_files_spec(limits).contains(("pids.max"@, decimal(p as nat))),
        limits.cpu_percent matches Some(c) ==> limit_files_spec(limits).contains(
            ("cpu.max"@, decimal((c as nat) * 1000) + " 100000"@),
        ),
        forall|i: int| 0 <= i < limit_files_spec(limits).len() ==> {
            let x = #[trigger] limit_files_spec(limits)[i];
            ||| limits.memory_bytes matches Some(m) && x == ("memory.max"@, decimal(m as nat))
            ||| limits.pids_max matches Some(p) && x == ("pids.max"@, decimal(p as nat))
            ||| limits.cpu_percent matches Some(c) && x == ("cpu.max"@, decimal((c as nat) * 1000) + " 100000"@)
        },
{
    let a: Seq<(Seq<char>, Seq<char>)> = match limits.memory_bytes { Some(m) => seq![("memory.max"@, decimal(m as nat))], None => seq![] };
    let b: Seq<(Seq<char>, Seq<char>)> = match limits.pids_max { Some(p) => seq![("pids.max"@, decimal(p as nat))], None => seq![] };
    let c: Seq<(Seq<char>, Seq<char>)> = match limits.cpu_percent {
        Some(c) => seq![("cpu.max"@, decimal((c as nat) * 1000) + " 100000"@)],
        None => seq![],
    };
    let l = limit_files_spec(limits);
    assert(l == a + b + c);
    if a.len() > 0 {
        assert(l[0] == a[0]);
    }
    if b.len() > 0 {
        assert(l[a.len() as int] == b[0]);
    }
    if c.len() > 0 {
        assert(l[(a.len() + b.len()) as int] == c[0]);
    }
    assert forall|i: int| 0 <= i < l.len() implies {
        let x = #[trigger] l[i];
        ||| limits.memory_bytes matches Some(m) && x == ("memory.max"@, decimal(m as nat))
        ||| limits.pids_max matches Some(p) && x == ("pids.max"@, decimal(p as nat))
        ||| limits.cpu_percent matches Some(c) && x == ("cpu.max"@, decimal((c as nat) * 1000) + " 100000"@)
    } by {
        if i < a.len() {
            assert(l[i] == a[i]);
        } else if i < a.len() + b.len() {
            assert(l[i] == b[i - a.len()]);
        } else {
            assert(l[i] == c[i - a.len() - b.len()]);
        }
    }
}

/// The control files a run's cgroup is given and what is written to each.
pub fn limit_files(limits: &ResourceLimits) -> (r: Vec<(String, String)>)
    ensures
        r@.map_values(|p: (String, String)| (p.0@, p.1@)) == limit_files_spec(*limits),
{
    let mut r: Vec<(String, String)> = Vec::new();
    let ghost v0 = r@.map_values(|p: (String, String)| (p.0@, p.1@));
    assert(v0 =~= Seq::<(Seq<char>, Seq<char>)>::empty());
    match limits.memory_bytes {
        Some(m) => {
            let mut t: Vec<char> = Vec::new();
            push_decimal(&mut t, m);
            r.push((owned("memory.max"), string_of(&t)));
        },
        None => {},
    }
    let ghost v1 = r@.map_values(|p: (String, String)| (p.0@, p.1@));
    assert(v1 =~= (match limits.memory_bytes { Some(m) => seq![("memory.max"@, decimal(m as nat))], None => seq![] }));
    match limits.pids_max {
        Some(p) => {
            let mut t: Vec<char> = Vec::new();
            push_decimal(&mut t, p);
            r.push((owned("pids.max"), string_of(&t)));
        },
        None => {},
    }
    let ghost v2 = r@.map_values(|p: (String, String)| (p.0@, p.1@));
    assert(v2 =~= v1 + (match limits.pids_max { Some(p) => seq![("pids.max"@, decimal(p as nat))], None => seq![] }));
    match limits.cpu_percent {
        Some(c) => {
            let quota: u64 = (c as u64) * 1000;
            let mut t: Vec<char> = Vec::new();
            push_decimal(&mut t, quota);
            push_str(&mut t, " 100000");
            r.push((owned("cpu.max"), string_of(&t)));
        },
        None => {},
    }
    let ghost v3 = r@.map_values(|p: (String, String)| (p.0@, p.1@));
    assert(v3 =~= v2 + (match limits.cpu_percent {
        Some(c) => seq![("cpu.max"@, decimal((c as nat) * 1000) + " 100000"@)],
        None => seq![],
    }));
    r
}

// ---------------------------------------------------------------------------
// What a run says when it is weaker than the policy reads.

/// Whether some allowed destination names a host rather than any host.
pub open spec fn names_a_host(rules: Seq<(Seq<char>, Option<u16>)>) -> bool {
    exists|i: int| 0 <= i < rules.len() && (#[trigger] rules[i]).0 != "*"@
}

/// The warning for host-based egress rules, which Landlock cannot enforce.
pub open spec fn degradation_spec(policy: Policy) -> Option<Seq<char>> {
    match policy.network.egress@ {
        crate::policy::EgressView::Allow(rules) => if names_a_host(rules) {
            Some("bailey: warning: host-based egress rules are not enforced by Landlock; outbound access is limited by TCP port only"@)
        } else {
            None
        },
        _ => None,
    }
}

/// The warning for host-based egress rules, which Landlock cannot enforce:
/// outbound access is limited by port only.
pub fn degradation_warning(policy: &Policy) -> (r: Option<String>)
    ensures
        match r {
            Some(m) => degradation_spec(*policy) == Some(m@),
            None => degradation_spec(*policy) is None,
        },
{
    match &policy.network.egress {
        Egress::Allow(rules) => {
            let ghost rv = crate::policy::rules_view(rules@);
            let mut i: usize = 0;
            while i < rules.len()
                invariant
                    rv == crate::policy::rules_view(rules@),
                    policy.network.egress@ == crate::policy::EgressView::Allow(rv),
                    i <= rules@.len(),
                    forall|j: int| 0 <= j < i ==> (#[trigger] rv[j]).0 == "*"@,
                decreases rules@.len() - i,
            {
                assert(rv[i as int].0 == rules@[i as int].host@);
                if !crate::text::string_is(&rules[i].host, "*") {
                    assert(rv[i as int].0 != "*"@);
                    assert(names_a_host(rv));
                    return Some(owned(
                        "bailey: warning: host-based egress rules are not enforced by Landlock; outbound access is limited by TCP port only",
                    ));
                }
                i = i + 1;
            }
            None
        },
        _ => None,
    }
}

/// The warning for a denial that only the isolation layer can enforce.
pub open spec fn nested_denial_line(d: PathView) -> Seq<char> {
    "bailey: warning: `"@ + render(d)
        + "` is denied but nested under a granted path, and is not enforced without `--isolate`. Grant the specific subdirectories you need instead of granting the parent."@
}

/// The warnings of a run without isolation: one for each denial nested under
/// a grant, which nothing can then enforce.
pub open spec fn nested_denial_lines(ds: Seq<PathView>) -> Seq<Seq<char>>
    decreases ds.len(),
{
    if ds.len() == 0 { seq![] } else { nested_denial_lines(ds.drop_last()).push(nested_denial_line(ds.last())) }
}

/// The warnings of a run without isolation, one for each denial nested under
/// a grant.
pub fn nested_denial_warnings(policy: &Policy) -> (r: Vec<String>)
    ensures
        strs(r@) == nested_denial_lines(keep(paths_view(policy.denied@), |d: PathView| beneath_a_grant(policy.filesystem@, d))),
{
    let nested = policy.nested_denials();
    let ghost nv = paths_view(nested@);
    let mut r: Vec<String> = Vec::new();
    let mut i: usize = 0;
    while i < nested.len()
        invariant
            nv == paths_view(nested@),
            i <= nested@.len(),
            strs(r@) == nested_denial_lines(nv.subrange(0, i as int)),
        decreases nested@.len() - i,
    {
        let mut line: Vec<char> = Vec::new();
        push_str(&mut line, "bailey: warning: `");
        let shown = nested[i].display();
        push_str(&mut line, shown.as_str());
        push_str(
            &mut line,
            "` is denied but nested under a granted path, and is not enforced without `--isolate`. Grant the specific subdirectories you need instead of granting the parent.",
        );
        assert(nv[i as int] == nested@[i as int]@);
        assert(line@ =~= nested_denial_line(nv[i as int]));
        let ghost prev = r@;
        let t = string_of(&line);
        r.push(t);
        assert(strs(r@) =~= strs(prev).push(t@));
        i = i + 1;
        assert(nv.subrange(0, i as int).drop_last() =~= nv.subrange(0, i - 1));
    }
    assert(nv.subrange(0, nv.len() as int) =~= nv);
    r
}

/// The warning of an isolated run whose working directory is not granted:
/// it starts in the private home instead, named by its host path, since
/// inside the sandbox the private home sits at the real home's path.
pub open spec fn landed_spec(world: World) -> Seq<char> {
    "bailey: warning: the working directory is not granted, so it is absent under isolation; starting in the private home instead ("@
        + render(match world.home_host { Some(h) => h@, None => world.cwd@ })
        + "). Grant the directory to keep it."@
}

/// The warning of an isolated run whose working directory is not granted,
/// when it is not.
pub fn landed_warning(world: &World, isolated: bool) -> (r: Option<String>)
    ensures
        r is Some <==> (isolated && !world.kept_invocation_dir),
        r matches Some(m) ==> m@ == landed_spec(*world),
{
    if isolated && !world.kept_invocation_dir {
        let mut out: Vec<char> = Vec::new();
        push_str(&mut out, "bailey: warning: the working directory is not granted, so it is absent under isolation; starting in the private home instead (");
        let shown = match &world.home_host {
            Some(h) => h.display(),
            None => world.cwd.display(),
        };
        push_str(&mut out, shown.as_str());
        push_str(&mut out, "). Grant the directory to keep it.");
        Some(string_of(&out))
    } else {
        None
    }
}

/// The warning of a run that asked for isolation on a host without user
/// namespaces.
pub open spec fn no_isolation_warning() -> Seq<char> {
    "bailey: warning: unprivileged user namespaces unavailable; running without namespace isolation"@
}

impl EnforceBackend {
    /// The warning of a run that asked for isolation on a host without user
    /// namespaces, when it is that run.
    pub fn isolation_warning(&self, userns: bool) -> (r: Option<&'static str>)
        ensures
            r is Some <==> (self.isolate && !userns),
            r matches Some(m) ==> m@ == no_isolation_warning(),
    {
        if self.isolate && !userns {
            Some("bailey: warning: unprivileged user namespaces unavailable; running without namespace isolation")
        } else {
            None
        }
    }
}

} // verus!
