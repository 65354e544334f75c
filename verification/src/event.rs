//! The access event schema shared by the audit backend and reconciliation.
//!
//! The audit backend records one [`AccessEvent`] per observed access, wrapped
//! in a [`Trace`] that carries what the run knows about its own completeness.
//! A trace that lost events says so, because a profile generated from a trace
//! with holes in it grants less than the program needs and looks no
//! different.

use vstd::prelude::*;

use crate::path::{PathBuf, PathView};
use crate::text::{decimal, push_decimal, push_str, string_of};

verus! {

/// Version of the saved trace format.
pub const TRACE_VERSION: u32 = 1;

/// The kind of access an event describes.
#[derive(Debug, Clone, Copy, PartialEq, Eq, Hash, PartialOrd, Ord)]
pub enum AccessKind {
    /// A filesystem read.
    Read,
    /// A filesystem write.
    Write,
    /// A filesystem execute.
    Execute,
    /// An outbound connection.
    Connect,
    /// A socket bind.
    Bind,
}

/// How an event's path was arrived at.
#[derive(Debug, Clone, Copy, PartialEq, Eq, Hash)]
pub enum Resolution {
    /// The program named an absolute path.
    Absolute,
    /// A relative path, resolved by the audit backend against the accessing
    /// process's working directory or directory descriptor.
    Userspace,
    /// A relative path that could not be resolved, usually because the
    /// process was gone before it could be read.
    Unresolved,
    /// Not a path.
    NotApplicable,
}

/// The resource an access targeted.
#[derive(Debug, Clone, PartialEq, Eq, Hash)]
pub enum Resource {
    /// A filesystem path.
    Path(PathBuf),
    /// A network destination.
    Net {
        /// Destination host, if known (an address or hostname).
        host: Option<String>,
        /// Destination or bound port.
        port: u16,
    },
}

/// A resource as a value.
pub enum ResourceView {
    Path(PathView),
    Net { host: Option<Seq<char>>, port: u16 },
}

impl View for Resource {
    type V = ResourceView;

    open spec fn view(&self) -> ResourceView {
        match self {
            Resource::Path(p) => ResourceView::Path(p@),
            Resource::Net { host, port } => ResourceView::Net {
                host: match host {
                    Some(h) => Some(h@),
                    None => None,
                },
                port: *port,
            },
        }
    }
}

/// A single observed access.
#[derive(Debug, Clone, PartialEq, Eq)]
pub struct AccessEvent {
    /// The kind of access.
    pub kind: AccessKind,
    /// The resource accessed.
    pub resource: Resource,
    /// PID of the accessing process.
    pub pid: u32,
    /// Monotonic timestamp of the access, in nanoseconds.
    pub timestamp_ns: u64,
    /// How the path was resolved.
    pub resolution: Resolution,
}

/// A recorded session, with what the backend knows about its completeness.
#[derive(Debug, Clone, PartialEq, Eq)]
pub struct Trace {
    /// Format version, so an older or newer file is rejected rather than
    /// misread.
    pub version: u32,
    /// Number of accesses the backend could not record.
    pub dropped: u64,
    /// The recorded accesses.
    pub events: Vec<AccessEvent>,
}

pub open spec fn version_message(version: u32) -> Seq<char> {
    "trace format version "@ + decimal(version as nat) + " is not supported by this build, which reads version "@
        + decimal(TRACE_VERSION as nat)
}

impl Trace {
    /// A trace of `events`, in the current format, that lost `dropped`
    /// accesses.
    pub fn new(events: Vec<AccessEvent>, dropped: u64) -> (r: Trace)
        ensures
            r.version == TRACE_VERSION,
            r.dropped == dropped,
            r.events == events,
    {
        Trace { version: TRACE_VERSION, dropped, events }
    }

    /// Whether the trace is known to be missing events.
    pub fn is_truncated(&self) -> (r: bool)
        ensures
            r == (self.dropped > 0),
    {
        self.dropped > 0
    }

    /// Checks that a loaded trace is in a format this build reads.
    pub fn check_version(&self) -> (r: Result<(), String>)
        ensures
            match r {
                Ok(()) => self.version == TRACE_VERSION,
                Err(e) => self.version != TRACE_VERSION && e@ == version_message(self.version),
            },
    {
        if self.version == TRACE_VERSION {
            return Ok(());
        }
        let mut out: Vec<char> = Vec::new();
        push_str(&mut out, "trace format version ");
        push_decimal(&mut out, self.version as u64);
        push_str(&mut out, " is not supported by this build, which reads version ");
        push_decimal(&mut out, TRACE_VERSION as u64);
        let e = string_of(&out);
        assert(e@ =~= version_message(self.version));
        Err(e)
    }
}

} // verus!
