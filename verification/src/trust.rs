//! Trust records for config files found by directory discovery.
//!
//! A `bailey.toml` found by walking up from the target or the working
//! directory can have arrived with the very code being confined: a cloned
//! repository or an unpacked archive can carry one. Such a file contributes to
//! a policy only once the user has accepted it, and acceptance is recorded
//! against the file's contents, so that editing a trusted config revokes it
//! until it is accepted again.
//!
//! Looking at the file (its metadata, its bytes) is the caller's; what the
//! store concludes from what was seen is decided here.

use vstd::prelude::*;

use crate::config::{var_spec, vars_view, HostEnv};
use crate::path::{join_spec, parse_spec, render, PathBuf, PathView};
use crate::pathmap::PathMap;
use crate::resolve::{absolute, absolute_spec};
use crate::schema::lookup;
use crate::text::{chars_of, decimal, push_decimal, push_str, string_of};
use crate::tomldoc::{parse_document, toml_document, TomlValue};

verus! {

/// Why a discovered config is not being applied.
#[derive(Debug, Clone, PartialEq, Eq)]
pub enum Rejected {
    /// Trust has never been recorded for this file.
    Untrusted,
    /// Trust was recorded and the contents have changed since.
    Changed,
    /// The file belongs to another user, who can change it at will.
    Owned(String),
    /// Users other than the owner can write the file, so a recorded hash is a
    /// race rather than a guarantee.
    Writable(String),
    /// The file could not be read in order to check it.
    Unreadable(String),
    /// The trust store itself cannot be read from where this run is standing,
    /// so nothing can be said about whether the file was accepted.
    StoreUnreachable,
}

/// A rejection as a value.
pub enum RejectedView {
    Untrusted,
    Changed,
    Owned(Seq<char>),
    Writable(Seq<char>),
    Unreadable(Seq<char>),
    StoreUnreachable,
}

impl View for Rejected {
    type V = RejectedView;

    open spec fn view(&self) -> RejectedView {
        match self {
            Rejected::Untrusted => RejectedView::Untrusted,
            Rejected::Changed => RejectedView::Changed,
            Rejected::Owned(s) => RejectedView::Owned(s@),
            Rejected::Writable(s) => RejectedView::Writable(s@),
            Rejected::Unreadable(s) => RejectedView::Unreadable(s@),
            Rejected::StoreUnreachable => RejectedView::StoreUnreachable,
        }
    }
}

pub open spec fn opt_rejected_view(r: Option<Rejected>) -> Option<RejectedView> {
    match r {
        Some(r) => Some(r@),
        None => None,
    }
}

pub open spec fn word_spec(r: RejectedView) -> Seq<char> {
    match r {
        RejectedView::Untrusted => "untrusted"@,
        RejectedView::Changed => "changed"@,
        RejectedView::Owned(_) => "not yours"@,
        RejectedView::Writable(_) => "writable"@,
        RejectedView::Unreadable(_) => "unreadable"@,
        RejectedView::StoreUnreachable => "unknown"@,
    }
}

pub open spec fn reason_spec(r: RejectedView) -> Seq<char> {
    match r {
        RejectedView::Untrusted => "you have not trusted it"@,
        RejectedView::Changed => "it changed since you trusted it"@,
        RejectedView::Owned(owner) => "it is owned by "@ + owner + ", not by you"@,
        RejectedView::Writable(who) => "it is writable by "@ + who,
        RejectedView::Unreadable(err) => "it could not be read: "@ + err,
        RejectedView::StoreUnreachable => "the trust store is not reachable from inside a sandbox, so nothing here is known to be trusted"@,
    }
}

pub open spec fn remedy_spec(r: RejectedView, path: PathView) -> Option<Seq<char>> {
    match r {
        RejectedView::Untrusted => Some("bailey trust "@ + render(path)),
        RejectedView::Changed => Some("review the change, then run: bailey trust "@ + render(path)),
        RejectedView::Writable(_) => Some("chmod go-w "@ + render(path)),
        _ => None,
    }
}

impl Rejected {
    /// A short word for a listing.
    pub fn word(&self) -> (r: &'static str)
        ensures
            r@ == word_spec(self@),
    {
        match self {
            Rejected::Untrusted => "untrusted",
            Rejected::Changed => "changed",
            Rejected::Owned(_) => "not yours",
            Rejected::Writable(_) => "writable",
            Rejected::Unreadable(_) => "unreadable",
            Rejected::StoreUnreachable => "unknown",
        }
    }

    /// Why the file was not applied, as a sentence fragment.
    pub fn reason(&self) -> (r: String)
        ensures
            r@ == reason_spec(self@),
    {
        let mut out: Vec<char> = Vec::new();
        match self {
            Rejected::Untrusted => push_str(&mut out, "you have not trusted it"),
            Rejected::Changed => push_str(&mut out, "it changed since you trusted it"),
            Rejected::Owned(owner) => {
                push_str(&mut out, "it is owned by ");
                push_str(&mut out, owner.as_str());
                push_str(&mut out, ", not by you");
            },
            Rejected::Writable(who) => {
                push_str(&mut out, "it is writable by ");
                push_str(&mut out, who.as_str());
            },
            Rejected::Unreadable(err) => {
                push_str(&mut out, "it could not be read: ");
                push_str(&mut out, err.as_str());
            },
            Rejected::StoreUnreachable => push_str(
                &mut out,
                "the trust store is not reachable from inside a sandbox, so nothing here is known to be trusted",
            ),
        }
        let r = string_of(&out);
        assert(r@ =~= reason_spec(self@));
        r
    }

    /// What the user can do about it, if anything. A file owned by someone
    /// else, an unreadable one, and an unreachable store have no remedy that
    /// would work from here.
    pub fn remedy(&self, path: &PathBuf) -> (r: Option<String>)
        ensures
            match r {
                Some(s) => remedy_spec(self@, path@) == Some(s@),
                None => remedy_spec(self@, path@) is None,
            },
    {
        let lead = match self {
            Rejected::Untrusted => "bailey trust ",
            Rejected::Changed => "review the change, then run: bailey trust ",
            Rejected::Writable(_) => "chmod go-w ",
            _ => {
                return None;
            },
        };
        let mut out = chars_of(lead);
        push_str(&mut out, path.display().as_str());
        let r = string_of(&out);
        assert(r@ =~= remedy_spec(self@, path@)->0);
        Some(r)
    }
}

/// The SHA-256 digest of a byte string, as the `sha2` crate computes it.
pub uninterp spec fn sha256(bytes: Seq<u8>) -> Seq<u8>;

/// Hashes `bytes` with `sha2::Sha256::digest`.
///
/// The contract names the result, a function of the bytes alone, and states
/// its length, which `Sha256`'s output size fixes at 32 bytes. The hash
/// function itself is not restated.
#[verifier::external_body]
fn sha256_digest(bytes: &Vec<u8>) -> (r: Vec<u8>)
    ensures
        r@ == sha256(bytes@),
        r@.len() == 32,
{
    <sha2::Sha256 as sha2::Digest>::digest(bytes.as_slice()).to_vec()
}

/// The SHA-256 digest of `bytes`.
pub fn sha256_of(bytes: &Vec<u8>) -> (r: Vec<u8>)
    ensures
        r@ == sha256(bytes@),
        r@.len() == 32,
{
    sha256_digest(bytes)
}

/// The lowercase hexadecimal digit for `d`.
pub open spec fn hex_digit(d: nat) -> char {
    if d < 10 { ((d + 48) as u8) as char } else { ((d + 87) as u8) as char }
}

/// Bytes as lowercase hexadecimal, two digits per byte.
pub open spec fn hex(bytes: Seq<u8>) -> Seq<char>
    decreases bytes.len(),
{
    if bytes.len() == 0 {
        seq![]
    } else {
        hex(bytes.drop_last()) + seq![hex_digit((bytes.last() / 16) as nat), hex_digit((bytes.last() % 16) as nat)]
    }
}

fn hex_char(d: u8) -> (c: char)
    requires
        d < 16,
    ensures
        c == hex_digit(d as nat),
{
    if d < 10 { (d + 48) as char } else { (d + 87) as char }
}

/// Bytes as lowercase hexadecimal.
pub fn hex_string(bytes: &Vec<u8>) -> (r: String)
    ensures
        r@ == hex(bytes@),
{
    let mut out: Vec<char> = Vec::new();
    let mut i: usize = 0;
    while i < bytes.len()
        invariant
            i <= bytes.len(),
            out@ == hex(bytes@.subrange(0, i as int)),
        decreases bytes.len() - i,
    {
        let b = bytes[i];
        out.push(hex_char(b / 16));
        out.push(hex_char(b % 16));
        let ghost pre = bytes@.subrange(0, i + 1);
        assert(pre.drop_last() =~= bytes@.subrange(0, i as int));
        i = i + 1;
        assert(out@ =~= hex(bytes@.subrange(0, i as int)));
    }
    assert(bytes@.subrange(0, bytes.len() as int) =~= bytes@);
    string_of(&out)
}

/// The digest trust is recorded against: the SHA-256 of the contents, in
/// lowercase hexadecimal.
pub open spec fn digest_spec(contents: Seq<u8>) -> Seq<char> {
    hex(sha256(contents))
}

/// The digest trust is recorded against.
pub fn digest(contents: &Vec<u8>) -> (r: String)
    ensures
        r@ == digest_spec(contents@),
{
    hex_string(&sha256_digest(contents))
}

/// What the caller saw of a file: its metadata and the names its owner and
/// group have in the user database, when they have one.
#[derive(Debug, Clone, PartialEq, Eq)]
pub struct FileFacts {
    /// Whether it is a regular file.
    pub is_file: bool,
    /// The owner's user id.
    pub uid: u32,
    /// The group id.
    pub gid: u32,
    /// The permission bits.
    pub mode: u32,
    /// The effective user id of the running process.
    pub euid: u32,
    /// The owner's user name.
    pub owner_name: Option<String>,
    /// The group's name.
    pub group_name: Option<String>,
}

/// A user as it is shown: by name, or `uid N` without one.
pub open spec fn owner_text(f: FileFacts) -> Seq<char> {
    match f.owner_name {
        Some(n) => n@,
        None => "uid "@ + decimal(f.uid as nat),
    }
}

/// A group as it is shown: by name, or `gid N` without one.
pub open spec fn group_text(f: FileFacts) -> Seq<char> {
    match f.group_name {
        Some(n) => n@,
        None => "gid "@ + decimal(f.gid as nat),
    }
}

/// How a file can be changed by someone other than the running user.
pub open spec fn exposure_spec(f: FileFacts) -> Option<RejectedView> {
    if f.uid != f.euid {
        Some(RejectedView::Owned(owner_text(f)))
    } else if f.mode & 2 != 0 {
        Some(RejectedView::Writable("any user"@))
    } else if f.mode & 16 != 0 {
        Some(RejectedView::Writable("group "@ + group_text(f)))
    } else {
        None
    }
}

/// How a file can be changed by someone other than the running user.
pub fn exposure(f: &FileFacts) -> (r: Option<Rejected>)
    ensures
        opt_rejected_view(r) == exposure_spec(*f),
{
    if f.uid != f.euid {
        let owner = match &f.owner_name {
            Some(n) => n.clone(),
            None => {
                let mut out = chars_of("uid ");
                push_decimal(&mut out, f.uid as u64);
                string_of(&out)
            },
        };
        assert(owner@ =~= owner_text(*f));
        Some(Rejected::Owned(owner))
    } else if f.mode & 2 != 0 {
        Some(Rejected::Writable(crate::text::owned("any user")))
    } else if f.mode & 16 != 0 {
        let mut out = chars_of("group ");
        match &f.group_name {
            Some(n) => push_str(&mut out, n.as_str()),
            None => {
                push_str(&mut out, "gid ");
                push_decimal(&mut out, f.gid as u64);
            },
        }
        let who = string_of(&out);
        assert(who@ =~= "group "@ + group_text(*f));
        Some(Rejected::Writable(who))
    } else {
        None
    }
}

/// The entries a store document's `trusted` table lists, later keys
/// replacing earlier ones that name the same path; `None` if a value is not
/// a string.
pub open spec fn trusted_entries(pairs: Seq<(String, TomlValue)>) -> Option<Map<PathView, Seq<char>>>
    decreases pairs.len(),
{
    if pairs.len() == 0 {
        Some(Map::empty())
    } else {
        match trusted_entries(pairs.drop_last()) {
            None => None,
            Some(m) => match pairs.last().1 {
                TomlValue::Str(v) => Some(m.insert(crate::path::parse_spec(pairs.last().0@), v@)),
                _ => None,
            },
        }
    }
}

/// The entries a store document records, or `None` if it is not a store.
/// Keys other than `trusted` are ignored.
pub open spec fn store_doc(doc: TomlValue) -> Option<Map<PathView, Seq<char>>> {
    match doc {
        TomlValue::Table(t) => match lookup(t@, "trusted"@) {
            None => Some(Map::empty()),
            Some(TomlValue::Table(pairs)) => trusted_entries(pairs@),
            Some(_) => None,
        },
        _ => None,
    }
}

/// A trust store as values.
pub struct StoreView {
    pub entries: Map<PathView, Seq<char>>,
    pub reachable: bool,
}

/// Whether `path` may contribute to a policy, given what was seen of it, and
/// why not when it may not.
pub open spec fn check_spec(
    st: StoreView,
    path: PathView,
    facts: Result<FileFacts, String>,
    contents: Result<Vec<u8>, String>,
) -> Option<RejectedView> {
    if !st.reachable {
        Some(RejectedView::StoreUnreachable)
    } else {
        match facts {
            Err(e) => Some(RejectedView::Unreadable(e@)),
            Ok(f) => match exposure_spec(f) {
                Some(x) => Some(x),
                None => match contents {
                    Err(e) => Some(RejectedView::Unreadable(e@)),
                    Ok(b) => if !st.entries.contains_key(path) {
                        Some(RejectedView::Untrusted)
                    } else if st.entries[path] == digest_spec(b@) {
                        None
                    } else {
                        Some(RejectedView::Changed)
                    },
                },
            },
        }
    }
}

/// What is said of a store file that parses but is not a store.
pub open spec fn not_a_store() -> Seq<char> {
    "the trust store is not a table of trusted paths"@
}

/// Where the store lives: under `$XDG_DATA_HOME` when it is set and not
/// empty, else under `$HOME/.local/share`; nowhere without either.
pub open spec fn store_path_spec(env: HostEnv) -> Option<PathView> {
    match var_spec(vars_view(env.vars@), "XDG_DATA_HOME"@) {
        Some(d) if d.len() > 0 => Some(join_spec(parse_spec(d), parse_spec("bailey/trusted.toml"@))),
        _ => match var_spec(vars_view(env.vars@), "HOME"@) {
            Some(h) => Some(join_spec(parse_spec(h), parse_spec(".local/share/bailey/trusted.toml"@))),
            None => None,
        },
    }
}

/// Where the store lives, if anywhere.
pub fn store_path(env: &HostEnv) -> (r: Option<PathBuf>)
    ensures
        match r {
            Some(p) => store_path_spec(*env) == Some(p@),
            None => store_path_spec(*env) is None,
        },
{
    match env.var("XDG_DATA_HOME") {
        Some(d) => {
            if !d.as_str().is_empty() {
                return Some(PathBuf::parse(d.as_str()).join(&PathBuf::parse("bailey/trusted.toml")));
            }
        },
        None => {},
    }
    match env.var("HOME") {
        Some(h) => Some(PathBuf::parse(h.as_str()).join(&PathBuf::parse(".local/share/bailey/trusted.toml"))),
        None => None,
    }
}

/// The warning for a store file that cannot be read as a store.
pub open spec fn ignored_store_warning(path: PathView, err: Seq<char>) -> Seq<char> {
    "bailey: warning: ignoring the trust store `"@ + render(path) + "`: "@ + err
}

/// What a store file's text holds: its entries, or why it is not a store.
pub open spec fn store_text_spec(text: Seq<char>) -> Result<Map<PathView, Seq<char>>, Seq<char>> {
    match toml_document(text) {
        Err(m) => Err(m),
        Ok(doc) => match store_doc(doc) {
            Some(m) => Ok(m),
            None => Err(not_a_store()),
        },
    }
}

/// The message for a record that cannot be written for want of a place.
pub open spec fn no_data_dir_message() -> Seq<char> {
    "no data directory: set XDG_DATA_HOME or HOME to record trust"@
}

pub open spec fn unreachable_message() -> Seq<char> {
    "the trust store is not reachable from inside a sandbox: a record written here would go into a private home that is discarded when the run ends. Trust the file from outside the sandbox."@
}

/// Why a file cannot be trusted, if it cannot, given what was seen of it.
pub open spec fn record_refusal(
    st: StoreView,
    path: PathView,
    facts: Result<FileFacts, String>,
    contents: Result<Vec<u8>, String>,
) -> Option<Seq<char>> {
    if !st.reachable {
        Some(unreachable_message())
    } else {
        match facts {
            Err(e) => Some("could not read `"@ + render(path) + "`: "@ + e@),
            Ok(f) => if !f.is_file {
                Some("`"@ + render(path) + "` is not a file"@)
            } else {
                match exposure_spec(f) {
                    Some(x) => Some(
                        "refusing to trust `"@ + render(path) + "`: "@ + reason_spec(x)
                            + ", so its contents could change after you accepted them"@ + match remedy_spec(x, path) {
                            Some(m) => "; "@ + m,
                            None => Seq::<char>::empty(),
                        },
                    ),
                    None => match contents {
                        Err(e) => Some(e@),
                        Ok(_) => None,
                    },
                }
            },
        }
    }
}

/// The set of config files the user has accepted, each with the digest of
/// the contents accepted.
#[derive(Debug)]
pub struct Store {
    entries: PathMap<String>,
    /// Whether the store could be read at all. A store that is simply absent
    /// is reachable and empty; one that cannot be reached from inside a
    /// sandbox is a different answer.
    reachable: bool,
}

impl Store {
    pub closed spec fn view(&self) -> StoreView {
        StoreView { entries: self.entries.map().map_values(|d: String| d@), reachable: self.reachable }
    }

    pub closed spec fn wf(&self) -> bool {
        self.entries.wf()
    }

    /// A listing covers the trusted paths, each once, in path order: the
    /// positions a listing reports on are exactly the trusted paths, and
    /// each position's verdict is what checking that path gives.
    pub proof fn law_listing_covers_each_path_once(&self)
        requires
            self.wf(),
        ensures
            forall|i: int, j: int| 0 <= i < j < self.count() ==> crate::path::path_lt(#[trigger] self.path_at(i), #[trigger] self.path_at(j)),
            forall|p: PathView| self.view().entries.contains_key(p) <==> exists|i: int| 0 <= i < self.count() && #[trigger] self.path_at(i) == p,
            forall|i: int| 0 <= i < self.count() ==> self.view().entries[#[trigger] self.path_at(i)] == self.digest_at(i),
    {
        self.entries.lemma_wf();
        let s = self.entries.seq();
        assert forall|p: PathView| self.view().entries.contains_key(p) implies exists|i: int| 0 <= i < self.count() && #[trigger] self.path_at(i) == p by {
            assert(crate::pathmap::has_key(s, p));
            let i = choose|i: int| 0 <= i < s.len() && #[trigger] s[i].0 == p;
            assert(self.path_at(i) == p);
        }
        assert forall|i: int| 0 <= i < self.count() implies self.view().entries.contains_key(#[trigger] self.path_at(i))
            && self.view().entries[self.path_at(i)] == self.digest_at(i) by {
            crate::pathmap::lemma_map_of_index(s, i);
            assert(self.entries.map().contains_key(s[i].0));
            assert(self.view().entries[s[i].0] == self.entries.map()[s[i].0]@);
        }
    }

    /// The number of trusted paths.
    pub closed spec fn count(&self) -> nat {
        self.entries.seq().len()
    }

    /// The trusted path at position `i` in path order.
    pub closed spec fn path_at(&self, i: int) -> PathView {
        self.entries.seq()[i].0
    }

    /// The digest recorded for the path at position `i`.
    pub closed spec fn digest_at(&self, i: int) -> Seq<char> {
        self.entries.seq()[i].1@
    }

    /// An empty, reachable store.
    pub fn new() -> (r: Store)
        ensures
            r.wf(),
            r.view().reachable,
            r.view().entries == Map::<PathView, Seq<char>>::empty(),
    {
        let r = Store { entries: PathMap::new(), reachable: true };
        assert(r.view().entries =~= Map::<PathView, Seq<char>>::empty());
        r
    }

    /// The store as seen from inside a sandbox, where the user's store is out
    /// of reach.
    pub fn unreachable() -> (r: Store)
        ensures
            r.wf(),
            !r.view().reachable,
            r.view().entries == Map::<PathView, Seq<char>>::empty(),
    {
        let r = Store { entries: PathMap::new(), reachable: false };
        assert(r.view().entries =~= Map::<PathView, Seq<char>>::empty());
        r
    }

    /// Reads a store file's text. A text that is not a store is an error, so
    /// that the caller can say so rather than quietly drop every record.
    pub fn from_text(text: &str) -> (r: Result<Store, String>)
        ensures
            match r {
                Ok(st) => {
                    &&& st.wf()
                    &&& st.view().reachable
                    &&& toml_document(text@) matches Ok(doc) && store_doc(doc) == Some(st.view().entries)
                },
                Err(e) => match toml_document(text@) {
                    Err(m) => e@ == m,
                    Ok(doc) => store_doc(doc) is None && e@ == not_a_store(),
                },
            },
    {
        let doc = parse_document(text)?;
        let bad = crate::text::owned("the trust store is not a table of trusted paths");
        match &doc {
            TomlValue::Table(t) => {
                match crate::schema::find(t, "trusted") {
                    None => {
                        let st = Store::new();
                        Ok(st)
                    },
                    Some(TomlValue::Table(pairs)) => {
                        let mut entries: PathMap<String> = PathMap::new();
                        assert(store_doc(doc) == trusted_entries(pairs@));
                        let mut i: usize = 0;
                        while i < pairs.len()
                            invariant
                                i <= pairs.len(),
                                toml_document(text@) == Ok::<TomlValue, Seq<char>>(doc),
                                store_doc(doc) == trusted_entries(pairs@),
                                bad@ == not_a_store(),
                                entries.wf(),
                                trusted_entries(pairs@.subrange(0, i as int)) == Some(
                                    entries.map().map_values(|d: String| d@),
                                ),
                            decreases pairs.len() - i,
                        {
                            let ghost pre = pairs@.subrange(0, i + 1);
                            assert(pre.drop_last() =~= pairs@.subrange(0, i as int));
                            let (k, v) = &pairs[i];
                            match v {
                                TomlValue::Str(d) => {
                                    let ghost before = entries.map();
                                    entries.insert(PathBuf::parse(k.as_str()), d.clone());
                                    assert(entries.map().map_values(|d: String| d@) =~= before.map_values(
                                        |d: String| d@,
                                    ).insert(crate::path::parse_spec(k@), d@));
                                },
                                _ => {
                                    proof {
                                        lemma_trusted_entries_fail_sticks(pairs@, i + 1);
                                        assert(pairs@.subrange(0, pairs.len() as int) =~= pairs@);
                                    }
                                    return Err(bad);
                                },
                            }
                            i = i + 1;
                        }
                        assert(pairs@.subrange(0, pairs.len() as int) =~= pairs@);
                        Ok(Store { entries, reachable: true })
                    },
                    Some(_) => Err(bad),
                }
            },
            _ => Err(bad),
        }
    }

    /// Whether `path`, made absolute against the working directory, may
    /// contribute to a policy, given what was seen of it (its metadata, then
    /// its contents), and why not when it may not.
    pub fn check(&self, path: &PathBuf, env: &HostEnv, facts: &Result<FileFacts, String>, contents: &Result<Vec<u8>, String>) -> (r: Option<Rejected>)
        requires
            self.wf(),
        ensures
            opt_rejected_view(r) == check_spec(self.view(), absolute_spec(path@, *env), *facts, *contents),
    {
        let key = absolute(path, env);
        self.check_key(&key, facts, contents)
    }

    /// `check` for a path already made absolute.
    pub(crate) fn check_key(&self, path: &PathBuf, facts: &Result<FileFacts, String>, contents: &Result<Vec<u8>, String>) -> (r: Option<Rejected>)
        requires
            self.wf(),
        ensures
            opt_rejected_view(r) == check_spec(self.view(), path@, *facts, *contents),
    {
        if !self.reachable {
            return Some(Rejected::StoreUnreachable);
        }
        let f = match facts {
            Err(e) => {
                return Some(Rejected::Unreadable(e.clone()));
            },
            Ok(f) => f,
        };
        match exposure(f) {
            Some(x) => {
                return Some(x);
            },
            None => {},
        }
        let bytes = match contents {
            Err(e) => {
                return Some(Rejected::Unreadable(e.clone()));
            },
            Ok(b) => b,
        };
        let d = digest(bytes);
        match self.entries.get(path) {
            None => Some(Rejected::Untrusted),
            Some(recorded) => {
                if *recorded == d {
                    None
                } else {
                    Some(Rejected::Changed)
                }
            },
        }
    }

    /// Records trust in `path`, made absolute against the working directory,
    /// as it currently reads, and gives back the path recorded. A file that
    /// someone else can change is refused, since the record would not hold it.
    pub fn record(&mut self, path: &PathBuf, env: &HostEnv, facts: &Result<FileFacts, String>, contents: &Result<Vec<u8>, String>) -> (r: Result<PathBuf, String>)
        requires
            old(self).wf(),
        ensures
            final(self).wf(),
            match record_refusal(old(self).view(), absolute_spec(path@, *env), *facts, *contents) {
                Some(m) => r matches Err(e) && e@ == m && final(self).view() == old(self).view(),
                None => r matches Ok(p) && p@ == absolute_spec(path@, *env) && final(self).view() == (StoreView {
                    entries: old(self).view().entries.insert(absolute_spec(path@, *env), digest_spec(contents->Ok_0@)),
                    reachable: true,
                }),
            },
    {
        let key = absolute(path, env);
        self.record_key(&key, facts, contents)
    }

    /// `record` for a path already made absolute.
    fn record_key(&mut self, path: &PathBuf, facts: &Result<FileFacts, String>, contents: &Result<Vec<u8>, String>) -> (r: Result<PathBuf, String>)
        requires
            old(self).wf(),
        ensures
            final(self).wf(),
            match record_refusal(old(self).view(), path@, *facts, *contents) {
                Some(m) => r matches Err(e) && e@ == m && final(self).view() == old(self).view(),
                None => r matches Ok(p) && p@ == path@ && final(self).view() == (StoreView {
                    entries: old(self).view().entries.insert(path@, digest_spec(contents->Ok_0@)),
                    reachable: true,
                }),
            },
    {
        if !self.reachable {
            return Err(crate::text::owned(
                "the trust store is not reachable from inside a sandbox: a record written here would go into a private home that is discarded when the run ends. Trust the file from outside the sandbox.",
            ));
        }
        let f = match facts {
            Err(e) => {
                let mut out = chars_of("could not read `");
                push_str(&mut out, path.display().as_str());
                push_str(&mut out, "`: ");
                push_str(&mut out, e.as_str());
                let m = string_of(&out);
                assert(m@ =~= record_refusal(self.view(), path@, *facts, *contents)->0);
                return Err(m);
            },
            Ok(f) => f,
        };
        if !f.is_file {
            let mut out = chars_of("`");
            push_str(&mut out, path.display().as_str());
            push_str(&mut out, "` is not a file");
            let m = string_of(&out);
            assert(m@ =~= record_refusal(self.view(), path@, *facts, *contents)->0);
            return Err(m);
        }
        match exposure(f) {
            Some(x) => {
                let mut out = chars_of("refusing to trust `");
                push_str(&mut out, path.display().as_str());
                push_str(&mut out, "`: ");
                push_str(&mut out, x.reason().as_str());
                push_str(&mut out, ", so its contents could change after you accepted them");
                match x.remedy(path) {
                    Some(m) => {
                        push_str(&mut out, "; ");
                        push_str(&mut out, m.as_str());
                    },
                    None => {},
                }
                let m = string_of(&out);
                assert(m@ =~= record_refusal(self.view(), path@, *facts, *contents)->0);
                return Err(m);
            },
            None => {},
        }
        let bytes = match contents {
            Err(e) => {
                return Err(e.clone());
            },
            Ok(b) => b,
        };
        let d = digest(bytes);
        let ghost before = self.entries.map();
        self.entries.insert(path.duplicate(), d);
        assert(self.view().entries =~= before.map_values(|d: String| d@).insert(path@, digest_spec(bytes@)));
        Ok(path.duplicate())
    }

    /// Revokes trust in `path`, made absolute against the working directory,
    /// reporting whether there was any.
    pub fn forget(&mut self, path: &PathBuf, env: &HostEnv) -> (r: bool)
        requires
            old(self).wf(),
        ensures
            final(self).wf(),
            r == old(self).view().entries.contains_key(absolute_spec(path@, *env)),
            final(self).view() == (StoreView {
                entries: old(self).view().entries.remove(absolute_spec(path@, *env)),
                reachable: old(self).view().reachable,
            }),
    {
        let key = absolute(path, env);
        let ghost before = self.entries.map();
        let r = self.entries.remove(&key);
        assert(self.view().entries =~= before.map_values(|d: String| d@).remove(key@));
        r
    }

    /// Every trusted path, in path order.
    pub fn trusted(&self) -> (r: Vec<PathBuf>)
        requires
            self.wf(),
        ensures
            r@.len() == self.count(),
            crate::merge::lists_set(crate::policy::paths_view(r@), self.view().entries.dom()),
    {
        proof {
            self.entries.lemma_wf();
        }
        let r = self.entries.keys();
        let ghost s = self.entries.seq();
        assert forall|p: PathView| crate::policy::paths_view(r@).contains(p) <==> self.view().entries.dom().contains(p) by {
            if crate::policy::paths_view(r@).contains(p) {
                let i = choose|i: int| 0 <= i < crate::policy::paths_view(r@).len() && crate::policy::paths_view(r@)[i] == p;
                assert(r@[i]@ == s[i].0);
                assert(crate::pathmap::has_key(s, p));
            }
            if self.view().entries.dom().contains(p) {
                assert(crate::pathmap::has_key(s, p));
                let i = choose|i: int| 0 <= i < s.len() && #[trigger] s[i].0 == p;
                assert(crate::policy::paths_view(r@)[i] == p);
            }
        }
        assert forall|i: int, j: int| 0 <= i < j < crate::policy::paths_view(r@).len() implies crate::path::path_lt(
            #[trigger] crate::policy::paths_view(r@)[i],
            #[trigger] crate::policy::paths_view(r@)[j],
        ) by {
            assert(r@[i]@ == s[i].0 && r@[j]@ == s[j].0);
        }
        r
    }

    /// Every trusted path, in path order, with its current status; `seen`
    /// holds what was seen of each, in the same order.
    pub fn listing(&self, seen: &Vec<(Result<FileFacts, String>, Result<Vec<u8>, String>)>) -> (r: Vec<(PathBuf, Option<Rejected>)>)
        requires
            self.wf(),
            seen@.len() == self.count(),
        ensures
            r@.len() == self.count(),
            forall|i: int| 0 <= i < r@.len() ==> {
                let (p, verdict) = #[trigger] r@[i];
                &&& p@ == self.path_at(i)
                &&& opt_rejected_view(verdict) == check_spec(self.view(), p@, seen@[i].0, seen@[i].1)
            },
    {
        let mut r: Vec<(PathBuf, Option<Rejected>)> = Vec::new();
        let mut i: usize = 0;
        while i < self.entries.len()
            invariant
                i <= self.count(),
                self.wf(),
                seen@.len() == self.count(),
                r@.len() == i,
                forall|j: int| 0 <= j < i ==> {
                    let (p, verdict) = #[trigger] r@[j];
                    &&& p@ == self.path_at(j)
                    &&& opt_rejected_view(verdict) == check_spec(self.view(), p@, seen@[j].0, seen@[j].1)
                },
            decreases self.count() - i,
        {
            let p = self.entries.key_at(i).duplicate();
            let verdict = self.check_key(&p, &seen[i].0, &seen[i].1);
            r.push((p, verdict));
            i = i + 1;
        }
        r
    }

    /// Each record as the store file writes it: the path's text and the
    /// digest, in path order.
    pub fn records(&self) -> (r: Vec<(String, String)>)
        requires
            self.wf(),
        ensures
            r@.len() == self.count(),
            forall|i: int| 0 <= i < r@.len() ==> (#[trigger] r@[i]).0@ == render(self.path_at(i))
                && r@[i].1@ == self.digest_at(i),
    {
        let mut r: Vec<(String, String)> = Vec::new();
        let mut i: usize = 0;
        while i < self.entries.len()
            invariant
                i <= self.count(),
                r@.len() == i,
                forall|j: int| 0 <= j < i ==> (#[trigger] r@[j]).0@ == render(self.path_at(j))
                    && r@[j].1@ == self.digest_at(j),
            decreases self.count() - i,
        {
            r.push((self.entries.key_at(i).display(), self.entries.value_at(i).clone()));
            i = i + 1;
        }
        r
    }
}

pub proof fn lemma_trusted_entries_fail_sticks(pairs: Seq<(String, TomlValue)>, n: int)
    requires
        0 <= n <= pairs.len(),
        trusted_entries(pairs.subrange(0, n)) is None,
    ensures
        trusted_entries(pairs) is None,
    decreases pairs.len() - n,
{
    if n < pairs.len() {
        let next = pairs.subrange(0, n + 1);
        assert(next.drop_last() =~= pairs.subrange(0, n));
        lemma_trusted_entries_fail_sticks(pairs, n + 1);
    } else {
        assert(pairs.subrange(0, n) =~= pairs);
    }
}

/// Recording a file and then checking it, as it was seen when recorded,
/// finds it trusted.
pub proof fn law_recorded_file_is_trusted(
    st: StoreView,
    path: PathView,
    facts: Result<FileFacts, String>,
    contents: Result<Vec<u8>, String>,
)
    requires
        record_refusal(st, path, facts, contents) is None,
    ensures
        check_spec(
            StoreView { entries: st.entries.insert(path, digest_spec(contents->Ok_0@)), reachable: true },
            path,
            facts,
            contents,
        ) is None,
{
}

/// A recorded file whose contents no longer have the recorded digest is
/// reported as changed, and one that regains them is trusted again.
pub proof fn law_edit_revokes_trust(
    st: StoreView,
    path: PathView,
    facts: Result<FileFacts, String>,
    recorded: Vec<u8>,
    now: Vec<u8>,
)
    requires
        st.reachable,
        facts matches Ok(f) && exposure_spec(f) is None,
    ensures
        ({
            let after = StoreView { entries: st.entries.insert(path, digest_spec(recorded@)), reachable: true };
            &&& digest_spec(now@) != digest_spec(recorded@) ==> check_spec(after, path, facts, Ok(now)) == Some(RejectedView::Changed)
            &&& digest_spec(now@) == digest_spec(recorded@) ==> check_spec(after, path, facts, Ok(now)) is None
        }),
{
}

/// After trust in a path is revoked, a reachable store reports it as never
/// trusted, and revoking again finds nothing to revoke.
pub proof fn law_forget_revokes(
    st: StoreView,
    path: PathView,
    facts: Result<FileFacts, String>,
    contents: Result<Vec<u8>, String>,
)
    requires
        st.reachable,
        facts matches Ok(f) && exposure_spec(f) is None,
        contents is Ok,
    ensures
        check_spec(StoreView { entries: st.entries.remove(path), reachable: true }, path, facts, contents)
            == Some(RejectedView::Untrusted),
        !st.entries.remove(path).contains_key(path),
{
}

/// A file someone else can change is never trusted: it cannot be recorded,
/// and checking it reports how it is exposed whatever the store holds.
pub proof fn law_exposed_file_is_refused(
    st: StoreView,
    path: PathView,
    facts: Result<FileFacts, String>,
    contents: Result<Vec<u8>, String>,
)
    requires
        st.reachable,
        facts matches Ok(f) && f.is_file && exposure_spec(f) is Some,
    ensures
        record_refusal(st, path, facts, contents) is Some,
        check_spec(st, path, facts, contents) == exposure_spec(facts->Ok_0),
{
}

impl Store {
    /// The store as read from the user's data directory. `found` is the
    /// store's path and what reading it gave, when the store path exists;
    /// `inside_sandbox` is whether this process runs inside a sandbox. A
    /// missing store is an empty one, so a first run needs no setup; but
    /// inside a sandbox the data directory is the private home, so the user's
    /// store cannot be there, and it is unreachable rather than empty. A file
    /// that cannot be read is read as empty; one that is not a store is read
    /// as empty with a warning, which is returned.
    pub fn load(found: Option<(PathBuf, Result<String, String>)>, inside_sandbox: bool) -> (r: (Store, Option<String>))
        ensures
            r.0.wf(),
            match found {
                None => r.0.view().reachable == !inside_sandbox
                    && r.0.view().entries == Map::<PathView, Seq<char>>::empty() && r.1 is None,
                Some((_p, Err(_e))) => r.0.view().reachable
                    && r.0.view().entries == Map::<PathView, Seq<char>>::empty() && r.1 is None,
                Some((p, Ok(text))) => r.0.view().reachable && match store_text_spec(text@) {
                    Ok(m) => r.0.view().entries == m && r.1 is None,
                    Err(e) => r.0.view().entries == Map::<PathView, Seq<char>>::empty()
                        && (r.1 matches Some(w) && w@ == ignored_store_warning(p@, e)),
                },
            },
    {
        match found {
            None => {
                if inside_sandbox {
                    (Store::unreachable(), None)
                } else {
                    (Store::new(), None)
                }
            },
            Some((p, read)) => match read {
                Err(_e) => (Store::new(), None),
                Ok(text) => match Store::from_text(text.as_str()) {
                    Ok(st) => (st, None),
                    Err(e) => {
                        let mut out: Vec<char> = Vec::new();
                        push_str(&mut out, "bailey: warning: ignoring the trust store `");
                        let shown = p.display();
                        push_str(&mut out, shown.as_str());
                        push_str(&mut out, "`: ");
                        push_str(&mut out, e.as_str());
                        (Store::new(), Some(string_of(&out)))
                    },
                },
            },
        }
    }

    /// Where and what to write to record the store in the user's data
    /// directory: the store's path and its records, or why there is nowhere
    /// to write.
    pub fn save(&self, env: &HostEnv) -> (r: Result<(PathBuf, Vec<(String, String)>), String>)
        requires
            self.wf(),
        ensures
            match r {
                Ok((p, recs)) => store_path_spec(*env) == Some(p@) && recs@.len() == self.count()
                    && forall|i: int| 0 <= i < recs@.len() ==> (#[trigger] recs@[i]).0@ == render(self.path_at(i))
                        && recs@[i].1@ == self.digest_at(i),
                Err(e) => store_path_spec(*env) is None && e@ == no_data_dir_message(),
            },
    {
        match store_path(env) {
            Some(p) => Ok((p, self.records())),
            None => Err(crate::text::owned("no data directory: set XDG_DATA_HOME or HOME to record trust")),
        }
    }
}

} // verus!
