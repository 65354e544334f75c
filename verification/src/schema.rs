//! What a config layer's TOML means.
//!
//! Every table is closed: a key the schema does not know is an error rather
//! than something silently ignored, since a misspelt `deny` that vanished
//! would leave a grant in place. A key that is absent takes its default.
//! Each reader here states the value it returns as the one the document
//! denotes, and an error as there being none.

use vstd::prelude::*;

use crate::text::owned;
use crate::tomldoc::TomlValue;

verus! {

/// What is wrong with a config document.
#[derive(Debug, Clone, Copy, PartialEq, Eq)]
pub enum Problem {
    /// The key is not part of the schema.
    Unknown,
    /// The value has the wrong type.
    WrongType,
    /// A required key is absent.
    Missing,
    /// An integer does not fit the setting.
    OutOfRange,
}

/// A schema error: the key it concerns, and what is wrong with it.
#[derive(Debug, Clone, PartialEq, Eq)]
pub struct SchemaError {
    /// The key.
    pub key: String,
    /// The problem.
    pub problem: Problem,
}

impl SchemaError {
    /// A sentence describing the error.
    pub fn message(&self) -> (r: String)
        ensures
            r@ == schema_message(self.key@, self.problem),
    {
        let mut out = crate::text::chars_of(match self.problem {
            Problem::Unknown => "unknown field `",
            Problem::WrongType => "invalid type for `",
            Problem::Missing => "missing field `",
            Problem::OutOfRange => "value out of range for `",
        });
        crate::text::push_str(&mut out, self.key.as_str());
        crate::text::push_str(&mut out, "`");
        crate::text::string_of(&out)
    }
}

pub open spec fn schema_message(key: Seq<char>, problem: Problem) -> Seq<char> {
    (match problem {
        Problem::Unknown => "unknown field `"@,
        Problem::WrongType => "invalid type for `"@,
        Problem::Missing => "missing field `"@,
        Problem::OutOfRange => "value out of range for `"@,
    }) + key + "`"@
}

/// `[filesystem]`.
#[derive(Debug, Clone, PartialEq, Eq)]
pub struct RawFs {
    pub reset: bool,
    pub read: Vec<String>,
    pub write: Vec<String>,
    pub execute: Vec<String>,
    pub deny: Vec<String>,
    pub read_only: Vec<String>,
}

/// An `egress_allow` entry.
#[derive(Debug, Clone, PartialEq, Eq)]
pub struct RawEgressRule {
    pub host: String,
    pub port: Option<u16>,
}

/// `[network]`.
#[derive(Debug, Clone, PartialEq, Eq)]
pub struct RawNetwork {
    pub egress: Option<String>,
    pub egress_allow: Vec<RawEgressRule>,
    pub bind_ports: Vec<u16>,
}

/// A `[[device]]` entry.
#[derive(Debug, Clone, PartialEq, Eq)]
pub struct RawDevice {
    pub path: String,
    pub access: String,
}

/// `[resources]`.
#[derive(Debug, Clone, PartialEq, Eq)]
pub struct RawResources {
    pub memory: Option<String>,
    pub pids_max: Option<u64>,
    pub cpu_percent: Option<u32>,
    pub tmp_size: Option<String>,
    pub shm_size: Option<String>,
}

/// `[hooks]`. `on_violation` is accepted so that an existing config is
/// explained rather than rejected; the hook itself was removed.
#[derive(Debug, Clone, PartialEq, Eq)]
pub struct RawHooks {
    pub pre_launch: Vec<String>,
    pub post_exit: Vec<String>,
    pub on_violation: Vec<String>,
}

/// `[env]`.
#[derive(Debug, Clone, PartialEq, Eq)]
pub struct RawEnv {
    pub reset: bool,
    pub pass: Vec<String>,
    pub deny: Vec<String>,
    /// `set`, in the order the document lists it.
    pub set: Vec<(String, String)>,
}

/// One config layer, as written.
#[derive(Debug, Clone, PartialEq, Eq)]
pub struct RawLayer {
    pub filesystem: RawFs,
    pub network: Option<RawNetwork>,
    pub device: Vec<RawDevice>,
    pub resources: Option<RawResources>,
    pub hooks: Option<RawHooks>,
    pub env: Option<RawEnv>,
    pub home: Option<String>,
    /// Which targets a profile claims. Accepted so a profile carrying it is a
    /// valid layer.
    pub applies_to: Vec<String>,
}

// ---------------------------------------------------------------------------
// What a document denotes.

/// The first position of `key` in a table.
pub open spec fn is_first(t: Seq<(String, TomlValue)>, key: Seq<char>, i: int) -> bool {
    0 <= i < t.len() && t[i].0@ == key && forall|j: int| 0 <= j < i ==> t[j].0@ != key
}

/// The value `key` has in a table.
pub open spec fn lookup(t: Seq<(String, TomlValue)>, key: Seq<char>) -> Option<TomlValue> {
    if exists|i: int| is_first(t, key, i) {
        Some(t[choose|i: int| is_first(t, key, i)].1)
    } else {
        None
    }
}

/// Whether every key of a table is one of `allowed`.
pub open spec fn known(t: Seq<(String, TomlValue)>, allowed: Seq<Seq<char>>) -> bool {
    forall|i: int| 0 <= i < t.len() ==> allowed.contains(#[trigger] t[i].0@)
}

pub open spec fn str_is(v: TomlValue, s: Seq<char>) -> bool {
    v matches TomlValue::Str(x) && x@ == s
}

pub open spec fn strs_are(v: TomlValue, s: Seq<Seq<char>>) -> bool {
    match v {
        TomlValue::Array(items) => items@.len() == s.len() && forall|i: int|
            0 <= i < s.len() ==> str_is(#[trigger] items@[i], s[i]),
        _ => false,
    }
}

pub open spec fn u16s_are(v: TomlValue, s: Seq<u16>) -> bool {
    match v {
        TomlValue::Array(items) => items@.len() == s.len() && forall|i: int|
            0 <= i < s.len() ==> (#[trigger] items@[i] matches TomlValue::Int(n) && n == s[i]),
        _ => false,
    }
}

pub open spec fn pairs_are(v: TomlValue, s: Seq<(Seq<char>, Seq<char>)>) -> bool {
    match v {
        TomlValue::Table(t) => t@.len() == s.len() && forall|i: int|
            0 <= i < s.len() ==> (#[trigger] t@[i]).0@ == s[i].0 && str_is(t@[i].1, s[i].1),
        _ => false,
    }
}

/// A required string.
pub open spec fn req_str(o: Option<TomlValue>, s: Seq<char>) -> bool {
    o matches Some(v) && str_is(v, s)
}

/// A list of strings that defaults to empty.
pub open spec fn opt_strs(o: Option<TomlValue>, s: Seq<Seq<char>>) -> bool {
    match o {
        None => s.len() == 0,
        Some(v) => strs_are(v, s),
    }
}

/// A list of ports that defaults to empty.
pub open spec fn opt_u16s(o: Option<TomlValue>, s: Seq<u16>) -> bool {
    match o {
        None => s.len() == 0,
        Some(v) => u16s_are(v, s),
    }
}

/// A flag that defaults to false.
pub open spec fn opt_flag(o: Option<TomlValue>, b: bool) -> bool {
    match o {
        None => !b,
        Some(v) => v matches TomlValue::Bool(x) && x == b,
    }
}

/// An optional string.
pub open spec fn opt_str(o: Option<TomlValue>, r: Option<Seq<char>>) -> bool {
    match o {
        None => r is None,
        Some(v) => r matches Some(s) && str_is(v, s),
    }
}

/// An optional integer in `0..=max`.
pub open spec fn opt_int(o: Option<TomlValue>, max: int, r: Option<int>) -> bool {
    match o {
        None => r is None,
        Some(v) => r matches Some(n) && v matches TomlValue::Int(i) && i == n && 0 <= n <= max,
    }
}

pub open spec fn opt_u64_view(o: Option<u64>) -> Option<int> {
    match o { Some(n) => Some(n as int), None => None }
}

pub open spec fn opt_u32_view(o: Option<u32>) -> Option<int> {
    match o { Some(n) => Some(n as int), None => None }
}

pub open spec fn opt_u16_view(o: Option<u16>) -> Option<int> {
    match o { Some(n) => Some(n as int), None => None }
}

pub open spec fn opt_string_view(o: Option<String>) -> Option<Seq<char>> {
    match o { Some(s) => Some(s@), None => None }
}

pub open spec fn fs_keys() -> Seq<Seq<char>> {
    seq!["reset"@, "read"@, "write"@, "execute"@, "deny"@, "read_only"@]
}

pub open spec fn network_keys() -> Seq<Seq<char>> {
    seq!["egress"@, "egress_allow"@, "bind_ports"@]
}

pub open spec fn rule_keys() -> Seq<Seq<char>> {
    seq!["host"@, "port"@]
}

pub open spec fn device_keys() -> Seq<Seq<char>> {
    seq!["path"@, "access"@]
}

pub open spec fn resource_keys() -> Seq<Seq<char>> {
    seq!["memory"@, "pids_max"@, "cpu_percent"@, "tmp_size"@, "shm_size"@]
}

pub open spec fn hook_keys() -> Seq<Seq<char>> {
    seq!["pre_launch"@, "post_exit"@, "on_violation"@]
}

pub open spec fn env_keys() -> Seq<Seq<char>> {
    seq!["reset"@, "pass"@, "deny"@, "set"@]
}

pub open spec fn layer_keys() -> Seq<Seq<char>> {
    seq![
        "filesystem"@,
        "network"@,
        "device"@,
        "resources"@,
        "hooks"@,
        "env"@,
        "home"@,
        "applies_to"@,
    ]
}

pub open spec fn fs_is(o: Option<TomlValue>, fs: RawFs) -> bool {
    match o {
        None => !fs.reset && fs.read@.len() == 0 && fs.write@.len() == 0 && fs.execute@.len() == 0
            && fs.deny@.len() == 0 && fs.read_only@.len() == 0,
        Some(TomlValue::Table(t)) => {
            &&& known(t@, fs_keys())
            &&& opt_flag(lookup(t@, "reset"@), fs.reset)
            &&& opt_strs(lookup(t@, "read"@), fs.read.deep_view())
            &&& opt_strs(lookup(t@, "write"@), fs.write.deep_view())
            &&& opt_strs(lookup(t@, "execute"@), fs.execute.deep_view())
            &&& opt_strs(lookup(t@, "deny"@), fs.deny.deep_view())
            &&& opt_strs(lookup(t@, "read_only"@), fs.read_only.deep_view())
        },
        _ => false,
    }
}

pub open spec fn rule_is(v: TomlValue, r: RawEgressRule) -> bool {
    match v {
        TomlValue::Table(t) => {
            &&& known(t@, rule_keys())
            &&& req_str(lookup(t@, "host"@), r.host@)
            &&& opt_int(lookup(t@, "port"@), 65535, opt_u16_view(r.port))
        },
        _ => false,
    }
}

pub open spec fn rules_are(o: Option<TomlValue>, rules: Seq<RawEgressRule>) -> bool {
    match o {
        None => rules.len() == 0,
        Some(TomlValue::Array(items)) => items@.len() == rules.len() && forall|i: int|
            0 <= i < rules.len() ==> rule_is(#[trigger] items@[i], rules[i]),
        _ => false,
    }
}

pub open spec fn network_is(o: Option<TomlValue>, n: Option<RawNetwork>) -> bool {
    match o {
        None => n is None,
        Some(TomlValue::Table(t)) => n matches Some(n) && {
            &&& known(t@, network_keys())
            &&& opt_str(lookup(t@, "egress"@), opt_string_view(n.egress))
            &&& rules_are(lookup(t@, "egress_allow"@), n.egress_allow@)
            &&& opt_u16s(lookup(t@, "bind_ports"@), n.bind_ports@)
        },
        _ => false,
    }
}

pub open spec fn device_is(v: TomlValue, d: RawDevice) -> bool {
    match v {
        TomlValue::Table(t) => {
            &&& known(t@, device_keys())
            &&& req_str(lookup(t@, "path"@), d.path@)
            &&& req_str(lookup(t@, "access"@), d.access@)
        },
        _ => false,
    }
}

pub open spec fn devices_are(o: Option<TomlValue>, ds: Seq<RawDevice>) -> bool {
    match o {
        None => ds.len() == 0,
        Some(TomlValue::Array(items)) => items@.len() == ds.len() && forall|i: int|
            0 <= i < ds.len() ==> device_is(#[trigger] items@[i], ds[i]),
        _ => false,
    }
}

pub open spec fn resources_is(o: Option<TomlValue>, r: Option<RawResources>) -> bool {
    match o {
        None => r is None,
        Some(TomlValue::Table(t)) => r matches Some(r) && {
            &&& known(t@, resource_keys())
            &&& opt_str(lookup(t@, "memory"@), opt_string_view(r.memory))
            &&& opt_int(lookup(t@, "pids_max"@), u64::MAX as int, opt_u64_view(r.pids_max))
            &&& opt_int(lookup(t@, "cpu_percent"@), u32::MAX as int, opt_u32_view(r.cpu_percent))
            &&& opt_str(lookup(t@, "tmp_size"@), opt_string_view(r.tmp_size))
            &&& opt_str(lookup(t@, "shm_size"@), opt_string_view(r.shm_size))
        },
        _ => false,
    }
}

pub open spec fn hooks_is(o: Option<TomlValue>, h: Option<RawHooks>) -> bool {
    match o {
        None => h is None,
        Some(TomlValue::Table(t)) => h matches Some(h) && {
            &&& known(t@, hook_keys())
            &&& opt_strs(lookup(t@, "pre_launch"@), h.pre_launch.deep_view())
            &&& opt_strs(lookup(t@, "post_exit"@), h.post_exit.deep_view())
            &&& opt_strs(lookup(t@, "on_violation"@), h.on_violation.deep_view())
        },
        _ => false,
    }
}

pub open spec fn pairs_view(s: Seq<(String, String)>) -> Seq<(Seq<char>, Seq<char>)> {
    s.map_values(|p: (String, String)| (p.0@, p.1@))
}

pub open spec fn env_is(o: Option<TomlValue>, e: Option<RawEnv>) -> bool {
    match o {
        None => e is None,
        Some(TomlValue::Table(t)) => e matches Some(e) && {
            &&& known(t@, env_keys())
            &&& opt_flag(lookup(t@, "reset"@), e.reset)
            &&& opt_strs(lookup(t@, "pass"@), e.pass.deep_view())
            &&& opt_strs(lookup(t@, "deny"@), e.deny.deep_view())
            &&& match lookup(t@, "set"@) {
                None => e.set@.len() == 0,
                Some(v) => pairs_are(v, pairs_view(e.set@)),
            }
        },
        _ => false,
    }
}

/// Whether `raw` is the layer `doc` denotes.
pub open spec fn layer_is(doc: TomlValue, raw: RawLayer) -> bool {
    match doc {
        TomlValue::Table(t) => {
            &&& known(t@, layer_keys())
            &&& fs_is(lookup(t@, "filesystem"@), raw.filesystem)
            &&& network_is(lookup(t@, "network"@), raw.network)
            &&& devices_are(lookup(t@, "device"@), raw.device@)
            &&& resources_is(lookup(t@, "resources"@), raw.resources)
            &&& hooks_is(lookup(t@, "hooks"@), raw.hooks)
            &&& env_is(lookup(t@, "env"@), raw.env)
            &&& opt_str(lookup(t@, "home"@), opt_string_view(raw.home))
            &&& opt_strs(lookup(t@, "applies_to"@), raw.applies_to.deep_view())
        },
        _ => false,
    }
}

// ---------------------------------------------------------------------------
// Readers.

pub open spec fn deref_opt(o: Option<&TomlValue>) -> Option<TomlValue> {
    match o {
        Some(v) => Some(*v),
        None => None,
    }
}

fn error(key: &str, problem: Problem) -> (r: SchemaError)
    ensures
        r.key@ == key@,
        r.problem == problem,
{
    SchemaError { key: owned(key), problem }
}

/// The value `key` has in a table.
pub fn find<'a>(t: &'a Vec<(String, TomlValue)>, key: &str) -> (r: Option<&'a TomlValue>)
    ensures
        deref_opt(r) == lookup(t@, key@),
{
    let k = owned(key);
    let mut i: usize = 0;
    while i < t.len()
        invariant
            i <= t.len(),
            k@ == key@,
            forall|j: int| 0 <= j < i ==> t@[j].0@ != key@,
        decreases t.len() - i,
    {
        if t[i].0 == k {
            assert(is_first(t@, key@, i as int));
            assert forall|m: int| is_first(t@, key@, m) implies m == i by {
                if m < i {
                } else if m > i {
                    assert(t@[i as int].0@ == key@);
                }
            }
            return Some(&t[i].1);
        }
        i = i + 1;
    }
    assert(!exists|m: int| is_first(t@, key@, m));
    None
}

/// Checks that every key of `t` is one of `allowed`.
fn check_known(t: &Vec<(String, TomlValue)>, allowed: &Vec<String>) -> (r: Result<(), SchemaError>)
    ensures
        r is Ok <==> known(t@, allowed.deep_view()),
{
    let mut i: usize = 0;
    while i < t.len()
        invariant
            i <= t.len(),
            forall|j: int| 0 <= j < i ==> allowed.deep_view().contains(#[trigger] t@[j].0@),
        decreases t.len() - i,
    {
        let mut found = false;
        let mut j: usize = 0;
        while j < allowed.len()
            invariant
                j <= allowed.len(),
                i < t.len(),
                found == exists|m: int| 0 <= m < j && allowed.deep_view()[m] == t@[i as int].0@,
            decreases allowed.len() - j,
        {
            if allowed[j] == t[i].0 {
                found = true;
                assert(allowed.deep_view()[j as int] == t@[i as int].0@);
            } else {
                assert(allowed.deep_view()[j as int] != t@[i as int].0@);
            }
            j = j + 1;
        }
        if !found {
            assert(!allowed.deep_view().contains(t@[i as int].0@));
            return Err(SchemaError { key: t[i].0.clone(), problem: Problem::Unknown });
        }
        i = i + 1;
    }
    Ok(())
}

fn read_strs(v: &TomlValue, key: &str) -> (r: Result<Vec<String>, SchemaError>)
    ensures
        r matches Ok(x) ==> strs_are(*v, x.deep_view()),
        r is Err ==> forall|s: Seq<Seq<char>>| !strs_are(*v, s),
{
    match v {
        TomlValue::Array(items) => {
            let mut out: Vec<String> = Vec::new();
            let mut i: usize = 0;
            while i < items.len()
                invariant
                    i <= items.len(),
                    *v == TomlValue::Array(*items),
                    out@.len() == i,
                    forall|j: int| 0 <= j < i ==> str_is(#[trigger] items@[j], out.deep_view()[j]),
                decreases items.len() - i,
            {
                match &items[i] {
                    TomlValue::Str(s) => {
                        out.push(s.clone());
                    },
                    _ => {
                        assert forall|s: Seq<Seq<char>>| !strs_are(*v, s) by {
                            if s.len() == items@.len() {
                                assert(!str_is(items@[i as int], s[i as int]));
                            }
                        }
                        return Err(error(key, Problem::WrongType));
                    },
                }
                i = i + 1;
            }
            Ok(out)
        },
        _ => Err(error(key, Problem::WrongType)),
    }
}

fn read_u16s(v: &TomlValue, key: &str) -> (r: Result<Vec<u16>, SchemaError>)
    ensures
        r matches Ok(x) ==> u16s_are(*v, x@),
        r is Err ==> forall|s: Seq<u16>| !u16s_are(*v, s),
{
    match v {
        TomlValue::Array(items) => {
            let mut out: Vec<u16> = Vec::new();
            let mut i: usize = 0;
            while i < items.len()
                invariant
                    i <= items.len(),
                    *v == TomlValue::Array(*items),
                    out@.len() == i,
                    forall|j: int| 0 <= j < i ==> (#[trigger] items@[j] matches TomlValue::Int(n) && n == out@[j]),
                decreases items.len() - i,
            {
                match &items[i] {
                    TomlValue::Int(n) => {
                        if *n < 0 || *n > 65535 {
                            assert forall|s: Seq<u16>| !u16s_are(*v, s) by {
                                if s.len() == items@.len() {
                                    assert(!(items@[i as int] matches TomlValue::Int(m) && m == s[i as int]));
                                }
                            }
                            return Err(error(key, Problem::OutOfRange));
                        }
                        out.push(*n as u16);
                    },
                    _ => {
                        assert forall|s: Seq<u16>| !u16s_are(*v, s) by {
                            if s.len() == items@.len() {
                                assert(!(items@[i as int] matches TomlValue::Int(m) && m == s[i as int]));
                            }
                        }
                        return Err(error(key, Problem::WrongType));
                    },
                }
                i = i + 1;
            }
            Ok(out)
        },
        _ => Err(error(key, Problem::WrongType)),
    }
}

fn field_strs(t: &Vec<(String, TomlValue)>, key: &str) -> (r: Result<Vec<String>, SchemaError>)
    ensures
        r matches Ok(x) ==> opt_strs(lookup(t@, key@), x.deep_view()),
        r is Err ==> forall|s: Seq<Seq<char>>| !opt_strs(lookup(t@, key@), s),
{
    match find(t, key) {
        None => {
            let v: Vec<String> = Vec::new();
            assert(v.deep_view().len() == 0);
            Ok(v)
        },
        Some(v) => read_strs(v, key),
    }
}

fn field_u16s(t: &Vec<(String, TomlValue)>, key: &str) -> (r: Result<Vec<u16>, SchemaError>)
    ensures
        r matches Ok(x) ==> opt_u16s(lookup(t@, key@), x@),
        r is Err ==> forall|s: Seq<u16>| !opt_u16s(lookup(t@, key@), s),
{
    match find(t, key) {
        None => Ok(Vec::new()),
        Some(v) => read_u16s(v, key),
    }
}

fn field_flag(t: &Vec<(String, TomlValue)>, key: &str) -> (r: Result<bool, SchemaError>)
    ensures
        r matches Ok(b) ==> opt_flag(lookup(t@, key@), b),
        r is Err ==> forall|b: bool| !opt_flag(lookup(t@, key@), b),
{
    match find(t, key) {
        None => Ok(false),
        Some(TomlValue::Bool(b)) => Ok(*b),
        Some(_) => Err(error(key, Problem::WrongType)),
    }
}

fn field_opt_str(t: &Vec<(String, TomlValue)>, key: &str) -> (r: Result<Option<String>, SchemaError>)
    ensures
        r matches Ok(x) ==> opt_str(lookup(t@, key@), opt_string_view(x)),
        r is Err ==> forall|s: Option<Seq<char>>| !opt_str(lookup(t@, key@), s),
{
    match find(t, key) {
        None => Ok(None),
        Some(TomlValue::Str(s)) => Ok(Some(s.clone())),
        Some(_) => Err(error(key, Problem::WrongType)),
    }
}

fn field_req_str(t: &Vec<(String, TomlValue)>, key: &str) -> (r: Result<String, SchemaError>)
    ensures
        r matches Ok(x) ==> req_str(lookup(t@, key@), x@),
        r is Err ==> forall|s: Seq<char>| !req_str(lookup(t@, key@), s),
{
    match find(t, key) {
        None => Err(error(key, Problem::Missing)),
        Some(TomlValue::Str(s)) => Ok(s.clone()),
        Some(_) => Err(error(key, Problem::WrongType)),
    }
}

fn field_opt_int(t: &Vec<(String, TomlValue)>, key: &str, max: u64) -> (r: Result<Option<u64>, SchemaError>)
    ensures
        r matches Ok(x) ==> opt_int(lookup(t@, key@), max as int, opt_u64_view(x)),
        r matches Ok(x) ==> (x matches Some(n) ==> n <= max),
        r is Err ==> forall|s: Option<int>| !opt_int(lookup(t@, key@), max as int, s),
{
    match find(t, key) {
        None => Ok(None),
        Some(TomlValue::Int(n)) => {
            if *n < 0 || (*n as u64) > max {
                Err(error(key, Problem::OutOfRange))
            } else {
                Ok(Some(*n as u64))
            }
        },
        Some(_) => Err(error(key, Problem::WrongType)),
    }
}

fn keys(names: &[&str]) -> (r: Vec<String>)
    ensures
        r.deep_view() == names@.map_values(|s: &str| s@),
{
    let mut r: Vec<String> = Vec::new();
    let mut i: usize = 0;
    while i < names.len()
        invariant
            i <= names.len(),
            r.deep_view() == names@.subrange(0, i as int).map_values(|s: &str| s@),
        decreases names.len() - i,
    {
        let ghost before = r.deep_view();
        r.push(owned(names[i]));
        assert(r.deep_view() =~= before.push(names@[i as int]@));
        assert(names@.subrange(0, i + 1).map_values(|s: &str| s@) =~= names@.subrange(0, i as int).map_values(|s: &str| s@).push(names@[i as int]@));
        i = i + 1;
    }
    assert(names@.subrange(0, names.len() as int) =~= names@);
    r
}

fn decode_fs(o: Option<&TomlValue>) -> (r: Result<RawFs, SchemaError>)
    ensures
        r matches Ok(fs) ==> fs_is(deref_opt(o), fs),
        r is Err ==> forall|fs: RawFs| !fs_is(deref_opt(o), fs),
{
    match o {
        None => {
            let fs = RawFs {
                reset: false,
                read: Vec::new(),
                write: Vec::new(),
                execute: Vec::new(),
                deny: Vec::new(),
                read_only: Vec::new(),
            };
            Ok(fs)
        },
        Some(TomlValue::Table(t)) => {
            let allowed = keys(&["reset", "read", "write", "execute", "deny", "read_only"]);
            assert(allowed.deep_view() =~= fs_keys());
            check_known(t, &allowed)?;
            let reset = field_flag(t, "reset")?;
            let read = field_strs(t, "read")?;
            let write = field_strs(t, "write")?;
            let execute = field_strs(t, "execute")?;
            let deny = field_strs(t, "deny")?;
            let read_only = field_strs(t, "read_only")?;
            Ok(RawFs { reset, read, write, execute, deny, read_only })
        },
        Some(_) => Err(error("filesystem", Problem::WrongType)),
    }
}

fn decode_rule(v: &TomlValue) -> (r: Result<RawEgressRule, SchemaError>)
    ensures
        r matches Ok(x) ==> rule_is(*v, x),
        r is Err ==> forall|x: RawEgressRule| !rule_is(*v, x),
{
    match v {
        TomlValue::Table(t) => {
            let allowed = keys(&["host", "port"]);
            assert(allowed.deep_view() =~= rule_keys());
            check_known(t, &allowed)?;
            let host = field_req_str(t, "host")?;
            let port = field_opt_int(t, "port", 65535)?;
            let port = match port {
                Some(n) => Some(n as u16),
                None => None,
            };
            Ok(RawEgressRule { host, port })
        },
        _ => Err(error("egress_allow", Problem::WrongType)),
    }
}

fn decode_rules(o: Option<&TomlValue>) -> (r: Result<Vec<RawEgressRule>, SchemaError>)
    ensures
        r matches Ok(x) ==> rules_are(deref_opt(o), x@),
        r is Err ==> forall|x: Seq<RawEgressRule>| !rules_are(deref_opt(o), x),
{
    match o {
        None => Ok(Vec::new()),
        Some(TomlValue::Array(items)) => {
            let mut out: Vec<RawEgressRule> = Vec::new();
            let mut i: usize = 0;
            while i < items.len()
                invariant
                    i <= items.len(),
                    deref_opt(o) == Some(TomlValue::Array(*items)),
                    out@.len() == i,
                    forall|j: int| 0 <= j < i ==> rule_is(#[trigger] items@[j], out@[j]),
                decreases items.len() - i,
            {
                match decode_rule(&items[i]) {
                    Ok(x) => out.push(x),
                    Err(e) => {
                        assert forall|x: Seq<RawEgressRule>| !rules_are(deref_opt(o), x) by {
                            if x.len() == items@.len() {
                                assert(!rule_is(items@[i as int], x[i as int]));
                            }
                        }
                        return Err(e);
                    },
                }
                i = i + 1;
            }
            Ok(out)
        },
        Some(_) => Err(error("egress_allow", Problem::WrongType)),
    }
}

fn decode_network(o: Option<&TomlValue>) -> (r: Result<Option<RawNetwork>, SchemaError>)
    ensures
        r matches Ok(x) ==> network_is(deref_opt(o), x),
        r is Err ==> forall|x: Option<RawNetwork>| !network_is(deref_opt(o), x),
{
    match o {
        None => Ok(None),
        Some(TomlValue::Table(t)) => {
            let allowed = keys(&["egress", "egress_allow", "bind_ports"]);
            assert(allowed.deep_view() =~= network_keys());
            check_known(t, &allowed)?;
            let egress = field_opt_str(t, "egress")?;
            let egress_allow = decode_rules(find(t, "egress_allow"))?;
            let bind_ports = field_u16s(t, "bind_ports")?;
            Ok(Some(RawNetwork { egress, egress_allow, bind_ports }))
        },
        Some(_) => Err(error("network", Problem::WrongType)),
    }
}

fn decode_device(v: &TomlValue) -> (r: Result<RawDevice, SchemaError>)
    ensures
        r matches Ok(x) ==> device_is(*v, x),
        r is Err ==> forall|x: RawDevice| !device_is(*v, x),
{
    match v {
        TomlValue::Table(t) => {
            let allowed = keys(&["path", "access"]);
            assert(allowed.deep_view() =~= device_keys());
            check_known(t, &allowed)?;
            let path = field_req_str(t, "path")?;
            let access = field_req_str(t, "access")?;
            Ok(RawDevice { path, access })
        },
        _ => Err(error("device", Problem::WrongType)),
    }
}

fn decode_devices(o: Option<&TomlValue>) -> (r: Result<Vec<RawDevice>, SchemaError>)
    ensures
        r matches Ok(x) ==> devices_are(deref_opt(o), x@),
        r is Err ==> forall|x: Seq<RawDevice>| !devices_are(deref_opt(o), x),
{
    match o {
        None => Ok(Vec::new()),
        Some(TomlValue::Array(items)) => {
            let mut out: Vec<RawDevice> = Vec::new();
            let mut i: usize = 0;
            while i < items.len()
                invariant
                    i <= items.len(),
                    deref_opt(o) == Some(TomlValue::Array(*items)),
                    out@.len() == i,
                    forall|j: int| 0 <= j < i ==> device_is(#[trigger] items@[j], out@[j]),
                decreases items.len() - i,
            {
                match decode_device(&items[i]) {
                    Ok(x) => out.push(x),
                    Err(e) => {
                        assert forall|x: Seq<RawDevice>| !devices_are(deref_opt(o), x) by {
                            if x.len() == items@.len() {
                                assert(!device_is(items@[i as int], x[i as int]));
                            }
                        }
                        return Err(e);
                    },
                }
                i = i + 1;
            }
            Ok(out)
        },
        Some(_) => Err(error("device", Problem::WrongType)),
    }
}

fn decode_resources(o: Option<&TomlValue>) -> (r: Result<Option<RawResources>, SchemaError>)
    ensures
        r matches Ok(x) ==> resources_is(deref_opt(o), x),
        r is Err ==> forall|x: Option<RawResources>| !resources_is(deref_opt(o), x),
{
    match o {
        None => Ok(None),
        Some(TomlValue::Table(t)) => {
            let allowed = keys(&["memory", "pids_max", "cpu_percent", "tmp_size", "shm_size"]);
            assert(allowed.deep_view() =~= resource_keys());
            check_known(t, &allowed)?;
            let memory = field_opt_str(t, "memory")?;
            let pids_max = field_opt_int(t, "pids_max", u64::MAX)?;
            let cpu = field_opt_int(t, "cpu_percent", 4294967295)?;
            let cpu_percent = match cpu {
                Some(n) => Some(n as u32),
                None => None,
            };
            let tmp_size = field_opt_str(t, "tmp_size")?;
            let shm_size = field_opt_str(t, "shm_size")?;
            Ok(Some(RawResources { memory, pids_max, cpu_percent, tmp_size, shm_size }))
        },
        Some(_) => Err(error("resources", Problem::WrongType)),
    }
}

fn decode_hooks(o: Option<&TomlValue>) -> (r: Result<Option<RawHooks>, SchemaError>)
    ensures
        r matches Ok(x) ==> hooks_is(deref_opt(o), x),
        r is Err ==> forall|x: Option<RawHooks>| !hooks_is(deref_opt(o), x),
{
    match o {
        None => Ok(None),
        Some(TomlValue::Table(t)) => {
            let allowed = keys(&["pre_launch", "post_exit", "on_violation"]);
            assert(allowed.deep_view() =~= hook_keys());
            check_known(t, &allowed)?;
            let pre_launch = field_strs(t, "pre_launch")?;
            let post_exit = field_strs(t, "post_exit")?;
            let on_violation = field_strs(t, "on_violation")?;
            Ok(Some(RawHooks { pre_launch, post_exit, on_violation }))
        },
        Some(_) => Err(error("hooks", Problem::WrongType)),
    }
}

fn decode_pairs(v: &TomlValue) -> (r: Result<Vec<(String, String)>, SchemaError>)
    ensures
        r matches Ok(x) ==> pairs_are(*v, pairs_view(x@)),
        r is Err ==> forall|x: Seq<(Seq<char>, Seq<char>)>| !pairs_are(*v, x),
{
    match v {
        TomlValue::Table(t) => {
            let mut out: Vec<(String, String)> = Vec::new();
            let mut i: usize = 0;
            while i < t.len()
                invariant
                    i <= t.len(),
                    *v == TomlValue::Table(*t),
                    out@.len() == i,
                    forall|j: int| 0 <= j < i ==> (#[trigger] t@[j]).0@ == out@[j].0@ && str_is(t@[j].1, out@[j].1@),
                decreases t.len() - i,
            {
                match &t[i].1 {
                    TomlValue::Str(s) => {
                        out.push((t[i].0.clone(), s.clone()));
                    },
                    _ => {
                        assert forall|x: Seq<(Seq<char>, Seq<char>)>| !pairs_are(*v, x) by {
                            if x.len() == t@.len() {
                                assert(!str_is(t@[i as int].1, x[i as int].1));
                            }
                        }
                        return Err(SchemaError { key: t[i].0.clone(), problem: Problem::WrongType });
                    },
                }
                i = i + 1;
            }
            assert(pairs_are(*v, pairs_view(out@))) by {
                assert forall|j: int| 0 <= j < out@.len() implies (#[trigger] t@[j]).0@ == pairs_view(out@)[j].0 && str_is(t@[j].1, pairs_view(out@)[j].1) by {
                }
            }
            Ok(out)
        },
        _ => Err(error("set", Problem::WrongType)),
    }
}

fn decode_env(o: Option<&TomlValue>) -> (r: Result<Option<RawEnv>, SchemaError>)
    ensures
        r matches Ok(x) ==> env_is(deref_opt(o), x),
        r is Err ==> forall|x: Option<RawEnv>| !env_is(deref_opt(o), x),
{
    match o {
        None => Ok(None),
        Some(TomlValue::Table(t)) => {
            let allowed = keys(&["reset", "pass", "deny", "set"]);
            assert(allowed.deep_view() =~= env_keys());
            check_known(t, &allowed)?;
            let reset = field_flag(t, "reset")?;
            let pass = field_strs(t, "pass")?;
            let deny = field_strs(t, "deny")?;
            let set = match find(t, "set") {
                None => Vec::new(),
                Some(v) => decode_pairs(v)?,
            };
            Ok(Some(RawEnv { reset, pass, deny, set }))
        },
        Some(_) => Err(error("env", Problem::WrongType)),
    }
}

/// The config layer a TOML document denotes.
pub fn decode_layer(doc: &TomlValue) -> (r: Result<RawLayer, SchemaError>)
    ensures
        r matches Ok(raw) ==> layer_is(*doc, raw),
        r is Err ==> forall|raw: RawLayer| !layer_is(*doc, raw),
{
    match doc {
        TomlValue::Table(t) => {
            let allowed = keys(
                &["filesystem", "network", "device", "resources", "hooks", "env", "home", "applies_to"],
            );
            assert(allowed.deep_view() =~= layer_keys());
            check_known(t, &allowed)?;
            let filesystem = decode_fs(find(t, "filesystem"))?;
            let network = decode_network(find(t, "network"))?;
            let device = decode_devices(find(t, "device"))?;
            let resources = decode_resources(find(t, "resources"))?;
            let hooks = decode_hooks(find(t, "hooks"))?;
            let env = decode_env(find(t, "env"))?;
            let home = field_opt_str(t, "home")?;
            let applies_to = field_strs(t, "applies_to")?;
            Ok(RawLayer { filesystem, network, device, resources, hooks, env, home, applies_to })
        },
        _ => Err(error("document", Problem::WrongType)),
    }
}

} // verus!
