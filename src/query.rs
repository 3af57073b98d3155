//! The verbs a controller sends and their wire form.
use vstd::prelude::*;
use crate::value::{JVal, Value, entries_view, items_view, make_array, make_object, push_entry, single_entry};
use crate::text::{eq_str, lit};

verus! {

broadcast use vstd::std_specs::vec::group_vec_axioms;

/// A key/value table as the verbs `set`, `seta` and `rma` carry it.
pub type StringMap = Vec<(String, String)>;

/// A shell command, with the directory it runs in and an optional job name
/// under which an asynchronous result is stored.
pub struct RunCommand {
    pub cmd: String,
    pub pwd: Option<String>,
    pub jobname: Option<String>,
}

/// A local file to be pushed to the agents.
pub struct CopyFile {
    pub path: String,
    pub filename: String,
    pub bytes: Vec<u8>,
    pub dest: String,
    pub perms: Option<u32>,
    pub hash: Option<String>,
}

/// A remote file to be pulled from the agents.
pub struct FetchFile {
    pub source: String,
    pub local_dest: String,
}

/// One stage of work for the controller.
pub enum Query {
    Get(Vec<String>, String),
    Group(String, Box<Query>),
    SetValues(StringMap),
    Seta(StringMap),
    Rma(StringMap),
    Run(RunCommand),
    Launch(RunCommand),
    Spawn(RunCommand),
    Copy(CopyFile),
    Fetch(FetchFile),
    Restart(i32),
    Ping(u64),
    Invoke(String, StringMap),
    Chain(Vec<Query>),
    Actions(Vec<Query>),
    Wait,
}

pub open spec fn opt_json(o: Option<String>) -> JVal {
    match o {
        Some(s) => JVal::Str(s@),
        None => JVal::Null,
    }
}

/// A table value: the text `null` stands for the null value.
pub open spec fn map_value_json(v: Seq<char>) -> JVal {
    if v == "null"@ {
        JVal::Null
    } else {
        JVal::Str(v)
    }
}

pub open spec fn map_json(m: Seq<(String, String)>) -> JVal {
    JVal::Object(Seq::new(m.len(), |i: int| (m[i].0@, map_value_json(m[i].1@))))
}

pub open spec fn strs_json(v: Seq<String>) -> JVal {
    JVal::Array(Seq::new(v.len(), |i: int| JVal::Str(v[i]@)))
}

pub open spec fn run_json(r: RunCommand) -> JVal {
    JVal::Object(seq![("cmd"@, JVal::Str(r.cmd@)), ("pwd"@, opt_json(r.pwd)), ("job"@, opt_json(r.jobname))])
}

pub open spec fn copy_json(c: CopyFile) -> JVal {
    JVal::Object(
        seq![
            ("filename"@, JVal::Str(c.filename@)),
            ("dest"@, JVal::Str(c.dest@)),
            ("perms"@, match c.perms {
                Some(p) => JVal::Int(p as int),
                None => JVal::Null,
            }),
            ("hash"@, opt_json(c.hash)),
        ],
    )
}

pub open spec fn one(k: Seq<char>, v: JVal) -> JVal {
    JVal::Object(seq![(k, v)])
}

/// Whether a query can be sent: `Actions` is the controller's own pipeline
/// and never goes on the wire.
pub open spec fn sendable(q: Query) -> bool
    decreases q,
{
    match q {
        Query::Actions(_) => false,
        Query::Group(_, inner) => sendable(*inner),
        Query::Chain(vq) => forall|i: int| 0 <= i < vq@.len() ==> sendable(#[trigger] vq@[i]),
        _ => true,
    }
}

/// The wire form of a query (`what` in the envelope); null for `Wait`.
pub open spec fn query_json(q: Query) -> JVal
    decreases q,
{
    match q {
        Query::Get(vs, _) => one("get"@, strs_json(vs@)),
        Query::Ping(_) => one("get"@, JVal::Array(seq![JVal::Str("addr"@), JVal::Str("name"@)])),
        Query::Group(_, chain) => query_json(*chain),
        Query::SetValues(kvs) => one("set"@, map_json(kvs@)),
        Query::Seta(kvs) => one("seta"@, map_json(kvs@)),
        Query::Rma(kvs) => one("rma"@, map_json(kvs@)),
        Query::Run(r) => one("run"@, run_json(r)),
        Query::Launch(r) => one("launch"@, run_json(r)),
        Query::Spawn(r) => one("spawn"@, run_json(r)),
        Query::Copy(c) => one("cp"@, copy_json(c)),
        Query::Fetch(f) => one("fetch"@, one("source"@, JVal::Str(f.source@))),
        Query::Restart(code) => one("restart"@, JVal::Int(code as int)),
        Query::Invoke(name, kvs) => one(name@, map_json(kvs@)),
        Query::Chain(vq) => one("chain"@, JVal::Array(chain_items(vq))),
        Query::Actions(_) => JVal::Null,
        Query::Wait => JVal::Null,
    }
}

/// The wire forms of the members of a chain.
pub open spec fn chain_items(vq: Vec<Query>) -> Seq<JVal>
    decreases vq,
{
    Seq::new(vq@.len(), |i: int| if 0 <= i < vq@.len() { query_json(vq@[i]) } else { JVal::Null })
}

fn opt_value(o: &Option<String>) -> (r: Value)
    ensures
        r@ == opt_json(*o),
{
    match o {
        Some(s) => Value::Str(s.clone()),
        None => Value::Null,
    }
}

/// The table as an object; the text `null` becomes the null value.
pub fn to_jobject(kvs: &StringMap) -> (r: Value)
    ensures
        r@ == map_json(kvs@),
{
    let mut es: Vec<(String, Value)> = Vec::new();
    let mut i: usize = 0;
    while i < kvs.len()
        invariant
            i <= kvs@.len(),
            entries_view(es@) == Seq::new(i as nat, |j: int| (kvs@[j].0@, map_value_json(kvs@[j].1@))),
        decreases kvs@.len() - i,
    {
        let v = if eq_str(kvs[i].1.as_str(), "null") {
            Value::Null
        } else {
            Value::Str(kvs[i].1.clone())
        };
        let ghost before = entries_view(es@);
        push_entry(&mut es, kvs[i].0.as_str(), v);
        assert(entries_view(es@) =~= Seq::new((i + 1) as nat, |j: int| (kvs@[j].0@, map_value_json(kvs@[j].1@))));
        i += 1;
    }
    let r = make_object(es);
    assert(r@->Object_0 =~= map_json(kvs@)->Object_0);
    r
}

/// The strings as an array of string values.
pub fn to_jarray(vs: &Vec<String>) -> (r: Value)
    ensures
        r@ == strs_json(vs@),
{
    let mut items: Vec<Value> = Vec::new();
    let mut i: usize = 0;
    while i < vs.len()
        invariant
            i <= vs@.len(),
            items@.len() == i,
            forall|j: int| 0 <= j < i ==> #[trigger] items@[j]@ == JVal::Str(vs@[j]@),
        decreases vs@.len() - i,
    {
        let v = Value::Str(vs[i].clone());
        assert(v@ == JVal::Str(vs@[i as int]@));
        items.push(v);
        i += 1;
    }
    assert(items_view(items@) =~= strs_json(vs@)->Array_0);
    let r = make_array(items);
    assert(r@->Array_0 =~= strs_json(vs@)->Array_0);
    r
}

impl RunCommand {
    pub fn new(cmd: &str, pwd: Option<String>, jobname: Option<String>) -> (r: RunCommand)
        ensures
            r.cmd@ == cmd@,
            r.pwd == pwd,
            r.jobname == jobname,
    {
        RunCommand { cmd: lit(cmd), pwd, jobname }
    }

    fn to_json(&self) -> (r: Value)
        ensures
            r@ == run_json(*self),
    {
        let mut es: Vec<(String, Value)> = Vec::new();
        push_entry(&mut es, "cmd", Value::Str(self.cmd.clone()));
        push_entry(&mut es, "pwd", opt_value(&self.pwd));
        push_entry(&mut es, "job", opt_value(&self.jobname));
        let r = make_object(es);
        assert(r@->Object_0 =~= run_json(*self)->Object_0);
        r
    }

    fn copy(&self) -> (r: RunCommand)
        ensures
            r == *self,
    {
        RunCommand { cmd: self.cmd.clone(), pwd: self.pwd.clone(), jobname: self.jobname.clone() }
    }
}

impl CopyFile {
    /// A file to push: its name is the last part of `path`. Its bytes and
    /// mode are read later.
    pub fn new(path: &str, dest: &str) -> (r: CopyFile)
        ensures
            r.path@ == path@,
            r.filename@ == crate::strutil::basename_spec(path@),
            r.dest@ == dest@,
            r.perms is None,
            r.bytes@.len() == 0,
            r.hash is None,
    {
        CopyFile {
            path: lit(path),
            filename: crate::strutil::basename(path),
            bytes: Vec::new(),
            dest: lit(dest),
            perms: None,
            hash: None,
        }
    }

    /// Takes the file's bytes and mode as read from disk; the digest sent
    /// with the file is the md5 of the bytes.
    pub fn set_contents(&mut self, bytes: Vec<u8>, perms: u32)
        ensures
            final(self).bytes == bytes,
            final(self).perms == Some(perms),
            final(self).hash matches Some(h) && h@ == crate::agent::md5_hex(bytes@),
            final(self).path == old(self).path,
            final(self).filename == old(self).filename,
            final(self).dest == old(self).dest,
    {
        let h = crate::agent::md5_hex_of(bytes.as_slice());
        self.hash = Some(h);
        self.bytes = bytes;
        self.perms = Some(perms);
    }

    fn to_json(&self) -> (r: Value)
        ensures
            r@ == copy_json(*self),
    {
        let mut es: Vec<(String, Value)> = Vec::new();
        push_entry(&mut es, "filename", Value::Str(self.filename.clone()));
        push_entry(&mut es, "dest", Value::Str(self.dest.clone()));
        let p = match self.perms {
            Some(p) => Value::Int(p as i64),
            None => Value::Null,
        };
        push_entry(&mut es, "perms", p);
        push_entry(&mut es, "hash", opt_value(&self.hash));
        let r = make_object(es);
        assert(r@->Object_0 =~= copy_json(*self)->Object_0);
        r
    }
}

impl FetchFile {
    /// For a local directory: the file goes into it, named after the
    /// device's name, its address and the remote file's name.
    pub fn into_dir(&mut self)
        ensures
            final(self).source == old(self).source,
            final(self).local_dest@ == join_dir(old(self).local_dest@) + "%n-%a-"@
                + crate::strutil::basename_spec(old(self).source@),
    {
        let cs = crate::text::chars_of(self.local_dest.as_str());
        if !(cs.len() > 0 && cs[cs.len() - 1] == '/') {
            crate::text::push_char(&mut self.local_dest, '/');
        }
        crate::text::push_str(&mut self.local_dest, "%n-%a-");
        let b = crate::strutil::basename(self.source.as_str());
        crate::text::push_str(&mut self.local_dest, b.as_str());
    }
}

/// A directory path with a `/` at its end.
pub open spec fn join_dir(d: Seq<char>) -> Seq<char> {
    if d.len() > 0 && d.last() == '/' {
        d
    } else {
        d.push('/')
    }
}

/// A one-entry table.
pub fn pair_map(name: &str, value: &str) -> (r: StringMap)
    ensures
        r@.len() == 1,
        r@[0].0@ == name@,
        r@[0].1@ == value@,
{
    let mut m: StringMap = Vec::new();
    m.push((lit(name), lit(value)));
    m
}

/// `s` with `x` in front unless it holds `x` already.
pub open spec fn with_front(s: Seq<Seq<char>>, x: Seq<char>) -> Seq<Seq<char>> {
    if s.contains(x) {
        s
    } else {
        seq![x] + s
    }
}

fn ensure_front(args: &mut Vec<String>, x: &str)
    ensures
        final(args)@.map_values(|s: String| s@) == with_front(old(args)@.map_values(|s: String| s@), x@),
{
    let ghost v = args@.map_values(|s: String| s@);
    let mut i: usize = 0;
    while i < args.len()
        invariant
            v == args@.map_values(|s: String| s@),
            i <= args@.len(),
            forall|j: int| 0 <= j < i ==> v[j] != x@,
        decreases args@.len() - i,
    {
        if eq_str(args[i].as_str(), x) {
            assert(v[i as int] == x@);
            return;
        }
        i += 1;
    }
    assert(!v.contains(x@));
    args.insert(0, lit(x));
    assert(args@.map_values(|s: String| s@) =~= seq![x@] + v);
}

/// The query that collects a group: a chain of `get [addr, name]` and a
/// `seta` that adds the group's name to the `groups` array.
pub open spec fn is_group_query(q: Query, name: Seq<char>) -> bool {
    match q {
        Query::Group(n, inner) => n@ == name && match *inner {
            Query::Chain(vq) => vq@.len() == 2 && (match vq@[0] {
                Query::Get(args, c) => args@.map_values(|s: String| s@) == seq!["addr"@, "name"@] && c@
                    == "group"@,
                _ => false,
            }) && (match vq@[1] {
                Query::Seta(m) => m@.len() == 1 && m@[0].0@ == "groups"@ && m@[0].1@ == name,
                _ => false,
            }),
            _ => false,
        },
        _ => false,
    }
}

fn chain_sendable(vq: &Vec<Query>) -> (r: bool)
    ensures
        r == forall|j: int| 0 <= j < vq@.len() ==> sendable(#[trigger] vq@[j]),
    decreases vq,
{
    let mut i: usize = 0;
    while i < vq.len()
        invariant
            i <= vq@.len(),
            forall|j: int| 0 <= j < i ==> sendable(#[trigger] vq@[j]),
        decreases vq@.len() - i,
    {
        if !vq[i].is_sendable() {
            assert(!sendable(vq@[i as int]));
            return false;
        }
        i += 1;
    }
    true
}

fn chain_to_json(vq: &Vec<Query>) -> (r: Value)
    requires
        forall|j: int| 0 <= j < vq@.len() ==> sendable(#[trigger] vq@[j]),
    ensures
        r@ == JVal::Array(chain_items(*vq)),
    decreases vq,
{
    let mut items: Vec<Value> = Vec::new();
    let mut i: usize = 0;
    while i < vq.len()
        invariant
            i <= vq@.len(),
            forall|j: int| 0 <= j < vq@.len() ==> sendable(#[trigger] vq@[j]),
            items@.len() == i,
            forall|j: int| 0 <= j < i ==> #[trigger] items@[j]@ == query_json(vq@[j]),
        decreases vq@.len() - i,
    {
        let v = vq[i].to_json();
        items.push(v);
        i += 1;
    }
    let a = make_array(items);
    assert(a@->Array_0 =~= chain_items(*vq));
    a
}

impl Query {
    /// A `get` of the given keys, with `addr` and `name` in front when
    /// they are not asked for already; `command` says how to show it.
    pub fn get(v: &Vec<String>, command: &str) -> (r: Query)
        ensures
            r matches Query::Get(args, c) && c@ == command@ && args@.map_values(|s: String| s@)
                == with_front(with_front(v@.map_values(|s: String| s@), "name"@), "addr"@),
    {
        let mut args: Vec<String> = Vec::new();
        let mut i: usize = 0;
        while i < v.len()
            invariant
                i <= v@.len(),
                args@.len() == i,
                forall|j: int| 0 <= j < i ==> args@[j]@ == v@[j]@,
            decreases v@.len() - i,
        {
            args.push(v[i].clone());
            i += 1;
        }
        assert(args@.map_values(|s: String| s@) =~= v@.map_values(|s: String| s@));
        ensure_front(&mut args, "name");
        ensure_front(&mut args, "addr");
        Query::Get(args, lit(command))
    }

    /// Collects the responders into a group: each agent reports its
    /// address and name and adds `name` to its `groups` array.
    pub fn group(name: &str) -> (r: Query)
        ensures
            is_group_query(r, name@),
    {
        let mut keys: Vec<String> = Vec::new();
        keys.push(lit("addr"));
        keys.push(lit("name"));
        let g = Query::get(&keys, "group");
        proof {
            reveal_strlit("addr");
            reveal_strlit("name");
            let kv = keys@.map_values(|s: String| s@);
            assert(kv[0] == "addr"@ && kv[1] == "name"@);
            assert(kv.contains("name"@));
            assert(kv.contains("addr"@));
            assert(kv =~= seq!["addr"@, "name"@]);
        }
        let mut chain: Vec<Query> = Vec::new();
        chain.push(g);
        chain.push(Query::Seta(pair_map("groups", name)));
        Query::Group(lit(name), Box::new(Query::Chain(chain)))
    }

    /// Removes `value` from the array under `name`.
    pub fn rma(name: &str, value: &str) -> (r: Query)
        ensures
            r matches Query::Rma(m) && m@.len() == 1 && m@[0].0@ == name@ && m@[0].1@ == value@,
    {
        Query::Rma(pair_map(name, value))
    }

    /// Whether the query can go on the wire (holds no `Actions`).
    pub fn is_sendable(&self) -> (r: bool)
        ensures
            r == sendable(*self),
        decreases self,
    {
        match self {
            Query::Actions(_) => false,
            Query::Group(_, inner) => inner.is_sendable(),
            Query::Chain(vq) => chain_sendable(vq),
            _ => true,
        }
    }

    pub fn is_wait(&self) -> (r: bool)
        ensures
            r == (*self is Wait),
    {
        match self {
            Query::Wait => true,
            _ => false,
        }
    }

    /// The wire form of the query.
    pub fn to_json(&self) -> (r: Value)
        requires
            sendable(*self),
        ensures
            r@ == query_json(*self),
        decreases self,
    {
        match self {
            Query::Get(vs, _) => single_entry("get", to_jarray(vs)),
            Query::Ping(_) => {
                let mut items: Vec<Value> = Vec::new();
                items.push(crate::value::str_value("addr"));
                items.push(crate::value::str_value("name"));
                let a = make_array(items);
                assert(a@->Array_0 =~= seq![JVal::Str("addr"@), JVal::Str("name"@)]);
                single_entry("get", a)
            },
            Query::Group(_, chain) => chain.to_json(),
            Query::SetValues(kvs) => single_entry("set", to_jobject(kvs)),
            Query::Seta(kvs) => single_entry("seta", to_jobject(kvs)),
            Query::Rma(kvs) => single_entry("rma", to_jobject(kvs)),
            Query::Run(r) => single_entry("run", r.to_json()),
            Query::Launch(r) => single_entry("launch", r.to_json()),
            Query::Spawn(r) => single_entry("spawn", r.to_json()),
            Query::Copy(c) => single_entry("cp", c.to_json()),
            Query::Fetch(f) => single_entry("fetch", single_entry("source", Value::Str(f.source.clone()))),
            Query::Restart(code) => single_entry("restart", Value::Int(*code as i64)),
            Query::Invoke(name, kvs) => single_entry(name.as_str(), to_jobject(kvs)),
            Query::Chain(vq) => single_entry("chain", chain_to_json(vq)),
            Query::Actions(_) => Value::Null,
            Query::Wait => Value::Null,
        }
    }
}

/// What a query asks of an agent, as the wire carries it.
pub enum VerbM {
    Get(Seq<Seq<char>>),
    SetValues(Seq<(Seq<char>, JVal)>),
    Seta(Seq<(Seq<char>, JVal)>),
    Rma(Seq<(Seq<char>, JVal)>),
    Run(JVal),
    Launch(JVal),
    Spawn(JVal),
    Cp(JVal),
    Fetch(Seq<char>),
    Restart(int),
    Chain(Seq<VerbM>),
    Custom(Seq<char>, Seq<(Seq<char>, JVal)>),
    Wait,
}

/// The verb of a query: a group is its chain, a ping is a `get` of the
/// address and name.
pub open spec fn verb_of(q: Query) -> VerbM
    decreases q,
{
    match q {
        Query::Get(vs, _) => VerbM::Get(vs@.map_values(|s: String| s@)),
        Query::Ping(_) => VerbM::Get(seq!["addr"@, "name"@]),
        Query::Group(_, chain) => verb_of(*chain),
        Query::SetValues(kvs) => VerbM::SetValues(map_json(kvs@)->Object_0),
        Query::Seta(kvs) => VerbM::Seta(map_json(kvs@)->Object_0),
        Query::Rma(kvs) => VerbM::Rma(map_json(kvs@)->Object_0),
        Query::Run(r) => VerbM::Run(run_json(r)),
        Query::Launch(r) => VerbM::Launch(run_json(r)),
        Query::Spawn(r) => VerbM::Spawn(run_json(r)),
        Query::Copy(c) => VerbM::Cp(copy_json(c)),
        Query::Fetch(f) => VerbM::Fetch(f.source@),
        Query::Restart(code) => VerbM::Restart(code as int),
        Query::Invoke(name, kvs) => VerbM::Custom(name@, map_json(kvs@)->Object_0),
        Query::Chain(vq) => VerbM::Chain(chain_verbs(vq)),
        Query::Actions(_) => VerbM::Wait,
        Query::Wait => VerbM::Wait,
    }
}

pub open spec fn chain_verbs(vq: Vec<Query>) -> Seq<VerbM>
    decreases vq,
{
    Seq::new(vq@.len(), |i: int| if 0 <= i < vq@.len() { verb_of(vq@[i]) } else { VerbM::Wait })
}

/// The names of the built-in verbs.
pub open spec fn builtin_verb(n: Seq<char>) -> bool {
    n == "get"@ || n == "set"@ || n == "seta"@ || n == "rma"@ || n == "run"@ || n == "launch"@ || n
        == "spawn"@ || n == "cp"@ || n == "fetch"@ || n == "restart"@ || n == "chain"@
}

/// The strings of an array of strings.
pub open spec fn strings_of_json(items: Seq<JVal>) -> Option<Seq<Seq<char>>>
    decreases items.len(),
{
    if items.len() == 0 {
        Some(Seq::empty())
    } else {
        match strings_of_json(items.drop_last()) {
            Some(ss) => match items.last() {
                JVal::Str(x) => Some(ss.push(x)),
                _ => None,
            },
            None => None,
        }
    }
}

/// Decodes the wire form of a verb (`what` in the envelope).
pub open spec fn verb_from_json(j: JVal) -> Option<VerbM>
    decreases j,
{
    match j {
        JVal::Null => Some(VerbM::Wait),
        JVal::Object(es) => if es.len() != 1 {
            None
        } else {
            let n = es[0].0;
            let a = es[0].1;
            if n == "get"@ {
                match a {
                    JVal::Array(items) => match strings_of_json(items) {
                        Some(ss) => Some(VerbM::Get(ss)),
                        None => None,
                    },
                    _ => None,
                }
            } else if n == "set"@ || n == "seta"@ || n == "rma"@ {
                match a {
                    JVal::Object(kvs) => Some(
                        if n == "set"@ {
                            VerbM::SetValues(kvs)
                        } else if n == "seta"@ {
                            VerbM::Seta(kvs)
                        } else {
                            VerbM::Rma(kvs)
                        },
                    ),
                    _ => None,
                }
            } else if n == "run"@ {
                Some(VerbM::Run(a))
            } else if n == "launch"@ {
                Some(VerbM::Launch(a))
            } else if n == "spawn"@ {
                Some(VerbM::Spawn(a))
            } else if n == "cp"@ {
                Some(VerbM::Cp(a))
            } else if n == "fetch"@ {
                match crate::store::field_of(a, "source"@) {
                    JVal::Str(src) => Some(VerbM::Fetch(src)),
                    _ => None,
                }
            } else if n == "restart"@ {
                match a {
                    JVal::Int(c) => Some(VerbM::Restart(c)),
                    _ => None,
                }
            } else if n == "chain"@ {
                match a {
                    JVal::Array(items) => match verbs_from_json(items) {
                        Some(vs) => Some(VerbM::Chain(vs)),
                        None => None,
                    },
                    _ => None,
                }
            } else {
                match a {
                    JVal::Object(kvs) => Some(VerbM::Custom(n, kvs)),
                    _ => None,
                }
            }
        },
        _ => None,
    }
}

pub open spec fn verbs_from_json(items: Seq<JVal>) -> Option<Seq<VerbM>>
    decreases items,
{
    if items.len() == 0 {
        Some(Seq::empty())
    } else {
        match verbs_from_json(items.drop_last()) {
            Some(vs) => match verb_from_json(items.last()) {
                Some(v) => Some(vs.push(v)),
                None => None,
            },
            None => None,
        }
    }
}

/// Whether every custom verb in the query is named apart from the
/// built-in ones (a custom verb named `get` would read as `get`).
pub open spec fn custom_names_apart(q: Query) -> bool
    decreases q,
{
    match q {
        Query::Invoke(name, _) => !builtin_verb(name@),
        Query::Group(_, inner) => custom_names_apart(*inner),
        Query::Chain(vq) => forall|i: int| 0 <= i < vq@.len() ==> custom_names_apart(#[trigger] vq@[i]),
        _ => true,
    }
}

/// The letters of the verb names.
proof fn lemma_wire_verb_names()
    ensures
        "get"@ == seq!['g', 'e', 't'],
        "set"@ == seq!['s', 'e', 't'],
        "seta"@ == seq!['s', 'e', 't', 'a'],
        "rma"@ == seq!['r', 'm', 'a'],
        "run"@ == seq!['r', 'u', 'n'],
        "launch"@ == seq!['l', 'a', 'u', 'n', 'c', 'h'],
        "spawn"@ == seq!['s', 'p', 'a', 'w', 'n'],
        "cp"@ == seq!['c', 'p'],
        "fetch"@ == seq!['f', 'e', 't', 'c', 'h'],
        "restart"@ == seq!['r', 'e', 's', 't', 'a', 'r', 't'],
        "chain"@ == seq!['c', 'h', 'a', 'i', 'n'],
        "source"@ == seq!['s', 'o', 'u', 'r', 'c', 'e'],
{
    crate::agent::lemma_verb_names();
    reveal_strlit("source");
    assert("source"@ =~= seq!['s', 'o', 'u', 'r', 'c', 'e']);
}

proof fn lemma_strings_round_trip(vs: Seq<String>)
    ensures
        strings_of_json(Seq::new(vs.len(), |i: int| JVal::Str(vs[i]@))) == Some(vs.map_values(|s: String| s@)),
    decreases vs.len(),
{
    let items = Seq::new(vs.len(), |i: int| JVal::Str(vs[i]@));
    if vs.len() > 0 {
        lemma_strings_round_trip(vs.drop_last());
        assert(items.drop_last() =~= Seq::new(vs.drop_last().len(), |i: int| JVal::Str(vs.drop_last()[i]@)));
        assert(vs.drop_last().map_values(|s: String| s@).push(vs.last()@) =~= vs.map_values(|s: String| s@));
    } else {
        assert(vs.map_values(|s: String| s@) =~= Seq::<Seq<char>>::empty());
    }
}

/// The wire form of every query that can be sent decodes to its verb.
pub proof fn lemma_verb_round_trip(q: Query)
    requires
        sendable(q),
        custom_names_apart(q),
    ensures
        verb_from_json(query_json(q)) == Some(verb_of(q)),
    decreases q,
{
    lemma_wire_verb_names();
    crate::agent::lemma_verb_names();
    match q {
        Query::Get(vs, _) => {
            lemma_strings_round_trip(vs@);
        },
        Query::Ping(_) => {
            reveal_strlit("addr");
            reveal_strlit("name");
            let items = seq![JVal::Str("addr"@), JVal::Str("name"@)];
            assert(items.drop_last() =~= seq![JVal::Str("addr"@)]);
            assert(items.drop_last().drop_last() =~= Seq::<JVal>::empty());
            assert(strings_of_json(Seq::<JVal>::empty()) == Some(Seq::<Seq<char>>::empty()));
            assert(strings_of_json(seq![JVal::Str("addr"@)]) == Some(seq!["addr"@])) by {
                assert(seq![JVal::Str("addr"@)].drop_last() =~= Seq::<JVal>::empty());
                assert(Seq::<Seq<char>>::empty().push("addr"@) =~= seq!["addr"@]);
            }
            assert(strings_of_json(items) == Some(seq!["addr"@].push("name"@)));
            assert(seq!["addr"@].push("name"@) =~= seq!["addr"@, "name"@]);
        },
        Query::Group(_, chain) => {
            lemma_verb_round_trip(*chain);
        },
        Query::Fetch(f) => {
            reveal_strlit("source");
            let a = one("source"@, JVal::Str(f.source@));
            assert(crate::store::first_key_from(a->Object_0, "source"@, 0) == Some(0int));
        },
        Query::Chain(vq) => {
            lemma_chain_round_trip(vq);
        },
        _ => {},
    }
}

proof fn lemma_chain_round_trip(vq: Vec<Query>)
    requires
        forall|i: int| 0 <= i < vq@.len() ==> sendable(#[trigger] vq@[i]),
        forall|i: int| 0 <= i < vq@.len() ==> custom_names_apart(#[trigger] vq@[i]),
    ensures
        verbs_from_json(chain_items(vq)) == Some(chain_verbs(vq)),
    decreases vq,
{
    lemma_chain_prefix(vq, vq@.len() as int);
    assert(chain_items(vq).subrange(0, vq@.len() as int) =~= chain_items(vq));
    assert(chain_verbs(vq).subrange(0, vq@.len() as int) =~= chain_verbs(vq));
}

proof fn lemma_chain_prefix(vq: Vec<Query>, n: int)
    requires
        0 <= n <= vq@.len(),
        forall|i: int| 0 <= i < vq@.len() ==> sendable(#[trigger] vq@[i]),
        forall|i: int| 0 <= i < vq@.len() ==> custom_names_apart(#[trigger] vq@[i]),
    ensures
        verbs_from_json(chain_items(vq).subrange(0, n)) == Some(chain_verbs(vq).subrange(0, n)),
    decreases vq, n,
{
    if n == 0 {
        assert(chain_items(vq).subrange(0, 0) =~= Seq::<JVal>::empty());
        assert(chain_verbs(vq).subrange(0, 0) =~= Seq::<VerbM>::empty());
    } else {
        lemma_chain_prefix(vq, n - 1);
        assert(decreases_to!(vq => vq@[n - 1]));
        lemma_verb_round_trip(vq@[n - 1]);
        assert(chain_items(vq).subrange(0, n).drop_last() =~= chain_items(vq).subrange(0, n - 1));
        assert(chain_verbs(vq).subrange(0, n - 1).push(verb_of(vq@[n - 1])) =~= chain_verbs(vq).subrange(0, n));
    }
}

/// A verb as an agent receives it.
pub enum Verb {
    Get(Vec<String>),
    SetValues(Vec<(String, Value)>),
    Seta(Vec<(String, Value)>),
    Rma(Vec<(String, Value)>),
    Run(Value),
    Launch(Value),
    Spawn(Value),
    Cp(Value),
    Fetch(String),
    Restart(i64),
    Chain(Vec<Verb>),
    Custom(String, Vec<(String, Value)>),
    Wait,
}

impl View for Verb {
    type V = VerbM;

    open spec fn view(&self) -> VerbM
        decreases self,
    {
        match self {
            Verb::Get(ks) => VerbM::Get(ks@.map_values(|s: String| s@)),
            Verb::SetValues(kvs) => VerbM::SetValues(entries_view(kvs@)),
            Verb::Seta(kvs) => VerbM::Seta(entries_view(kvs@)),
            Verb::Rma(kvs) => VerbM::Rma(entries_view(kvs@)),
            Verb::Run(a) => VerbM::Run(a@),
            Verb::Launch(a) => VerbM::Launch(a@),
            Verb::Spawn(a) => VerbM::Spawn(a@),
            Verb::Cp(a) => VerbM::Cp(a@),
            Verb::Fetch(src) => VerbM::Fetch(src@),
            Verb::Restart(c) => VerbM::Restart(*c as int),
            Verb::Chain(vs) => VerbM::Chain(
                Seq::new(vs@.len(), |i: int| if 0 <= i < vs@.len() { vs@[i].view() } else { VerbM::Wait }),
            ),
            Verb::Custom(n, kvs) => VerbM::Custom(n@, entries_view(kvs@)),
            Verb::Wait => VerbM::Wait,
        }
    }
}

pub open spec fn verbs_view(vs: Seq<Verb>) -> Seq<VerbM> {
    Seq::new(vs.len(), |i: int| vs[i]@)
}

fn strings_from_items(items: &Vec<Value>) -> (r: Option<Vec<String>>)
    ensures
        r is None <==> strings_of_json(items_view(items@)) is None,
        r matches Some(ks) ==> strings_of_json(items_view(items@)) == Some(ks@.map_values(|s: String| s@)),
{
    let ghost iv = items_view(items@);
    let mut ks: Vec<String> = Vec::new();
    let mut i: usize = 0;
    assert(iv.subrange(0, 0) =~= Seq::<JVal>::empty());
    assert(ks@.map_values(|s: String| s@) =~= Seq::<Seq<char>>::empty());
    while i < items.len()
        invariant
            iv == items_view(items@),
            i <= items@.len(),
            strings_of_json(iv.subrange(0, i as int)) == Some(ks@.map_values(|s: String| s@)),
        decreases items@.len() - i,
    {
        assert(iv.subrange(0, i + 1).drop_last() =~= iv.subrange(0, i as int));
        match &items[i] {
            Value::Str(x) => {
                let ghost before = ks@.map_values(|s: String| s@);
                ks.push(x.clone());
                assert(ks@.map_values(|s: String| s@) =~= before.push(x@));
            },
            _ => {
                assert(strings_of_json(iv.subrange(0, i + 1)) is None);
                proof { lemma_strings_prefix(iv, i as int + 1); }
                assert(iv.subrange(0, items@.len() as int) =~= iv);
                return None;
            },
        }
        i += 1;
    }
    assert(iv.subrange(0, items@.len() as int) =~= iv);
    Some(ks)
}

proof fn lemma_strings_prefix(items: Seq<JVal>, n: int)
    requires
        0 <= n <= items.len(),
        strings_of_json(items.subrange(0, n)) is None,
    ensures
        strings_of_json(items) is None,
    decreases items.len() - n,
{
    if n < items.len() {
        assert(items.subrange(0, n + 1).drop_last() =~= items.subrange(0, n));
        lemma_strings_prefix(items, n + 1);
    } else {
        assert(items.subrange(0, n) =~= items);
    }
}

proof fn lemma_verbs_prefix(items: Seq<JVal>, n: int)
    requires
        0 <= n <= items.len(),
        verbs_from_json(items.subrange(0, n)) is None,
    ensures
        verbs_from_json(items) is None,
    decreases items.len() - n,
{
    if n < items.len() {
        assert(items.subrange(0, n + 1).drop_last() =~= items.subrange(0, n));
        lemma_verbs_prefix(items, n + 1);
    } else {
        assert(items.subrange(0, n) =~= items);
    }
}

fn verbs_from_items(items: &Vec<Value>) -> (r: Option<Vec<Verb>>)
    ensures
        r is None <==> verbs_from_json(items_view(items@)) is None,
        r matches Some(vs) ==> verbs_from_json(items_view(items@)) == Some(verbs_view(vs@)),
    decreases items,
{
    let ghost iv = items_view(items@);
    let mut vs: Vec<Verb> = Vec::new();
    let mut i: usize = 0;
    assert(iv.subrange(0, 0) =~= Seq::<JVal>::empty());
    assert(verbs_view(vs@) =~= Seq::<VerbM>::empty());
    while i < items.len()
        invariant
            iv == items_view(items@),
            i <= items@.len(),
            verbs_from_json(iv.subrange(0, i as int)) == Some(verbs_view(vs@)),
        decreases items@.len() - i,
    {
        assert(iv.subrange(0, i + 1).drop_last() =~= iv.subrange(0, i as int));
        match Verb::from_json(&items[i]) {
            Some(v) => {
                let ghost before = verbs_view(vs@);
                vs.push(v);
                assert(verbs_view(vs@) =~= before.push(v@));
            },
            None => {
                proof { lemma_verbs_prefix(iv, i as int + 1); }
                assert(iv.subrange(0, items@.len() as int) =~= iv);
                return None;
            },
        }
        i += 1;
    }
    assert(iv.subrange(0, items@.len() as int) =~= iv);
    Some(vs)
}

impl Verb {
    /// Decodes the wire form of a verb (`what` in the envelope).
    pub fn from_json(j: &Value) -> (r: Option<Verb>)
        ensures
            r is None <==> verb_from_json(j@) is None,
            r matches Some(v) ==> verb_from_json(j@) == Some(v@),
        decreases j,
    {
        proof {
            lemma_wire_verb_names();
            crate::agent::lemma_verb_names();
        }
        match j {
            Value::Null => Some(Verb::Wait),
            Value::Object(es) => {
                assert(j@->Object_0 =~= entries_view(es@));
                if es.len() != 1 {
                    return None;
                }
                let n = es[0].0.as_str();
                let a = &es[0].1;
                if eq_str(n, "get") {
                    match a {
                        Value::Array(items) => {
                            assert(a@->Array_0 =~= items_view(items@));
                            match strings_from_items(items) {
                                Some(ks) => Some(Verb::Get(ks)),
                                None => None,
                            }
                        },
                        _ => None,
                    }
                } else if eq_str(n, "set") || eq_str(n, "seta") || eq_str(n, "rma") {
                    match a {
                        Value::Object(kvs) => {
                            assert(a@->Object_0 =~= entries_view(kvs@));
                            let c = crate::value::copy_entries(kvs);
                            Some(
                                if eq_str(n, "set") {
                                    Verb::SetValues(c)
                                } else if eq_str(n, "seta") {
                                    Verb::Seta(c)
                                } else {
                                    Verb::Rma(c)
                                },
                            )
                        },
                        _ => None,
                    }
                } else if eq_str(n, "run") {
                    Some(Verb::Run(a.copy()))
                } else if eq_str(n, "launch") {
                    Some(Verb::Launch(a.copy()))
                } else if eq_str(n, "spawn") {
                    Some(Verb::Spawn(a.copy()))
                } else if eq_str(n, "cp") {
                    Some(Verb::Cp(a.copy()))
                } else if eq_str(n, "fetch") {
                    match crate::store::field_of_value(a, "source") {
                        Value::Str(src) => Some(Verb::Fetch(src)),
                        _ => None,
                    }
                } else if eq_str(n, "restart") {
                    match a {
                        Value::Int(c) => Some(Verb::Restart(*c)),
                        _ => None,
                    }
                } else if eq_str(n, "chain") {
                    match a {
                        Value::Array(items) => {
                            assert(a@->Array_0 =~= items_view(items@));
                            match verbs_from_items(items) {
                                Some(vs) => {
                                    let r = Verb::Chain(vs);
                                    assert(r@->Chain_0 =~= verbs_view(vs@));
                                    Some(r)
                                },
                                None => None,
                            }
                        },
                        _ => None,
                    }
                } else {
                    match a {
                        Value::Object(kvs) => {
                            assert(a@->Object_0 =~= entries_view(kvs@));
                            Some(Verb::Custom(es[0].0.clone(), crate::value::copy_entries(kvs)))
                        },
                        _ => None,
                    }
                }
            },
            _ => None,
        }
    }
}

} // verus!
