//! The agent: which queries are meant for it, what each verb does to its
//! store, and which outside work (shell, files, restart) it asks for.
use vstd::prelude::*;
use crate::value::{JVal, Value, entries_view, items_view, make_array, push_entry, make_object};
use crate::store::{Config, FilePending, get_spec, non_array_at, store_array_update};
use crate::condition::Condition;
use crate::text::{chars_of, eq_str, lit, push_str};

verus! {

broadcast use vstd::std_specs::vec::group_vec_axioms;

/// The hex digest that md5 gives for the bytes.
pub uninterp spec fn md5_hex(b: Seq<u8>) -> Seq<char>;

/// Relies on `md5::compute` and the lower-hex form of its digest: the
/// digest depends on the bytes alone and is written as 32 hex digits.
#[verifier::external_body]
pub(crate) fn md5_hex_of(bytes: &[u8]) -> (r: String)
    ensures
        r@ == md5_hex(bytes@),
        r@.len() == 32,
{
    format!("{:x}", md5::compute(bytes))
}

/// Outside work that a verb asks for.
pub enum Job {
    Run { cmd: String, pwd: String },
    Launch { cmd: String, pwd: String, job: Option<String> },
    Spawn { cmd: String, pwd: String },
    Fetch { source: String },
    Restart { code: i32 },
    Receive { pending: FilePending },
}

/// What a verb comes to: a reply already made, outside work, or the plans
/// of the members of a chain.
pub enum Plan {
    Reply(Value),
    Work(Job),
    Chain(Vec<Plan>),
}

/// How a piece of outside work ended.
pub enum Outcome {
    Ran { code: i32, stdout: String, stderr: String },
    Done,
    Failed(String),
}

/// The agent's state between messages.
pub struct MsgData {
    pub cfg: Config,
    pub seq: u8,
    pub pending_buffer: Option<Vec<u8>>,
    pub dirty: bool,
}

/// The store after writing each entry in turn; a null value deletes.
pub open spec fn apply_sets(m: Map<Seq<char>, JVal>, es: Seq<(Seq<char>, JVal)>) -> Map<Seq<char>, JVal>
    decreases es.len(),
{
    if es.len() == 0 {
        m
    } else {
        let m1 = apply_sets(m, es.drop_last());
        let e = es.last();
        if e.1 is Null {
            m1.remove(e.0)
        } else {
            m1.insert(e.0, e.1)
        }
    }
}

/// The store after an array insert (or removal) for each entry in turn,
/// and whether all of them succeeded; it stops at a key that holds
/// something other than an array.
pub open spec fn apply_arrays(m: Map<Seq<char>, JVal>, es: Seq<(Seq<char>, JVal)>, remove: bool) -> (Map<
    Seq<char>,
    JVal,
>, bool)
    decreases es.len(),
{
    if es.len() == 0 {
        (m, true)
    } else {
        let r = apply_arrays(m, es.drop_last(), remove);
        let e = es.last();
        if !r.1 {
            r
        } else if non_array_at(r.0, e.0) {
            (r.0, false)
        } else {
            (store_array_update(r.0, e.0, e.1, remove), true)
        }
    }
}

/// The entries of an object; nothing for any other value.
pub open spec fn entries_of(v: JVal) -> Seq<(Seq<char>, JVal)> {
    match v {
        JVal::Object(es) => es,
        _ => Seq::empty(),
    }
}

/// The items of an array; nothing for any other value.
pub open spec fn items_of(v: JVal) -> Seq<JVal> {
    match v {
        JVal::Array(a) => a,
        _ => Seq::empty(),
    }
}

/// The value of a key for `get`: `time` is the agent's clock, a missing
/// key is null.
pub open spec fn get_one(m: Map<Seq<char>, JVal>, k: Seq<char>, now: int) -> JVal {
    if k == "time"@ {
        JVal::Int(now)
    } else {
        match get_spec(m, k) {
            Some(v) => v,
            None => JVal::Null,
        }
    }
}

/// The reply to `get`: `None` when a key is not a string.
pub open spec fn get_reply(m: Map<Seq<char>, JVal>, keys: Seq<JVal>, now: int) -> Option<Seq<JVal>>
    decreases keys.len(),
{
    if keys.len() == 0 {
        Some(Seq::empty())
    } else {
        match get_reply(m, keys.drop_last(), now) {
            Some(r) => match keys.last() {
                JVal::Str(k) => Some(r.push(get_one(m, k, now))),
                _ => None,
            },
            None => None,
        }
    }
}

/// A path with every `c` replaced by `r`.
pub open spec fn replace_char(s: Seq<char>, c: char, r: Seq<char>) -> Seq<char>
    decreases s.len(),
{
    if s.len() == 0 {
        s
    } else if s.last() == c {
        replace_char(s.drop_last(), c, r) + r
    } else {
        replace_char(s.drop_last(), c, r).push(s.last())
    }
}

/// The string stored under `k`; empty when there is none.
pub open spec fn string_at(m: Map<Seq<char>, JVal>, k: Seq<char>) -> Seq<char> {
    if m.contains_key(k) && m[k] is Str {
        m[k]->Str_0
    } else {
        Seq::empty()
    }
}

/// `p` joined with `r` as a path.
pub open spec fn join_path(p: Seq<char>, r: Seq<char>) -> Seq<char> {
    if r.len() > 0 && r[0] == '/' {
        r
    } else if p.len() == 0 {
        r
    } else if p.last() == '/' {
        p + r
    } else {
        p + seq!['/'] + r
    }
}

/// A first path part named in the store's `destinations` stands for the
/// directory stored under that name.
pub open spec fn destination_prefix(m: Map<Seq<char>, JVal>, starts: Seq<char>) -> Seq<char> {
    if m.contains_key("destinations"@) && m["destinations"@] is Array && m["destinations"@]->Array_0.contains(
        JVal::Str(starts),
    ) && m.contains_key(starts) && m[starts] is Str {
        m[starts]->Str_0
    } else {
        starts
    }
}

/// A destination path on the agent: a leading `~` is the home directory, a relative
/// path's first part may name a configured destination, an absolute path
/// stays as it is.
pub open spec fn destination_path(m: Map<Seq<char>, JVal>, dest: Seq<char>) -> Seq<char> {
    if dest.len() > 0 && dest[0] == '~' {
        string_at(m, "home"@) + dest.drop_first()
    } else if !(dest.len() > 0 && dest[0] == '/') {
        match crate::text::find_spec(dest, seq!['/']) {
            Some(i) => join_path(
                destination_prefix(m, dest.subrange(0, i)),
                dest.subrange(i + 1, dest.len() as int),
            ),
            None => destination_prefix(m, dest),
        }
    } else {
        dest
    }
}

/// The response an agent publishes for a successful query; a null result
/// means the query was not meant for it and nothing is published.
pub open spec fn ok_result_spec(v: JVal, addr: Seq<char>, seq: int) -> JVal {
    if v is Null {
        v
    } else {
        JVal::Object(seq![("id"@, JVal::Str(addr)), ("seq"@, JVal::Int(seq)), ("ok"@, v)])
    }
}

pub open spec fn error_result_spec(addr: Seq<char>, seq: int, msg: Seq<char>) -> JVal {
    JVal::Object(seq![("id"@, JVal::Str(addr)), ("seq"@, JVal::Int(seq)), ("error"@, JVal::Str(msg))])
}

/// The result of a command as a value: `{code, stdout, stderr}`.
pub open spec fn run_result_spec(code: int, stdout: Seq<char>, stderr: Seq<char>) -> JVal {
    JVal::Object(seq![("code"@, JVal::Int(code)), ("stdout"@, JVal::Str(stdout)), ("stderr"@, JVal::Str(stderr))])
}

/// The string member `name` of an object.
pub open spec fn string_field_spec(o: JVal, name: Seq<char>) -> Option<Seq<char>> {
    match o {
        JVal::Object(es) => match crate::store::lookup(es, name) {
            Some(JVal::Str(s)) => Some(s),
            _ => None,
        },
        _ => None,
    }
}

/// The member `name` of an object, null when missing.
pub fn field(o: &Value, name: &str) -> (r: Value)
    ensures
        r@ == crate::store::field_of(o@, name@),
{
    crate::store::field_of_value(o, name)
}

/// The string member `name` of an object.
pub fn string_field(o: &Value, name: &str) -> (r: Option<String>)
    ensures
        r is None <==> string_field_spec(o@, name@) is None,
        r matches Some(s) ==> string_field_spec(o@, name@) == Some(s@),
{
    let f = crate::store::field_of_value(o, name);
    match o {
        Value::Object(es) => {
            assert(o@->Object_0 =~= entries_view(es@));
            match f {
                Value::Str(s) => {
                    proof {
                        if crate::store::lookup(entries_view(es@), name@) is None {
                            assert(f@ == JVal::Null);
                        }
                    }
                    Some(s)
                },
                _ => None,
            }
        },
        _ => None,
    }
}

/// Every `c` in `s` replaced by `r`.
pub fn replace_char_exec(s: &str, c: char, r: &str) -> (out: String)
    ensures
        out@ == replace_char(s@, c, r@),
{
    let t = chars_of(s);
    let mut out = String::new();
    let mut i: usize = 0;
    while i < t.len()
        invariant
            t@ == s@,
            i <= t@.len(),
            out@ == replace_char(t@.subrange(0, i as int), c, r@),
        decreases t@.len() - i,
    {
        assert(t@.subrange(0, i + 1).drop_last() =~= t@.subrange(0, i as int));
        if t[i] == c {
            push_str(&mut out, r);
        } else {
            crate::text::push_char(&mut out, t[i]);
        }
        i += 1;
    }
    assert(t@.subrange(0, t@.len() as int) =~= t@);
    out
}

fn join_path_exec(p: &str, r: &str) -> (out: String)
    ensures
        out@ == join_path(p@, r@),
{
    let pc = chars_of(p);
    let rc = chars_of(r);
    if rc.len() > 0 && rc[0] == '/' {
        lit(r)
    } else if pc.len() == 0 {
        lit(r)
    } else if pc[pc.len() - 1] == '/' {
        let mut out = lit(p);
        push_str(&mut out, r);
        out
    } else {
        let mut out = lit(p);
        crate::text::push_char(&mut out, '/');
        push_str(&mut out, r);
        out
    }
}

impl Config {
    /// The string stored under `key`, or empty.
    pub fn string_or_empty(&self, key: &str) -> (r: String)
        ensures
            r@ == string_at(self@, key@),
    {
        match self.lookup_key(key) {
            Some(Value::Str(s)) => s.clone(),
            _ => String::new(),
        }
    }

    /// The agent's address; every agent's store holds it.
    pub fn addr(&self) -> (r: String)
        ensures
            r@ == string_at(self@, "addr"@),
    {
        self.string_or_empty("addr")
    }

    /// The agent's host name.
    pub fn name(&self) -> (r: String)
        ensures
            r@ == string_at(self@, "name"@),
    {
        self.string_or_empty("name")
    }

    /// The agent's home directory.
    pub fn home(&self) -> (r: String)
        ensures
            r@ == string_at(self@, "home"@),
    {
        self.string_or_empty("home")
    }
}

/// The directory a destination's first part stands for.
pub fn special_destination_prefix(cfg: &Config, starts: &str) -> (r: String)
    ensures
        r@ == destination_prefix(cfg@, starts@),
{
    let listed = match cfg.lookup_key("destinations") {
        Some(d) => crate::condition::array_has_str(d, starts),
        None => false,
    };
    if listed {
        match cfg.lookup_key(starts) {
            Some(Value::Str(s)) => return s.clone(),
            _ => {},
        }
    }
    lit(starts)
}

/// Where a destination path lands on the agent.
pub fn massage_destination_path(cfg: &Config, dest: &str) -> (r: String)
    ensures
        r@ == destination_path(cfg@, dest@),
{
    let d = chars_of(dest);
    if d.len() > 0 && d[0] == '~' {
        let mut out = cfg.home();
        let rest = crate::text::substring(d.as_slice(), 1, d.len());
        assert(rest@ =~= dest@.drop_first());
        push_str(&mut out, rest.as_str());
        out
    } else if !(d.len() > 0 && d[0] == '/') {
        match crate::text::find_char(d.as_slice(), '/') {
            Some(i) => {
                proof { crate::text::lemma_find_from_found(d@, seq!['/'], 0); }
                let n = d.len();
                let first = crate::text::substring(d.as_slice(), 0, i);
                let rest = crate::text::substring(d.as_slice(), i + 1, n);
                let p = special_destination_prefix(cfg, first.as_str());
                join_path_exec(p.as_str(), rest.as_str())
            },
            None => special_destination_prefix(cfg, dest),
        }
    } else {
        lit(dest)
    }
}

/// The response envelope of a successful query.
pub fn ok_result_build(v: Value, addr: &str, seq: u8) -> (r: Value)
    ensures
        r@ == ok_result_spec(v@, addr@, seq as int),
{
    match v {
        Value::Null => Value::Null,
        _ => {
            let mut es: Vec<(String, Value)> = Vec::new();
            push_entry(&mut es, "id", Value::Str(lit(addr)));
            push_entry(&mut es, "seq", Value::Int(seq as i64));
            let ghost vv = v@;
            push_entry(&mut es, "ok", v);
            let r = make_object(es);
            assert(r@->Object_0 =~= ok_result_spec(vv, addr@, seq as int)->Object_0);
            r
        },
    }
}

/// The response envelope of a failed query.
pub fn error_result_build(addr: &str, seq: u8, msg: &str) -> (r: Value)
    ensures
        r@ == error_result_spec(addr@, seq as int, msg@),
{
    let mut es: Vec<(String, Value)> = Vec::new();
    push_entry(&mut es, "id", Value::Str(lit(addr)));
    push_entry(&mut es, "seq", Value::Int(seq as i64));
    push_entry(&mut es, "error", Value::Str(lit(msg)));
    let r = make_object(es);
    assert(r@->Object_0 =~= error_result_spec(addr@, seq as int, msg@)->Object_0);
    r
}

/// The result of a command as a value.
pub fn run_result(code: i32, stdout: &str, stderr: &str) -> (r: Value)
    ensures
        r@ == run_result_spec(code as int, stdout@, stderr@),
{
    let mut es: Vec<(String, Value)> = Vec::new();
    push_entry(&mut es, "code", Value::Int(code as i64));
    push_entry(&mut es, "stdout", Value::Str(lit(stdout)));
    push_entry(&mut es, "stderr", Value::Str(lit(stderr)));
    let r = make_object(es);
    assert(r@->Object_0 =~= run_result_spec(code as int, stdout@, stderr@)->Object_0);
    r
}

/// Records a failed command's code under `rc`, so that later stages
/// filtered on `rc=0` skip this agent; says whether it did, in which case
/// `rc` is to be cleared a little later.
pub fn handle_result_code(cfg: &mut Config, code: i32) -> (r: bool)
    ensures
        r == (code != 0),
        final(cfg)@ == (if code != 0 {
            old(cfg)@.insert("rc"@, JVal::Int(code as int))
        } else {
            old(cfg)@
        }),
        final(cfg).pending_file == old(cfg).pending_file,
{
    if code != 0 {
        cfg.insert_into("rc", Value::Int(code as i64));
        true
    } else {
        false
    }
}

/// Whether the wire predicate selects this store; `Err` for a malformed one.
pub fn match_condition(cfg: &Config, which: &Value) -> (r: Result<bool, String>)
    ensures
        r is Err <==> crate::condition::cond_from_json(which@) is None,
        r matches Ok(b) ==> b == crate::condition::matches_spec(
            crate::condition::cond_from_json(which@)->0,
            cfg@,
        ),
{
    match Condition::from_json(which) {
        Some(c) => Ok(c.matches(cfg)),
        None => Err(lit("malformed condition")),
    }
}

/// The reply to `get`.
pub fn get_values(cfg: &Config, keys: &Value, now_secs: i64) -> (r: Result<Value, String>)
    ensures
        r is Err <==> get_reply(cfg@, items_of(keys@), now_secs as int) is None,
        r matches Ok(v) ==> get_reply(cfg@, items_of(keys@), now_secs as int) == Some(v@->Array_0)
            && v@ is Array,
{
    let mut out: Vec<Value> = Vec::new();
    match keys {
        Value::Array(a) => {
            let ghost kv = items_view(a@);
            assert(keys@->Array_0 =~= kv);
            let mut i: usize = 0;
            assert(kv.subrange(0, 0) =~= Seq::<JVal>::empty());
            while i < a.len()
                invariant
                    kv == items_view(a@),
                    keys@ == JVal::Array(kv),
                    i <= a@.len(),
                    get_reply(cfg@, kv.subrange(0, i as int), now_secs as int) == Some(items_view(out@)),
                decreases a@.len() - i,
            {
                assert(kv.subrange(0, i + 1).drop_last() =~= kv.subrange(0, i as int));
                match &a[i] {
                    Value::Str(k) => {
                        let v = if eq_str(k.as_str(), "time") {
                            Value::Int(now_secs)
                        } else {
                            cfg.get_or(k.as_str(), Value::Null)
                        };
                                let ghost before = items_view(out@);
                        out.push(v);
                        assert(items_view(out@) =~= before.push(get_one(cfg@, k@, now_secs as int)));
                    },
                    _ => {
                        assert(!(kv[i as int] is Str));
                        assert(kv.subrange(0, i + 1).last() == kv[i as int]);
                        assert(get_reply(cfg@, kv.subrange(0, i + 1), now_secs as int) is None);
                        proof { lemma_get_reply_prefix(cfg@, kv, i as int + 1, now_secs as int); }
                        assert(kv.subrange(0, a@.len() as int) =~= kv);
                        return Err(lit("keys must be strings"));
                    },
                }
                i += 1;
            }
            assert(kv.subrange(0, a@.len() as int) =~= kv);
        },
        _ => {
            assert(items_view(out@) =~= Seq::<JVal>::empty());
        },
    }
    let r = make_array(out);
    Ok(r)
}

proof fn lemma_get_reply_prefix(m: Map<Seq<char>, JVal>, keys: Seq<JVal>, n: int, now: int)
    requires
        0 <= n <= keys.len(),
        get_reply(m, keys.subrange(0, n), now) is None,
    ensures
        get_reply(m, keys, now) is None,
    decreases keys.len() - n,
{
    if n < keys.len() {
        assert(keys.subrange(0, n + 1).drop_last() =~= keys.subrange(0, n));
        lemma_get_reply_prefix(m, keys, n + 1, now);
    } else {
        assert(keys.subrange(0, n) =~= keys);
    }
}

/// Writes each entry of an object into the store (`set`).
pub fn set_values(cfg: &mut Config, args: &Value)
    ensures
        final(cfg)@ == apply_sets(old(cfg)@, entries_of(args@)),
        final(cfg).pending_file == old(cfg).pending_file,
{
    match args {
        Value::Object(es) => {
            let ghost ev = entries_view(es@);
            let ghost m0 = cfg@;
            assert(args@->Object_0 =~= ev);
            let mut i: usize = 0;
            assert(ev.subrange(0, 0) =~= Seq::<(Seq<char>, JVal)>::empty());
            while i < es.len()
                invariant
                    ev == entries_view(es@),
                    args@ == JVal::Object(ev),
                    m0 == old(cfg)@,
                    i <= es@.len(),
                    cfg@ == apply_sets(m0, ev.subrange(0, i as int)),
                    cfg.pending_file == old(cfg).pending_file,
                decreases es@.len() - i,
            {
                assert(ev.subrange(0, i + 1).drop_last() =~= ev.subrange(0, i as int));
                cfg.insert(es[i].0.as_str(), &es[i].1);
                i += 1;
            }
            assert(ev.subrange(0, es@.len() as int) =~= ev);
        },
        _ => {},
    }
}

/// Inserts into (or, with `remove`, removes from) array-valued keys, one
/// entry of an object at a time (`seta`, `rma`).
pub fn update_arrays(cfg: &mut Config, args: &Value, remove: bool) -> (r: Result<(), String>)
    ensures
        r is Ok == apply_arrays(old(cfg)@, entries_of(args@), remove).1,
        final(cfg)@ == apply_arrays(old(cfg)@, entries_of(args@), remove).0,
        final(cfg).pending_file == old(cfg).pending_file,
{
    match args {
        Value::Object(es) => {
            let ghost ev = entries_view(es@);
            let ghost m0 = cfg@;
            assert(args@->Object_0 =~= ev);
            let mut i: usize = 0;
            assert(ev.subrange(0, 0) =~= Seq::<(Seq<char>, JVal)>::empty());
            while i < es.len()
                invariant
                    ev == entries_view(es@),
                    args@ == JVal::Object(ev),
                    m0 == old(cfg)@,
                    i <= es@.len(),
                    apply_arrays(m0, ev.subrange(0, i as int), remove) == (cfg@, true),
                    cfg.pending_file == old(cfg).pending_file,
                decreases es@.len() - i,
            {
                assert(ev.subrange(0, i + 1).drop_last() =~= ev.subrange(0, i as int));
                match cfg.insert_array(es[i].0.as_str(), &es[i].1, remove) {
                    Ok(()) => {},
                    Err(e) => {
                        assert(ev.subrange(0, i + 1).last() == ev[i as int]);
                        assert(apply_arrays(m0, ev.subrange(0, i + 1), remove) == (cfg@, false));
                        proof { lemma_apply_arrays_stops(m0, ev, i as int + 1, remove); }
                        assert(ev.subrange(0, es@.len() as int) =~= ev);
                        return Err(e);
                    },
                }
                i += 1;
            }
            assert(ev.subrange(0, es@.len() as int) =~= ev);
            Ok(())
        },
        _ => Ok(()),
    }
}

proof fn lemma_apply_arrays_stops(m: Map<Seq<char>, JVal>, es: Seq<(Seq<char>, JVal)>, n: int, remove: bool)
    requires
        0 <= n <= es.len(),
        !apply_arrays(m, es.subrange(0, n), remove).1,
    ensures
        apply_arrays(m, es, remove) == apply_arrays(m, es.subrange(0, n), remove),
    decreases es.len() - n,
{
    if n < es.len() {
        assert(es.subrange(0, n + 1).drop_last() =~= es.subrange(0, n));
        lemma_apply_arrays_stops(m, es, n + 1, remove);
    } else {
        assert(es.subrange(0, n) =~= es);
    }
}

/// Whether a received file matches the digest announced with it.
pub fn hash_matches(expected: &Option<String>, digest: &str) -> (r: bool)
    ensures
        r == (match expected {
            Some(h) => h@ == digest@,
            None => true,
        }),
{
    match expected {
        Some(h) => eq_str(h.as_str(), digest),
        None => true,
    }
}

/// Checks the bytes of a received file against the announced digest.
pub fn check_received(pending: &FilePending, payload: &[u8]) -> (r: bool)
    ensures
        r == (match pending.hash {
            Some(h) => h@ == md5_hex(payload@),
            None => true,
        }),
{
    match &pending.hash {
        Some(_) => {
            let d = md5_hex_of(payload);
            hash_matches(&pending.hash, d.as_str())
        },
        None => true,
    }
}

/// The topic on which a retained file for stage `seq` is published.
pub fn file_topic(seq: u8) -> (r: String)
    ensures
        r@ == "MOI/file/"@ + crate::value::int_text(seq as int),
{
    let mut t = lit("MOI/file/");
    let n = crate::value::int_to_text(seq as i64);
    push_str(&mut t, n.as_str());
    t
}

/// The topic on which an agent publishes a fetched file.
pub fn fetch_topic(seq: u8, addr: &str, name: &str) -> (r: String)
    ensures
        r@ == "MOI/fetch/"@ + crate::value::int_text(seq as int) + seq!['/'] + addr@ + seq!['/'] + name@,
{
    let mut t = lit("MOI/fetch/");
    let n = crate::value::int_to_text(seq as i64);
    push_str(&mut t, n.as_str());
    crate::text::push_char(&mut t, '/');
    push_str(&mut t, addr);
    crate::text::push_char(&mut t, '/');
    push_str(&mut t, name);
    t
}

/// The first entry of an object.
pub open spec fn first_entry(v: JVal) -> Option<(Seq<char>, JVal)> {
    match v {
        JVal::Object(es) => if es.len() > 0 {
            Some(es[0])
        } else {
            None
        },
        _ => None,
    }
}

/// The command and directory of `run`, `launch` and `spawn`: `~` in the
/// command is the home directory; the directory defaults to home.
pub open spec fn run_parts(m: Map<Seq<char>, JVal>, args: JVal) -> Option<(Seq<char>, Seq<char>)> {
    match string_field_spec(args, "cmd"@) {
        None => None,
        Some(cmd) => Some((
            replace_char(cmd, '~', string_at(m, "home"@)),
            destination_path(m, match string_field_spec(args, "pwd"@) {
                Some(p) => p,
                None => string_at(m, "home"@),
            }),
        )),
    }
}

/// The mode of a file to receive: absent when `perms` is null; `None`
/// when it is neither null nor an integer that fits 32 bits.
pub open spec fn perms_of(args: JVal) -> Option<Option<u32>> {
    match crate::store::field_of(args, "perms"@) {
        JVal::Null => Some(None),
        JVal::Int(p) => if 0 <= p <= u32::MAX {
            Some(Some(p as u32))
        } else {
            None
        },
        _ => None,
    }
}

/// What `cp` asks for: the file's name, the full destination path, its
/// mode and its digest; `None` when a field is missing or malformed.
pub open spec fn cp_parts(m: Map<Seq<char>, JVal>, args: JVal) -> Option<(Seq<char>, Seq<char>, Option<u32>, Option<Seq<char>>)> {
    match (string_field_spec(args, "filename"@), string_field_spec(args, "dest"@), perms_of(args)) {
        (Some(f), Some(d), Some(p)) => Some((
            f,
            join_path(destination_path(m, d), f),
            p,
            match crate::store::field_of(args, "hash"@) {
                JVal::Str(h) => Some(h),
                _ => None,
            },
        )),
        _ => None,
    }
}


/// What a verb does to the store, and whether it succeeds: the store
/// verbs change it, the others leave it; a chain runs its members in
/// order and stops at the first that fails.
pub open spec fn verb_store(m: Map<Seq<char>, JVal>, verb: Seq<char>, args: JVal, now: int) -> (Map<Seq<char>, JVal>, bool)
    decreases args,
{
    if verb == "get"@ {
        (m, get_reply(m, items_of(args), now) is Some)
    } else if verb == "set"@ {
        (apply_sets(m, entries_of(args)), true)
    } else if verb == "seta"@ || verb == "rma"@ {
        apply_arrays(m, entries_of(args), verb == "rma"@)
    } else if verb == "run"@ || verb == "launch"@ || verb == "spawn"@ {
        (m, run_parts(m, args) is Some)
    } else if verb == "cp"@ {
        (m, cp_parts(m, args) is Some)
    } else if verb == "fetch"@ {
        (m, string_field_spec(args, "source"@) is Some)
    } else if verb == "restart"@ {
        (m, args is Int && i32::MIN <= args->Int_0 <= i32::MAX)
    } else if verb == "chain"@ {
        match args {
            JVal::Array(items) => chain_store(m, items, now),
            _ => (m, true),
        }
    } else {
        (m, false)
    }
}

/// The members of a chain run in turn, each `{verb: args}`.
pub open spec fn chain_store(m: Map<Seq<char>, JVal>, items: Seq<JVal>, now: int) -> (Map<Seq<char>, JVal>, bool)
    decreases items,
{
    if items.len() == 0 {
        (m, true)
    } else {
        let r = chain_store(m, items.drop_last(), now);
        if !r.1 {
            r
        } else {
            match items.last() {
                JVal::Object(es) => if es.len() > 0 {
                    verb_store(r.0, es[0].0, es[0].1, now)
                } else {
                    (r.0, false)
                },
                _ => (r.0, false),
            }
        }
    }
}

proof fn lemma_chain_stops(m: Map<Seq<char>, JVal>, items: Seq<JVal>, n: int, now: int)
    requires
        0 <= n <= items.len(),
        !chain_store(m, items.subrange(0, n), now).1,
    ensures
        chain_store(m, items, now) == chain_store(m, items.subrange(0, n), now),
    decreases items.len() - n,
{
    if n < items.len() {
        assert(items.subrange(0, n + 1).drop_last() =~= items.subrange(0, n));
        lemma_chain_stops(m, items, n + 1, now);
    } else {
        assert(items.subrange(0, n) =~= items);
    }
}

/// The arguments of a chain member `{verb: args}`.
pub open spec fn member_args(member: JVal) -> JVal {
    match first_entry(member) {
        Some(e) => e.1,
        None => JVal::Null,
    }
}

/// The verb named in a query's `what`.
pub open spec fn what_verb(query: JVal) -> Seq<char> {
    match first_entry(crate::store::field_of(query, "what"@)) {
        Some(e) => e.0,
        None => Seq::empty(),
    }
}

/// Whether a query envelope is meant for this store: its sequence number
/// is a byte and its predicate, if any, decodes and selects the store.
pub open spec fn selected(m: Map<Seq<char>, JVal>, query: JVal) -> bool {
    let which = crate::store::field_of(query, "which"@);
    (crate::store::field_of(query, "seq"@) matches JVal::Int(n) && 0 <= n <= 255) && (first_entry(which) is None
        || (crate::condition::cond_from_json(which) is Some && crate::condition::matches_spec(
        crate::condition::cond_from_json(which)->0,
        m,
    )))
}

pub open spec fn opt_str_view(o: Option<String>) -> Option<Seq<char>> {
    match o {
        Some(s) => Some(s@),
        None => None,
    }
}

fn first_entry_exec(v: &Value) -> (r: Option<(&String, &Value)>)
    ensures
        r is None <==> first_entry(v@) is None,
        r matches Some(p) ==> first_entry(v@) == Some((p.0@, p.1@)),
{
    match v {
        Value::Object(es) => {
            assert(v@->Object_0 =~= entries_view(es@));
            if es.len() > 0 {
                Some((&es[0].0, &es[0].1))
            } else {
                None
            }
        },
        _ => None,
    }
}

fn run_parts_exec(cfg: &Config, args: &Value) -> (r: Option<(String, String)>)
    ensures
        r is None <==> run_parts(cfg@, args@) is None,
        r matches Some(p) ==> run_parts(cfg@, args@) == Some((p.0@, p.1@)),
{
    let home = cfg.home();
    match string_field(args, "cmd") {
        None => None,
        Some(cmd) => {
            let c = replace_char_exec(cmd.as_str(), '~', home.as_str());
            let pwd = match string_field(args, "pwd") {
                Some(p) => p,
                None => home,
            };
            let p = massage_destination_path(cfg, pwd.as_str());
            Some((c, p))
        },
    }
}

/// The letters of the verb names.
pub proof fn lemma_verb_names()
    ensures
        "get"@ != "set"@,
        "get"@ != "seta"@,
        "get"@ != "rma"@,
        "get"@ != "run"@,
        "get"@ != "launch"@,
        "get"@ != "spawn"@,
        "get"@ != "cp"@,
        "get"@ != "fetch"@,
        "get"@ != "restart"@,
        "get"@ != "chain"@,
        "set"@ != "seta"@,
        "set"@ != "rma"@,
        "set"@ != "run"@,
        "set"@ != "launch"@,
        "set"@ != "spawn"@,
        "set"@ != "cp"@,
        "set"@ != "fetch"@,
        "set"@ != "restart"@,
        "set"@ != "chain"@,
        "seta"@ != "rma"@,
        "seta"@ != "run"@,
        "seta"@ != "launch"@,
        "seta"@ != "spawn"@,
        "seta"@ != "cp"@,
        "seta"@ != "fetch"@,
        "seta"@ != "restart"@,
        "seta"@ != "chain"@,
        "rma"@ != "run"@,
        "rma"@ != "launch"@,
        "rma"@ != "spawn"@,
        "rma"@ != "cp"@,
        "rma"@ != "fetch"@,
        "rma"@ != "restart"@,
        "rma"@ != "chain"@,
        "run"@ != "launch"@,
        "run"@ != "spawn"@,
        "run"@ != "cp"@,
        "run"@ != "fetch"@,
        "run"@ != "restart"@,
        "run"@ != "chain"@,
        "launch"@ != "spawn"@,
        "launch"@ != "cp"@,
        "launch"@ != "fetch"@,
        "launch"@ != "restart"@,
        "launch"@ != "chain"@,
        "spawn"@ != "cp"@,
        "spawn"@ != "fetch"@,
        "spawn"@ != "restart"@,
        "spawn"@ != "chain"@,
        "cp"@ != "fetch"@,
        "cp"@ != "restart"@,
        "cp"@ != "chain"@,
        "fetch"@ != "restart"@,
        "fetch"@ != "chain"@,
        "restart"@ != "chain"@,
        "get"@ == seq!['g', 'e', 't'],
        "set"@ == seq!['s', 'e', 't'],
        "seta"@ == seq!['s', 'e', 't', 'a'],
        "rma"@ == seq!['r', 'm', 'a'],
        "run"@ == seq!['r', 'u', 'n'],
        "launch"@ == seq!['l', 'a', 'u', 'n', 'c', 'h'],
        "spawn"@ == seq!['s', 'p', 'a', 'w', 'n'],
        "cp"@ == seq!['c', 'p'],
        "fetch"@ == seq!['f', 'e', 't', 'c', 'h'],
        "restart"@ == seq!['r', 'e', 's', 't', 'a', 'r', 't'],
        "chain"@ == seq!['c', 'h', 'a', 'i', 'n'],
{
    reveal_strlit("get");
    reveal_strlit("set");
    reveal_strlit("seta");
    reveal_strlit("rma");
    reveal_strlit("run");
    reveal_strlit("launch");
    reveal_strlit("spawn");
    reveal_strlit("cp");
    reveal_strlit("fetch");
    reveal_strlit("restart");
    reveal_strlit("chain");
    assert("get"@ =~= seq!['g', 'e', 't']);
    assert("set"@ =~= seq!['s', 'e', 't']);
    assert("seta"@ =~= seq!['s', 'e', 't', 'a']);
    assert("rma"@ =~= seq!['r', 'm', 'a']);
    assert("run"@ =~= seq!['r', 'u', 'n']);
    assert("launch"@ =~= seq!['l', 'a', 'u', 'n', 'c', 'h']);
    assert("spawn"@ =~= seq!['s', 'p', 'a', 'w', 'n']);
    assert("cp"@ =~= seq!['c', 'p']);
    assert("fetch"@ =~= seq!['f', 'e', 't', 'c', 'h']);
    assert("restart"@ =~= seq!['r', 'e', 's', 't', 'a', 'r', 't']);
    assert("chain"@ =~= seq!['c', 'h', 'a', 'i', 'n']);
    assert("get"@[0] != "set"@[0]);
    assert("get"@.len() != "seta"@.len());
    assert("get"@[0] != "rma"@[0]);
    assert("get"@[0] != "run"@[0]);
    assert("get"@.len() != "launch"@.len());
    assert("get"@.len() != "spawn"@.len());
    assert("get"@.len() != "cp"@.len());
    assert("get"@.len() != "fetch"@.len());
    assert("get"@.len() != "restart"@.len());
    assert("get"@.len() != "chain"@.len());
    assert("set"@.len() != "seta"@.len());
    assert("set"@[0] != "rma"@[0]);
    assert("set"@[0] != "run"@[0]);
    assert("set"@.len() != "launch"@.len());
    assert("set"@.len() != "spawn"@.len());
    assert("set"@.len() != "cp"@.len());
    assert("set"@.len() != "fetch"@.len());
    assert("set"@.len() != "restart"@.len());
    assert("set"@.len() != "chain"@.len());
    assert("seta"@.len() != "rma"@.len());
    assert("seta"@.len() != "run"@.len());
    assert("seta"@.len() != "launch"@.len());
    assert("seta"@.len() != "spawn"@.len());
    assert("seta"@.len() != "cp"@.len());
    assert("seta"@.len() != "fetch"@.len());
    assert("seta"@.len() != "restart"@.len());
    assert("seta"@.len() != "chain"@.len());
    assert("rma"@[1] != "run"@[1]);
    assert("rma"@.len() != "launch"@.len());
    assert("rma"@.len() != "spawn"@.len());
    assert("rma"@.len() != "cp"@.len());
    assert("rma"@.len() != "fetch"@.len());
    assert("rma"@.len() != "restart"@.len());
    assert("rma"@.len() != "chain"@.len());
    assert("run"@.len() != "launch"@.len());
    assert("run"@.len() != "spawn"@.len());
    assert("run"@.len() != "cp"@.len());
    assert("run"@.len() != "fetch"@.len());
    assert("run"@.len() != "restart"@.len());
    assert("run"@.len() != "chain"@.len());
    assert("launch"@.len() != "spawn"@.len());
    assert("launch"@.len() != "cp"@.len());
    assert("launch"@.len() != "fetch"@.len());
    assert("launch"@.len() != "restart"@.len());
    assert("launch"@.len() != "chain"@.len());
    assert("spawn"@.len() != "cp"@.len());
    assert("spawn"@[0] != "fetch"@[0]);
    assert("spawn"@.len() != "restart"@.len());
    assert("spawn"@[0] != "chain"@[0]);
    assert("cp"@.len() != "fetch"@.len());
    assert("cp"@.len() != "restart"@.len());
    assert("cp"@.len() != "chain"@.len());
    assert("fetch"@.len() != "restart"@.len());
    assert("fetch"@[0] != "chain"@[0]);
    assert("restart"@.len() != "chain"@.len());
}

impl MsgData {
    pub fn new(cfg: Config) -> (r: MsgData)
        ensures
            r.cfg == cfg,
            r.seq == 0,
            r.pending_buffer is None,
            !r.dirty,
    {
        MsgData { cfg, seq: 0, pending_buffer: None, dirty: false }
    }

    /// The success envelope for the current query.
    pub fn ok_result(&self, v: Value) -> (r: Value)
        ensures
            r@ == ok_result_spec(v@, string_at(self.cfg@, "addr"@), self.seq as int),
    {
        let addr = self.cfg.addr();
        ok_result_build(v, addr.as_str(), self.seq)
    }

    /// The error envelope for the current query.
    pub fn error_result(&self, msg: &str) -> (r: Value)
        ensures
            r@ == error_result_spec(string_at(self.cfg@, "addr"@), self.seq as int, msg@),
    {
        let addr = self.cfg.addr();
        error_result_build(addr.as_str(), self.seq, msg)
    }

    /// Carries out a verb on the store, or says what outside work it needs.
    /// `get`, `set`, `seta` and `rma` act on the store at once; `run`,
    /// `launch`, `spawn`, `cp`, `fetch` and `restart` come back as work;
    /// `chain` plans each member in turn.
    pub fn handle_verb(&mut self, verb: &str, args: &Value, now_secs: i64) -> (r: Result<Plan, String>)
        ensures
            final(self).seq == old(self).seq,
            verb@ == "get"@ ==> final(self).cfg@ == old(self).cfg@ && (r is Ok <==> get_reply(
                old(self).cfg@,
                items_of(args@),
                now_secs as int,
            ) is Some) && (r matches Ok(Plan::Reply(v)) ==> Some(v@->Array_0) == get_reply(
                old(self).cfg@,
                items_of(args@),
                now_secs as int,
            )),
            verb@ == "set"@ ==> final(self).cfg@ == apply_sets(old(self).cfg@, entries_of(args@)) && (r
                matches Ok(Plan::Reply(v)) && v@ == JVal::Bool(true)) && final(self).dirty,
            verb@ == "seta"@ || verb@ == "rma"@ ==> final(self).cfg@ == apply_arrays(
                old(self).cfg@,
                entries_of(args@),
                verb@ == "rma"@,
            ).0 && (r is Ok <==> apply_arrays(old(self).cfg@, entries_of(args@), verb@ == "rma"@).1),
            verb@ == "run"@ ==> final(self).cfg@ == old(self).cfg@ && (r is Ok <==> run_parts(
                old(self).cfg@,
                args@,
            ) is Some) && (r matches Ok(Plan::Work(Job::Run { cmd, pwd })) ==> run_parts(
                old(self).cfg@,
                args@,
            ) == Some((cmd@, pwd@))),
            verb@ == "launch"@ || verb@ == "spawn"@ ==> final(self).cfg@ == old(self).cfg@ && (r is Ok
                <==> run_parts(old(self).cfg@, args@) is Some),
            verb@ == "cp"@ ==> final(self).cfg@ == old(self).cfg@ && (r is Ok <==> cp_parts(old(self).cfg@, args@)
                is Some),
            verb@ == "cp"@ && r is Ok ==> (r->Ok_0 matches Plan::Work(Job::Receive { pending }) && cp_parts(
                old(self).cfg@,
                args@,
            ) == Some((pending.filename@, pending.dest@, pending.perms, match pending.hash {
                Some(h) => Some(h@),
                None => None,
            }))),
            verb@ == "fetch"@ ==> final(self).cfg@ == old(self).cfg@ && (r is Ok <==> string_field_spec(args@, "source"@) is Some),
            verb@ == "fetch"@ && r is Ok ==> (r->Ok_0 matches Plan::Work(Job::Fetch { source }) && source@
                == destination_path(old(self).cfg@, string_field_spec(args@, "source"@)->0)),
            verb@ == "restart"@ ==> (r is Ok <==> (args@ is Int && i32::MIN <= args@->Int_0 <= i32::MAX)),
            verb@ != "get"@ && verb@ != "set"@ && verb@ != "seta"@ && verb@ != "rma"@ && verb@ != "run"@
                && verb@ != "launch"@ && verb@ != "spawn"@ && verb@ != "cp"@ && verb@ != "fetch"@ && verb@
                != "restart"@ && verb@ != "chain"@ ==> r is Err && final(self).cfg@ == old(self).cfg@,
            final(self).cfg@ == verb_store(old(self).cfg@, verb@, args@, now_secs as int).0,
            r is Ok <==> verb_store(old(self).cfg@, verb@, args@, now_secs as int).1,
            old(self).dirty ==> final(self).dirty,
            final(self).cfg@ != old(self).cfg@ ==> final(self).dirty,
            final(self).cfg.pending_file == old(self).cfg.pending_file,
            verb@ == "get"@ && r is Ok ==> r->Ok_0 is Reply && r->Ok_0->Reply_0@ == JVal::Array(
                get_reply(old(self).cfg@, items_of(args@), now_secs as int)->0,
            ),
            (verb@ == "seta"@ || verb@ == "rma"@) && r is Ok ==> r->Ok_0 is Reply && r->Ok_0->Reply_0@ == JVal::Bool(
                true,
            ) && final(self).dirty,
            verb@ == "launch"@ && r is Ok ==> r->Ok_0 is Work && r->Ok_0->Work_0 is Launch && run_parts(
                old(self).cfg@,
                args@,
            ) == Some((r->Ok_0->Work_0->Launch_cmd@, r->Ok_0->Work_0->Launch_pwd@)) && opt_str_view(
                r->Ok_0->Work_0->Launch_job,
            ) == string_field_spec(args@, "job"@),
            verb@ == "spawn"@ && r is Ok ==> r->Ok_0 is Work && r->Ok_0->Work_0 is Spawn && run_parts(
                old(self).cfg@,
                args@,
            ) == Some((r->Ok_0->Work_0->Spawn_cmd@, r->Ok_0->Work_0->Spawn_pwd@)),
            verb@ == "restart"@ && r is Ok ==> r->Ok_0 is Work && r->Ok_0->Work_0 is Restart
                && r->Ok_0->Work_0->Restart_code as int == args@->Int_0,
            verb@ == "chain"@ && r is Ok ==> r->Ok_0 is Chain && r->Ok_0->Chain_0@.len() == items_of(args@).len(),
        decreases args,
    {
        proof { lemma_verb_names(); }
        if eq_str(verb, "get") {
            match get_values(&self.cfg, args, now_secs) {
                Ok(v) => Ok(Plan::Reply(v)),
                Err(e) => Err(e),
            }
        } else if eq_str(verb, "set") {
            set_values(&mut self.cfg, args);
            self.dirty = true;
            Ok(Plan::Reply(Value::Bool(true)))
        } else if eq_str(verb, "seta") || eq_str(verb, "rma") {
            let remove = eq_str(verb, "rma");
            let r = update_arrays(&mut self.cfg, args, remove);
            self.dirty = true;
            match r {
                Ok(()) => Ok(Plan::Reply(Value::Bool(true))),
                Err(e) => Err(e),
            }
        } else if eq_str(verb, "run") || eq_str(verb, "launch") || eq_str(verb, "spawn") {
            match run_parts_exec(&self.cfg, args) {
                None => Err(lit("run: cmd must be a string")),
                Some((cmd, pwd)) => {
                    if eq_str(verb, "run") {
                        Ok(Plan::Work(Job::Run { cmd, pwd }))
                    } else if eq_str(verb, "spawn") {
                        Ok(Plan::Work(Job::Spawn { cmd, pwd }))
                    } else {
                        let job = string_field(args, "job");
                        Ok(Plan::Work(Job::Launch { cmd, pwd, job }))
                    }
                },
            }
        } else if eq_str(verb, "cp") {
            let filename = match string_field(args, "filename") {
                Some(f) => f,
                None => return Err(lit("cp: filename must be a string")),
            };
            let dest = match string_field(args, "dest") {
                Some(d) => d,
                None => return Err(lit("cp: dest must be a string")),
            };
            let dir = massage_destination_path(&self.cfg, dest.as_str());
            let perms = match field(args, "perms") {
                Value::Null => None,
                Value::Int(p) => {
                    if 0 <= p && p <= 0xFFFF_FFFF {
                        Some(p as u32)
                    } else {
                        return Err(lit("perms was not an int"));
                    }
                },
                _ => return Err(lit("perms was not an int")),
            };
            let hash = match field(args, "hash") {
                Value::Str(h) => Some(h),
                _ => None,
            };
            let target = join_path_exec(dir.as_str(), filename.as_str());
            Ok(Plan::Work(Job::Receive { pending: FilePending { filename, dest: target, perms, hash } }))
        } else if eq_str(verb, "fetch") {
            match string_field(args, "source") {
                Some(src) => {
                    let source = massage_destination_path(&self.cfg, src.as_str());
                    Ok(Plan::Work(Job::Fetch { source }))
                },
                None => Err(lit("fetch: source must be a string")),
            }
        } else if eq_str(verb, "restart") {
            match args {
                Value::Int(c) => {
                    if -0x8000_0000 <= *c && *c <= 0x7FFF_FFFF {
                        Ok(Plan::Work(Job::Restart { code: *c as i32 }))
                    } else {
                        Err(lit("process code must be integer"))
                    }
                },
                _ => Err(lit("process code must be integer")),
            }
        } else if eq_str(verb, "chain") {
            match args {
                Value::Array(members) => {
                    let ghost items = items_view(members@);
                    assert(args@->Array_0 =~= items);
                    let mut plans: Vec<Plan> = Vec::new();
                    let mut i: usize = 0;
                    assert(items.subrange(0, 0) =~= Seq::<JVal>::empty());
                    while i < members.len()
                        invariant
                            i <= members@.len(),
                            plans@.len() == i,
                            self.seq == old(self).seq,
                            verb@ == "chain"@,
                            *args == Value::Array(*members),
                            items == items_view(members@),
                            args@ == JVal::Array(items),
                            chain_store(old(self).cfg@, items.subrange(0, i as int), now_secs as int) == (self.cfg@, true),
                            old(self).dirty ==> self.dirty,
                            self.cfg@ != old(self).cfg@ ==> self.dirty,
                            self.cfg.pending_file == old(self).cfg.pending_file,
                        decreases members@.len() - i,
                    {
                        proof { lemma_verb_names(); }
                        assert(items.subrange(0, i + 1).drop_last() =~= items.subrange(0, i as int));
                        assert(items.subrange(0, i + 1).last() == members@[i as int]@);
                        match first_entry_exec(&members[i]) {
                            Some((v, a)) => {
                                assert(decreases_to!(args => members@[i as int]));
                                let p = self.handle_verb_member(v.as_str(), &members[i], now_secs);
                                match p {
                                    Ok(p) => plans.push(p),
                                    Err(e) => {
                                        proof { lemma_chain_stops(old(self).cfg@, items, i as int + 1, now_secs as int); }
                                        assert(items.subrange(0, members@.len() as int) =~= items);
                                        return Err(e);
                                    },
                                }
                            },
                            None => {
                                proof { lemma_chain_stops(old(self).cfg@, items, i as int + 1, now_secs as int); }
                                return Err(lit("chain expects array of objects"));
                            },
                        }
                        i += 1;
                    }
                    assert(items.subrange(0, members@.len() as int) =~= items);
                    Ok(Plan::Chain(plans))
                },
                _ => Ok(Plan::Chain(Vec::new())),
            }
        } else {
            let mut msg = lit("unknown command ");
            push_str(&mut msg, verb);
            Err(msg)
        }
    }

    /// Plans one member `{verb: args}` of a chain.
    fn handle_verb_member(&mut self, verb: &str, member: &Value, now_secs: i64) -> (r: Result<Plan, String>)
        requires
            first_entry(member@) matches Some(e) && e.0 == verb@,
        ensures
            final(self).seq == old(self).seq,
            final(self).cfg@ == verb_store(old(self).cfg@, verb@, member_args(member@), now_secs as int).0,
            r is Ok <==> verb_store(old(self).cfg@, verb@, member_args(member@), now_secs as int).1,
            old(self).dirty ==> final(self).dirty,
            final(self).cfg@ != old(self).cfg@ ==> final(self).dirty,
            final(self).cfg.pending_file == old(self).cfg.pending_file,
        decreases member,
    {
        match member {
            Value::Object(es) => {
                assert(member@->Object_0 =~= entries_view(es@));
                if es.len() > 0 {
                    assert(decreases_to!(member => es@[0].1));
                    self.handle_verb(verb, &es[0].1, now_secs)
                } else {
                    Err(lit("chain expects array of objects"))
                }
            },
            _ => Err(lit("chain expects array of objects")),
        }
    }

    /// Handles a query envelope `{seq, which, what}`: `Ok(None)` when its
    /// predicate does not select this agent, which then stays silent.
    pub fn handle_query(&mut self, query: &Value, now_secs: i64) -> (r: Result<Option<Plan>, String>)
        ensures
            r matches Ok(None) ==> final(self).cfg@ == old(self).cfg@,
            (crate::store::field_of(query@, "seq"@) matches JVal::Int(n) && 0 <= n <= 255)
                ==> final(self).seq == crate::store::field_of(query@, "seq"@)->Int_0,
            !(crate::store::field_of(query@, "seq"@) matches JVal::Int(n) && 0 <= n <= 255) ==> r is Err,
            first_entry(crate::store::field_of(query@, "which"@)) is Some && crate::condition::cond_from_json(
                crate::store::field_of(query@, "which"@),
            ) is Some && (crate::store::field_of(query@, "seq"@) matches JVal::Int(n) && 0 <= n <= 255)
                ==> (r matches Ok(None) <==> !crate::condition::matches_spec(
                crate::condition::cond_from_json(crate::store::field_of(query@, "which"@))->0,
                old(self).cfg@,
            )),
            selected(old(self).cfg@, query@) && first_entry(crate::store::field_of(query@, "what"@)) is None
                ==> r is Err,
            selected(old(self).cfg@, query@) && first_entry(crate::store::field_of(query@, "what"@)) is Some
                ==> final(self).cfg@ == verb_store(
                old(self).cfg@,
                what_verb(query@),
                member_args(crate::store::field_of(query@, "what"@)),
                now_secs as int,
            ).0 && (r is Ok <==> verb_store(
                old(self).cfg@,
                what_verb(query@),
                member_args(crate::store::field_of(query@, "what"@)),
                now_secs as int,
            ).1) && (r is Ok ==> r->Ok_0 is Some),
    {
        match field(query, "seq") {
            Value::Int(n) => {
                if 0 <= n && n <= 255 {
                    self.seq = n as u8;
                } else {
                    return Err(lit("bad seq"));
                }
            },
            _ => return Err(lit("bad seq")),
        }
        let which = field(query, "which");
        if first_entry_exec(&which).is_some() {
            match match_condition(&self.cfg, &which) {
                Ok(yes) => {
                    if !yes {
                        return Ok(None);
                    }
                },
                Err(e) => return Err(e),
            }
        }
        let what = field(query, "what");
        match first_entry_exec(&what) {
            Some((verb, args)) => match self.handle_verb(verb.as_str(), args, now_secs) {
                Ok(p) => Ok(Some(p)),
                Err(e) => Err(e),
            },
            None => Err(lit("query must have 'what'")),
        }
    }

    /// Takes the bytes that arrived for a pending file: `None` when no file
    /// was pending; otherwise the pending record, which is cleared, and
    /// whether the bytes match its digest.
    pub fn take_pending_file(&mut self, payload: &[u8]) -> (r: Option<(FilePending, bool)>)
        ensures
            final(self).cfg.pending_file is None,
            final(self).cfg@ == old(self).cfg@,
            old(self).cfg.pending_file is None <==> r is None,
            r matches Some(p) ==> old(self).cfg.pending_file == Some(p.0) && p.1 == (match p.0.hash {
                Some(h) => h@ == md5_hex(payload@),
                None => true,
            }),
    {
        let pending = self.cfg.pending_file.take();
        match pending {
            Some(p) => {
                let ok = check_received(&p, payload);
                Some((p, ok))
            },
            None => None,
        }
    }
}

/// The value a piece of outside work gives back: a command's
/// `{code, stdout, stderr}`, `true` for the rest; a failure is an error.
/// A failed command also sets `rc` in the store.
pub fn outcome_value(cfg: &mut Config, outcome: Outcome) -> (r: Result<Value, String>)
    ensures
        outcome matches Outcome::Ran { code, stdout, stderr } ==> (r matches Ok(v) && v@ == run_result_spec(
            code as int,
            stdout@,
            stderr@,
        )) && final(cfg)@ == (if code != 0 {
            old(cfg)@.insert("rc"@, JVal::Int(code as int))
        } else {
            old(cfg)@
        }),
        outcome is Done ==> (r matches Ok(v) && v@ == JVal::Bool(true)) && final(cfg)@ == old(cfg)@,
        outcome is Failed ==> r is Err && final(cfg)@ == old(cfg)@,
        final(cfg).pending_file == old(cfg).pending_file,
{
    match outcome {
        Outcome::Ran { code, stdout, stderr } => {
            let v = run_result(code, stdout.as_str(), stderr.as_str());
            handle_result_code(cfg, code);
            Ok(v)
        },
        Outcome::Done => Ok(Value::Bool(true)),
        Outcome::Failed(m) => Err(m),
    }
}

/// Where the result of a launched command goes: published to the
/// controller, or, for a named job, stored under the job's name.
pub enum Delivery {
    Publish(Value),
    Store(String, Value),
}

/// Delivers the result of a launched command: without a job name it is
/// published as an unsolicited response with sequence `seq + 1`.
pub fn launch_finished(job: &Option<String>, addr: &str, seq: u8, code: i32, stdout: &str, stderr: &str) -> (r: Delivery)
    ensures
        job is None ==> (r matches Delivery::Publish(v) && v@ == ok_result_spec(
            run_result_spec(code as int, stdout@, stderr@),
            addr@,
            (seq as int + 1) % 256,
        )),
        job matches Some(j) ==> (r matches Delivery::Store(k, v) && k@ == j@ && v@ == run_result_spec(
            code as int,
            stdout@,
            stderr@,
        )),
{
    let res = run_result(code, stdout, stderr);
    match job {
        Some(j) => Delivery::Store(j.clone(), res),
        None => {
            let next: u8 = if seq == 255 { 0 } else { seq + 1 };
            Delivery::Publish(ok_result_build(res, addr, next))
        },
    }
}

} // verus!
