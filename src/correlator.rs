//! The controller: sends each stage of a pipeline, gathers the responses,
//! decides when a stage is complete and reconciles the responders with the
//! expected group.
use vstd::prelude::*;
use crate::value::{JVal, Value, push_entry, make_object, items_view, text_of};
use crate::condition::Condition;
use crate::query::{Query, sendable, query_json};
use crate::flags::{CommandArgs, Flags};
use crate::store::Config;
use crate::text::{eq_str, lit, push_str, push_char};

verus! {

broadcast use vstd::std_specs::vec::group_vec_axioms;

/// How long a stage that waits for launched commands may stay silent, in
/// milliseconds.
pub const LAUNCH_TIMEOUT: i32 = 20000;

/// Something the controller asks its surroundings to do.
pub enum Effect {
    /// A line on standard output.
    Print(String),
    /// An error line.
    Error(String),
    /// A warning line.
    Warn(String),
    /// A JSON message on a topic.
    Publish { topic: String, payload: Value, retain: bool },
    /// The bytes of the stage's file, retained on a topic.
    PublishFile { topic: String },
    /// An empty retained message that clears a topic.
    ClearRetained { topic: String },
    /// A new inactivity timeout, in milliseconds.
    SetTimeout(i32),
    /// The run is over.
    Disconnect,
}

/// A table from addresses to names (or to anything else).
pub open spec fn keys_of<V>(t: Seq<(String, V)>) -> Seq<Seq<char>> {
    Seq::new(t.len(), |i: int| t[i].0@)
}

/// The controller's state for one run.
pub struct MessageData {
    pub sent_file: Option<String>,
    pub query: Vec<Query>,
    pub commands: Vec<CommandArgs>,
    pub filter: Condition,
    /// The `all` group from the controller's store, address to name.
    pub all_group: Option<Vec<(String, String)>>,
    /// The group this run is checked against.
    pub maybe_group: Option<String>,
    pub group: Vec<(String, String)>,
    pub responses: Vec<(String, bool)>,
    pub query_topic: String,
    pub finis: bool,
    pub seq: u8,
    pub flags: Flags,
    pub no_groups: bool,
}

/// Whether exactly one address has this name in the `all` group.
pub open spec fn unique_name(all: Option<Vec<(String, String)>>, name: Seq<char>) -> bool {
    all matches Some(t) && exists|i: int|
        0 <= i < t@.len() && t@[i].1@ == name && forall|j: int| 0 <= j < t@.len() && j != i ==> t@[j].1@ != name
}

/// The narrowcast topic of one agent.
pub open spec fn narrowcast_topic(addr: Seq<char>) -> Seq<char> {
    "MOI/query/"@ + addr
}

/// The index of key `k` in a table.
fn table_index<V>(t: &Vec<(String, V)>, k: &str) -> (r: Option<usize>)
    ensures
        r matches Some(i) ==> i < t@.len() && t@[i as int].0@ == k@,
        r is None ==> !keys_of(t@).contains(k@),
{
    let mut i: usize = 0;
    while i < t.len()
        invariant
            i <= t@.len(),
            forall|j: int| 0 <= j < i ==> t@[j].0@ != k@,
        decreases t@.len() - i,
    {
        if eq_str(t[i].0.as_str(), k) {
            return Some(i);
        }
        i += 1;
    }
    assert forall|j: int| 0 <= j < t@.len() implies keys_of(t@)[j] != k@ by {}
    None
}

/// With a known group, the responders (all of them members) reach the
/// group's size exactly when every member has responded.
pub proof fn lemma_group_completion(group: Seq<Seq<char>>, responded: Seq<Seq<char>>)
    requires
        group.no_duplicates(),
        responded.no_duplicates(),
        responded.to_set().subset_of(group.to_set()),
    ensures
        (responded.len() == group.len()) <==> responded.to_set() == group.to_set(),
{
    group.unique_seq_to_set();
    responded.unique_seq_to_set();
    vstd::seq_lib::seq_to_set_is_finite(group);
    vstd::seq_lib::seq_to_set_is_finite(responded);
    if responded.len() == group.len() {
        vstd::set_lib::lemma_subset_equality(responded.to_set(), group.to_set());
    }
}

/// The name of `id` in the `all` group: `r` is the name of an entry for
/// `id`, or `<unknown>` when there is none.
pub open spec fn name_lookup(all: Option<Vec<(String, String)>>, id: Seq<char>, r: Seq<char>) -> bool {
    match all {
        Some(t) => if keys_of(t@).contains(id) {
            exists|i: int| 0 <= i < t@.len() && t@[i].0@ == id && r == t@[i].1@
        } else {
            r == "<unknown>"@
        },
        None => r == "<unknown>"@,
    }
}

/// The stages after adding a query: one per member of an `Actions`
/// pipeline, else one.
pub open spec fn stages_added(stages: Seq<Query>, q: Query) -> Seq<Query> {
    match q {
        Query::Actions(qs) => stages + qs@,
        _ => stages.push(q),
    }
}

impl MessageData {
    pub open spec fn wf(&self) -> bool {
        keys_of(self.responses@).no_duplicates() && keys_of(self.group@).no_duplicates()
    }

    pub fn new(flags: Flags, commands: Vec<CommandArgs>) -> (r: MessageData)
        ensures
            r.wf(),
            r.seq == 0,
            r.query@.len() == 0,
            r.responses@.len() == 0,
            r.maybe_group is None,
            r.query_topic@ == "MOI/query"@,
            !r.finis,
    {
        let r = MessageData {
            sent_file: None,
            query: Vec::new(),
            commands,
            filter: Condition::Always,
            all_group: None,
            maybe_group: None,
            group: Vec::new(),
            responses: Vec::new(),
            query_topic: lit("MOI/query"),
            finis: false,
            seq: 0,
            flags,
            no_groups: false,
        };
        assert(keys_of(r.responses@) =~= Seq::<Seq<char>>::empty());
        assert(keys_of(r.group@) =~= Seq::<Seq<char>>::empty());
        r
    }

    /// The name of an address in the `all` group, `<unknown>` otherwise;
    /// notes when no `all` group is defined.
    pub fn lookup_name(&mut self, id: &str) -> (r: String)
        ensures
            final(self).no_groups == (old(self).no_groups || old(self).all_group is None),
            name_lookup(old(self).all_group, id@, r@),
            final(self).responses == old(self).responses,
            final(self).group == old(self).group,
            final(self).maybe_group == old(self).maybe_group,
            final(self).finis == old(self).finis,
            final(self).seq == old(self).seq,
            final(self).query_topic == old(self).query_topic,
            final(self).all_group == old(self).all_group,
            final(self).query == old(self).query,
            final(self).sent_file == old(self).sent_file,
            final(self).flags == old(self).flags,
    {
        match &self.all_group {
            Some(t) => match table_index(t, id) {
                Some(i) => {
                    assert(keys_of(t@)[i as int] == id@);
                    t[i].1.clone()
                },
                None => lit("<unknown>"),
            },
            None => {
                self.no_groups = true;
                lit("<unknown>")
            },
        }
    }

    /// The one address whose name in the `all` group is `name`.
    pub fn lookup_addr(&self, name: &str) -> (r: Result<String, String>)
        ensures
            self.all_group is None ==> r is Err,
            r matches Ok(a) ==> (self.all_group matches Some(t) && exists|i: int|
                0 <= i < t@.len() && t@[i].1@ == name@ && t@[i].0@ == a@ && forall|j: int|
                    0 <= j < t@.len() && j != i ==> t@[j].1@ != name@),
            r is Err && self.all_group is Some ==> (self.all_group matches Some(t) && !(exists|i: int|
                0 <= i < t@.len() && t@[i].1@ == name@ && forall|j: int|
                    0 <= j < t@.len() && j != i ==> t@[j].1@ != name@)),
    {
        match &self.all_group {
            None => Err(lit("all group is not yet defined for lookup")),
            Some(t) => {
                let mut found: Option<usize> = None;
                let mut i: usize = 0;
                while i < t.len()
                    invariant
                        i <= t@.len(),
                        self.all_group == Some(*t),
                        found is None ==> forall|j: int| 0 <= j < i ==> t@[j].1@ != name@,
                        found matches Some(f) ==> f < i && t@[f as int].1@ == name@ && forall|j: int|
                            0 <= j < i && j != f ==> t@[j].1@ != name@,
                    decreases t@.len() - i,
                {
                    if eq_str(t[i].1.as_str(), name) {
                        if found.is_some() {
                            proof {
                                let cur = i as int;
                                let fi = found->0 as int;
                                assert forall|k: int| 0 <= k < t@.len() && t@[k].1@ == name@ implies !(forall|j: int|
                                    0 <= j < t@.len() && j != k ==> t@[j].1@ != name@) by {
                                    if k == fi {
                                        assert(t@[cur].1@ == name@);
                                    } else {
                                        assert(t@[fi].1@ == name@);
                                    }
                                }
                            }
                            let mut msg = lit("multiple addresses for ");
                            push_str(&mut msg, name);
                            return Err(msg);
                        }
                        found = Some(i);
                    }
                    i += 1;
                }
                match found {
                    Some(f) => Ok(t[f].0.clone()),
                    None => {
                        let mut msg = lit("can't look up address of ");
                        push_str(&mut msg, name);
                        Err(msg)
                    },
                }
            },
        }
    }

    /// Checks this run against a group: it is complete once every member
    /// has responded.
    pub fn set_group(&mut self, name: &str, members: Vec<(String, String)>)
        requires
            keys_of(members@).no_duplicates(),
            old(self).wf(),
        ensures
            final(self).wf(),
            final(self).group == members,
            (final(self).maybe_group matches Some(n) && n@ == name@),
            final(self).responses == old(self).responses,
            final(self).seq == old(self).seq,
            final(self).query_topic == old(self).query_topic,
            final(self).query == old(self).query,
            final(self).all_group == old(self).all_group,
            final(self).finis == old(self).finis,
            final(self).flags == old(self).flags,
    {
        self.group = members;
        self.maybe_group = Some(lit(name));
    }

    /// A run for one device, given by address (`was_addr`) or by name: the
    /// group of one, and queries go to that device's own topic.
    pub fn set_single_id(&mut self, addr: &str, was_addr: bool) -> (r: Result<(), String>)
        requires
            old(self).wf(),
        ensures
            final(self).wf(),
            was_addr ==> r is Ok,
            r is Ok ==> final(self).group@.len() == 1 && final(self).query_topic@ == narrowcast_topic(
                final(self).group@[0].0@,
            ),
            r is Ok && was_addr ==> final(self).group@[0].0@ == addr@,
            r is Ok && !was_addr ==> final(self).group@[0].1@ == addr@,
            !was_addr ==> (r is Ok <==> unique_name(old(self).all_group, addr@)),
            r is Ok && !was_addr ==> (old(self).all_group matches Some(t) && exists|i: int|
                0 <= i < t@.len() && t@[i].1@ == addr@ && t@[i].0@ == final(self).group@[0].0@),
            r is Ok ==> final(self).maybe_group is Some,
            r is Err ==> final(self).query_topic == old(self).query_topic,
            final(self).seq == old(self).seq,
            final(self).query == old(self).query,
    {
        let (a, n) = if was_addr {
            let n = self.lookup_name(addr);
            (lit(addr), n)
        } else {
            match self.lookup_addr(addr) {
                Ok(a) => (a, lit(addr)),
                Err(e) => return Err(e),
            }
        };
        let mut topic = lit("MOI/query/");
        push_str(&mut topic, a.as_str());
        let mut members: Vec<(String, String)> = Vec::new();
        let name_copy = n.clone();
        members.push((a, n));
        assert(keys_of(members@).len() == 1);
        self.set_group(name_copy.as_str(), members);
        self.query_topic = topic;
        Ok(())
    }

    /// Records a device's response. A failure not reported already is
    /// reported here. With a known group the stage is complete when as
    /// many devices have responded as the group has members.
    pub fn response(&mut self, id: String, ok: bool, handled: bool, out: &mut Vec<Effect>)
        requires
            old(self).wf(),
        ensures
            final(self).wf(),
            keys_of(final(self).responses@).to_set() == keys_of(old(self).responses@).to_set().insert(id@),
            exists|i: int|
                0 <= i < final(self).responses@.len() && final(self).responses@[i].0@ == id@
                    && final(self).responses@[i].1 == ok,
            final(self).responses@.len() >= old(self).responses@.len(),
            forall|j: int|
                0 <= j < old(self).responses@.len()
                    ==> #[trigger] final(self).responses@[j].0@ == old(self).responses@[j].0@,
            forall|j: int|
                0 <= j < old(self).responses@.len() && old(self).responses@[j].0@ != id@
                    ==> #[trigger] final(self).responses@[j] == old(self).responses@[j],
            ok || handled ==> final(out)@ == old(out)@,
            final(self).finis == (if old(self).maybe_group is Some {
                final(self).responses@.len() == final(self).group@.len()
            } else {
                old(self).finis
            }),
            final(self).group == old(self).group,
            final(self).maybe_group == old(self).maybe_group,
            final(self).seq == old(self).seq,
            final(self).query == old(self).query,
            final(self).query_topic == old(self).query_topic,
            final(self).sent_file == old(self).sent_file,
    {
        if !ok && !handled {
            let name = self.lookup_name(id.as_str());
            let mut line = id.clone();
            push_char(&mut line, ' ');
            push_str(&mut line, name.as_str());
            push_str(&mut line, " failed");
            out.push(Effect::Error(line));
            if self.flags.json {
                let cmd = self.current_command_name();
                let mut vals: Vec<Value> = Vec::new();
                vals.push(Value::Str(lit("failed")));
                let mut cols: Vec<String> = Vec::new();
                cols.push(lit("error"));
                out.push(Effect::Print(json_out(cmd.as_str(), false, id.as_str(), name.as_str(), &vals, &cols)));
            }
        }
        let ghost old_keys = keys_of(self.responses@);
        let ghost idv = id@;
        let ghost mut w: int = 0;
        match table_index(&self.responses, id.as_str()) {
            Some(i) => {
                let k = self.responses[i].0.clone();
                self.responses.set(i, (k, ok));
                assert(keys_of(self.responses@) =~= old_keys);
                assert(self.responses@[i as int].0@ == id@ && self.responses@[i as int].1 == ok);
                proof { w = i as int; }
                assert(old_keys.to_set().insert(id@) =~= old_keys.to_set()) by {
                    assert(old_keys[i as int] == id@);
                }
            },
            None => {
                self.responses.push((id, ok));
                let ghost last = self.responses@.len() - 1;
                proof { w = last; }
                assert(self.responses@[last].0@ == idv && self.responses@[last].1 == ok);
                assert(keys_of(self.responses@) =~= old_keys.push(idv));
                proof { old_keys.lemma_push_to_set_commute(idv); }
            },
        }
        if self.maybe_group.is_some() {
            self.finis = self.responses.len() == self.group.len();
        }
        assert(self.responses@[w].0@ == idv && self.responses@[w].1 == ok);
    }

    /// Whether the stage is complete because every group member responded.
    pub fn group_finished(&self) -> (r: bool)
        ensures
            r == self.finis,
    {
        self.finis
    }

    /// The name of the current command, or empty.
    pub fn current_command_name(&self) -> (r: String)
        ensures
            (self.seq as int) < self.commands@.len() ==> r@ == self.commands@[self.seq as int].command@,
    {
        if (self.seq as usize) < self.commands.len() {
            self.commands[self.seq as usize].command.clone()
        } else {
            String::new()
        }
    }

    /// Adds the stages of a query: an `Actions` pipeline gives one stage
    /// per member, anything else one stage.
    pub fn set_queries(&mut self, q: Query)
        ensures
            final(self).query@ == stages_added(old(self).query@, q),
            final(self).seq == old(self).seq,
            final(self).responses == old(self).responses,
            final(self).group == old(self).group,
    {
        match q {
            Query::Actions(qs) => {
                let mut qs = qs;
                self.query.append(&mut qs);
            },
            _ => self.query.push(q),
        }
    }

    /// Sends the current stage: the envelope `{seq, which, what, group?}`
    /// goes to the query topic. A stage without wire form (`wait`) sends
    /// nothing. The responses of the previous stage are forgotten.
    pub fn send_query(&mut self, out: &mut Vec<Effect>)
        requires
            old(self).wf(),
            (old(self).seq as int) < old(self).query@.len(),
            sendable(old(self).query@[old(self).seq as int]),
        ensures
            final(self).wf(),
            final(self).responses@.len() == 0,
            final(self).seq == old(self).seq,
            final(self).query == old(self).query,
            final(self).group == old(self).group,
            final(self).maybe_group == old(self).maybe_group,
            final(self).query_topic == old(self).query_topic,
            final(self).sent_file == old(self).sent_file,
            final(self).finis == old(self).finis,
            query_json(old(self).query@[old(self).seq as int]) is Null ==> final(out)@ == old(out)@,
            final(out)@.len() >= old(out)@.len(),
            final(out)@.subrange(0, old(out)@.len() as int) == old(out)@,
            !(query_json(old(self).query@[old(self).seq as int]) is Null) ==> final(out)@.len()
                == old(out)@.len() + 1 && (final(out)@.last() matches Effect::Publish { topic, payload, retain } && topic@
                == old(self).query_topic@ && !retain && payload@ == envelope(
                old(self).seq as int,
                old(self).filter@,
                query_json(old(self).query@[old(self).seq as int]),
                old(self).maybe_group,
            )),
    {
        let q = self.query[self.seq as usize].to_json();
        self.responses = Vec::new();
        assert(keys_of(self.responses@) =~= Seq::<Seq<char>>::empty());
        match q {
            Value::Null => {},
            _ => {
                let ghost qv = q@;
                let mut es: Vec<(String, Value)> = Vec::new();
                push_entry(&mut es, "seq", Value::Int(self.seq as i64));
                push_entry(&mut es, "which", self.filter.to_json());
                push_entry(&mut es, "what", q);
                match &self.maybe_group {
                    Some(name) => {
                        push_entry(&mut es, "group", Value::Str(name.clone()));
                    },
                    None => {},
                }
                let payload = make_object(es);
                assert(payload@ == envelope(self.seq as int, self.filter@, qv, self.maybe_group)) by {
                    assert(payload@->Object_0 =~= envelope(self.seq as int, self.filter@, qv, self.maybe_group)->Object_0);
                }
                out.push(Effect::Publish { topic: self.query_topic.clone(), payload, retain: false });
            },
        }
    }
}

/// The query envelope of a stage.
pub open spec fn envelope(seq: int, filter: crate::condition::Cond, what: JVal, group: Option<String>) -> JVal {
    let base = seq![
        ("seq"@, JVal::Int(seq)),
        ("which"@, crate::condition::cond_to_json(filter)),
        ("what"@, what),
    ];
    JVal::Object(
        match group {
            Some(g) => base.push(("group"@, JVal::Str(g@))),
            None => base,
        },
    )
}

/// The members `"col":value` of a structured line, one per column that
/// has a value.
pub open spec fn json_members(vals: Seq<JVal>, cols: Seq<Seq<char>>) -> Seq<char>
    decreases vals.len(),
{
    if vals.len() == 0 || cols.len() == 0 {
        Seq::empty()
    } else {
        seq![','] + crate::value::quote(cols[0]) + seq![':'] + crate::value::dump(vals[0]) + json_members(
            vals.drop_first(),
            cols.drop_first(),
        )
    }
}

/// One line of structured output.
pub open spec fn json_line(cmd: Seq<char>, ok: bool, addr: Seq<char>, name: Seq<char>, vals: Seq<JVal>, cols: Seq<Seq<char>>) -> Seq<char> {
    "{\"cmd\":"@ + crate::value::quote(cmd) + ",\"ok\":"@ + crate::value::bool_text(ok) + ",\"addr\":"@
        + crate::value::quote(addr) + ",\"name\":"@ + crate::value::quote(name) + json_members(vals, cols) + seq!['}']
}

proof fn lemma_json_members_step(vals: Seq<JVal>, cols: Seq<Seq<char>>, i: int)
    requires
        0 <= i < vals.len(),
        i < cols.len(),
    ensures
        json_members(vals.subrange(i, vals.len() as int), cols.subrange(i, cols.len() as int)) == seq![',']
            + crate::value::quote(cols[i]) + seq![':'] + crate::value::dump(vals[i]) + json_members(
            vals.subrange(i + 1, vals.len() as int),
            cols.subrange(i + 1, cols.len() as int),
        ),
{
    assert(vals.subrange(i, vals.len() as int).drop_first() =~= vals.subrange(i + 1, vals.len() as int));
    assert(cols.subrange(i, cols.len() as int).drop_first() =~= cols.subrange(i + 1, cols.len() as int));
}

/// One line of structured output: `{"cmd":..,"ok":..,"addr":..,"name":..}`
/// followed by one member per column, taken from `vals`.
pub fn json_out(cmd: &str, ok: bool, addr: &str, name: &str, vals: &Vec<Value>, cols: &Vec<String>) -> (r: String)
    ensures
        r@ == json_line(cmd@, ok, addr@, name@, crate::value::items_view(vals@), crate::strutil::strings_view(cols@)),
{
    let ghost vv = crate::value::items_view(vals@);
    let ghost cv = crate::strutil::strings_view(cols@);
    let mut s = lit("{\"cmd\":");
    let q = Value::Str(lit(cmd)).dump();
    push_str(&mut s, q.as_str());
    push_str(&mut s, ",\"ok\":");
    if ok {
        push_str(&mut s, "true");
        proof { reveal_strlit("true"); }
        assert("true"@ =~= crate::value::bool_text(true));
    } else {
        push_str(&mut s, "false");
        proof { reveal_strlit("false"); }
        assert("false"@ =~= crate::value::bool_text(false));
    }
    push_str(&mut s, ",\"addr\":");
    let a = Value::Str(lit(addr)).dump();
    push_str(&mut s, a.as_str());
    push_str(&mut s, ",\"name\":");
    let n = Value::Str(lit(name)).dump();
    push_str(&mut s, n.as_str());
    let ghost prefix = s@;
    assert(prefix + json_members(vv, cv) + seq!['}'] == json_line(cmd@, ok, addr@, name@, vv, cv));
    assert(vv.subrange(0, vv.len() as int) =~= vv);
    assert(cv.subrange(0, cv.len() as int) =~= cv);
    let mut i: usize = 0;
    while i < vals.len() && i < cols.len()
        invariant
            vv == crate::value::items_view(vals@),
            cv == crate::strutil::strings_view(cols@),
            i <= vals@.len(),
            i <= cols@.len(),
            s@ + json_members(vv.subrange(i as int, vv.len() as int), cv.subrange(i as int, cv.len() as int))
                == prefix + json_members(vv, cv),
        decreases vals@.len() - i,
    {
        let ghost before = s@;
        proof { lemma_json_members_step(vv, cv, i as int); }
        push_char(&mut s, ',');
        let c = Value::Str(cols[i].clone()).dump();
        push_str(&mut s, c.as_str());
        push_char(&mut s, ':');
        let e = vals[i].dump();
        push_str(&mut s, e.as_str());
        assert(before + (seq![','] + crate::value::quote(cv[i as int]) + seq![':'] + crate::value::dump(vv[i as int])
            + json_members(vv.subrange(i + 1, vv.len() as int), cv.subrange(i + 1, cv.len() as int)))
            =~= s@ + json_members(vv.subrange(i + 1, vv.len() as int), cv.subrange(i + 1, cv.len() as int)));
        i += 1;
    }
    assert(json_members(vv.subrange(i as int, vv.len() as int), cv.subrange(i as int, cv.len() as int))
        == Seq::<char>::empty());
    push_char(&mut s, '}');
    assert(s@ =~= prefix + json_members(vv, cv) + seq!['}']);
    s
}

/// The exit code in a command's result; -1 when it carries none.
pub open spec fn code_of(resp: JVal) -> int {
    match crate::store::field_of(resp, "code"@) {
        JVal::Int(c) => c,
        _ => -1,
    }
}

/// What a command's result shows: its output when it succeeded, its
/// error output otherwise.
pub open spec fn run_output(resp: JVal) -> Seq<char> {
    if code_of(resp) == 0 {
        text_of(crate::store::field_of(resp, "stdout"@))
    } else {
        text_of(crate::store::field_of(resp, "stderr"@))
    }
}

/// The line shown for a command's result: address, name, then the
/// output (after a line break when it spans lines), with the exit code
/// in front of it when the command failed.
pub open spec fn run_line(id: Seq<char>, name: Seq<char>, code: int, output: Seq<char>) -> Seq<char> {
    let multiline = output.contains('\n');
    id + seq!['\t'] + name + (if multiline { ":\n"@ } else { "\t"@ }) + (if code != 0 {
        "(code "@ + crate::value::int_text(code) + "): "@
    } else {
        Seq::empty()
    }) + output + (if multiline { seq!['\n'] } else { Seq::empty() })
}

/// The item at index `i` of an array value, null otherwise.
pub open spec fn item_of(v: JVal, i: int) -> JVal {
    match v {
        JVal::Array(a) => if 0 <= i < a.len() {
            a[i]
        } else {
            JVal::Null
        },
        _ => JVal::Null,
    }
}

fn item_exec(v: &Value, i: usize) -> (r: Value)
    ensures
        r@ == item_of(v@, i as int),
{
    match v {
        Value::Array(a) => {
            assert(v@->Array_0 =~= items_view(a@));
            if i < a.len() {
                a[i].copy()
            } else {
                Value::Null
            }
        },
        _ => Value::Null,
    }
}

/// Fields joined by tabs.
pub open spec fn tab_join(parts: Seq<Seq<char>>) -> Seq<char>
    decreases parts.len(),
{
    if parts.len() == 0 {
        Seq::empty()
    } else if parts.len() == 1 {
        parts[0]
    } else {
        tab_join(parts.drop_last()) + seq!['\t'] + parts.last()
    }
}

/// The line `ls` prints for a response: its values, as text, tab-separated.
pub open spec fn ls_line(resp: JVal) -> Seq<char> {
    tab_join(Seq::new(crate::agent::items_of(resp).len(), |i: int| text_of(item_of(resp, i))))
}

fn tab_line(parts: &Vec<String>) -> (r: String)
    ensures
        r@ == tab_join(crate::strutil::strings_view(parts@)),
{
    let ghost pv = crate::strutil::strings_view(parts@);
    let mut s = String::new();
    let mut i: usize = 0;
    assert(pv.subrange(0, 0) =~= Seq::<Seq<char>>::empty());
    while i < parts.len()
        invariant
            pv == crate::strutil::strings_view(parts@),
            i <= parts@.len(),
            s@ == tab_join(pv.subrange(0, i as int)),
        decreases parts@.len() - i,
    {
        assert(pv.subrange(0, i + 1).drop_last() =~= pv.subrange(0, i as int));
        assert(i == 0 ==> pv.subrange(0, 1) =~= seq![pv[0]]);
        if i > 0 {
            push_char(&mut s, '\t');
        }
        push_str(&mut s, parts[i].as_str());
        i += 1;
    }
    assert(pv.subrange(0, parts@.len() as int) =~= pv);
    s
}

/// Whether the text holds a line break.
fn has_newline(t: &str) -> (r: bool)
    ensures
        r == t@.contains('\n'),
{
    let cs = crate::text::chars_of(t);
    let mut i: usize = 0;
    while i < cs.len()
        invariant
            cs@ == t@,
            i <= cs@.len(),
            forall|j: int| 0 <= j < i ==> cs@[j] != '\n',
        decreases cs@.len() - i,
    {
        if cs[i] == '\n' {
            return true;
        }
        i += 1;
    }
    false
}

/// The views of a table's entries.
pub open spec fn table_view(t: Seq<(String, String)>) -> Seq<(Seq<char>, Seq<char>)> {
    Seq::new(t.len(), |i: int| (t[i].0@, t[i].1@))
}

pub open spec fn pair_keys(t: Seq<(Seq<char>, Seq<char>)>) -> Seq<Seq<char>> {
    Seq::new(t.len(), |i: int| t[i].0)
}

/// An address-to-name table from the entries of an object: values as
/// text, a later entry for a key already seen dropped.
pub open spec fn table_from(es: Seq<(Seq<char>, JVal)>) -> Seq<(Seq<char>, Seq<char>)>
    decreases es.len(),
{
    if es.len() == 0 {
        Seq::empty()
    } else {
        let t = table_from(es.drop_last());
        if pair_keys(t).contains(es.last().0) {
            t
        } else {
            t.push((es.last().0, text_of(es.last().1)))
        }
    }
}

/// The members saved for a group in the controller's store.
pub open spec fn saved_members(m: Map<Seq<char>, JVal>, g: Seq<char>) -> Seq<(Seq<char>, Seq<char>)> {
    table_from(crate::agent::entries_of(crate::store::field_of(m["groups"@], g)))
}

/// Whether the controller's store holds a group of this name.
pub open spec fn group_saved(m: Map<Seq<char>, JVal>, g: Seq<char>) -> bool {
    m.contains_key("groups"@) && crate::store::field_of(m["groups"@], g) is Object
}

/// The members of a saved group, address to name.
pub fn lookup_group(store: &Config, group_name: &str) -> (r: Result<Vec<(String, String)>, String>)
    ensures
        r is Ok <==> group_saved(store@, group_name@),
        r matches Ok(t) ==> keys_of(t@).no_duplicates() && table_view(t@) == saved_members(store@, group_name@),
{
    match store.lookup_key("groups") {
        None => Err(lit("no groups defined!")),
        Some(groups) => {
            let g = crate::store::field_of_value(groups, group_name);
            match g {
                Value::Object(es) => {
                    assert(g@->Object_0 =~= crate::value::entries_view(es@));
                    Ok(table_of(&es))
                },
                _ => Err(lit("no such group")),
            }
        },
    }
}

/// An address-to-name table from the entries of an object (values as
/// text); a later entry for the same key is dropped.
fn table_of(es: &Vec<(String, Value)>) -> (r: Vec<(String, String)>)
    ensures
        keys_of(r@).no_duplicates(),
        table_view(r@) == table_from(crate::value::entries_view(es@)),
{
    let ghost ev = crate::value::entries_view(es@);
    let mut t: Vec<(String, String)> = Vec::new();
    let mut i: usize = 0;
    assert(keys_of(t@) =~= Seq::<Seq<char>>::empty());
    assert(table_view(t@) =~= table_from(ev.subrange(0, 0)));
    while i < es.len()
        invariant
            ev == crate::value::entries_view(es@),
            i <= es@.len(),
            keys_of(t@).no_duplicates(),
            table_view(t@) == table_from(ev.subrange(0, i as int)),
        decreases es@.len() - i,
    {
        assert(ev.subrange(0, i + 1).drop_last() =~= ev.subrange(0, i as int));
        assert(pair_keys(table_view(t@)) =~= keys_of(t@));
        let ghost tv = table_view(t@);
        assert(ev[i as int] == (es@[i as int].0@, es@[i as int].1@));
        match table_index(&t, es[i].0.as_str()) {
            None => {
                let ghost before = keys_of(t@);
                let txt = es[i].1.text();
                t.push((es[i].0.clone(), txt));
                assert(keys_of(t@) =~= before.push(es@[i as int].0@));
                assert(table_view(t@) =~= tv.push((ev[i as int].0, text_of(ev[i as int].1))));
            },
            Some(j) => {
                assert(pair_keys(tv)[j as int] == ev[i as int].0);
            },
        }
        i += 1;
    }
    assert(ev.subrange(0, es@.len() as int) =~= ev);
    t
}

/// Inserts or replaces an entry of a table.
fn table_set(t: &mut Vec<(String, String)>, k: String, v: String)
    requires
        keys_of(old(t)@).no_duplicates(),
    ensures
        keys_of(final(t)@).no_duplicates(),
        keys_of(final(t)@).to_set() == keys_of(old(t)@).to_set().insert(k@),
        exists|i: int| 0 <= i < final(t)@.len() && final(t)@[i].0@ == k@ && final(t)@[i].1@ == v@,
{
    let ghost old_keys = keys_of(t@);
    let ghost kv = k@;
    match table_index(t, k.as_str()) {
        Some(i) => {
            let ghost vv = v@;
            t.set(i, (k, v));
            assert(t@[i as int].0@ == kv && t@[i as int].1@ == vv);
            assert(keys_of(t@) =~= old_keys);
            assert(old_keys.to_set().insert(kv) =~= old_keys.to_set()) by {
                assert(old_keys[i as int] == kv);
            }
        },
        None => {
            let ghost vv = v@;
            t.push((k, v));
            assert(t@[t@.len() - 1].0@ == kv && t@[t@.len() - 1].1@ == vv);
            assert(keys_of(t@) =~= old_keys.push(kv));
            proof { old_keys.lemma_push_to_set_commute(kv); }
        },
    }
}

/// A table as an object with string values.
pub open spec fn table_json(t: Seq<(String, String)>) -> JVal {
    JVal::Object(Seq::new(t.len(), |i: int| (t[i].0@, JVal::Str(t[i].1@))))
}

/// The entries whose key is not `k`.
pub open spec fn without_key(es: Seq<(Seq<char>, JVal)>, k: Seq<char>) -> Seq<(Seq<char>, JVal)>
    decreases es.len(),
{
    if es.len() == 0 {
        es
    } else if es.last().0 == k {
        without_key(es.drop_last(), k)
    } else {
        without_key(es.drop_last(), k).push(es.last())
    }
}

/// The groups object of a store; empty when there is none.
pub open spec fn groups_of(m: Map<Seq<char>, JVal>) -> Seq<(Seq<char>, JVal)> {
    if m.contains_key("groups"@) && m["groups"@] is Object {
        m["groups"@]->Object_0
    } else {
        Seq::empty()
    }
}

/// The table as an object with string values.
pub fn table_value(t: &Vec<(String, String)>) -> (r: Value)
    ensures
        r@ == table_json(t@),
{
    let mut es: Vec<(String, Value)> = Vec::new();
    let mut i: usize = 0;
    while i < t.len()
        invariant
            i <= t@.len(),
            crate::value::entries_view(es@) =~= Seq::new(i as nat, |j: int| (t@[j].0@, JVal::Str(t@[j].1@))),
        decreases t@.len() - i,
    {
        let ghost before = crate::value::entries_view(es@);
        let v = Value::Str(t[i].1.clone());
        assert(v@ == JVal::Str(t@[i as int].1@));
        es.push((t[i].0.clone(), v));
        assert(crate::value::entries_view(es@) =~= before.push((t@[i as int].0@, JVal::Str(t@[i as int].1@))));
        i += 1;
    }
    let r = make_object(es);
    assert(r@->Object_0 =~= table_json(t@)->Object_0);
    r
}

/// The parts of a pulled file's topic after `MOI/fetch/`: `seq/addr/name`.
pub open spec fn fetch_parts(parms: Seq<char>) -> Seq<Seq<char>> {
    crate::store::split_char(parms, '/')
}

/// Where a pulled file is written: for the current stage, which must be
/// a pull, its local destination with `%a`, `%n`, `%t` replaced.
pub open spec fn fetch_result(q: Seq<Query>, seq: int, parms: Seq<char>, now: int) -> Option<Seq<char>> {
    let p = fetch_parts(parms);
    if p.len() < 3 || p[0] != crate::value::int_text(seq) || seq >= q.len() {
        None
    } else {
        match q[seq] {
            Query::Fetch(ff) => match crate::strutil::subst_spec(
                ff.local_dest@,
                '%',
                crate::strutil::LookupM::Destination(p[1], p[2], now),
            ) {
                Ok(d) => Some(d),
                Err(_) => None,
            },
            _ => None,
        }
    }
}

impl MessageData {
    /// Reports a command's result: its output when it succeeded, its exit
    /// code and error output when it failed. True when the code is 0.
    pub fn handle_run_launch(&mut self, id: &str, resp: &Value, out: &mut Vec<Effect>) -> (r: bool)
        ensures
            r == (code_of(resp@) == 0),
            final(self).responses == old(self).responses,
            final(self).group == old(self).group,
            final(self).maybe_group == old(self).maybe_group,
            final(self).finis == old(self).finis,
            final(self).seq == old(self).seq,
            final(self).query == old(self).query,
            final(self).query_topic == old(self).query_topic,
            final(self).sent_file == old(self).sent_file,
            final(self).flags == old(self).flags,
            !old(self).flags.json && (code_of(resp@) != 0 || !old(self).flags.quiet) ==> final(out)@.len()
                == old(out)@.len() + 1 && final(out)@.last() is Print && exists|name: Seq<char>|
                name_lookup(old(self).all_group, id@, name) && final(out)@.last()->Print_0@ == run_line(
                    id@,
                    name,
                    code_of(resp@),
                    run_output(resp@),
                ),
            !old(self).flags.json && code_of(resp@) == 0 && old(self).flags.quiet ==> final(out)@ == old(out)@,
            old(self).flags.json ==> final(out)@.len() == old(out)@.len() + 1 && final(out)@.last() is Print,
    {
        let code: i64 = match crate::store::field_of_value(resp, "code") {
            Value::Int(c) => c,
            _ => -1,
        };
        let stdout = crate::store::field_of_value(resp, "stdout").text();
        let stderr = crate::store::field_of_value(resp, "stderr").text();
        let output = if code == 0 { stdout } else { stderr };
        let name = self.lookup_name(id);
        if !self.flags.json {
            let multiline = has_newline(output.as_str());
            let mut line = lit(id);
            push_char(&mut line, '\t');
            push_str(&mut line, name.as_str());
            push_str(&mut line, if multiline { ":\n" } else { "\t" });
            if code != 0 {
                push_str(&mut line, "(code ");
                let c = crate::value::int_to_text(code);
                push_str(&mut line, c.as_str());
                push_str(&mut line, "): ");
            }
            push_str(&mut line, output.as_str());
            if multiline {
                push_char(&mut line, '\n');
            }
            assert(line@ =~= run_line(id@, name@, code as int, output@));
            if code != 0 || !self.flags.quiet {
                out.push(Effect::Print(line));
            }
        } else {
            if self.flags.cols.len() > 0 && code == 0 {
                let words = crate::strutil::split_whitespace(crate::text::chars_of(output.as_str()).as_slice());
                let mut vals: Vec<Value> = Vec::new();
                let mut i: usize = 0;
                while i < words.len()
                    decreases words@.len() - i,
                {
                    vals.push(Value::Str(words[i].clone()));
                    i += 1;
                }
                let line = json_out("run", true, id, name.as_str(), &vals, &self.flags.cols);
                out.push(Effect::Print(line));
            } else {
                let mut vals: Vec<Value> = Vec::new();
                vals.push(Value::Int(code));
                vals.push(Value::Str(output));
                let mut cols: Vec<String> = Vec::new();
                cols.push(lit("code"));
                cols.push(lit("output"));
                let line = json_out("run", code == 0, id, name.as_str(), &vals, &cols);
                out.push(Effect::Print(line));
            }
        }
        code == 0
    }

    /// Handles a successful response to the current stage: shows it, and
    /// records the device's success. A `cp` stage publishes the file's
    /// bytes on the first response; its success is counted when the file
    /// arrives. A `group` stage collects the responder as a member.
    pub fn handle_response(&mut self, id: String, resp: Value, now_secs: i64, now_ms: u64, out: &mut Vec<Effect>)
        requires
            old(self).wf(),
            (old(self).seq as int) < old(self).query@.len(),
        ensures
            final(self).wf(),
            final(self).seq == old(self).seq,
            final(self).query == old(self).query,
            final(self).query_topic == old(self).query_topic,
            final(self).maybe_group == old(self).maybe_group,
            old(self).query@[old(self).seq as int] is Run ==> exists|i: int|
                0 <= i < final(self).responses@.len() && final(self).responses@[i].0@ == id@
                    && final(self).responses@[i].1 == (code_of(resp@) == 0),
            old(self).query@[old(self).seq as int] is Copy || old(self).query@[old(self).seq as int] is Fetch
                ==> final(self).responses == old(self).responses,
            old(self).query@[old(self).seq as int] is Copy && old(self).sent_file is None
                ==> (final(self).sent_file matches Some(t) && t@ == "MOI/file/"@ + crate::value::int_text(
                old(self).seq as int,
            )),
            !(old(self).query@[old(self).seq as int] is Copy || old(self).query@[old(self).seq as int] is Fetch)
                ==> keys_of(final(self).responses@).to_set() == keys_of(old(self).responses@).to_set().insert(id@),
            old(self).query@[old(self).seq as int] is Copy && old(self).sent_file is None ==> final(out)@ == old(
                out,
            )@.push((Effect::PublishFile { topic: final(self).sent_file->0 })),
            old(self).query@[old(self).seq as int] is Copy && old(self).sent_file is Some ==> final(self).sent_file
                == old(self).sent_file && final(out)@ == old(out)@,
            old(self).query@[old(self).seq as int] is Fetch ==> final(out)@ == old(out)@,
            !(old(self).query@[old(self).seq as int] is Copy) ==> final(self).sent_file == old(self).sent_file,
            !(old(self).query@[old(self).seq as int] is Run || old(self).query@[old(self).seq as int] is Copy
                || old(self).query@[old(self).seq as int] is Fetch) ==> exists|i: int|
                0 <= i < final(self).responses@.len() && final(self).responses@[i].0@ == id@
                    && final(self).responses@[i].1,
            old(self).query@[old(self).seq as int] is Group ==> exists|i: int|
                0 <= i < final(self).group@.len() && final(self).group@[i].0@ == text_of(
                    item_of(item_of(resp@, 0), 0),
                ) && final(self).group@[i].1@ == text_of(item_of(item_of(resp@, 0), 1)),
            is_ls(old(self).query@[old(self).seq as int]) && !old(self).flags.json ==> final(out)@ == old(
                out,
            )@.push(Effect::Print(final(out)@.last()->Print_0)) && final(out)@.last()->Print_0@ == ls_line(resp@),
            old(self).query@[old(self).seq as int] is Invoke ==> final(out)@.len() == old(out)@.len() + 1
                && final(out)@.last() is Print,
            old(self).query@[old(self).seq as int] is Ping && !old(self).flags.quiet ==> final(out)@.len() == old(
                out,
            )@.len() + 1 && final(out)@.last() is Print,
            old(self).query@[old(self).seq as int] is Ping && old(self).flags.quiet ==> final(out)@ == old(out)@,
            is_time(old(self).query@[old(self).seq as int]) && item_of(resp@, 2) is Int ==> final(out)@.len() == old(
                out,
            )@.len() + 1 && final(out)@.last() is Print,
            is_ls(old(self).query@[old(self).seq as int]) && old(self).flags.json ==> final(out)@.len() == old(
                out,
            )@.len() + 1 && final(out)@.last() is Print,
    {
        let seq = self.seq as usize;
        if let Query::Run(_) = &self.query[seq] {
            let ok = self.handle_run_launch(id.as_str(), &resp, out);
            self.response(id, ok, true, out);
            return;
        }
        if let Query::Fetch(_) = &self.query[seq] {
            return;
        }
        if let Query::Copy(_) = &self.query[seq] {
            if self.sent_file.is_none() {
                let topic = crate::agent::file_topic(self.seq);
                out.push(Effect::PublishFile { topic: topic.clone() });
                self.sent_file = Some(topic);
            }
            return;
        }
        if let Query::Group(_, _) = &self.query[seq] {
            let get = item_exec(&resp, 0);
            let addr = item_exec(&get, 0).text();
            let name = item_exec(&get, 1).text();
            table_set(&mut self.group, addr, name);
        } else if let Query::Invoke(_, _) = &self.query[seq] {
            let name = self.lookup_name(id.as_str());
            let mut line = id.clone();
            push_char(&mut line, '\t');
            push_str(&mut line, name.as_str());
            push_char(&mut line, '\t');
            let r = resp.dump();
            push_str(&mut line, r.as_str());
            out.push(Effect::Print(line));
        } else if let Query::Ping(start) = &self.query[seq] {
            if !self.flags.quiet {
                let diff: u64 = if now_ms >= *start { now_ms - *start } else { 0 };
                let a = item_exec(&resp, 0).text();
                let n = item_exec(&resp, 1).text();
                let mut vals: Vec<Value> = Vec::new();
                let d: i64 = if diff <= 0x7FFF_FFFF { diff as i64 } else { 0x7FFF_FFFF };
                vals.push(Value::Int(d));
                if !self.flags.json {
                    let mut parts: Vec<String> = Vec::new();
                    parts.push(a);
                    parts.push(n);
                    parts.push(crate::value::int_to_text(d));
                    out.push(Effect::Print(tab_line(&parts)));
                } else {
                    let mut cols: Vec<String> = Vec::new();
                    cols.push(lit("ping"));
                    out.push(Effect::Print(json_out("ping", true, a.as_str(), n.as_str(), &vals, &cols)));
                }
            }
        } else if let Query::Get(cols, command) = &self.query[seq] {
            if eq_str(command.as_str(), "ls") {
                let n: usize = match &resp {
                    Value::Array(a) => a.len(),
                    _ => 0,
                };
                if !self.flags.json {
                    let ghost want = Seq::new(crate::agent::items_of(resp@).len(), |k: int| text_of(item_of(resp@, k)));
                    assert(n == crate::agent::items_of(resp@).len()) by {
                        if let Value::Array(a) = &resp {
                            assert(resp@->Array_0 =~= items_view(a@));
                        }
                    }
                    let mut parts: Vec<String> = Vec::new();
                    let mut i: usize = 0;
                    while i < n
                        invariant
                            i <= n,
                            n == want.len(),
                            want == Seq::new(crate::agent::items_of(resp@).len(), |k: int| text_of(item_of(resp@, k))),
                            crate::strutil::strings_view(parts@) =~= want.subrange(0, i as int),
                        decreases n - i,
                    {
                        let t = item_exec(&resp, i).text();
                        let ghost before = crate::strutil::strings_view(parts@);
                        assert(t@ == want[i as int]);
                        parts.push(t);
                        assert(crate::strutil::strings_view(parts@) =~= before.push(want[i as int]));
                        assert(want.subrange(0, i + 1) =~= want.subrange(0, i as int).push(want[i as int]));
                        i += 1;
                    }
                    assert(want.subrange(0, n as int) =~= want);
                    out.push(Effect::Print(tab_line(&parts)));
                } else {
                    let a = item_exec(&resp, 0).text();
                    let nm = item_exec(&resp, 1).text();
                    let mut vals: Vec<Value> = Vec::new();
                    let mut names: Vec<String> = Vec::new();
                    let mut i: usize = 2;
                    while i < n
                        decreases n - i,
                    {
                        vals.push(item_exec(&resp, i));
                        i += 1;
                    }
                    let mut j: usize = 2;
                    while j < cols.len()
                        decreases cols@.len() - j,
                    {
                        names.push(cols[j].clone());
                        j += 1;
                    }
                    out.push(Effect::Print(json_out("ls", true, a.as_str(), nm.as_str(), &vals, &names)));
                }
            } else if eq_str(command.as_str(), "time") {
                let a = item_exec(&resp, 0).text();
                let nm = item_exec(&resp, 1).text();
                match item_exec(&resp, 2) {
                    Value::Int(t) => {
                        let diff: i64 = if now_secs as i128 - t as i128 > 0x7FFF_FFFF_FFFF_FFFF || (
                        now_secs as i128 - t as i128) < -0x7FFF_FFFF_FFFF_FFFF {
                            0
                        } else {
                            now_secs - t
                        };
                        if !self.flags.json {
                            let mut parts: Vec<String> = Vec::new();
                            parts.push(a);
                            parts.push(nm);
                            parts.push(crate::value::int_to_text(diff));
                            out.push(Effect::Print(tab_line(&parts)));
                        } else {
                            let mut vals: Vec<Value> = Vec::new();
                            vals.push(Value::Int(diff));
                            let mut names: Vec<String> = Vec::new();
                            names.push(lit("time diff"));
                            out.push(Effect::Print(json_out("time", true, a.as_str(), nm.as_str(), &vals, &names)));
                        }
                    },
                    _ => {},
                }
            }
        }
        self.response(id, true, false, out);
    }

    /// Handles a pulled file that arrived on `MOI/fetch/{seq}/{addr}/{name}`
    /// (`parms` is what follows `MOI/fetch/`): the local path it is to be
    /// written to, with `%a`, `%n` and `%t` replaced; `id` becomes the
    /// sender's address.
    pub fn handle_fetch(&self, parms: &str, id: &mut String, now_secs: i64) -> (r: Result<String, String>)
        ensures
            fetch_parts(parms@).len() >= 2 ==> final(id)@ == fetch_parts(parms@)[1],
            r is Ok <==> fetch_result(self.query@, self.seq as int, parms@, now_secs as int) is Some,
            r matches Ok(d) ==> fetch_result(self.query@, self.seq as int, parms@, now_secs as int) == Some(d@),
    {
        let pc = crate::text::chars_of(parms);
        let parts = crate::store::split_char_exec(pc.as_slice(), '/');
        if parts.len() < 3 {
            if parts.len() == 2 {
                *id = crate::text::string_of(parts[1].as_slice());
            }
            return Err(lit("bad fetch topic"));
        }
        let seq_text = crate::text::string_of(parts[0].as_slice());
        let addr = crate::text::string_of(parts[1].as_slice());
        let name = crate::text::string_of(parts[2].as_slice());
        *id = addr.clone();
        let expected = crate::value::int_to_text(self.seq as i64);
        let seq_ok = eq_str(expected.as_str(), seq_text.as_str());
        if !seq_ok {
            return Err(lit("fetched file is not for this stage"));
        }
        if (self.seq as usize) < self.query.len() {
            match &self.query[self.seq as usize] {
                Query::Fetch(ff) => {
                    match crate::strutil::replace_percent_destination(
                        ff.local_dest.as_str(),
                        addr.as_str(),
                        name.as_str(),
                        now_secs,
                    ) {
                        Ok(dest) => Ok(dest),
                        Err(_) => Err(lit("local dest substitution failed")),
                    }
                },
                _ => Err(lit("MOI/fetch came in but not Fetch query!")),
            }
        } else {
            Err(lit("no such stage"))
        }
    }

    /// Ends the current stage: a retained file topic is cleared, then the
    /// next stage is sent (a `wait` stage gets the long timeout), or the
    /// run ends after the last. True when the run is over.
    pub fn stage_done(&mut self, out: &mut Vec<Effect>) -> (r: bool)
        requires
            old(self).wf(),
            (old(self).seq as int) < old(self).query@.len(),
            old(self).query@.len() <= 256,
            forall|i: int| 0 <= i < old(self).query@.len() ==> sendable(#[trigger] old(self).query@[i]),
        ensures
            final(self).wf(),
            final(self).sent_file is None,
            !final(self).finis,
            r == (old(self).seq as int == old(self).query@.len() - 1),
            r ==> final(self).seq == old(self).seq && final(out)@.last() is Disconnect,
            final(out)@.len() >= old(out)@.len(),
            final(out)@.subrange(0, old(out)@.len() as int) == old(out)@,
            old(self).sent_file matches Some(t) ==> final(out)@.len() > old(out)@.len() && final(out)@[old(
                out,
            )@.len() as int] == (Effect::ClearRetained { topic: t }),
            old(self).sent_file is None ==> (r ==> final(out)@ == old(out)@.push(Effect::Disconnect)),
            !r && old(self).query@[old(self).seq + 1] is Wait ==> final(out)@.contains(
                Effect::SetTimeout(LAUNCH_TIMEOUT),
            ),
            !r && !(query_json(old(self).query@[old(self).seq + 1]) is Null) ==> final(out)@.last() is Publish
                && final(out)@.last()->Publish_topic@ == old(self).query_topic@ && !final(out)@.last()->Publish_retain
                && final(out)@.last()->Publish_payload@ == envelope(
                old(self).seq + 1,
                old(self).filter@,
                query_json(old(self).query@[old(self).seq + 1]),
                old(self).maybe_group,
            ),
            !r ==> final(self).seq == old(self).seq + 1 && final(self).responses@.len() == 0,
            final(self).query == old(self).query,
            final(self).query_topic == old(self).query_topic,
            final(self).group == old(self).group,
            final(self).maybe_group == old(self).maybe_group,
    {
        let ghost start = out@;
        match &self.sent_file {
            Some(t) => {
                out.push(Effect::ClearRetained { topic: t.clone() });
            },
            None => {},
        }
        let ghost cleared = out@;
        self.sent_file = None;
        self.finis = false;
        if self.seq as usize == self.query.len() - 1 {
            out.push(Effect::Disconnect);
            assert(out@.subrange(0, start.len() as int) =~= start);
            proof {
                if old(self).sent_file is Some {
                    assert(out@[start.len() as int] == cleared[start.len() as int]);
                }
            }
            true
        } else {
            self.seq = self.seq + 1;
            if self.query[self.seq as usize].is_wait() {
                out.push(Effect::SetTimeout(LAUNCH_TIMEOUT));
                assert(out@[out@.len() - 1] == Effect::SetTimeout(LAUNCH_TIMEOUT));
            }
            let ghost before_send = out@;
            self.send_query(out);
            assert(out@.subrange(0, start.len() as int) =~= before_send.subrange(0, start.len() as int));
            assert(before_send.subrange(0, start.len() as int) =~= start);
            proof {
                if old(self).query@[old(self).seq + 1] is Wait {
                    assert(out@[before_send.len() - 1] == before_send[before_send.len() - 1]);
                    assert(out@.contains(Effect::SetTimeout(LAUNCH_TIMEOUT)));
                }
                if old(self).sent_file is Some {
                    assert(out@[start.len() as int] == cleared[start.len() as int]);
                }
            }
            false
        }
    }
}

/// Whether a stage is a `time`.
pub open spec fn is_time(q: Query) -> bool {
    match q {
        Query::Get(_, c) => c@ == "time"@,
        _ => false,
    }
}

/// Whether a stage is an `ls`.
pub open spec fn is_ls(q: Query) -> bool {
    match q {
        Query::Get(_, c) => c@ == "ls"@,
        _ => false,
    }
}

/// Whether every response was a success.
pub open spec fn all_ok(responses: Seq<(String, bool)>) -> bool {
    forall|i: int| 0 <= i < responses.len() ==> #[trigger] responses[i].1
}

/// Whether every member of the group responded.
pub open spec fn all_responded(group: Seq<(String, String)>, responses: Seq<(String, bool)>) -> bool {
    forall|i: int| 0 <= i < group.len() ==> keys_of(responses).contains(#[trigger] group[i].0@)
}

/// The name of a `group` stage.
pub open spec fn group_name(q: Query) -> Seq<char> {
    match q {
        Query::Group(n, _) => n@,
        _ => Seq::empty(),
    }
}

impl MessageData {
    /// The outcome of the run. For a `group` stage, the collected members
    /// are stored under `groups.NAME` in the controller's store. With a
    /// known group, every response must be a success and every member must
    /// have responded; otherwise every response must be a success.
    pub fn finish_off(&mut self, store: &mut Config, out: &mut Vec<Effect>) -> (r: bool)
        requires
            (old(self).seq as int) < old(self).query@.len(),
        ensures
            (old(self).query@[old(self).seq as int] is Group) ==> r && final(store)@ == old(store)@.insert(
                "groups"@,
                JVal::Object(
                    without_key(groups_of(old(store)@), group_name(old(self).query@[old(self).seq as int])).push(
                        (group_name(old(self).query@[old(self).seq as int]), table_json(old(self).group@)),
                    ),
                ),
            ),
            !(old(self).query@[old(self).seq as int] is Group) ==> final(store)@ == old(store)@,
            !(old(self).query@[old(self).seq as int] is Group) && old(self).maybe_group is Some ==> r == (all_ok(
                old(self).responses@,
            ) && all_responded(old(self).group@, old(self).responses@)),
            !(old(self).query@[old(self).seq as int] is Group) && old(self).maybe_group is None ==> r == all_ok(
                old(self).responses@,
            ),
    {
        if self.no_groups {
            out.push(Effect::Warn(lit("all group not defined yet: say 'moi group all'")));
        }
        let seq = self.seq as usize;
        if let Query::Group(name, _) = &self.query[seq] {
            let mut i: usize = 0;
            while i < self.group.len()
                decreases self.group@.len() - i,
            {
                let k = self.group[i].0.clone();
                let v = self.group[i].1.clone();
                if !self.flags.json {
                    let mut parts: Vec<String> = Vec::new();
                    parts.push(k);
                    parts.push(v);
                    out.push(Effect::Print(tab_line(&parts)));
                } else {
                    let mut vals: Vec<Value> = Vec::new();
                    vals.push(Value::Str(name.clone()));
                    let mut cols: Vec<String> = Vec::new();
                    cols.push(lit("group"));
                    out.push(Effect::Print(json_out("group", true, k.as_str(), v.as_str(), &vals, &cols)));
                }
                i += 1;
            }
            let jg = table_value(&self.group);
            let ghost old_groups = groups_of(store@);
            let mut groups: Vec<(String, Value)> = Vec::new();
            match store.lookup_key("groups") {
                Some(Value::Object(es)) => {
                    let ghost ev = crate::value::entries_view(es@);
                    assert(store@["groups"@]->Object_0 =~= ev);
                    let mut j: usize = 0;
                    while j < es.len()
                        invariant
                            ev == crate::value::entries_view(es@),
                            j <= es@.len(),
                            crate::value::entries_view(groups@) == without_key(ev.subrange(0, j as int), name@),
                        decreases es@.len() - j,
                    {
                        assert(ev.subrange(0, j + 1).drop_last() =~= ev.subrange(0, j as int));
                        if !eq_str(es[j].0.as_str(), name.as_str()) {
                            let ghost before = crate::value::entries_view(groups@);
                            groups.push((es[j].0.clone(), es[j].1.copy()));
                            assert(crate::value::entries_view(groups@) =~= before.push(ev[j as int]));
                        }
                        j += 1;
                    }
                    assert(ev.subrange(0, es@.len() as int) =~= ev);
                },
                _ => {
                    assert(crate::value::entries_view(groups@) =~= without_key(old_groups, name@));
                },
            }
            let ghost before = crate::value::entries_view(groups@);
            groups.push((name.clone(), jg));
            assert(crate::value::entries_view(groups@) =~= before.push((name@, table_json(self.group@))));
            store.insert_into("groups", make_object(groups));
            return true;
        }
        let mut ok = true;
        let mut i: usize = 0;
        while i < self.responses.len()
            invariant
                i <= self.responses@.len(),
                ok == forall|j: int| 0 <= j < i ==> #[trigger] self.responses@[j].1,
            decreases self.responses@.len() - i,
        {
            if self.maybe_group.is_some() && table_index(&self.group, self.responses[i].0.as_str()).is_none() {
                let mut line = lit("note: id ");
                push_str(&mut line, self.responses[i].0.as_str());
                push_str(&mut line, " not in group");
                out.push(Effect::Print(line));
            }
            if !self.responses[i].1 {
                ok = false;
            }
            i += 1;
        }
        if self.maybe_group.is_some() {
            let mut every = true;
            let mut j: usize = 0;
            while j < self.group.len()
                invariant
                    j <= self.group@.len(),
                    every == forall|k: int| 0 <= k < j ==> keys_of(self.responses@).contains(#[trigger] self.group@[k].0@),
                decreases self.group@.len() - j,
            {
                let found = table_index(&self.responses, self.group[j].0.as_str());
                if found.is_none() {
                    let mut line = lit("error: ");
                    push_str(&mut line, self.group[j].0.as_str());
                    push_char(&mut line, ' ');
                    push_str(&mut line, self.group[j].1.as_str());
                    push_str(&mut line, " failed to respond");
                    out.push(Effect::Error(line));
                    if self.flags.json {
                        let cmd = self.current_command_name();
                        let mut vals: Vec<Value> = Vec::new();
                        vals.push(Value::Str(lit("failed to respond")));
                        let mut cols: Vec<String> = Vec::new();
                        cols.push(lit("error"));
                        out.push(Effect::Print(json_out(cmd.as_str(), false, self.group[j].0.as_str(), self.group[j].1.as_str(), &vals, &cols)));
                    }
                    every = false;
                } else {
                    let ghost f = found->0 as int;
                    assert(keys_of(self.responses@)[f] == self.group@[j as int].0@);
                }
                j += 1;
            }
            ok && every
        } else {
            ok
        }
    }
}

/// The filter of a run over group `g`: members of the group whose last
/// command succeeded, and the user's own filter if there is one.
pub open spec fn group_filter(g: Seq<char>, f: Seq<char>) -> Seq<char> {
    "all groups:"@ + g + " rc=0 "@ + (if f == "none"@ {
        Seq::empty()
    } else {
        f
    })
}

/// The address a filter `addr=X` names.
pub open spec fn addr_target(c: crate::condition::Cond) -> Option<Seq<char>> {
    match c {
        crate::condition::Cond::Equals(k, x) => if k == "addr"@ {
            Some(x)
        } else {
            None
        },
        _ => None,
    }
}

/// Whether a filter names one device, by address or by name.
pub open spec fn single_target(c: crate::condition::Cond) -> bool {
    match c {
        crate::condition::Cond::Equals(k, x) => k == "addr"@ || k == "name"@,
        _ => false,
    }
}

/// The address that the `all` group gives a name it holds once.
pub open spec fn unique_addr(all: Option<Vec<(String, String)>>, name: Seq<char>) -> Seq<char> {
    match all {
        Some(t) => t@[choose|i: int| 0 <= i < t@.len() && (#[trigger] t@[i]).1@ == name].0@,
        None => Seq::empty(),
    }
}

/// The filter after `--name`: an address, or a name the `all` group holds
/// once, becomes `addr=...`; otherwise the filter stays.
pub open spec fn resolved_filter(f: Flags, all: Option<Vec<(String, String)>>) -> Seq<char> {
    let n = f.name_or_group@;
    if n == "none"@ {
        f.filter_desc@
    } else if crate::strutil::is_ipv4_spec(n) {
        "addr="@ + n
    } else if unique_name(all, n) {
        "addr="@ + unique_addr(all, n)
    } else {
        f.filter_desc@
    }
}

/// The group after `--name`: a name that is neither an address nor the
/// name of one device names a group.
pub open spec fn resolved_group(f: Flags, all: Option<Vec<(String, String)>>) -> Seq<char> {
    let n = f.name_or_group@;
    if n != "none"@ && !crate::strutil::is_ipv4_spec(n) && !unique_name(all, n) {
        n
    } else {
        f.group_name@
    }
}

/// A device's response `{id, seq, ok}` or `{id, seq, error}`: the sender,
/// whether it succeeded, its result or error, and its sequence number.
pub fn parse_response(j: &Value) -> (r: (String, bool, Value, Option<u8>))
    ensures
        r.0@ == text_of(crate::store::field_of(j@, "id"@)),
        r.1 == (crate::store::field_of(j@, "error"@) is Null),
        r.1 ==> r.2@ == crate::store::field_of(j@, "ok"@),
        !r.1 ==> r.2@ == crate::store::field_of(j@, "error"@),
        r.3 == (match crate::store::field_of(j@, "seq"@) {
            JVal::Int(n) => if 0 <= n <= 255 {
                Some(n as u8)
            } else {
                None
            },
            _ => None,
        }),
{
    let seq = match crate::store::field_of_value(j, "seq") {
        Value::Int(n) => if 0 <= n && n <= 255 {
            Some(n as u8)
        } else {
            None
        },
        _ => None,
    };
    let id = crate::store::field_of_value(j, "id").text();
    let err = crate::store::field_of_value(j, "error");
    match err {
        Value::Null => (id, true, crate::store::field_of_value(j, "ok"), seq),
        _ => (id, false, err, seq),
    }
}

impl MessageData {
    /// Works out the filter from `--name` and `--group`: a name that is
    /// an address, or the name of one device, becomes `addr=...`;
    /// otherwise it names a group. A run over a group is checked against
    /// its saved members and filtered on `rc=0`.
    pub fn process_flags(&mut self, store: &Config) -> (r: Result<(), String>)
        requires
            old(self).wf(),
        ensures
            final(self).wf(),
            final(self).seq == old(self).seq,
            final(self).query == old(self).query,
            final(self).query_topic == old(self).query_topic,
            r is Ok <==> (resolved_group(old(self).flags, old(self).all_group) == "none"@ || group_saved(
                store@,
                resolved_group(old(self).flags, old(self).all_group),
            )),
            r is Ok ==> final(self).flags.group_name@ == resolved_group(old(self).flags, old(self).all_group),
            r is Ok && resolved_group(old(self).flags, old(self).all_group) == "none"@
                ==> final(self).flags.filter_desc@ == resolved_filter(old(self).flags, old(self).all_group)
                && final(self).group == old(self).group && final(self).maybe_group == old(self).maybe_group,
            r is Ok && resolved_group(old(self).flags, old(self).all_group) != "none"@
                ==> final(self).flags.filter_desc@ == group_filter(
                resolved_group(old(self).flags, old(self).all_group),
                resolved_filter(old(self).flags, old(self).all_group),
            ) && table_view(final(self).group@) == saved_members(
                store@,
                resolved_group(old(self).flags, old(self).all_group),
            ) && (final(self).maybe_group matches Some(g) && g@ == resolved_group(
                old(self).flags,
                old(self).all_group,
            )),
    {
        if !eq_str(self.flags.name_or_group.as_str(), "none") {
            if crate::strutil::is_ipv4(self.flags.name_or_group.as_str()) {
                let mut f = lit("addr=");
                push_str(&mut f, self.flags.name_or_group.as_str());
                self.flags.filter_desc = f;
            } else {
                match self.lookup_addr(self.flags.name_or_group.as_str()) {
                    Ok(addr) => {
                        proof {
                            let t = self.all_group->0;
                            let n = self.flags.name_or_group@;
                            let i = choose|i: int| 0 <= i < t@.len() && t@[i].1@ == n && t@[i].0@ == addr@ && forall|j: int|
                                0 <= j < t@.len() && j != i ==> t@[j].1@ != n;
                            assert(0 <= i < t@.len() && (#[trigger] t@[i]).1@ == n);
                            let k = choose|k: int| 0 <= k < t@.len() && (#[trigger] t@[k]).1@ == n;
                            assert(k == i);
                            assert(unique_addr(self.all_group, n) == addr@);
                        }
                        let mut f = lit("addr=");
                        push_str(&mut f, addr.as_str());
                        self.flags.filter_desc = f;
                    },
                    Err(_) => {
                        self.flags.group_name = self.flags.name_or_group.clone();
                    },
                }
            }
        }
        if !eq_str(self.flags.group_name.as_str(), "none") {
            let members = match lookup_group(store, self.flags.group_name.as_str()) {
                Ok(m) => m,
                Err(e) => return Err(e),
            };
            let mut f = lit("all groups:");
            push_str(&mut f, self.flags.group_name.as_str());
            push_str(&mut f, " rc=0 ");
            if !eq_str(self.flags.filter_desc.as_str(), "none") {
                push_str(&mut f, self.flags.filter_desc.as_str());
            }
            self.flags.filter_desc = f;
            let g = self.flags.group_name.clone();
            self.set_group(g.as_str(), members);
        }
        Ok(())
    }

    /// Sets the run's filter from its description. A filter that names one
    /// device (`addr=X` or `name=X`) makes a group of one, and the queries
    /// go to that device's own topic `MOI/query/X`.
    pub fn set_filter(&mut self) -> (r: Result<(), String>)
        requires
            old(self).wf(),
        ensures
            final(self).wf(),
            final(self).filter@ == crate::condition::parse_spec(old(self).flags.filter_desc@),
            final(self).seq == old(self).seq,
            final(self).query == old(self).query,
            addr_target(crate::condition::parse_spec(old(self).flags.filter_desc@)) matches Some(x) ==> r is Ok
                && final(self).query_topic@ == narrowcast_topic(x),
            !single_target(crate::condition::parse_spec(old(self).flags.filter_desc@)) ==> final(self).query_topic
                == old(self).query_topic,
    {
        let filter = Condition::from_description(self.flags.filter_desc.as_str());
        match filter.unique_id() {
            Some((id, was_addr)) => {
                match self.set_single_id(id.as_str(), was_addr) {
                    Ok(()) => {},
                    Err(e) => {
                        self.filter = filter;
                        return Err(e);
                    },
                }
            },
            None => {},
        }
        self.filter = filter;
        Ok(())
    }
}

/// A message that reaches the controller, already parsed where it is JSON.
pub enum Incoming {
    /// On `MOI/result/query`.
    QueryResult(Value),
    /// On `MOI/result/file`.
    FileResult(Value),
    /// On `MOI/result/process`.
    ProcessResult(Value),
    /// On `MOI/fetch/...`: the part of the topic after `MOI/fetch/`.
    Fetched(String),
    /// On `MOI/result/group`: the sender's address.
    GroupResult(String),
    /// The watchdog's message: nothing arrived for a while.
    Timeout,
}

/// What the surroundings must do after a message, besides the effects.
pub struct Reaction {
    /// Where to write the bytes of a pulled file.
    pub write_to: Option<String>,
    /// Whether the stage ended.
    pub stage_ended: bool,
    /// Whether the run is over.
    pub over: bool,
}

impl MessageData {
    /// Handles one message. The stage ends when the watchdog fires or,
    /// with a known group, when every member has responded; then the next
    /// stage is sent, or the run ends.
    pub fn handle_message(&mut self, msg: Incoming, now_secs: i64, now_ms: u64, out: &mut Vec<Effect>) -> (r: Reaction)
        requires
            old(self).wf(),
            (old(self).seq as int) < old(self).query@.len(),
            old(self).query@.len() <= 256,
            forall|i: int| 0 <= i < old(self).query@.len() ==> sendable(#[trigger] old(self).query@[i]),
        ensures
            final(self).wf(),
            (final(self).seq as int) < final(self).query@.len(),
            final(self).query == old(self).query,
            msg is Timeout ==> r.stage_ended,
            r.over ==> r.stage_ended && old(self).seq as int == old(self).query@.len() - 1,
            r.stage_ended && !r.over ==> final(self).seq == old(self).seq + 1,
            !r.stage_ended ==> final(self).seq == old(self).seq,
            r.stage_ended ==> !final(self).finis && final(self).sent_file is None,
            !r.stage_ended ==> !final(self).finis,
            r.stage_ended && old(self).sent_file is Some ==> final(out)@.contains(
                (Effect::ClearRetained { topic: old(self).sent_file->0 }),
            ),
            r.over ==> final(out)@.last() is Disconnect,
    {
        let mut write_to: Option<String> = None;
        let timeout = match &msg {
            Incoming::Timeout => true,
            _ => false,
        };
        match msg {
            Incoming::QueryResult(j) => {
                let (id, success, resp, seq) = parse_response(&j);
                if !success {
                    let name = self.lookup_name(id.as_str());
                    let mut line = id.clone();
                    push_char(&mut line, '\t');
                    push_str(&mut line, name.as_str());
                    push_char(&mut line, '\t');
                    let t = resp.text();
                    push_str(&mut line, t.as_str());
                    out.push(Effect::Error(line));
                    if self.flags.json {
                        let cmd = self.current_command_name();
                        let mut vals: Vec<Value> = Vec::new();
                        vals.push(resp);
                        let mut cols: Vec<String> = Vec::new();
                        cols.push(lit("error"));
                        out.push(Effect::Print(json_out(cmd.as_str(), false, id.as_str(), name.as_str(), &vals, &cols)));
                    }
                    self.response(id, false, true, out);
                } else if seq != Some(self.seq) {
                    let mut line = lit("late arrival ");
                    push_str(&mut line, id.as_str());
                    out.push(Effect::Error(line));
                } else {
                    self.handle_response(id, resp, now_secs, now_ms, out);
                }
            },
            Incoming::FileResult(j) => {
                let (id, ok, _, _) = parse_response(&j);
                if self.flags.json && ok {
                    let name = self.lookup_name(id.as_str());
                    let mut vals: Vec<Value> = Vec::new();
                    if (self.seq as usize) < self.commands.len() && self.commands[self.seq as usize].arguments.len() > 0 {
                        vals.push(Value::Str(self.commands[self.seq as usize].arguments[0].clone()));
                    }
                    let mut cols: Vec<String> = Vec::new();
                    cols.push(lit("file"));
                    out.push(Effect::Print(json_out("push", true, id.as_str(), name.as_str(), &vals, &cols)));
                }
                self.response(id, ok, false, out);
            },
            Incoming::ProcessResult(j) => {
                let (id, ok, resp, _) = parse_response(&j);
                if ok {
                    let good = self.handle_run_launch(id.as_str(), &resp, out);
                    self.response(id, good, true, out);
                } else {
                    self.response(id, false, false, out);
                }
            },
            Incoming::Fetched(parms) => {
                let mut id = String::new();
                match self.handle_fetch(parms.as_str(), &mut id, now_secs) {
                    Ok(dest) => {
                        write_to = Some(dest);
                    },
                    Err(e) => {
                        let mut line = lit("pull error ");
                        push_str(&mut line, id.as_str());
                        push_char(&mut line, ' ');
                        push_str(&mut line, e.as_str());
                        out.push(Effect::Error(line));
                    },
                }
                self.response(id, true, false, out);
            },
            Incoming::GroupResult(id) => {
                self.response(id, true, false, out);
            },
            Incoming::Timeout => {},
        }
        if self.finis || timeout {
            let ghost before = out@;
            assert(old(self).sent_file is Some ==> self.sent_file == old(self).sent_file);
            let over = self.stage_done(out);
            proof {
                if old(self).sent_file is Some {
                    assert(out@[before.len() as int] == (Effect::ClearRetained { topic: old(self).sent_file->0 }));
                }
            }
            Reaction { write_to, stage_ended: true, over }
        } else {
            Reaction { write_to, stage_ended: false, over: false }
        }
    }
}

/// A filter `addr=X` parses as equality on `addr`: the run treats X as its
/// single target, and (by `set_filter` and `send_query`) publishes its
/// queries on `MOI/query/X` only.
pub proof fn lemma_addr_filter(x: Seq<char>)
    requires
        !(x.len() > 0 && x.last() == '#'),
    ensures
        crate::condition::parse_spec("addr="@ + x) == crate::condition::Cond::Equals("addr"@, x),
        addr_target(crate::condition::parse_spec("addr="@ + x)) == Some(x),
{
    reveal_strlit("addr=");
    reveal_strlit("addr");
    reveal_strlit("any ");
    reveal_strlit("all ");
    reveal_strlit("none");
    reveal_strlit("=");
    let k = seq!['a', 'd', 'd', 'r'];
    assert("addr="@ =~= k.push('='));
    assert("addr"@ =~= k);
    assert("="@ =~= seq!['=']);
    let t = "addr="@ + x;
    assert(t =~= k.push('=') + x);
    assert(t[1] == 'd');
    assert(!crate::text::starts_with_spec(t, "any "@)) by {
        assert("any "@[1] == 'n');
        if crate::text::starts_with_spec(t, "any "@) {
            assert(t.subrange(0, 4)[1] == t[1]);
        }
    }
    assert(!crate::text::starts_with_spec(t, "all "@)) by {
        assert("all "@[1] == 'l');
        if crate::text::starts_with_spec(t, "all "@) {
            assert(t.subrange(0, 4)[1] == t[1]);
        }
    }
    assert(t != "none"@) by {
        assert("none"@.len() == 4);
    }
    crate::text::lemma_find_char_after(k, '=', x);
    assert(t.subrange(0, 4) =~= k);
    assert(t.subrange(5, t.len() as int) =~= x);
}

/// The words of `x`, a run of non-blank characters, then a blank, then `y`.
pub proof fn lemma_words_word(x: Seq<char>, y: Seq<char>, cur: Seq<char>)
    requires
        forall|j: int| 0 <= j < x.len() ==> !crate::strutil::is_ws(#[trigger] x[j]),
        (cur + x).len() > 0,
    ensures
        crate::strutil::words_from(x + seq![' '] + y, cur) == seq![cur + x] + crate::strutil::words_from(
            y,
            Seq::empty(),
        ),
    decreases x.len(),
{
    let s = x + seq![' '] + y;
    if x.len() == 0 {
        assert(s[0] == ' ');
        assert(s.drop_first() =~= y);
        assert(cur + x =~= cur);
    } else {
        assert(s[0] == x[0]);
        assert(s.drop_first() =~= x.drop_first() + seq![' '] + y);
        assert forall|j: int| 0 <= j < x.drop_first().len() implies !crate::strutil::is_ws(
            #[trigger] x.drop_first()[j],
        ) by {
            assert(x.drop_first()[j] == x[j + 1]);
        }
        lemma_words_word(x.drop_first(), y, cur.push(x[0]));
        assert(cur.push(x[0]) + x.drop_first() =~= cur + x);
    }
}

/// A key without dots is a path of one part.
pub proof fn lemma_split_no_dots(k: Seq<char>)
    requires
        forall|j: int| 0 <= j < k.len() ==> k[j] != '.',
    ensures
        crate::store::split_char(k, '.') == seq![k],
    decreases k.len(),
{
    if k.len() > 0 {
        assert forall|j: int| 0 <= j < k.drop_last().len() implies k.drop_last()[j] != '.' by {
            assert(k.drop_last()[j] == k[j]);
        }
        lemma_split_no_dots(k.drop_last());
        assert(k.drop_last().push(k.last()) =~= k);
    } else {
        assert(k =~= Seq::<char>::empty());
    }
}

/// Only zero is written `0`.
pub proof fn lemma_int_text_zero(c: int)
    requires
        c != 0,
    ensures
        crate::value::int_text(c) != seq!['0'],
{
    if c < 0 {
        assert(crate::value::int_text(c)[0] == '-');
        assert(seq!['0'][0] == '0');
    } else if c < 10 {
        assert(crate::value::nat_text(c as nat) == seq![crate::value::digit_char(c)]);
        assert(crate::value::digit_char(c) != '0');
        assert(crate::value::int_text(c)[0] != seq!['0'][0]);
    } else {
        let n = c as nat;
        assert(crate::value::nat_text(n).len() == crate::value::nat_text(n / 10).len() + 1);
        lemma_nat_text_nonempty(n / 10);
    }
}

proof fn lemma_nat_text_nonempty(n: nat)
    ensures
        crate::value::nat_text(n).len() >= 1,
    decreases n,
{
    if n >= 10 {
        lemma_nat_text_nonempty(n / 10);
    }
}

/// Every member of a list that holds, holds on its own.
pub proof fn lemma_all_hold(cs: Seq<crate::condition::Cond>, m: Map<Seq<char>, JVal>, i: int)
    requires
        crate::condition::all_hold(cs, m),
        0 <= i < cs.len(),
    ensures
        crate::condition::matches_spec(cs[i], m),
    decreases cs.len(),
{
    if i < cs.len() - 1 {
        assert(cs.drop_last()[i] == cs[i]);
        lemma_all_hold(cs.drop_last(), m, i);
    }
}

/// The token `rc=0` is the test that `rc` equals `0`.
pub proof fn lemma_rc0_token()
    ensures
        crate::condition::parse_prim(seq!['r', 'c', '=', '0']) == crate::condition::Cond::Equals(
            seq!['r', 'c'],
            seq!['0'],
        ),
{
    reveal_strlit("none");
    reveal_strlit("=");
    let rc0 = seq!['r', 'c', '=', '0'];
    assert(rc0 != "none"@) by {
        assert("none"@[0] == 'n');
    }
    assert("="@ =~= seq!['=']);
    crate::text::lemma_find_char_after(seq!['r', 'c'], '=', seq!['0']);
    assert(seq!['r', 'c'].push('=') + seq!['0'] =~= rc0);
    assert(rc0.subrange(0, 2) =~= seq!['r', 'c']);
    assert(rc0.subrange(3, 4) =~= seq!['0']);
}

/// The group filter is a conjunction whose second member is `rc=0`.
#[verifier::rlimit(50)]
pub proof fn lemma_group_filter_parse(g: Seq<char>, f: Seq<char>)
    requires
        forall|j: int| 0 <= j < g.len() ==> !crate::strutil::is_ws(#[trigger] g[j]),
    ensures
        crate::condition::parse_spec(group_filter(g, f)) is All,
        crate::condition::parse_spec(group_filter(g, f))->All_0.len() >= 2,
        crate::condition::parse_spec(group_filter(g, f))->All_0[1] == crate::condition::Cond::Equals(
            seq!['r', 'c'],
            seq!['0'],
        ),
{
    reveal_strlit("all groups:");
    reveal_strlit(" rc=0 ");
    reveal_strlit("any ");
    reveal_strlit("all ");
    reveal_strlit("none");
    let head = seq!['g', 'r', 'o', 'u', 'p', 's', ':'];
    let rc0 = seq!['r', 'c', '=', '0'];
    assert("all groups:"@ =~= seq!['a', 'l', 'l', ' '] + head);
    assert(" rc=0 "@ =~= seq![' '] + rc0 + seq![' ']);
    let ff = if f == "none"@ { Seq::<char>::empty() } else { f };
    let t = group_filter(g, f);
    assert(t =~= seq!['a', 'l', 'l', ' '] + (head + g) + seq![' '] + (rc0 + seq![' '] + ff));
    assert(crate::text::starts_with_spec(t, "all "@)) by {
        assert(t.subrange(0, 4) =~= "all "@);
    }
    assert(!crate::text::starts_with_spec(t, "any "@)) by {
        assert("any "@[1] == 'n');
        assert(t[1] == 'l');
        if crate::text::starts_with_spec(t, "any "@) {
            assert(t.subrange(0, 4)[1] == t[1]);
        }
    }
    let rest = t.subrange(4, t.len() as int);
    assert(rest =~= (head + g) + seq![' '] + (rc0 + seq![' '] + ff));
    assert forall|j: int| 0 <= j < (head + g).len() implies !crate::strutil::is_ws(#[trigger] (head + g)[j]) by {
        if j >= head.len() {
            assert((head + g)[j] == g[j - head.len()]);
        }
    }
    lemma_words_word(head + g, rc0 + seq![' '] + ff, Seq::empty());
    lemma_words_word(rc0, ff, Seq::empty());
    let toks = crate::strutil::words(rest);
    assert(Seq::<char>::empty() + (head + g) =~= head + g);
    assert(Seq::<char>::empty() + rc0 =~= rc0);
    assert(toks == seq![head + g] + (seq![rc0] + crate::strutil::words_from(ff, Seq::empty())));
    assert(toks[1] == rc0);
    lemma_rc0_token();
}

/// In a later stage over a group, an agent whose last command failed
/// (its `rc` holds a code other than 0) is not selected: the group filter
/// holds `rc=0`.
pub proof fn lemma_rc_gate(g: Seq<char>, f: Seq<char>, m: Map<Seq<char>, JVal>, code: int)
    requires
        forall|j: int| 0 <= j < g.len() ==> !crate::strutil::is_ws(#[trigger] g[j]),
        m.contains_key("rc"@),
        m["rc"@] == JVal::Int(code),
        code != 0,
    ensures
        !crate::condition::matches_spec(crate::condition::parse_spec(group_filter(g, f)), m),
{
    reveal_strlit("rc");
    lemma_group_filter_parse(g, f);
    let c = crate::condition::parse_spec(group_filter(g, f));
    let cs = c->All_0;
    assert("rc"@ =~= seq!['r', 'c']);
    lemma_split_no_dots(seq!['r', 'c']);
    assert(crate::store::get_spec(m, seq!['r', 'c']) == Some(JVal::Int(code)));
    lemma_int_text_zero(code);
    if crate::condition::matches_spec(c, m) {
        lemma_all_hold(cs, m, 1);
    }
}

} // verus!
