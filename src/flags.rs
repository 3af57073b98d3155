//! The controller's options, and how a command line becomes queries.
use vstd::prelude::*;
use crate::condition::{KeyValue, valid_key_spec};
use crate::query::{CopyFile, FetchFile, Query, RunCommand, StringMap, is_group_query, with_front};
use crate::strutil::{split_at_delim, split_at_delim_spec, strings_view};
use crate::text::{eq_str, lit, push_str};

verus! {

broadcast use vstd::std_specs::vec::group_vec_axioms;

/// One command of the command line, with its arguments.
pub struct CommandArgs {
    pub command: String,
    pub arguments: Vec<String>,
}

/// The controller's options.
pub struct Flags {
    pub filter_desc: String,
    pub group_name: String,
    pub name_or_group: String,
    pub config_file: String,
    pub moi_dir: String,
    pub json_store: String,
    pub timeout: i32,
    pub verbose: bool,
    pub quiet: bool,
    pub su: bool,
    pub sharing_with_su: bool,
    pub json: bool,
    pub use_colour: bool,
    pub cols: Vec<String>,
}

/// A user-defined command: either an `alias` (a new command line) or a
/// `command` with `args`, optionally overriding the filter and group; with
/// stages, one definition per stage.
pub struct AliasDef {
    pub alias: Option<String>,
    pub command: Option<String>,
    pub args: Option<Vec<String>>,
    pub filter: Option<String>,
    pub group: Option<String>,
    pub quiet: bool,
    pub help: Option<String>,
    pub stages: Vec<AliasDef>,
}

/// Where a user-defined command was found.
pub enum AliasSource {
    /// `./NAME.toml`.
    Local,
    /// The user's (or the system's) command directory.
    User,
    /// The `commands` table of the configuration.
    Inline,
}

pub struct AliasEntry {
    pub name: String,
    pub source: AliasSource,
    pub def: AliasDef,
}

/// Whether a command may run in restricted mode.
pub open spec fn read_only_command(cmd: Seq<char>) -> bool {
    cmd == "ls"@ || cmd == "time"@ || cmd == "ping"@
}

/// The key and value of a `key=value` argument whose key a user may write.
pub open spec fn key_value_arg(a: Seq<char>) -> Option<(Seq<char>, Seq<char>)> {
    match split_at_delim_spec(a, "="@) {
        Some(p) => if valid_key_spec(p.0) {
            Some(p)
        } else {
            None
        },
        None => None,
    }
}

/// Whether an entry comes from one of the first `n` arguments.
pub open spec fn from_args(args: Seq<String>, n: int, e: (String, String)) -> bool {
    exists|i: int| 0 <= i < n && #[trigger] key_value_arg(args[i]@) == Some((e.0@, e.1@))
}

/// The key of a `key=value` argument.
pub open spec fn arg_key(a: Seq<char>) -> Seq<char> {
    match key_value_arg(a) {
        Some(p) => p.0,
        None => Seq::empty(),
    }
}

/// The device named in `target:path`.
pub open spec fn target_of(spec: Seq<char>) -> Seq<char> {
    match split_at_delim_spec(spec, ":"@) {
        Some(p) => p.0,
        None => Seq::empty(),
    }
}

/// The path in `target:path`.
pub open spec fn dest_of(spec: Seq<char>) -> Seq<char> {
    match split_at_delim_spec(spec, ":"@) {
        Some(p) => p.1,
        None => spec,
    }
}

pub open spec fn table_keys(t: Seq<(String, String)>) -> Seq<Seq<char>> {
    Seq::new(t.len(), |i: int| t[i].0@)
}


/// Whether an entry comes from one of the `key=value` texts.
pub open spec fn from_args_v(av: Seq<Seq<char>>, e: (String, String)) -> bool {
    exists|i: int| 0 <= i < av.len() && #[trigger] key_value_arg(av[i]) == Some((e.0@, e.1@))
}

/// Every text is `key=value` with a key a user may write.
pub open spec fn kv_ok(av: Seq<Seq<char>>) -> bool {
    forall|i: int| 0 <= i < av.len() ==> key_value_arg(#[trigger] av[i]) is Some
}

/// The table of `key=value` texts: keys once each, every key there, every
/// entry from one of the texts.
pub open spec fn kv_table(m: Seq<(String, String)>, av: Seq<Seq<char>>) -> bool {
    table_keys(m).no_duplicates() && (forall|i: int|
        0 <= i < av.len() ==> table_keys(m).contains(#[trigger] arg_key(av[i]))) && (forall|j: int|
        0 <= j < m.len() ==> #[trigger] from_args_v(av, m[j]))
}

/// Whether `target:path` may name its target, given the target named so far.
pub open spec fn target_ok(n: Seq<char>, spec: Seq<char>) -> bool {
    split_at_delim_spec(spec, ":"@) is None || n == "none"@ || n == target_of(spec)
}

/// The target named after `target:path`.
pub open spec fn after_target(n: Seq<char>, spec: Seq<char>) -> Seq<char> {
    if split_at_delim_spec(spec, ":"@) is None {
        n
    } else {
        target_of(spec)
    }
}

/// Whether a one-stage command is well formed, given the target named so far.
pub open spec fn simple_ok(n: Seq<char>, cmd: Seq<char>, av: Seq<Seq<char>>) -> bool {
    if cmd == "ls"@ || cmd == "time"@ || cmd == "ping"@ || cmd == "wait"@ || cmd == "restart"@ {
        true
    } else if cmd == "group"@ || cmd == "remove-group"@ {
        av.len() == 1
    } else if cmd == "set"@ || cmd == "seta"@ {
        av.len() > 0 && kv_ok(av)
    } else if cmd == "invoke"@ {
        av.len() > 0 && kv_ok(av.drop_first())
    } else if cmd == "run"@ || cmd == "launch"@ || cmd == "spawn"@ {
        av.len() >= 1 && (av.len() > 1 ==> target_ok(n, av[1]))
    } else if cmd == "push"@ {
        av.len() == 2 && target_ok(n, av[1])
    } else if cmd == "pull"@ {
        av.len() == 2 && target_ok(n, av[0])
    } else {
        false
    }
}

/// The target named after a one-stage command.
pub open spec fn simple_name_after(n: Seq<char>, cmd: Seq<char>, av: Seq<Seq<char>>) -> Seq<char> {
    if (cmd == "run"@ || cmd == "launch"@ || cmd == "spawn"@) && av.len() > 1 {
        after_target(n, av[1])
    } else if cmd == "push"@ && av.len() == 2 {
        after_target(n, av[1])
    } else if cmd == "pull"@ && av.len() == 2 {
        after_target(n, av[0])
    } else {
        n
    }
}

/// A command run as `run`, `launch` or `spawn` gives: the command, the
/// directory (the path of `target:path`), the job name.
pub open spec fn run_for(rc: RunCommand, av: Seq<Seq<char>>) -> bool {
    rc.cmd@ == av[0] && crate::strutil::opt_view(rc.pwd) == (if av.len() > 1 {
        Some(dest_of(av[1]))
    } else {
        None::<Seq<char>>
    }) && crate::strutil::opt_view(rc.jobname) == (if av.len() > 2 {
        Some(av[2])
    } else {
        None::<Seq<char>>
    })
}

/// The query a one-stage command gives.
pub open spec fn simple_for(cmd: Seq<char>, av: Seq<Seq<char>>, now: int, q: Query) -> bool {
    match q {
        Query::Get(a, c) => (cmd == "ls"@ && c@ == "ls"@ && strings_view(a@) == with_front(
            with_front(av, "name"@),
            "addr"@,
        )) || (cmd == "time"@ && c@ == "time"@ && strings_view(a@) == with_front(
            with_front(seq!["time"@], "name"@),
            "addr"@,
        )),
        Query::Ping(t) => cmd == "ping"@ && t == now,
        Query::Group(_, _) => cmd == "group"@ && is_group_query(q, av[0]),
        Query::SetValues(m) => cmd == "set"@ && kv_table(m@, av),
        Query::Seta(m) => cmd == "seta"@ && kv_table(m@, av),
        Query::Invoke(name, m) => cmd == "invoke"@ && name@ == av[0] && kv_table(m@, av.drop_first()),
        Query::Rma(m) => cmd == "remove-group"@ && m@.len() == 1 && m@[0].0@ == "groups"@ && m@[0].1@ == av[0],
        Query::Run(rc) => cmd == "run"@ && run_for(rc, av),
        Query::Launch(rc) => cmd == "launch"@ && run_for(rc, av),
        Query::Spawn(rc) => cmd == "spawn"@ && run_for(rc, av),
        Query::Wait => cmd == "wait"@,
        Query::Restart(c) => cmd == "restart"@ && c == 0,
        Query::Copy(cf) => cmd == "push"@ && cf.path@ == av[0] && cf.filename@ == crate::strutil::basename_spec(
            av[0],
        ) && cf.dest@ == dest_of(av[1]) && cf.perms is None && cf.hash is None && cf.bytes@.len() == 0,
        Query::Fetch(ff) => cmd == "pull"@ && ff.source@ == dest_of(av[0]) && ff.local_dest@ == av[1],
        _ => false,
    }
}

/// Whether a command is well formed; in restricted mode only `ls`, `time`
/// and `ping` are.
pub open spec fn query_ok(n: Seq<char>, cmd: Seq<char>, av: Seq<Seq<char>>, restricted: bool) -> bool {
    if restricted && !read_only_command(cmd) {
        false
    } else if cmd == "push-run"@ {
        av.len() == 3 && target_ok(n, av[1])
    } else if cmd == "run-pull"@ {
        av.len() == 3 && target_ok(n, av[1]) && target_ok(after_target(n, av[1]), av[2])
    } else {
        simple_ok(n, cmd, av)
    }
}

/// The target named after a command.
pub open spec fn query_name_after(n: Seq<char>, cmd: Seq<char>, av: Seq<Seq<char>>) -> Seq<char> {
    if cmd == "push-run"@ && av.len() == 3 {
        after_target(n, av[1])
    } else if cmd == "run-pull"@ && av.len() == 3 {
        after_target(after_target(n, av[1]), av[2])
    } else {
        simple_name_after(n, cmd, av)
    }
}

/// The query a command gives: `push-run` and `run-pull` give two stages.
pub open spec fn query_for(cmd: Seq<char>, av: Seq<Seq<char>>, now: int, q: Query) -> bool {
    if cmd == "push-run"@ {
        q matches Query::Actions(qs) && qs@.len() == 2 && simple_for("push"@, seq![av[0], av[1]], now, qs@[0])
            && simple_for("run"@, seq![av[2], av[1]], now, qs@[1])
    } else if cmd == "run-pull"@ {
        q matches Query::Actions(qs) && qs@.len() == 2 && simple_for("run"@, seq![av[0], av[1]], now, qs@[0])
            && simple_for("pull"@, seq![av[2], av[1]], now, qs@[1])
    } else {
        simple_for(cmd, av, now, q)
    }
}

/// The chunks of a command line between `::` separators.
pub open spec fn chunks(args: Seq<Seq<char>>) -> Seq<Seq<Seq<char>>>
    decreases args.len(),
{
    if args.len() == 0 {
        seq![Seq::empty()]
    } else {
        let prev = chunks(args.drop_last());
        if args.last() == "::"@ {
            prev.push(Seq::empty())
        } else {
            prev.update(prev.len() - 1, prev.last().push(args.last()))
        }
    }
}

pub proof fn lemma_chunks_nonempty(args: Seq<Seq<char>>)
    ensures
        chunks(args).len() >= 1,
    decreases args.len(),
{
    if args.len() > 0 {
        lemma_chunks_nonempty(args.drop_last());
    }
}

/// A command as its chunk: the name, then the arguments.
pub open spec fn command_view(c: CommandArgs) -> Seq<Seq<char>> {
    seq![c.command@] + strings_view(c.arguments@)
}

/// Splits a command line at `::` into commands, each a name and its
/// arguments. Fails when a chunk is empty.
pub fn split_commands(arguments: &Vec<String>) -> (r: Result<Vec<CommandArgs>, String>)
    ensures
        r is Ok <==> forall|i: int| 0 <= i < chunks(strings_view(arguments@)).len() ==> (#[trigger] chunks(
            strings_view(arguments@),
        )[i]).len() > 0,
        r matches Ok(cmds) ==> cmds@.len() == chunks(strings_view(arguments@)).len() && forall|i: int|
            0 <= i < cmds@.len() ==> command_view(#[trigger] cmds@[i]) == chunks(strings_view(arguments@))[i],
{
    let ghost av = strings_view(arguments@);
    let mut cmds: Vec<CommandArgs> = Vec::new();
    let mut chunk: Vec<String> = Vec::new();
    let mut i: usize = 0;
    assert(av.subrange(0, 0) =~= Seq::<Seq<char>>::empty());
    assert(strings_view(chunk@) =~= Seq::<Seq<char>>::empty());
    while i < arguments.len()
        invariant
            av == strings_view(arguments@),
            i <= arguments@.len(),
            chunks(av.subrange(0, i as int)).len() == cmds@.len() + 1,
            forall|j: int| 0 <= j < cmds@.len() ==> command_view(#[trigger] cmds@[j]) == chunks(av.subrange(0, i as int))[j],
            forall|j: int| 0 <= j < cmds@.len() ==> (#[trigger] chunks(av.subrange(0, i as int))[j]).len() > 0,
            strings_view(chunk@) == chunks(av.subrange(0, i as int)).last(),
        decreases arguments@.len() - i,
    {
        let ghost prev = chunks(av.subrange(0, i as int));
        assert(av.subrange(0, i + 1).drop_last() =~= av.subrange(0, i as int));
        assert(av[i as int] == arguments@[i as int]@);
        if eq_str(arguments[i].as_str(), "::") {
            if chunk.len() == 0 {
                proof { lemma_chunks_prefix_empty(av, i as int + 1, cmds@.len() as int); }
                return Err(lit("must have at least one value after ::"));
            }
            let ghost cv = strings_view(chunk@);
            let command = chunk.remove(0);
            let c = CommandArgs { command, arguments: chunk };
            assert(command_view(c) =~= cv);
            cmds.push(c);
            chunk = Vec::new();
            assert(strings_view(chunk@) =~= Seq::<Seq<char>>::empty());
        } else {
            let ghost before = strings_view(chunk@);
            chunk.push(arguments[i].clone());
            assert(strings_view(chunk@) =~= before.push(av[i as int]));
        }
        i += 1;
    }
    assert(av.subrange(0, arguments@.len() as int) =~= av);
    if chunk.len() == 0 {
        return Err(lit("must have at least one value after ::"));
    }
    let ghost cv = strings_view(chunk@);
    let command = chunk.remove(0);
    let c = CommandArgs { command, arguments: chunk };
    assert(command_view(c) =~= cv);
    cmds.push(c);
    Ok(cmds)
}

/// Once an empty chunk is closed by `::`, it stays among the chunks.
proof fn lemma_chunks_prefix_empty(av: Seq<Seq<char>>, n: int, k: int)
    requires
        0 < n <= av.len(),
        av[n - 1] == "::"@,
        0 <= k < chunks(av.subrange(0, n)).len() - 1,
        chunks(av.subrange(0, n))[k].len() == 0,
    ensures
        exists|i: int| 0 <= i < chunks(av).len() && (#[trigger] chunks(av)[i]).len() == 0,
    decreases av.len() - n,
{
    lemma_chunks_keep(av, n, k);
}

/// Chunks that are closed stay as they are when the line goes on.
proof fn lemma_chunks_keep(av: Seq<Seq<char>>, n: int, k: int)
    requires
        0 <= n <= av.len(),
        0 <= k < chunks(av.subrange(0, n)).len() - 1,
    ensures
        k < chunks(av).len() - 1 && chunks(av)[k] == chunks(av.subrange(0, n))[k],
    decreases av.len() - n,
{
    if n < av.len() {
        let s = av.subrange(0, n + 1);
        assert(s.drop_last() =~= av.subrange(0, n));
        lemma_chunks_nonempty(av.subrange(0, n));
        lemma_chunks_keep(av, n + 1, k);
    } else {
        assert(av.subrange(0, n) =~= av);
    }
}

fn strings_of(v: &Vec<&str>) -> (r: Vec<String>)
    ensures
        r@.len() == v@.len(),
        forall|i: int| 0 <= i < v@.len() ==> #[trigger] r@[i]@ == v@[i]@,
{
    let mut r: Vec<String> = Vec::new();
    let mut i: usize = 0;
    while i < v.len()
        invariant
            i <= v@.len(),
            r@.len() == i,
            forall|j: int| 0 <= j < i ==> #[trigger] r@[j]@ == v@[j]@,
        decreases v@.len() - i,
    {
        r.push(lit(v[i]));
        i += 1;
    }
    r
}

proof fn lemma_kv_views(args: Seq<String>, m: Seq<(String, String)>)
    ensures
        kv_ok(strings_view(args)) == (forall|i: int| 0 <= i < args.len() ==> key_value_arg(#[trigger] args[i]@) is Some),
        (table_keys(m).no_duplicates() && (forall|i: int|
            0 <= i < args.len() ==> table_keys(m).contains(#[trigger] arg_key(args[i]@))) && (forall|j: int|
            0 <= j < m.len() ==> #[trigger] from_args(args, args.len() as int, m[j]))) ==> kv_table(
            m,
            strings_view(args),
        ),
{
    let av = strings_view(args);
    assert forall|i: int| 0 <= i < args.len() implies av[i] == args[i]@ by {}
    if kv_ok(av) {
        assert forall|i: int| 0 <= i < args.len() implies key_value_arg(#[trigger] args[i]@) is Some by {
            assert(av[i] == args[i]@);
            assert(key_value_arg(av[i]) is Some);
        }
    }
    if forall|i: int| 0 <= i < args.len() ==> key_value_arg(#[trigger] args[i]@) is Some {
        assert forall|i: int| 0 <= i < av.len() implies key_value_arg(#[trigger] av[i]) is Some by {
            assert(av[i] == args[i]@);
            assert(key_value_arg(args[i]@) is Some);
        }
    }
    if table_keys(m).no_duplicates() && (forall|i: int|
        0 <= i < args.len() ==> table_keys(m).contains(#[trigger] arg_key(args[i]@))) && (forall|j: int|
        0 <= j < m.len() ==> #[trigger] from_args(args, args.len() as int, m[j])) {
        assert forall|i: int| 0 <= i < av.len() implies table_keys(m).contains(#[trigger] arg_key(av[i])) by {
            assert(av[i] == args[i]@);
        }
        assert forall|j: int| 0 <= j < m.len() implies #[trigger] from_args_v(av, m[j]) by {
            assert(from_args(args, args.len() as int, m[j]));
            let i = choose|i: int| 0 <= i < args.len() && #[trigger] key_value_arg(args[i]@) == Some((m[j].0@, m[j].1@));
            assert(av[i] == args[i]@);
        }
    }
}

impl Flags {
    /// The `key=value` arguments as a table. Fails on an argument without
    /// `=` or with a key that a user may not write (`addr`, `name`, `time`,
    /// `groups`, or one outside `[A-Za-z0-9-]+`). A later value for the
    /// same key replaces an earlier one.
    pub fn keyvalue_args(args: &[String]) -> (r: Result<StringMap, String>)
        ensures
            r is Err <==> exists|i: int| 0 <= i < args@.len() && key_value_arg(#[trigger] args@[i]@) is None,
            r matches Ok(m) ==> table_keys(m@).no_duplicates() && (forall|i: int|
                0 <= i < args@.len() ==> table_keys(m@).contains(#[trigger] arg_key(args@[i]@)))
                && (forall|j: int|
                0 <= j < m@.len() ==> #[trigger] from_args(args@, args@.len() as int, m@[j])),
    {
        let mut map: StringMap = Vec::new();
        let mut i: usize = 0;
        while i < args.len()
            invariant
                i <= args@.len(),
                forall|j: int| 0 <= j < i ==> key_value_arg(#[trigger] args@[j]@) is Some,
                table_keys(map@).no_duplicates(),
                forall|j: int| 0 <= j < i ==> table_keys(map@).contains(#[trigger] arg_key(args@[j]@)),
                forall|j: int| 0 <= j < map@.len() ==> #[trigger] from_args(args@, i as int, map@[j]),
            decreases args@.len() - i,
        {
            match split_at_delim(args[i].as_str(), "=") {
                None => {
                    let mut msg = args[i].clone();
                    push_str(&mut msg, " is not a key-value pair");
                    return Err(msg);
                },
                Some((k, v)) => {
                    if !KeyValue::valid_key(k.as_str()) {
                        let mut msg = k.clone();
                        push_str(&mut msg, " is not a valid key name");
                        return Err(msg);
                    }
                    let ghost kv = (k@, v@);
                    let ghost before = map@;
                    let mut pos: Option<usize> = None;
                    let mut j: usize = 0;
                    while j < map.len()
                        invariant
                            j <= map@.len(),
                            pos is None ==> forall|q: int| 0 <= q < j ==> map@[q].0@ != k@,
                            pos matches Some(p) ==> p < map@.len() && map@[p as int].0@ == k@,
                        decreases map@.len() - j,
                    {
                        if pos.is_none() && eq_str(map[j].0.as_str(), k.as_str()) {
                            pos = Some(j);
                        }
                        j += 1;
                    }
                    match pos {
                        Some(p) => {
                            map.set(p, (k, v));
                            assert(table_keys(map@) =~= table_keys(before));
                            assert forall|q: int| 0 <= q < map@.len() implies #[trigger] from_args(args@, i + 1, map@[q]) by {
                                if q == p {
                                    assert(key_value_arg(args@[i as int]@) == Some(kv));
                                } else {
                                    assert(map@[q] == before[q]);
                                    assert(from_args(args@, i as int, before[q]));
                                }
                            }
                            assert(table_keys(map@)[p as int] == kv.0);
                        },
                        None => {
                            map.push((k, v));
                            assert(table_keys(map@) =~= table_keys(before).push(kv.0));
                            assert forall|q: int| 0 <= q < map@.len() implies #[trigger] from_args(args@, i + 1, map@[q]) by {
                                if q == before.len() {
                                    assert(key_value_arg(args@[i as int]@) == Some(kv));
                                } else {
                                    assert(map@[q] == before[q]);
                                    assert(from_args(args@, i as int, before[q]));
                                }
                            }
                            assert(table_keys(map@)[before.len() as int] == kv.0);
                        },
                    }
                    assert forall|q: int| 0 <= q < i + 1 implies table_keys(map@).contains(
                        #[trigger] arg_key(args@[q]@),
                    ) by {
                        if q < i {
                            let w = choose|w: int| 0 <= w < table_keys(before).len() && table_keys(before)[w] == arg_key(args@[q]@);
                            assert(table_keys(map@)[w] == table_keys(before)[w]);
                        }
                    }
                },
            }
            i += 1;
        }
        Ok(map)
    }

    /// A destination written `target:path` also names the target device;
    /// only one target may be named.
    pub fn remote_target_destination(&mut self, spec: &str) -> (r: Result<String, String>)
        ensures
            split_at_delim_spec(spec@, ":"@) is None ==> (r matches Ok(d) && d@ == spec@) && *final(self)
                == *old(self),
            split_at_delim_spec(spec@, ":"@) is Some ==> (r is Ok <==> (old(self).name_or_group@
                == "none"@ || old(self).name_or_group@ == target_of(spec@))),
            final(self).filter_desc == old(self).filter_desc,
            final(self).group_name == old(self).group_name,
            final(self).quiet == old(self).quiet,
            r is Ok && split_at_delim_spec(spec@, ":"@) is Some ==> r->Ok_0@ == dest_of(spec@)
                && final(self).name_or_group@ == target_of(spec@),
    {
        match split_at_delim(spec, ":") {
            Some((target, dest)) => {
                if !(eq_str(self.name_or_group.as_str(), "none") || eq_str(self.name_or_group.as_str(), target.as_str())) {
                    return Err(lit("can only specify target once"));
                }
                self.name_or_group = target;
                Ok(dest)
            },
            None => Ok(lit(spec)),
        }
    }

    /// One command as a query, but for the two-stage commands.
    fn construct_simple(&mut self, cmd: &str, args: &Vec<String>, now_ms: u64) -> (r: Result<Query, String>)
        ensures
            r is Ok <==> simple_ok(old(self).name_or_group@, cmd@, strings_view(args@)),
            r matches Ok(q) ==> simple_for(cmd@, strings_view(args@), now_ms as int, q),
            r is Ok ==> final(self).name_or_group@ == simple_name_after(old(self).name_or_group@, cmd@, strings_view(args@)),
            final(self).filter_desc == old(self).filter_desc,
            final(self).group_name == old(self).group_name,
            final(self).quiet == old(self).quiet,
            !(r is Ok) || !(r->Ok_0 is Actions),
    {
        proof { lemma_command_names(); }
        let ghost av = strings_view(args@);
        assert forall|k: int| 0 <= k < args@.len() implies av[k] == args@[k]@ by {}
        if eq_str(cmd, "ls") {
            Ok(Query::get(args, "ls"))
        } else if eq_str(cmd, "time") {
            let mut keys: Vec<String> = Vec::new();
            keys.push(lit("time"));
            assert(strings_view(keys@) =~= seq!["time"@]);
            Ok(Query::get(&keys, "time"))
        } else if eq_str(cmd, "ping") {
            Ok(Query::Ping(now_ms))
        } else if eq_str(cmd, "group") {
            if args.len() != 1 {
                return Err(lit("group: group-name"));
            }
            Ok(Query::group(args[0].as_str()))
        } else if eq_str(cmd, "set") || eq_str(cmd, "seta") {
            if args.len() == 0 {
                let mut msg = lit(cmd);
                push_str(&mut msg, ": key1=value1 [key2=value2 ...]");
                return Err(msg);
            }
            match Flags::keyvalue_args(args.as_slice()) {
                Ok(map) => {
                    proof { lemma_kv_views(args@, map@); }
                    Ok(if eq_str(cmd, "set") { Query::SetValues(map) } else { Query::Seta(map) })
                },
                Err(e) => {
                    proof { lemma_kv_views(args@, Seq::empty()); }
                    Err(e)
                },
            }
        } else if eq_str(cmd, "invoke") {
            if args.len() == 0 {
                return Err(lit("invoke: custom-command [key1=value1 ...]"));
            }
            let name = args[0].clone();
            let mut rest: Vec<String> = Vec::new();
            let mut i: usize = 1;
            while i < args.len()
                invariant
                    1 <= i <= args@.len(),
                    rest@ == args@.subrange(1, i as int),
                decreases args@.len() - i,
            {
                rest.push(args[i].clone());
                i += 1;
            }
            assert(strings_view(rest@) =~= strings_view(args@).drop_first());
            match Flags::keyvalue_args(rest.as_slice()) {
                Ok(map) => {
                    proof { lemma_kv_views(rest@, map@); }
                    Ok(Query::Invoke(name, map))
                },
                Err(e) => {
                    proof { lemma_kv_views(rest@, Seq::empty()); }
                    Err(e)
                },
            }
        } else if eq_str(cmd, "remove-group") {
            if args.len() != 1 {
                return Err(lit("remove-group: group-name"));
            }
            Ok(Query::rma("groups", args[0].as_str()))
        } else if eq_str(cmd, "run") || eq_str(cmd, "launch") || eq_str(cmd, "spawn") {
            if args.len() < 1 {
                let mut msg = lit(cmd);
                push_str(&mut msg, ": command [working-dir] [job-name]");
                return Err(msg);
            }
            let working_dir = if args.len() > 1 {
                match self.remote_target_destination(args[1].as_str()) {
                    Ok(d) => Some(d),
                    Err(e) => return Err(e),
                }
            } else {
                None
            };
            let jobname = if args.len() > 2 { Some(args[2].clone()) } else { None };
            let rc = RunCommand::new(args[0].as_str(), working_dir, jobname);
            Ok(if eq_str(cmd, "run") {
                Query::Run(rc)
            } else if eq_str(cmd, "launch") {
                Query::Launch(rc)
            } else {
                Query::Spawn(rc)
            })
        } else if eq_str(cmd, "wait") {
            Ok(Query::Wait)
        } else if eq_str(cmd, "push") {
            if args.len() != 2 {
                return Err(lit("push: local-file-name remote-dest"));
            }
            match self.remote_target_destination(args[1].as_str()) {
                Ok(dest) => Ok(Query::Copy(CopyFile::new(args[0].as_str(), dest.as_str()))),
                Err(e) => Err(e),
            }
        } else if eq_str(cmd, "pull") {
            if args.len() != 2 {
                return Err(lit("pull: remote-file-name local-dest"));
            }
            match self.remote_target_destination(args[0].as_str()) {
                Ok(source) => Ok(Query::Fetch(FetchFile { source, local_dest: args[1].clone() })),
                Err(e) => Err(e),
            }
        } else if eq_str(cmd, "restart") {
            Ok(Query::Restart(0))
        } else {
            let mut msg = lit("not a command: ");
            push_str(&mut msg, cmd);
            Err(msg)
        }
    }

    /// A command as a query. In restricted mode only `ls`, `time` and
    /// `ping` are allowed. `push-run` and `run-pull` give a two-stage
    /// pipeline.
    pub fn construct_query(&mut self, cmd: &str, args: &Vec<String>, restricted: bool, now_ms: u64) -> (r: Result<Query, String>)
        ensures
            restricted && !read_only_command(cmd@) ==> r is Err,
            r is Ok <==> query_ok(old(self).name_or_group@, cmd@, strings_view(args@), restricted),
            r matches Ok(q) ==> query_for(cmd@, strings_view(args@), now_ms as int, q),
            r is Ok ==> final(self).name_or_group@ == query_name_after(old(self).name_or_group@, cmd@, strings_view(args@)),
            final(self).filter_desc == old(self).filter_desc,
            final(self).group_name == old(self).group_name,
            final(self).quiet == old(self).quiet,
    {
        proof { lemma_command_names(); }
        if restricted && !(eq_str(cmd, "ls") || eq_str(cmd, "time") || eq_str(cmd, "ping")) {
            let mut msg = lit(cmd);
            push_str(&mut msg, " is a restricted command. Use sudo");
            return Err(msg);
        }
        if eq_str(cmd, "push-run") {
            if args.len() != 3 {
                return Err(lit("push-run: local-file destination command"));
            }
            let mut a1: Vec<&str> = Vec::new();
            a1.push(args[0].as_str());
            a1.push(args[1].as_str());
            let mut a2: Vec<&str> = Vec::new();
            a2.push(args[2].as_str());
            a2.push(args[1].as_str());
            let s1 = strings_of(&a1);
            let s2 = strings_of(&a2);
            assert(strings_view(s1@) =~= seq![strings_view(args@)[0], strings_view(args@)[1]]);
            assert(strings_view(s2@) =~= seq![strings_view(args@)[2], strings_view(args@)[1]]);
            let q1 = match self.construct_simple("push", &s1, now_ms) {
                Ok(q) => q,
                Err(e) => return Err(e),
            };
            let q2 = match self.construct_simple("run", &s2, now_ms) {
                Ok(q) => q,
                Err(e) => return Err(e),
            };
            let mut qs: Vec<Query> = Vec::new();
            qs.push(q1);
            qs.push(q2);
            Ok(Query::Actions(qs))
        } else if eq_str(cmd, "run-pull") {
            if args.len() != 3 {
                return Err(lit("run-pull: command dir remote-file"));
            }
            let mut a1: Vec<&str> = Vec::new();
            a1.push(args[0].as_str());
            a1.push(args[1].as_str());
            let mut a2: Vec<&str> = Vec::new();
            a2.push(args[2].as_str());
            a2.push(args[1].as_str());
            let s1 = strings_of(&a1);
            let s2 = strings_of(&a2);
            assert(strings_view(s1@) =~= seq![strings_view(args@)[0], strings_view(args@)[1]]);
            assert(strings_view(s2@) =~= seq![strings_view(args@)[2], strings_view(args@)[1]]);
            let q1 = match self.construct_simple("run", &s1, now_ms) {
                Ok(q) => q,
                Err(e) => return Err(e),
            };
            let q2 = match self.construct_simple("pull", &s2, now_ms) {
                Ok(q) => q,
                Err(e) => return Err(e),
            };
            let mut qs: Vec<Query> = Vec::new();
            qs.push(q1);
            qs.push(q2);
            Ok(Query::Actions(qs))
        } else {
            self.construct_simple(cmd, args, now_ms)
        }
    }
}

/// The letters of the command names.
pub proof fn lemma_command_names()
    ensures
        "ls"@ != "time"@,
        "ls"@ != "ping"@,
        "ls"@ != "group"@,
        "ls"@ != "set"@,
        "ls"@ != "seta"@,
        "ls"@ != "invoke"@,
        "ls"@ != "remove-group"@,
        "ls"@ != "run"@,
        "ls"@ != "launch"@,
        "ls"@ != "spawn"@,
        "ls"@ != "wait"@,
        "ls"@ != "push"@,
        "ls"@ != "pull"@,
        "ls"@ != "restart"@,
        "ls"@ != "push-run"@,
        "ls"@ != "run-pull"@,
        "time"@ != "ping"@,
        "time"@ != "group"@,
        "time"@ != "set"@,
        "time"@ != "seta"@,
        "time"@ != "invoke"@,
        "time"@ != "remove-group"@,
        "time"@ != "run"@,
        "time"@ != "launch"@,
        "time"@ != "spawn"@,
        "time"@ != "wait"@,
        "time"@ != "push"@,
        "time"@ != "pull"@,
        "time"@ != "restart"@,
        "time"@ != "push-run"@,
        "time"@ != "run-pull"@,
        "ping"@ != "group"@,
        "ping"@ != "set"@,
        "ping"@ != "seta"@,
        "ping"@ != "invoke"@,
        "ping"@ != "remove-group"@,
        "ping"@ != "run"@,
        "ping"@ != "launch"@,
        "ping"@ != "spawn"@,
        "ping"@ != "wait"@,
        "ping"@ != "push"@,
        "ping"@ != "pull"@,
        "ping"@ != "restart"@,
        "ping"@ != "push-run"@,
        "ping"@ != "run-pull"@,
        "group"@ != "set"@,
        "group"@ != "seta"@,
        "group"@ != "invoke"@,
        "group"@ != "remove-group"@,
        "group"@ != "run"@,
        "group"@ != "launch"@,
        "group"@ != "spawn"@,
        "group"@ != "wait"@,
        "group"@ != "push"@,
        "group"@ != "pull"@,
        "group"@ != "restart"@,
        "group"@ != "push-run"@,
        "group"@ != "run-pull"@,
        "set"@ != "seta"@,
        "set"@ != "invoke"@,
        "set"@ != "remove-group"@,
        "set"@ != "run"@,
        "set"@ != "launch"@,
        "set"@ != "spawn"@,
        "set"@ != "wait"@,
        "set"@ != "push"@,
        "set"@ != "pull"@,
        "set"@ != "restart"@,
        "set"@ != "push-run"@,
        "set"@ != "run-pull"@,
        "seta"@ != "invoke"@,
        "seta"@ != "remove-group"@,
        "seta"@ != "run"@,
        "seta"@ != "launch"@,
        "seta"@ != "spawn"@,
        "seta"@ != "wait"@,
        "seta"@ != "push"@,
        "seta"@ != "pull"@,
        "seta"@ != "restart"@,
        "seta"@ != "push-run"@,
        "seta"@ != "run-pull"@,
        "invoke"@ != "remove-group"@,
        "invoke"@ != "run"@,
        "invoke"@ != "launch"@,
        "invoke"@ != "spawn"@,
        "invoke"@ != "wait"@,
        "invoke"@ != "push"@,
        "invoke"@ != "pull"@,
        "invoke"@ != "restart"@,
        "invoke"@ != "push-run"@,
        "invoke"@ != "run-pull"@,
        "remove-group"@ != "run"@,
        "remove-group"@ != "launch"@,
        "remove-group"@ != "spawn"@,
        "remove-group"@ != "wait"@,
        "remove-group"@ != "push"@,
        "remove-group"@ != "pull"@,
        "remove-group"@ != "restart"@,
        "remove-group"@ != "push-run"@,
        "remove-group"@ != "run-pull"@,
        "run"@ != "launch"@,
        "run"@ != "spawn"@,
        "run"@ != "wait"@,
        "run"@ != "push"@,
        "run"@ != "pull"@,
        "run"@ != "restart"@,
        "run"@ != "push-run"@,
        "run"@ != "run-pull"@,
        "launch"@ != "spawn"@,
        "launch"@ != "wait"@,
        "launch"@ != "push"@,
        "launch"@ != "pull"@,
        "launch"@ != "restart"@,
        "launch"@ != "push-run"@,
        "launch"@ != "run-pull"@,
        "spawn"@ != "wait"@,
        "spawn"@ != "push"@,
        "spawn"@ != "pull"@,
        "spawn"@ != "restart"@,
        "spawn"@ != "push-run"@,
        "spawn"@ != "run-pull"@,
        "wait"@ != "push"@,
        "wait"@ != "pull"@,
        "wait"@ != "restart"@,
        "wait"@ != "push-run"@,
        "wait"@ != "run-pull"@,
        "push"@ != "pull"@,
        "push"@ != "restart"@,
        "push"@ != "push-run"@,
        "push"@ != "run-pull"@,
        "pull"@ != "restart"@,
        "pull"@ != "push-run"@,
        "pull"@ != "run-pull"@,
        "restart"@ != "push-run"@,
        "restart"@ != "run-pull"@,
        "push-run"@ != "run-pull"@,
        "ls"@ == seq!['l', 's'],
        "time"@ == seq!['t', 'i', 'm', 'e'],
        "ping"@ == seq!['p', 'i', 'n', 'g'],
        "group"@ == seq!['g', 'r', 'o', 'u', 'p'],
        "set"@ == seq!['s', 'e', 't'],
        "seta"@ == seq!['s', 'e', 't', 'a'],
        "invoke"@ == seq!['i', 'n', 'v', 'o', 'k', 'e'],
        "remove-group"@ == seq!['r', 'e', 'm', 'o', 'v', 'e', '-', 'g', 'r', 'o', 'u', 'p'],
        "run"@ == seq!['r', 'u', 'n'],
        "launch"@ == seq!['l', 'a', 'u', 'n', 'c', 'h'],
        "spawn"@ == seq!['s', 'p', 'a', 'w', 'n'],
        "wait"@ == seq!['w', 'a', 'i', 't'],
        "push"@ == seq!['p', 'u', 's', 'h'],
        "pull"@ == seq!['p', 'u', 'l', 'l'],
        "restart"@ == seq!['r', 'e', 's', 't', 'a', 'r', 't'],
        "push-run"@ == seq!['p', 'u', 's', 'h', '-', 'r', 'u', 'n'],
        "run-pull"@ == seq!['r', 'u', 'n', '-', 'p', 'u', 'l', 'l'],
{
    reveal_strlit("ls");
    reveal_strlit("time");
    reveal_strlit("ping");
    reveal_strlit("group");
    reveal_strlit("set");
    reveal_strlit("seta");
    reveal_strlit("invoke");
    reveal_strlit("remove-group");
    reveal_strlit("run");
    reveal_strlit("launch");
    reveal_strlit("spawn");
    reveal_strlit("wait");
    reveal_strlit("push");
    reveal_strlit("pull");
    reveal_strlit("restart");
    reveal_strlit("push-run");
    reveal_strlit("run-pull");
    assert("ls"@ =~= seq!['l', 's']);
    assert("time"@ =~= seq!['t', 'i', 'm', 'e']);
    assert("ping"@ =~= seq!['p', 'i', 'n', 'g']);
    assert("group"@ =~= seq!['g', 'r', 'o', 'u', 'p']);
    assert("set"@ =~= seq!['s', 'e', 't']);
    assert("seta"@ =~= seq!['s', 'e', 't', 'a']);
    assert("invoke"@ =~= seq!['i', 'n', 'v', 'o', 'k', 'e']);
    assert("remove-group"@ =~= seq!['r', 'e', 'm', 'o', 'v', 'e', '-', 'g', 'r', 'o', 'u', 'p']);
    assert("run"@ =~= seq!['r', 'u', 'n']);
    assert("launch"@ =~= seq!['l', 'a', 'u', 'n', 'c', 'h']);
    assert("spawn"@ =~= seq!['s', 'p', 'a', 'w', 'n']);
    assert("wait"@ =~= seq!['w', 'a', 'i', 't']);
    assert("push"@ =~= seq!['p', 'u', 's', 'h']);
    assert("pull"@ =~= seq!['p', 'u', 'l', 'l']);
    assert("restart"@ =~= seq!['r', 'e', 's', 't', 'a', 'r', 't']);
    assert("push-run"@ =~= seq!['p', 'u', 's', 'h', '-', 'r', 'u', 'n']);
    assert("run-pull"@ =~= seq!['r', 'u', 'n', '-', 'p', 'u', 'l', 'l']);
    assert("ls"@.len() != "time"@.len());
    assert("ls"@.len() != "ping"@.len());
    assert("ls"@.len() != "group"@.len());
    assert("ls"@.len() != "set"@.len());
    assert("ls"@.len() != "seta"@.len());
    assert("ls"@.len() != "invoke"@.len());
    assert("ls"@.len() != "remove-group"@.len());
    assert("ls"@.len() != "run"@.len());
    assert("ls"@.len() != "launch"@.len());
    assert("ls"@.len() != "spawn"@.len());
    assert("ls"@.len() != "wait"@.len());
    assert("ls"@.len() != "push"@.len());
    assert("ls"@.len() != "pull"@.len());
    assert("ls"@.len() != "restart"@.len());
    assert("ls"@.len() != "push-run"@.len());
    assert("ls"@.len() != "run-pull"@.len());
    assert("time"@[0] != "ping"@[0]);
    assert("time"@.len() != "group"@.len());
    assert("time"@.len() != "set"@.len());
    assert("time"@[0] != "seta"@[0]);
    assert("time"@.len() != "invoke"@.len());
    assert("time"@.len() != "remove-group"@.len());
    assert("time"@.len() != "run"@.len());
    assert("time"@.len() != "launch"@.len());
    assert("time"@.len() != "spawn"@.len());
    assert("time"@[0] != "wait"@[0]);
    assert("time"@[0] != "push"@[0]);
    assert("time"@[0] != "pull"@[0]);
    assert("time"@.len() != "restart"@.len());
    assert("time"@.len() != "push-run"@.len());
    assert("time"@.len() != "run-pull"@.len());
    assert("ping"@.len() != "group"@.len());
    assert("ping"@.len() != "set"@.len());
    assert("ping"@[0] != "seta"@[0]);
    assert("ping"@.len() != "invoke"@.len());
    assert("ping"@.len() != "remove-group"@.len());
    assert("ping"@.len() != "run"@.len());
    assert("ping"@.len() != "launch"@.len());
    assert("ping"@.len() != "spawn"@.len());
    assert("ping"@[0] != "wait"@[0]);
    assert("ping"@[1] != "push"@[1]);
    assert("ping"@[1] != "pull"@[1]);
    assert("ping"@.len() != "restart"@.len());
    assert("ping"@.len() != "push-run"@.len());
    assert("ping"@.len() != "run-pull"@.len());
    assert("group"@.len() != "set"@.len());
    assert("group"@.len() != "seta"@.len());
    assert("group"@.len() != "invoke"@.len());
    assert("group"@.len() != "remove-group"@.len());
    assert("group"@.len() != "run"@.len());
    assert("group"@.len() != "launch"@.len());
    assert("group"@[0] != "spawn"@[0]);
    assert("group"@.len() != "wait"@.len());
    assert("group"@.len() != "push"@.len());
    assert("group"@.len() != "pull"@.len());
    assert("group"@.len() != "restart"@.len());
    assert("group"@.len() != "push-run"@.len());
    assert("group"@.len() != "run-pull"@.len());
    assert("set"@.len() != "seta"@.len());
    assert("set"@.len() != "invoke"@.len());
    assert("set"@.len() != "remove-group"@.len());
    assert("set"@[0] != "run"@[0]);
    assert("set"@.len() != "launch"@.len());
    assert("set"@.len() != "spawn"@.len());
    assert("set"@.len() != "wait"@.len());
    assert("set"@.len() != "push"@.len());
    assert("set"@.len() != "pull"@.len());
    assert("set"@.len() != "restart"@.len());
    assert("set"@.len() != "push-run"@.len());
    assert("set"@.len() != "run-pull"@.len());
    assert("seta"@.len() != "invoke"@.len());
    assert("seta"@.len() != "remove-group"@.len());
    assert("seta"@.len() != "run"@.len());
    assert("seta"@.len() != "launch"@.len());
    assert("seta"@.len() != "spawn"@.len());
    assert("seta"@[0] != "wait"@[0]);
    assert("seta"@[0] != "push"@[0]);
    assert("seta"@[0] != "pull"@[0]);
    assert("seta"@.len() != "restart"@.len());
    assert("seta"@.len() != "push-run"@.len());
    assert("seta"@.len() != "run-pull"@.len());
    assert("invoke"@.len() != "remove-group"@.len());
    assert("invoke"@.len() != "run"@.len());
    assert("invoke"@[0] != "launch"@[0]);
    assert("invoke"@.len() != "spawn"@.len());
    assert("invoke"@.len() != "wait"@.len());
    assert("invoke"@.len() != "push"@.len());
    assert("invoke"@.len() != "pull"@.len());
    assert("invoke"@.len() != "restart"@.len());
    assert("invoke"@.len() != "push-run"@.len());
    assert("invoke"@.len() != "run-pull"@.len());
    assert("remove-group"@.len() != "run"@.len());
    assert("remove-group"@.len() != "launch"@.len());
    assert("remove-group"@.len() != "spawn"@.len());
    assert("remove-group"@.len() != "wait"@.len());
    assert("remove-group"@.len() != "push"@.len());
    assert("remove-group"@.len() != "pull"@.len());
    assert("remove-group"@.len() != "restart"@.len());
    assert("remove-group"@.len() != "push-run"@.len());
    assert("remove-group"@.len() != "run-pull"@.len());
    assert("run"@.len() != "launch"@.len());
    assert("run"@.len() != "spawn"@.len());
    assert("run"@.len() != "wait"@.len());
    assert("run"@.len() != "push"@.len());
    assert("run"@.len() != "pull"@.len());
    assert("run"@.len() != "restart"@.len());
    assert("run"@.len() != "push-run"@.len());
    assert("run"@.len() != "run-pull"@.len());
    assert("launch"@.len() != "spawn"@.len());
    assert("launch"@.len() != "wait"@.len());
    assert("launch"@.len() != "push"@.len());
    assert("launch"@.len() != "pull"@.len());
    assert("launch"@.len() != "restart"@.len());
    assert("launch"@.len() != "push-run"@.len());
    assert("launch"@.len() != "run-pull"@.len());
    assert("spawn"@.len() != "wait"@.len());
    assert("spawn"@.len() != "push"@.len());
    assert("spawn"@.len() != "pull"@.len());
    assert("spawn"@.len() != "restart"@.len());
    assert("spawn"@.len() != "push-run"@.len());
    assert("spawn"@.len() != "run-pull"@.len());
    assert("wait"@[0] != "push"@[0]);
    assert("wait"@[0] != "pull"@[0]);
    assert("wait"@.len() != "restart"@.len());
    assert("wait"@.len() != "push-run"@.len());
    assert("wait"@.len() != "run-pull"@.len());
    assert("push"@[2] != "pull"@[2]);
    assert("push"@.len() != "restart"@.len());
    assert("push"@.len() != "push-run"@.len());
    assert("push"@.len() != "run-pull"@.len());
    assert("pull"@.len() != "restart"@.len());
    assert("pull"@.len() != "push-run"@.len());
    assert("pull"@.len() != "run-pull"@.len());
    assert("restart"@.len() != "push-run"@.len());
    assert("restart"@.len() != "run-pull"@.len());
    assert("push-run"@[0] != "run-pull"@[0]);
}

/// A `key=value` argument whose key is reserved (`addr`, `name`, `time`,
/// `groups`) is refused, whatever the value: `set` cannot write it.
pub proof fn lemma_reserved_keys_rejected(k: Seq<char>, v: Seq<char>)
    requires
        crate::condition::reserved_key(k),
    ensures
        key_value_arg(k + "="@ + v) is None,
{
    reveal_strlit("=");
    reveal_strlit("addr");
    reveal_strlit("name");
    reveal_strlit("time");
    reveal_strlit("groups");
    assert("="@ =~= seq!['=']);
    let t = k + "="@ + v;
    assert(t =~= k.push('=') + v);
    assert forall|j: int| 0 <= j < k.len() implies k[j] != '=' by {
        if k == "addr"@ {
            assert(k =~= seq!['a', 'd', 'd', 'r']);
        } else if k == "name"@ {
            assert(k =~= seq!['n', 'a', 'm', 'e']);
        } else if k == "time"@ {
            assert(k =~= seq!['t', 'i', 'm', 'e']);
        } else {
            assert(k =~= seq!['g', 'r', 'o', 'u', 'p', 's']);
        }
    }
    crate::text::lemma_find_char_after(k, '=', v);
    assert(t.subrange(0, k.len() as int) =~= k);
}

/// The rank of a source: a local file comes first, then the user's
/// command directory, then the configuration's table.
pub open spec fn source_rank(s: AliasSource) -> int {
    match s {
        AliasSource::Local => 0,
        AliasSource::User => 1,
        AliasSource::Inline => 2,
    }
}

fn rank(s: &AliasSource) -> (r: u8)
    ensures
        r as int == source_rank(*s),
{
    match s {
        AliasSource::Local => 0,
        AliasSource::User => 1,
        AliasSource::Inline => 2,
    }
}

/// The arguments of a user command's `args`, with `$K` and `$(K:kind)`
/// replaced from the command line's arguments.
pub open spec fn expanded_args(def: AliasDef, cmd: CommandArgs) -> Seq<Seq<char>> {
    Seq::new(
        def.args->0@.len(),
        |i: int| crate::strutil::subst_spec(def.args->0@[i]@, '$', crate::strutil::LookupM::Args(strings_view(cmd.arguments@)))->Ok_0,
    )
}

/// A user command that is one plain command with arguments, whose
/// substitutions all succeed.
pub open spec fn simple_expansion(def: AliasDef, aliases: Seq<AliasEntry>, cmd: CommandArgs) -> bool {
    def.alias is None && def.stages@.len() == 0 && def.filter is None && def.command is Some && def.args is Some
        && !names_alias(aliases, def.command->0@) && forall|i: int|
        0 <= i < def.args->0@.len() ==> crate::strutil::subst_spec(
            #[trigger] def.args->0@[i]@,
            '$',
            crate::strutil::LookupM::Args(strings_view(cmd.arguments@)),
        ) is Ok
}

/// A line of one command that names a user command, every definition of
/// which is a plain expansion.
pub open spec fn single_alias_line(aliases: Seq<AliasEntry>, cmds: Seq<CommandArgs>) -> bool {
    cmds.len() == 1 && names_alias(aliases, cmds[0].command@) && forall|k: int|
        0 <= k < aliases.len() && (#[trigger] aliases[k]).name@ == cmds[0].command@ ==> simple_expansion(
            aliases[k].def,
            aliases,
            cmds[0],
        )
}

/// Whether no command of the line names a user command.
pub open spec fn no_alias_in(aliases: Seq<AliasEntry>, cmds: Seq<CommandArgs>) -> bool {
    forall|i: int| 0 <= i < cmds.len() ==> !names_alias(aliases, #[trigger] cmds[i].command@)
}

/// The target named before the `i`-th command of a line.
pub open spec fn name_before(n0: Seq<char>, cmds: Seq<CommandArgs>, i: int) -> Seq<char>
    decreases i,
{
    if i <= 0 {
        n0
    } else {
        query_name_after(name_before(n0, cmds, i - 1), cmds[i - 1].command@, strings_view(cmds[i - 1].arguments@))
    }
}

/// Whether every command of a line is well formed, each given the target
/// the commands before it named.
pub open spec fn pipeline_ok(n0: Seq<char>, cmds: Seq<CommandArgs>, restricted: bool) -> bool {
    forall|i: int| 0 <= i < cmds.len() ==> query_ok(
        name_before(n0, cmds, i),
        (#[trigger] cmds[i]).command@,
        strings_view(cmds[i].arguments@),
        restricted,
    )
}

/// Whether some user command has this name.
pub open spec fn names_alias(aliases: Seq<AliasEntry>, name: Seq<char>) -> bool {
    exists|i: int| 0 <= i < aliases.len() && #[trigger] aliases[i].name@ == name
}

/// The definition of a user command, by precedence of its source.
pub fn find_alias(aliases: &Vec<AliasEntry>, name: &str) -> (r: Option<usize>)
    ensures
        r is None ==> forall|i: int| 0 <= i < aliases@.len() ==> #[trigger] aliases@[i].name@ != name@,
        r matches Some(i) ==> i < aliases@.len() && aliases@[i as int].name@ == name@ && forall|j: int|
            0 <= j < aliases@.len() && #[trigger] aliases@[j].name@ == name@ ==> source_rank(
                aliases@[i as int].source,
            ) <= source_rank(aliases@[j].source),
{
    let mut best: Option<usize> = None;
    let mut i: usize = 0;
    while i < aliases.len()
        invariant
            i <= aliases@.len(),
            best is None ==> forall|j: int| 0 <= j < i ==> #[trigger] aliases@[j].name@ != name@,
            best matches Some(b) ==> b < aliases@.len() && aliases@[b as int].name@ == name@ && forall|j: int|
                0 <= j < i && #[trigger] aliases@[j].name@ == name@ ==> source_rank(aliases@[b as int].source)
                    <= source_rank(aliases@[j].source),
        decreases aliases@.len() - i,
    {
        if eq_str(aliases[i].name.as_str(), name) {
            match best {
                Some(b) => {
                    if rank(&aliases[i].source) < rank(&aliases[b].source) {
                        best = Some(i);
                    }
                },
                None => {
                    best = Some(i);
                },
            }
        }
        i += 1;
    }
    best
}

fn copy_strings(v: &Vec<String>) -> (r: Vec<String>)
    ensures
        r@ == v@,
{
    let mut r: Vec<String> = Vec::new();
    let mut i: usize = 0;
    while i < v.len()
        invariant
            i <= v@.len(),
            r@ == v@.subrange(0, i as int),
        decreases v@.len() - i,
    {
        r.push(v[i].clone());
        i += 1;
    }
    r
}

impl Flags {
    /// The queries of a command line: a user command expands to its
    /// definition, any other command is built directly. A single query
    /// stands alone; several make a pipeline. `depth` bounds how deeply
    /// user commands may refer to each other.
    pub fn construct_query_alias(
        &mut self,
        aliases: &Vec<AliasEntry>,
        commands: &Vec<CommandArgs>,
        restricted: bool,
        now_ms: u64,
        depth: usize,
    ) -> (r: Result<Query, String>)
        ensures
            commands@.len() == 0 ==> (r matches Ok(Query::Actions(qs)) && qs@.len() == 0),
            restricted && (exists|i: int|
                0 <= i < commands@.len() && !names_alias(aliases@, #[trigger] commands@[i].command@)
                    && !read_only_command(commands@[i].command@)) ==> r is Err,
            depth == 0 && (exists|i: int|
                0 <= i < commands@.len() && names_alias(aliases@, #[trigger] commands@[i].command@)) ==> r is Err,
            no_alias_in(aliases@, commands@) ==> (r is Ok <==> pipeline_ok(
                old(self).name_or_group@,
                commands@,
                restricted,
            )),
            no_alias_in(aliases@, commands@) && commands@.len() == 1 && r is Ok ==> query_for(
                commands@[0].command@,
                strings_view(commands@[0].arguments@),
                now_ms as int,
                r->Ok_0,
            ),
            no_alias_in(aliases@, commands@) && commands@.len() != 1 && r is Ok ==> r->Ok_0 is Actions
                && r->Ok_0->Actions_0@.len() == commands@.len() && forall|i: int|
                0 <= i < commands@.len() ==> query_for(
                    (#[trigger] commands@[i]).command@,
                    strings_view(commands@[i].arguments@),
                    now_ms as int,
                    r->Ok_0->Actions_0@[i],
                ),
            single_alias_line(aliases@, commands@) && depth > 0 && r is Ok ==> exists|k: int|
                0 <= k < aliases@.len() && aliases@[k].name@ == commands@[0].command@ && query_for(
                    (#[trigger] aliases@[k]).def.command->0@,
                    expanded_args(aliases@[k].def, commands@[0]),
                    now_ms as int,
                    r->Ok_0,
                ),
        decreases depth, 2usize,
    {
        let mut res: Vec<Query> = Vec::new();
        let mut i: usize = 0;
        while i < commands.len()
            invariant
                i <= commands@.len(),
                commands@.len() == 0 ==> res@.len() == 0,
                forall|j: int|
                    0 <= j < i ==> (restricted && !names_alias(aliases@, #[trigger] commands@[j].command@)
                        ==> read_only_command(commands@[j].command@)),
                forall|j: int| 0 <= j < i ==> (depth == 0 ==> !names_alias(aliases@, #[trigger] commands@[j].command@)),
                no_alias_in(aliases@, commands@) ==> res@.len() == i && self.name_or_group@ == name_before(
                    old(self).name_or_group@,
                    commands@,
                    i as int,
                ) && (forall|j: int|
                    0 <= j < i ==> query_for(
                        (#[trigger] commands@[j]).command@,
                        strings_view(commands@[j].arguments@),
                        now_ms as int,
                        res@[j],
                    )) && (forall|j: int|
                    0 <= j < i ==> query_ok(
                        name_before(old(self).name_or_group@, commands@, j),
                        (#[trigger] commands@[j]).command@,
                        strings_view(commands@[j].arguments@),
                        restricted,
                    )),
                single_alias_line(aliases@, commands@) && depth > 0 ==> (i == 0 ==> res@.len() == 0) && (i == 1
                    ==> res@.len() == 1 && exists|k: int|
                    0 <= k < aliases@.len() && aliases@[k].name@ == commands@[0].command@ && query_for(
                        (#[trigger] aliases@[k]).def.command->0@,
                        expanded_args(aliases@[k].def, commands@[0]),
                        now_ms as int,
                        res@[0],
                    )),
            decreases commands@.len() - i,
        {
            let cmd = &commands[i];
            match find_alias(aliases, cmd.command.as_str()) {
                Some(k) => {
                    assert(!no_alias_in(aliases@, commands@)) by {
                        assert(names_alias(aliases@, commands@[i as int].command@));
                    }
                    let restriction = match aliases[k].source {
                        AliasSource::Local => restricted,
                        _ => false,
                    };
                    let ghost before = res@;
                    match self.query_alias_collect(&aliases[k].def, aliases, cmd, &mut res, restriction, now_ms, depth) {
                        Ok(()) => {
                            proof {
                                if single_alias_line(aliases@, commands@) && depth > 0 {
                                    assert(simple_expansion(aliases@[k as int].def, aliases@, commands@[0]));
                                    assert(res@[0] == res@.last());
                                }
                            }
                        },
                        Err(e) => return Err(e),
                    }
                },
                None => match self.construct_query(cmd.command.as_str(), &cmd.arguments, restricted, now_ms) {
                    Ok(q) => res.push(q),
                    Err(e) => {
                        assert(no_alias_in(aliases@, commands@) ==> !pipeline_ok(
                            old(self).name_or_group@,
                            commands@,
                            restricted,
                        ));
                        return Err(e);
                    },
                },
            }
            i += 1;
        }
        if res.len() == 1 {
            Ok(res.remove(0))
        } else {
            Ok(Query::Actions(res))
        }
    }

    /// Applies a user command's overrides (filter, group, quiet) and adds
    /// the queries of its stages.
    fn query_alias_collect(
        &mut self,
        def: &AliasDef,
        aliases: &Vec<AliasEntry>,
        cmd: &CommandArgs,
        res: &mut Vec<Query>,
        restricted: bool,
        now_ms: u64,
        depth: usize,
    ) -> (r: Result<(), String>)
        ensures
            depth == 0 ==> r is Err,
            depth > 0 && simple_expansion(*def, aliases@, *cmd) && r is Ok ==> final(res)@.len() == old(res)@.len() + 1
                && final(res)@.subrange(0, old(res)@.len() as int) == old(res)@ && query_for(
                def.command->0@,
                expanded_args(*def, *cmd),
                now_ms as int,
                final(res)@.last(),
            ),
            depth > 0 && simple_expansion(*def, aliases@, *cmd) ==> (r is Ok <==> query_ok(
                old(self).name_or_group@,
                def.command->0@,
                expanded_args(*def, *cmd),
                restricted,
            )),
        decreases depth, 1usize,
    {
        match &def.filter {
            Some(f) => match crate::strutil::replace_dollar_args(f.as_str(), &cmd.arguments) {
                Ok(d) => {
                    self.filter_desc = d;
                },
                Err(e) => return Err(e),
            },
            None => {},
        }
        match &def.group {
            Some(g) => {
                self.group_name = g.clone();
            },
            None => {},
        }
        if def.quiet {
            self.quiet = true;
        }
        let help = match &def.help {
            Some(h) => h.clone(),
            None => lit("<no help>"),
        };
        if def.stages.len() == 0 {
            match self.query_alias(def, aliases, cmd, help.as_str(), restricted, now_ms, depth) {
                Ok(q) => res.push(q),
                Err(e) => return Err(e),
            }
        } else {
            let mut i: usize = 0;
            while i < def.stages.len()
                invariant
                    depth == 0 ==> i == 0,
                decreases def.stages@.len() - i,
            {
                match self.query_alias(&def.stages[i], aliases, cmd, help.as_str(), restricted, now_ms, depth) {
                    Ok(q) => res.push(q),
                    Err(e) => return Err(e),
                }
                i += 1;
            }
            if depth == 0 {
                assert(def.stages@.len() > 0);
            }
        }
        Ok(())
    }

    /// One stage of a user command: an `alias` is a new command line with
    /// the same arguments; otherwise `command` with `args`, where `$K` and
    /// `$(K:kind)` stand for the arguments.
    fn query_alias(
        &mut self,
        def: &AliasDef,
        aliases: &Vec<AliasEntry>,
        cmd: &CommandArgs,
        help: &str,
        restricted: bool,
        now_ms: u64,
        depth: usize,
    ) -> (r: Result<Query, String>)
        ensures
            depth == 0 ==> r is Err,
            depth > 0 && simple_expansion(*def, aliases@, *cmd) ==> (r is Ok <==> query_ok(
                old(self).name_or_group@,
                def.command->0@,
                expanded_args(*def, *cmd),
                restricted,
            )),
            depth > 0 && simple_expansion(*def, aliases@, *cmd) && r is Ok ==> query_for(
                def.command->0@,
                expanded_args(*def, *cmd),
                now_ms as int,
                r->Ok_0,
            ),
        decreases depth, 0usize,
    {
        if depth == 0 {
            return Err(lit("user commands refer to each other too deeply"));
        }
        match &def.alias {
            Some(alias) => {
                let line = match crate::strutil::replace_dollar_args(alias.as_str(), &cmd.arguments) {
                    Ok(r) => r,
                    Err(e) => return Err(e),
                };
                let mut cmds: Vec<CommandArgs> = Vec::new();
                cmds.push(CommandArgs { command: line, arguments: copy_strings(&cmd.arguments) });
                self.construct_query_alias(aliases, &cmds, restricted, now_ms, depth - 1)
            },
            None => {
                let command = match &def.command {
                    Some(c) => c.clone(),
                    None => return Err(lit("alias: command must be defined")),
                };
                let args = match &def.args {
                    Some(a) => a,
                    None => return Err(lit("alias: args must be defined")),
                };
                let alias_args = match crate::strutil::replace_dollar_args_array(args, &cmd.arguments) {
                    Ok(a) => a,
                    Err(e) => {
                        let mut msg = cmd.command.clone();
                        push_str(&mut msg, " '");
                        push_str(&mut msg, help);
                        push_str(&mut msg, "' - ");
                        push_str(&mut msg, e.as_str());
                        return Err(msg);
                    },
                };
                let ghost ea = expanded_args(*def, *cmd);
                assert(simple_expansion(*def, aliases@, *cmd) ==> strings_view(alias_args@) =~= ea);
                let mut cmds: Vec<CommandArgs> = Vec::new();
                cmds.push(CommandArgs { command, arguments: alias_args });
                assert(simple_expansion(*def, aliases@, *cmd) ==> no_alias_in(aliases@, cmds@));
                assert(pipeline_ok(self.name_or_group@, cmds@, restricted) == query_ok(
                    name_before(self.name_or_group@, cmds@, 0),
                    cmds@[0].command@,
                    strings_view(cmds@[0].arguments@),
                    restricted,
                ));
                self.construct_query_alias(aliases, &cmds, restricted, now_ms, depth - 1)
            },
        }
    }
}

} // verus!
