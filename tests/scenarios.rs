use moi::agent::{Job, MsgData, Outcome, Plan, outcome_value};
use moi::correlator::{Effect, Incoming, MessageData};
use moi::flags::{split_commands, CommandArgs, Flags};
use moi::query::Query;
use moi::store::Config;
use moi::value::Value;

fn s(t: &str) -> String {
    t.to_string()
}

fn v(items: &[&str]) -> Vec<String> {
    items.iter().map(|x| x.to_string()).collect()
}

fn flags(filter: &str, group: &str) -> Flags {
    Flags {
        filter_desc: s(filter),
        group_name: s(group),
        name_or_group: s("none"),
        config_file: s("config.toml"),
        moi_dir: s("."),
        json_store: s("store.json"),
        timeout: 500,
        verbose: false,
        quiet: false,
        su: false,
        sharing_with_su: false,
        json: false,
        use_colour: false,
        cols: Vec::new(),
    }
}

fn agent(addr: &str, name: &str, extra: &[(&str, Value)]) -> MsgData {
    let mut c = Config::new();
    c.insert_into("addr", Value::Str(s(addr)));
    c.insert_into("name", Value::Str(s(name)));
    c.insert_into("home", Value::Str(s("/home/pi")));
    c.insert_into("rc", Value::Int(0));
    for (k, val) in extra {
        c.insert_into(k, val.copy());
    }
    MsgData::new(c)
}

/// Builds the controller for a command line, as the program does.
fn controller(line: &[&str], filter: &str, group: &str, store: &Config) -> (MessageData, Vec<Effect>) {
    let cmds = split_commands(&v(line)).unwrap();
    let mut f = flags(filter, group);
    let mut queries: Vec<Query> = Vec::new();
    for c in cmds.iter() {
        queries.push(f.construct_query(&c.command, &c.arguments, false, 0).unwrap());
    }
    let cmds: Vec<CommandArgs> = cmds;
    let mut md = MessageData::new(f, cmds);
    for q in queries {
        md.set_queries(q);
    }
    md.process_flags(store).unwrap();
    md.set_filter().unwrap();
    let mut out = Vec::new();
    md.send_query(&mut out);
    (md, out)
}

fn sent(out: &[Effect]) -> (String, Value) {
    for e in out.iter().rev() {
        if let Effect::Publish { topic, payload, .. } = e {
            return (topic.clone(), payload.copy());
        }
    }
    panic!("nothing published");
}

/// What an agent answers to a query; outside work is done on the spot
/// with the given outcome for commands.
fn answer(a: &mut MsgData, q: &Value, run_code: i32) -> Option<Value> {
    match a.handle_query(q, 1000) {
        Ok(None) => None,
        Ok(Some(plan)) => {
            let v = settle(a, plan, run_code);
            Some(a.ok_result(v))
        }
        Err(e) => Some(a.error_result(&e)),
    }
}

fn settle(a: &mut MsgData, plan: Plan, run_code: i32) -> Value {
    match plan {
        Plan::Reply(v) => v,
        Plan::Chain(ps) => Value::Array(ps.into_iter().map(|p| settle(a, p, run_code)).collect()),
        Plan::Work(Job::Run { .. }) => {
            let out = if run_code == 0 { s("ok") } else { s("") };
            outcome_value(&mut a.cfg, Outcome::Ran { code: run_code, stdout: out, stderr: s("failed") }).unwrap()
        }
        Plan::Work(Job::Receive { pending }) => {
            a.cfg.pending_file = Some(pending);
            Value::Bool(true)
        }
        Plan::Work(_) => Value::Bool(true),
    }
}

fn printed(out: &[Effect]) -> Vec<String> {
    out.iter()
        .filter_map(|e| if let Effect::Print(l) = e { Some(l.clone()) } else { None })
        .collect()
}

#[test]
fn scenario_ls_all() {
    let mut a = agent("10.0.0.1", "node1", &[("arch", Value::Str(s("x86_64")))]);
    let mut b = agent("10.0.0.2", "node2", &[("arch", Value::Str(s("arm")))]);
    let (mut md, out) = controller(&["ls", "arch"], "none", "none", &Config::new());
    let (topic, q) = sent(&out);
    assert_eq!(topic, "MOI/query");
    let mut out = Vec::new();
    for ag in [&mut a, &mut b] {
        let r = answer(ag, &q, 0).unwrap();
        md.handle_message(Incoming::QueryResult(r), 0, 0, &mut out);
    }
    let mut lines = printed(&out);
    lines.sort();
    assert_eq!(lines, v(&["10.0.0.1\tnode1\tx86_64", "10.0.0.2\tnode2\tarm"]));
    let r = md.handle_message(Incoming::Timeout, 0, 0, &mut out);
    assert!(r.over);
    let mut store = Config::new();
    assert!(md.finish_off(&mut store, &mut out));
}

#[test]
fn scenario_filter_starts_with() {
    let mut a = agent("10.0.0.1", "node1", &[]);
    let mut b = agent("10.0.0.2", "node2", &[]);
    let mut c = agent("10.0.0.3", "web1", &[]);
    let (_md, out) = controller(&["ls"], "name=node#", "none", &Config::new());
    let (_, q) = sent(&out);
    assert!(answer(&mut a, &q, 0).is_some());
    assert!(answer(&mut b, &q, 0).is_some());
    assert!(answer(&mut c, &q, 0).is_none());
}

#[test]
fn scenario_push_file() {
    let mut a = agent("10.0.0.1", "node1", &[]);
    let mut b = agent("10.0.0.2", "node2", &[]);
    let mut store = Config::new();
    let (mut md, mut out) = {
        let cmds = split_commands(&v(&["push", "./hello.txt", "/tmp/"])).unwrap();
        let mut f = flags("addr=10.0.0.1", "none");
        let mut q = f.construct_query(&cmds[0].command, &cmds[0].arguments, false, 0).unwrap();
        if let Query::Copy(cf) = &mut q {
            cf.set_contents(b"hello world\n".to_vec(), 0o640);
        }
        let mut md = MessageData::new(f, cmds);
        md.set_queries(q);
        md.process_flags(&store).unwrap();
        md.set_filter().unwrap();
        let mut out = Vec::new();
        md.send_query(&mut out);
        (md, out)
    };
    let (topic, q) = sent(&out);
    assert_eq!(topic, "MOI/query/10.0.0.1");
    assert!(answer(&mut b, &q, 0).is_none());
    let r = answer(&mut a, &q, 0).unwrap();
    assert_eq!(r.dump(), "{\"id\":\"10.0.0.1\",\"seq\":0,\"ok\":true}");
    let pending = a.cfg.pending_file.as_ref().unwrap();
    assert_eq!(pending.dest, "/tmp/hello.txt");
    assert_eq!(pending.perms, Some(0o640));
    md.handle_message(Incoming::QueryResult(r), 0, 0, &mut out);
    assert!(out.iter().any(|e| matches!(e, Effect::PublishFile { topic } if topic == "MOI/file/0")));
    let (_, ok) = a.take_pending_file(b"hello world\n").unwrap();
    assert!(ok);
    assert!(a.cfg.pending_file.is_none());
    let file_resp = a.ok_result(Value::Bool(ok));
    let reaction = md.handle_message(Incoming::FileResult(file_resp), 0, 0, &mut out);
    assert!(reaction.stage_ended && reaction.over);
    assert!(out.iter().any(|e| matches!(e, Effect::ClearRetained { topic } if topic == "MOI/file/0")));
    assert!(md.finish_off(&mut store, &mut out));
}

fn group_store(name: &str, members: &[(&str, &str)]) -> Config {
    let mut st = Config::new();
    let g = Value::Object(members.iter().map(|(a, n)| (s(a), Value::Str(s(n)))).collect());
    st.insert_into("groups", Value::Object(vec![(s(name), g)]));
    st
}

#[test]
fn scenario_multi_stage_rc_gating() {
    let mut a = agent("10.0.0.1", "node1", &[("groups", Value::Array(vec![Value::Str(s("g"))]))]);
    let mut b = agent("10.0.0.2", "node2", &[("groups", Value::Array(vec![Value::Str(s("g"))]))]);
    let store = group_store("g", &[("10.0.0.1", "node1"), ("10.0.0.2", "node2")]);
    let (mut md, mut out) = controller(&["run", "exit 1", "::", "run", "echo ok"], "none", "g", &store);
    let (_, q1) = sent(&out);
    let ra = answer(&mut a, &q1, 1).unwrap();
    let rb = answer(&mut b, &q1, 0).unwrap();
    assert_eq!(a.cfg.get("rc").unwrap().text(), "1");
    let r1 = md.handle_message(Incoming::QueryResult(ra), 0, 0, &mut out);
    assert!(!r1.stage_ended);
    let r2 = md.handle_message(Incoming::QueryResult(rb), 0, 0, &mut out);
    assert!(r2.stage_ended && !r2.over);
    assert_eq!(md.seq, 1);
    let (_, q2) = sent(&out);
    assert!(answer(&mut a, &q2, 0).is_none());
    let rb2 = answer(&mut b, &q2, 0).unwrap();
    let r3 = md.handle_message(Incoming::QueryResult(rb2), 0, 0, &mut out);
    assert!(!r3.stage_ended);
    let r4 = md.handle_message(Incoming::Timeout, 0, 0, &mut out);
    assert!(r4.over);
    let mut st = Config::new();
    assert!(!md.finish_off(&mut st, &mut out));
}

#[test]
fn scenario_group_creation() {
    let mut a = agent("10.0.0.1", "node1", &[("role", Value::Str(s("web")))]);
    let mut b = agent("10.0.0.2", "node2", &[("role", Value::Str(s("db")))]);
    let (mut md, mut out) = controller(&["group", "web"], "role=web", "none", &Config::new());
    let (_, q) = sent(&out);
    assert!(answer(&mut b, &q, 0).is_none());
    let r = answer(&mut a, &q, 0).unwrap();
    assert_eq!(a.cfg.get("groups").unwrap().dump(), "[\"web\"]");
    assert!(answer(&mut a, &q, 0).is_some());
    assert_eq!(a.cfg.get("groups").unwrap().dump(), "[\"web\"]");
    md.handle_message(Incoming::QueryResult(r), 0, 0, &mut out);
    md.handle_message(Incoming::Timeout, 0, 0, &mut out);
    let mut store = Config::new();
    assert!(md.finish_off(&mut store, &mut out));
    assert_eq!(store.get("groups.web").unwrap().dump(), "{\"10.0.0.1\":\"node1\"}");
}

#[test]
fn scenario_fetch_binary() {
    let mut a = agent("10.0.0.1", "node1", &[]);
    let (mut md, mut out) = controller(&["pull", "/etc/hostname", "./out/%n-%a"], "none", "none", &Config::new());
    let (_, q) = sent(&out);
    let r = answer(&mut a, &q, 0).unwrap();
    assert_eq!(r.dump(), "{\"id\":\"10.0.0.1\",\"seq\":0,\"ok\":true}");
    md.handle_message(Incoming::QueryResult(r), 0, 0, &mut out);
    let topic = moi::agent::fetch_topic(a.seq, &a.cfg.addr(), &a.cfg.name());
    assert_eq!(topic, "MOI/fetch/0/10.0.0.1/node1");
    let parms = topic["MOI/fetch/".len()..].to_string();
    let reaction = md.handle_message(Incoming::Fetched(parms), 0, 0, &mut out);
    assert_eq!(reaction.write_to, Some(s("./out/node1-10.0.0.1")));
}

#[test]
fn completion_with_known_group_needs_every_member() {
    let store = group_store("g", &[("10.0.0.1", "node1"), ("10.0.0.2", "node2"), ("10.0.0.3", "node3")]);
    let (mut md, mut out) = controller(&["ls"], "none", "g", &store);
    let resp = |id: &str| {
        Value::Object(vec![
            (s("id"), Value::Str(s(id))),
            (s("seq"), Value::Int(0)),
            (s("ok"), Value::Array(vec![Value::Str(s(id)), Value::Str(s("n"))])),
        ])
    };
    assert!(!md.handle_message(Incoming::QueryResult(resp("10.0.0.1")), 0, 0, &mut out).stage_ended);
    assert!(!md.handle_message(Incoming::QueryResult(resp("10.0.0.1")), 0, 0, &mut out).stage_ended);
    assert!(!md.handle_message(Incoming::QueryResult(resp("10.0.0.2")), 0, 0, &mut out).stage_ended);
    assert!(md.handle_message(Incoming::QueryResult(resp("10.0.0.3")), 0, 0, &mut out).over);
}

#[test]
fn late_arrival_is_ignored() {
    let (mut md, mut out) = controller(&["ls"], "none", "none", &Config::new());
    let late = Value::Object(vec![
        (s("id"), Value::Str(s("10.0.0.9"))),
        (s("seq"), Value::Int(7)),
        (s("ok"), Value::Array(vec![])),
    ]);
    md.handle_message(Incoming::QueryResult(late), 0, 0, &mut out);
    assert!(md.responses.is_empty());
    assert!(out.iter().any(|e| matches!(e, Effect::Error(_))));
}

#[test]
fn missing_group_member_fails_the_run() {
    let store = group_store("g", &[("10.0.0.1", "node1"), ("10.0.0.2", "node2")]);
    let (mut md, mut out) = controller(&["ls"], "none", "g", &store);
    let (_, q) = sent(&out);
    match q {
        Value::Object(es) => {
            assert_eq!(es[1].1.dump(), "{\"all\":[{\"elem\":[\"groups\",\"g\"]},{\"eq\":[\"rc\",\"0\"]}]}");
            assert_eq!(es[3].1.dump(), "\"g\"");
        }
        _ => panic!("expected an envelope"),
    }
    let resp = Value::Object(vec![
        (s("id"), Value::Str(s("10.0.0.1"))),
        (s("seq"), Value::Int(0)),
        (s("ok"), Value::Array(vec![Value::Str(s("10.0.0.1")), Value::Str(s("node1"))])),
    ]);
    md.handle_message(Incoming::QueryResult(resp), 0, 0, &mut out);
    md.handle_message(Incoming::Timeout, 0, 0, &mut out);
    let mut st = Config::new();
    assert!(!md.finish_off(&mut st, &mut out));
    assert!(out.iter().any(|e| matches!(e, Effect::Error(l) if l.contains("10.0.0.2 node2 failed to respond"))));
}

#[test]
fn structured_output_line() {
    let line = moi::correlator::json_out(
        "ls",
        true,
        "10.0.0.1",
        "node1",
        &vec![Value::Str(s("x86_64")), Value::Int(3)],
        &v(&["arch", "cpus", "unused"]),
    );
    assert_eq!(line, "{\"cmd\":\"ls\",\"ok\":true,\"addr\":\"10.0.0.1\",\"name\":\"node1\",\"arch\":\"x86_64\",\"cpus\":3}");
    assert_eq!(
        moi::correlator::json_out("run", false, "a", "n", &vec![], &vec![]),
        "{\"cmd\":\"run\",\"ok\":false,\"addr\":\"a\",\"name\":\"n\"}"
    );
}
