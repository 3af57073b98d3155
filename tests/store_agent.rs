use moi::agent::{
    check_received, fetch_topic, file_topic, launch_finished, massage_destination_path, Delivery, Job, MsgData,
    Outcome, Plan, outcome_value,
};
use moi::query::CopyFile;
use moi::store::{Config, FilePending};
use moi::timeout::Timeout;
use moi::value::{int_to_text, Value};

fn s(t: &str) -> String {
    t.to_string()
}

fn obj(es: Vec<(&str, Value)>) -> Value {
    Value::Object(es.into_iter().map(|(k, v)| (s(k), v)).collect())
}

fn agent_store() -> Config {
    let mut c = Config::new();
    c.insert_into("addr", Value::Str(s("10.0.0.1")));
    c.insert_into("name", Value::Str(s("node1")));
    c.insert_into("home", Value::Str(s("/home/pi")));
    c.insert_into("tmp", Value::Str(s("/tmp/MOID")));
    c.insert_into("destinations", Value::Array(vec![Value::Str(s("bin")), Value::Str(s("tmp")), Value::Str(s("home"))]));
    c
}

#[test]
fn store_set_and_delete() {
    let mut c = Config::new();
    c.insert("k", &Value::Str(s("v")));
    assert_eq!(c.get("k").unwrap().text(), "v");
    c.insert("k", &Value::Int(3));
    assert_eq!(c.get("k").unwrap().text(), "3");
    c.insert("k", &Value::Null);
    assert!(c.get("k").is_none());
    assert_eq!(c.get_or("k", Value::Int(7)).text(), "7");
}

#[test]
fn seta_twice_is_seta_once() {
    let mut c = Config::new();
    c.insert_array("groups", &Value::Str(s("web")), false).unwrap();
    let once = c.get("groups").unwrap().dump();
    c.insert_array("groups", &Value::Str(s("web")), false).unwrap();
    assert_eq!(c.get("groups").unwrap().dump(), once);
    assert_eq!(once, "[\"web\"]");
}

#[test]
fn rma_of_absent_item_changes_nothing() {
    let mut c = Config::new();
    c.insert_array("groups", &Value::Str(s("web")), false).unwrap();
    c.insert_array("groups", &Value::Str(s("db")), true).unwrap();
    assert_eq!(c.get("groups").unwrap().dump(), "[\"web\"]");
    c.insert_array("groups", &Value::Str(s("web")), true).unwrap();
    assert_eq!(c.get("groups").unwrap().dump(), "[]");
}

#[test]
fn array_update_on_scalar_fails() {
    let mut c = Config::new();
    c.insert("arch", &Value::Str(s("arm")));
    assert!(c.insert_array("arch", &Value::Str(s("x")), false).is_err());
    assert_eq!(c.get("arch").unwrap().text(), "arm");
}

#[test]
fn dump_and_text_forms() {
    assert_eq!(int_to_text(-42), "-42");
    assert_eq!(int_to_text(i64::MIN), "-9223372036854775808");
    assert_eq!(int_to_text(0), "0");
    assert_eq!(Value::Str(s("a\"b")).dump(), "\"a\\\"b\"");
    assert_eq!(Value::Str(s("plain")).text(), "plain");
    assert_eq!(Value::Null.text(), "null");
    assert_eq!(obj(vec![("a", Value::Int(1)), ("b", Value::Bool(false))]).dump(), "{\"a\":1,\"b\":false}");
}

#[test]
fn destination_paths() {
    let c = agent_store();
    assert_eq!(massage_destination_path(&c, "~/x"), "/home/pi/x");
    assert_eq!(massage_destination_path(&c, "tmp/file"), "/tmp/MOID/file");
    assert_eq!(massage_destination_path(&c, "tmp"), "/tmp/MOID");
    assert_eq!(massage_destination_path(&c, "other/file"), "other/file");
    assert_eq!(massage_destination_path(&c, "/abs/path"), "/abs/path");
}

fn query(seq: i64, which: Value, what: Value) -> Value {
    obj(vec![("seq", Value::Int(seq)), ("which", which), ("what", what)])
}

#[test]
fn agent_get_reply_and_time() {
    let mut m = MsgData::new(agent_store());
    let q = query(3, Value::Null, obj(vec![("get", Value::Array(vec![Value::Str(s("addr")), Value::Str(s("time")), Value::Str(s("missing"))]))]));
    match m.handle_query(&q, 1700000000).unwrap() {
        Some(Plan::Reply(v)) => assert_eq!(v.dump(), "[\"10.0.0.1\",1700000000,null]"),
        _ => panic!("expected a reply"),
    }
    assert_eq!(m.seq, 3);
    let r = m.ok_result(Value::Bool(true));
    assert_eq!(r.dump(), "{\"id\":\"10.0.0.1\",\"seq\":3,\"ok\":true}");
    assert_eq!(m.error_result("boom").dump(), "{\"id\":\"10.0.0.1\",\"seq\":3,\"error\":\"boom\"}");
}

#[test]
fn agent_stays_silent_when_not_selected() {
    let mut m = MsgData::new(agent_store());
    let which = obj(vec![("eq", Value::Array(vec![Value::Str(s("name")), Value::Str(s("node2"))]))]);
    let q = query(0, which, obj(vec![("set", obj(vec![("k", Value::Str(s("v")))]))]));
    assert!(m.handle_query(&q, 0).unwrap().is_none());
    assert!(m.cfg.get("k").is_none());
}

#[test]
fn agent_errors() {
    let mut m = MsgData::new(agent_store());
    assert!(m.handle_query(&obj(vec![("seq", Value::Int(300))]), 0).is_err());
    assert!(m.handle_query(&obj(vec![("seq", Value::Int(1))]), 0).is_err());
    let q = query(1, Value::Null, obj(vec![("frobnicate", Value::Null)]));
    assert!(m.handle_query(&q, 0).is_err());
    let q = query(1, Value::Null, obj(vec![("get", Value::Array(vec![Value::Int(1)]))]));
    assert!(m.handle_query(&q, 0).is_err());
    let q = query(1, Value::Null, obj(vec![("restart", Value::Str(s("x")))]));
    assert!(m.handle_query(&q, 0).is_err());
    let q = query(1, Value::Null, obj(vec![("run", obj(vec![]))]));
    assert!(m.handle_query(&q, 0).is_err());
    let bad_which = obj(vec![("like", Value::Null)]);
    assert!(m.handle_query(&query(1, bad_which, obj(vec![("get", Value::Array(vec![]))])), 0).is_err());
}

#[test]
fn agent_run_plan_and_rc() {
    let mut m = MsgData::new(agent_store());
    let q = query(0, Value::Null, obj(vec![("run", obj(vec![("cmd", Value::Str(s("ls ~"))), ("pwd", Value::Null), ("job", Value::Null)]))]));
    match m.handle_query(&q, 0).unwrap() {
        Some(Plan::Work(Job::Run { cmd, pwd })) => {
            assert_eq!(cmd, "ls /home/pi");
            assert_eq!(pwd, "/home/pi");
        }
        _ => panic!("expected run work"),
    }
    let v = outcome_value(&mut m.cfg, Outcome::Ran { code: 2, stdout: s(""), stderr: s("bad") }).unwrap();
    assert_eq!(v.dump(), "{\"code\":2,\"stdout\":\"\",\"stderr\":\"bad\"}");
    assert_eq!(m.cfg.get("rc").unwrap().text(), "2");
    assert!(outcome_value(&mut m.cfg, Outcome::Failed(s("no"))).is_err());
}

#[test]
fn agent_chain_plans_each_member() {
    let mut m = MsgData::new(agent_store());
    let chain = Value::Array(vec![
        obj(vec![("get", Value::Array(vec![Value::Str(s("addr")), Value::Str(s("name"))]))]),
        obj(vec![("seta", obj(vec![("groups", Value::Str(s("web")))]))]),
    ]);
    match m.handle_query(&query(0, Value::Null, obj(vec![("chain", chain)])), 0).unwrap() {
        Some(Plan::Chain(ps)) => assert_eq!(ps.len(), 2),
        _ => panic!("expected chain"),
    }
    assert_eq!(m.cfg.get("groups").unwrap().dump(), "[\"web\"]");
    assert!(m.dirty);
}

#[test]
fn launch_delivery() {
    match launch_finished(&None, "10.0.0.1", 4, 0, "out", "") {
        Delivery::Publish(v) => assert_eq!(v.dump(), "{\"id\":\"10.0.0.1\",\"seq\":5,\"ok\":{\"code\":0,\"stdout\":\"out\",\"stderr\":\"\"}}"),
        _ => panic!("expected publish"),
    }
    match launch_finished(&Some(s("build")), "10.0.0.1", 4, 1, "", "err") {
        Delivery::Store(k, v) => {
            assert_eq!(k, "build");
            assert_eq!(v.dump(), "{\"code\":1,\"stdout\":\"\",\"stderr\":\"err\"}");
        }
        _ => panic!("expected store"),
    }
}

#[test]
fn md5_digest_of_pushed_file() {
    let mut cf = CopyFile::new("./hello.txt", "/tmp/");
    assert_eq!(cf.filename, "hello.txt");
    cf.set_contents(b"hello".to_vec(), 0o644);
    assert_eq!(cf.hash.clone().unwrap(), "5d41402abc4b2a76b9719d911017c592");
    let p = FilePending { filename: s("hello.txt"), dest: s("/tmp/hello.txt"), perms: Some(0o644), hash: cf.hash.clone() };
    assert!(check_received(&p, b"hello"));
    assert!(!check_received(&p, b"hellO"));
    let none = FilePending { filename: s("x"), dest: s("/tmp/x"), perms: None, hash: None };
    assert!(check_received(&none, b"anything"));
}

#[test]
fn topics() {
    assert_eq!(file_topic(7), "MOI/file/7");
    assert_eq!(fetch_topic(2, "10.0.0.1", "node1"), "MOI/fetch/2/10.0.0.1/node1");
}

#[test]
fn watchdog() {
    let mut t = Timeout::new(500, 1000);
    assert!(!t.timed_out(1500));
    assert!(t.timed_out(1501));
    t.update(1400);
    assert!(!t.timed_out(1800));
    t.set_timeout(20000);
    assert!(!t.timed_out(10000));
    t.disable();
    assert!(!t.timed_out(100000));
    t.enable(100000);
    assert!(t.timed_out(100501));
    let never = Timeout::new(-1, 0);
    assert!(!never.timed_out(u64::MAX));
}

#[test]
fn store_accessors() {
    let mut c = agent_store();
    c.insert_into("port", Value::Int(1883));
    assert_eq!(c.gets("name"), Some(s("node1")));
    assert_eq!(c.gets("port"), None);
    assert_eq!(c.gets_or("missing", "dflt"), "dflt");
    assert_eq!(c.gets_opt("missing").unwrap(), None);
    assert_eq!(c.gets_opt("addr").unwrap(), Some(s("10.0.0.1")));
    assert!(c.gets_opt("port").is_err());
    assert_eq!(c.geti_or("port", 1).unwrap(), 1883);
    assert_eq!(c.geti_or("nope", 7).unwrap(), 7);
    assert!(c.geti_or("name", 7).is_err());
    let o = obj(vec![("a", Value::Int(1)), ("n", Value::Null)]);
    assert_eq!(moi::store::maybe_field(&o, "a").unwrap().text(), "1");
    assert!(moi::store::maybe_field(&o, "n").is_none());
    assert!(moi::store::maybe_field(&o, "zz").is_none());
}

#[test]
fn only_a_leading_tilde_is_home() {
    let c = agent_store();
    assert_eq!(massage_destination_path(&c, "~~x"), "/home/pi~x");
    assert_eq!(massage_destination_path(&c, "~"), "/home/pi");
}

#[test]
fn pending_file_is_handed_back() {
    let mut m = MsgData::new(agent_store());
    assert!(m.take_pending_file(b"x").is_none());
    m.cfg.pending_file = Some(FilePending { filename: s("f"), dest: s("/tmp/f"), perms: None, hash: None });
    let (p, ok) = m.take_pending_file(b"x").unwrap();
    assert_eq!(p.dest, "/tmp/f");
    assert!(ok);
    assert!(m.cfg.pending_file.is_none());
}
