use moi::condition::{Condition, KeyValue};
use moi::store::Config;
use moi::value::Value;
use moi::agent::{MsgData, Plan};
use moi::flags::Flags;
use moi::OrErr;
use moi::query::{Query, Verb};

fn s(t: &str) -> String {
    t.to_string()
}

fn store_with(pairs: &[(&str, Value)]) -> Config {
    let mut c = Config::new();
    for (k, v) in pairs {
        c.insert_into(k, v.copy());
    }
    c
}

#[test]
fn predicate_missing_key_is_not_an_error() {
    let st = store_with(&[("addr", Value::Str(s("10.0.0.1")))]);
    assert!(!Condition::from_description("arch=x86_64").matches(&st));
    assert!(Condition::from_description("arch.not.x86_64").matches(&st));
    assert!(!Condition::from_description("arch").matches(&st));
    assert!(!Condition::from_description("arch:x").matches(&st));
    assert!(!Condition::from_description("arch=x#").matches(&st));
    assert!(Condition::from_description("none").matches(&st));
}

#[test]
fn predicate_forms_parse() {
    match Condition::from_description("name=node#") {
        Condition::Starts(kv) => {
            assert_eq!(kv.key, "name");
            assert_eq!(kv.value, "node");
        }
        _ => panic!("expected starts"),
    }
    match Condition::from_description("groups:web") {
        Condition::Elem(kv) => {
            assert_eq!(kv.key, "groups");
            assert_eq!(kv.value, "web");
        }
        _ => panic!("expected elem"),
    }
    match Condition::from_description("rc.not.0") {
        Condition::NotEquals(kv) => {
            assert_eq!(kv.key, "rc");
            assert_eq!(kv.value, "0");
        }
        _ => panic!("expected not-equals"),
    }
    match Condition::from_description("arch") {
        Condition::Exists(k) => assert_eq!(k, "arch"),
        _ => panic!("expected exists"),
    }
    match Condition::from_description("all groups:g rc=0 ") {
        Condition::All(cs) => {
            assert_eq!(cs.len(), 2);
            match &cs[1] {
                Condition::Equals(kv) => {
                    assert_eq!(kv.key, "rc");
                    assert_eq!(kv.value, "0");
                }
                _ => panic!("expected rc=0"),
            }
        }
        _ => panic!("expected all"),
    }
    assert!(matches!(Condition::from_description("none"), Condition::Always));
}

#[test]
fn predicate_compares_text_of_values() {
    let st = store_with(&[
        ("rc", Value::Int(0)),
        ("ok", Value::Bool(true)),
        ("groups", Value::Array(vec![Value::Str(s("web")), Value::Str(s("db"))])),
        ("nested", Value::Object(vec![(s("a"), Value::Object(vec![(s("b"), Value::Str(s("deep")))]))])),
    ]);
    assert!(Condition::from_description("rc=0").matches(&st));
    assert!(!Condition::from_description("rc=1").matches(&st));
    assert!(Condition::from_description("ok=true").matches(&st));
    assert!(Condition::from_description("groups:db").matches(&st));
    assert!(!Condition::from_description("groups:mail").matches(&st));
    assert!(!Condition::from_description("rc:0").matches(&st));
    assert!(Condition::from_description("nested.a.b=deep").matches(&st));
    assert!(Condition::from_description("nested.a.c=null").matches(&st));
    assert!(Condition::from_description("groups=[\"web\",\"db\"]").matches(&st));
    assert!(Condition::from_description("any rc=1 ok=true").matches(&st));
    assert!(!Condition::from_description("all rc=1 ok=true").matches(&st));
    assert!(Condition::from_description("all rc=0 ok=true").matches(&st));
}

#[test]
fn predicate_wire_round_trip() {
    for d in ["name=node#", "addr=10.0.0.1", "groups:web", "rc.not.0", "arch", "none", "any a=1 b:2", "all groups:g rc=0 x"] {
        let c = Condition::from_description(d);
        let j = c.to_json();
        let back = Condition::from_json(&j).expect("decodes");
        assert_eq!(back.to_json().dump(), j.dump());
    }
    let j = Condition::from_description("addr=10.0.0.1").to_json();
    assert_eq!(j.dump(), "{\"eq\":[\"addr\",\"10.0.0.1\"]}");
    assert_eq!(Condition::from_description("none").to_json().dump(), "null");
    assert_eq!(
        Condition::from_description("all a b=c").to_json().dump(),
        "{\"all\":[{\"exists\":[\"a\"]},{\"eq\":[\"b\",\"c\"]}]}"
    );
}

#[test]
fn predicate_wire_rejects_malformed() {
    let two = Value::Object(vec![
        (s("eq"), Value::Array(vec![Value::Str(s("a")), Value::Str(s("b"))])),
        (s("neq"), Value::Array(vec![Value::Str(s("a")), Value::Str(s("b"))])),
    ]);
    assert!(Condition::from_json(&two).is_none());
    let bad_op = Value::Object(vec![(s("like"), Value::Array(vec![Value::Str(s("a")), Value::Str(s("b"))]))]);
    assert!(Condition::from_json(&bad_op).is_none());
    let short = Value::Object(vec![(s("eq"), Value::Array(vec![Value::Str(s("a"))]))]);
    assert!(Condition::from_json(&short).is_none());
}

#[test]
fn unique_id_of_filters() {
    let (a, was_addr) = Condition::from_description("addr=10.0.0.1").unique_id().unwrap();
    assert_eq!(a, "10.0.0.1");
    assert!(was_addr);
    let (n, was_addr) = Condition::from_description("name=node1").unique_id().unwrap();
    assert_eq!(n, "node1");
    assert!(!was_addr);
    assert!(Condition::from_description("role=web").unique_id().is_none());
}

#[test]
fn valid_keys() {
    assert!(KeyValue::valid_key("arch"));
    assert!(KeyValue::valid_key("my-key2"));
    assert!(!KeyValue::valid_key("addr"));
    assert!(!KeyValue::valid_key("name"));
    assert!(!KeyValue::valid_key("time"));
    assert!(!KeyValue::valid_key("groups"));
    assert!(!KeyValue::valid_key("a.b"));
    assert!(!KeyValue::valid_key(""));
    let kv = KeyValue::new("k", "v");
    assert_eq!(kv.key, "k");
    assert_eq!(kv.value, "v");
}

#[test]
fn filter_text_round_trip() {
    for d in [
        "none",
        "arch",
        "name=node1",
        "name=node#",
        "groups:web",
        "rc.not.0",
        "any name=node# groups:web",
        "all groups:g rc=0 arch",
        "any ",
    ] {
        let c = Condition::from_description(d);
        assert_eq!(c.description(), d);
        let again = Condition::from_description(&c.description());
        assert_eq!(again.to_json().dump(), c.to_json().dump());
    }
}

#[test]
fn verbs_reach_the_agent_as_sent() {
    let mut f = Flags {
        filter_desc: s("none"),
        group_name: s("none"),
        name_or_group: s("none"),
        config_file: s("c"),
        moi_dir: s("."),
        json_store: s("s"),
        timeout: 500,
        verbose: false,
        quiet: false,
        su: false,
        sharing_with_su: false,
        json: false,
        use_colour: false,
        cols: Vec::new(),
    };
    let q = f.construct_query("set", &vec![s("colour=blue"), s("gone=null")], false, 0).unwrap();
    let what = q.to_json();
    assert_eq!(what.dump(), "{\"set\":{\"colour\":\"blue\",\"gone\":null}}");
    let mut st = Config::new();
    st.insert_into("gone", Value::Int(1));
    let mut agent = MsgData::new(st);
    let envelope = Value::Object(vec![(s("seq"), Value::Int(0)), (s("which"), Value::Null), (s("what"), what)]);
    match agent.handle_query(&envelope, 0).unwrap() {
        Some(Plan::Reply(v)) => assert_eq!(v.dump(), "true"),
        _ => panic!("expected a reply"),
    }
    assert_eq!(agent.cfg.get("colour").unwrap().text(), "blue");
    assert!(agent.cfg.get("gone").is_none());
    let ping = Query::Ping(5).to_json();
    assert_eq!(ping.dump(), "{\"get\":[\"addr\",\"name\"]}");
    assert!(Query::Wait.to_json().dump() == "null");
}

#[test]
fn error_helpers() {
    assert_eq!(moi::io_error("boom"), "boom");
    let e: Result<u8, String> = moi::err_io("bad");
    assert_eq!(e, Err(s("bad")));
    assert_eq!(Some(3).or_err("none"), Ok(3));
    assert_eq!(None::<u8>.or_err("none"), Err(s("none")));
    assert_eq!(true.or_err("no"), Ok(()));
    assert_eq!(false.or_err("no"), Err(s("no")));
}

#[test]
fn verbs_decode_to_what_was_sent() {
    let mut f = Flags {
        filter_desc: s("none"),
        group_name: s("none"),
        name_or_group: s("none"),
        config_file: s("c"),
        moi_dir: s("."),
        json_store: s("s"),
        timeout: 500,
        verbose: false,
        quiet: false,
        su: false,
        sharing_with_su: false,
        json: false,
        use_colour: false,
        cols: Vec::new(),
    };
    match Verb::from_json(&f.construct_query("ls", &vec![s("arch")], false, 0).unwrap().to_json()) {
        Some(Verb::Get(ks)) => assert_eq!(ks, vec![s("addr"), s("name"), s("arch")]),
        _ => panic!("expected get"),
    }
    match Verb::from_json(&Query::group("web").to_json()) {
        Some(Verb::Chain(vs)) => {
            assert_eq!(vs.len(), 2);
            assert!(matches!(&vs[0], Verb::Get(ks) if ks == &vec![s("addr"), s("name")]));
            assert!(matches!(&vs[1], Verb::Seta(kv) if kv[0].0 == "groups" && kv[0].1.text() == "web"));
        }
        _ => panic!("expected chain"),
    }
    match Verb::from_json(&f.construct_query("run", &vec![s("uptime")], false, 0).unwrap().to_json()) {
        Some(Verb::Run(a)) => assert_eq!(a.dump(), "{\"cmd\":\"uptime\",\"pwd\":null,\"job\":null}"),
        _ => panic!("expected run"),
    }
    assert!(matches!(Verb::from_json(&Query::Restart(3).to_json()), Some(Verb::Restart(3))));
    assert!(matches!(Verb::from_json(&Query::Wait.to_json()), Some(Verb::Wait)));
    match Verb::from_json(&f.construct_query("invoke", &vec![s("reboot"), s("delay=5")], false, 0).unwrap().to_json()) {
        Some(Verb::Custom(n, kv)) => {
            assert_eq!(n, "reboot");
            assert_eq!(kv[0].1.text(), "5");
        }
        _ => panic!("expected custom"),
    }
    assert!(Verb::from_json(&Value::Int(3)).is_none());
}

#[test]
fn empty_any_selects_nothing() {
    let st = store_with(&[("addr", Value::Str(s("10.0.0.1")))]);
    assert!(!Condition::Any(Vec::new()).matches(&st));
    assert!(Condition::All(Vec::new()).matches(&st));
    assert!(!Condition::from_description("any ").matches(&st));
    let wire = Value::Object(vec![(s("any"), Value::Array(vec![]))]);
    assert!(!Condition::from_json(&wire).unwrap().matches(&st));
}

#[test]
fn control_characters_are_escaped() {
    assert_eq!(Value::Str(s("a\tb\r\u{1}\u{8}\u{c}")).dump(), "\"a\\tb\\r\\u0001\\b\\f\"");
}
