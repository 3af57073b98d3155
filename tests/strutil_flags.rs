use moi::flags::{split_commands, AliasSource, CommandArgs, Flags};
use moi::query::{Query, StringMap};
use moi::strutil::{
    basename, filestem, is_ipv4, massage_valid_key, replace_dollar_args, replace_dollar_args_array,
    replace_percent_destination, split_at_delim, split_version,
};

fn s(t: &str) -> String {
    t.to_string()
}

fn v(items: &[&str]) -> Vec<String> {
    items.iter().map(|x| x.to_string()).collect()
}

pub fn flags() -> Flags {
    Flags {
        filter_desc: s("none"),
        group_name: s("none"),
        name_or_group: s("none"),
        config_file: s("config.toml"),
        moi_dir: s("."),
        json_store: s("store.json"),
        timeout: 500,
        verbose: false,
        quiet: false,
        su: false,
        sharing_with_su: false,
        json: false,
        use_colour: false,
        cols: Vec::new(),
    }
}

#[test]
fn splitting() {
    assert_eq!(split_at_delim("a=b=c", "="), Some((s("a"), s("b=c"))));
    assert_eq!(split_at_delim("k.not.v", ".not."), Some((s("k"), s("v"))));
    assert_eq!(split_at_delim("abc", "="), None);
}

#[test]
fn path_parts() {
    assert_eq!(basename("/usr/lib/libfoo-1.2.tar.gz"), "libfoo-1.2.tar.gz");
    assert_eq!(basename("plain"), "plain");
    assert_eq!(filestem("/usr/lib/libfoo-1.2.tar.gz"), "libfoo-1.2");
    assert_eq!(filestem("x/readme"), "readme");
    assert_eq!(split_version("pkg_2.0.deb"), Some((s("pkg"), s("2.0"))));
    assert_eq!(split_version("my-tool-3.1.tar.gz"), Some((s("my-tool"), s("3.1"))));
    assert_eq!(split_version("noversion.txt"), None);
    assert_eq!(massage_valid_key("a.b.c"), "abc");
}

#[test]
fn dollar_substitution() {
    let args = v(&["/srv/pkg_2.0.tar.gz", "second"]);
    assert_eq!(replace_dollar_args("x $1 $2", &args).unwrap(), "x /srv/pkg_2.0.tar.gz second");
    assert_eq!(replace_dollar_args("$(1:package)", &args).unwrap(), "pkg");
    assert_eq!(replace_dollar_args("$(1:version)", &args).unwrap(), "2.0");
    assert_eq!(replace_dollar_args("$(1:base)", &args).unwrap(), "pkg_2.0.tar.gz");
    assert_eq!(replace_dollar_args("$(1:stem)", &args).unwrap(), "pkg_2.0");
    assert_eq!(replace_dollar_args("cost $$5", &args).unwrap(), "cost $5");
    assert!(replace_dollar_args("$3", &args).is_err());
    assert!(replace_dollar_args("$0", &args).is_err());
    assert!(replace_dollar_args("$(1:colour)", &args).is_err());
    assert!(replace_dollar_args("end $", &args).is_err());
    assert!(replace_dollar_args("$(1:base", &args).is_err());
    assert_eq!(replace_dollar_args_array(&v(&["$2", "-$1-"]), &v(&["a", "b"])).unwrap(), v(&["b", "-a-"]));
    assert!(replace_dollar_args_array(&v(&["$2", "$9"]), &v(&["a", "b"])).is_err());
}

#[test]
fn percent_destination() {
    assert_eq!(replace_percent_destination("./out/%n-%a", "10.0.0.1", "node1", 5).unwrap(), "./out/node1-10.0.0.1");
    assert_eq!(replace_percent_destination("t%t", "a", "n", 1234).unwrap(), "t1234");
    assert!(replace_percent_destination("%x", "a", "n", 0).is_err());
}

#[test]
fn ipv4_check() {
    assert!(is_ipv4("10.0.0.1"));
    assert!(is_ipv4("4294967295"));
    assert!(!is_ipv4("4294967296"));
    assert!(!is_ipv4("node1"));
    assert!(!is_ipv4("10..1"));
}

#[test]
fn command_line_split() {
    let cmds = split_commands(&v(&["run", "exit 1", "::", "run", "echo ok"])).unwrap();
    assert_eq!(cmds.len(), 2);
    assert_eq!(cmds[0].command, "run");
    assert_eq!(cmds[1].arguments, v(&["echo ok"]));
    assert!(split_commands(&v(&["ls", "::"])).is_err());
    assert!(split_commands(&v(&[])).is_err());
}

#[test]
fn reserved_keys_rejected_by_set() {
    let mut f = flags();
    assert!(f.construct_query("set", &v(&["addr=x"]), false, 0).is_err());
    assert!(f.construct_query("set", &v(&["groups=web"]), false, 0).is_err());
    assert!(f.construct_query("set", &v(&["novalue"]), false, 0).is_err());
    assert!(f.construct_query("set", &v(&[]), false, 0).is_err());
    match f.construct_query("set", &v(&["arch=arm", "k=v", "arch=x86"]), false, 0).unwrap() {
        Query::SetValues(m) => {
            let m: StringMap = m;
            assert_eq!(m.len(), 2);
            assert_eq!(m[0], (s("arch"), s("x86")));
        }
        _ => panic!("expected set"),
    }
}

#[test]
fn construct_queries() {
    let mut f = flags();
    match f.construct_query("ls", &v(&["arch"]), true, 0).unwrap() {
        Query::Get(cols, c) => {
            assert_eq!(cols, v(&["addr", "name", "arch"]));
            assert_eq!(c, "ls");
        }
        _ => panic!("expected get"),
    }
    assert!(f.construct_query("run", &v(&["ls"]), true, 0).is_err());
    assert!(f.construct_query("frob", &v(&[]), false, 0).is_err());
    assert!(f.construct_query("group", &v(&[]), false, 0).is_err());
    assert!(matches!(f.construct_query("wait", &v(&[]), false, 0).unwrap(), Query::Wait));
    match f.construct_query("push-run", &v(&["f.sh", "tmp", "sh f.sh"]), false, 0).unwrap() {
        Query::Actions(qs) => {
            assert_eq!(qs.len(), 2);
            assert!(matches!(qs[0], Query::Copy(_)));
            assert!(matches!(qs[1], Query::Run(_)));
        }
        _ => panic!("expected actions"),
    }
    assert_eq!(f.construct_query("remove-group", &v(&["web"]), false, 0).unwrap().to_json().dump(), "{\"rma\":{\"groups\":\"web\"}}");
    assert_eq!(f.construct_query("restart", &v(&[]), false, 0).unwrap().to_json().dump(), "{\"restart\":0}");
    assert_eq!(
        f.construct_query("run", &v(&["uptime", "tmp", "job1"]), false, 0).unwrap().to_json().dump(),
        "{\"run\":{\"cmd\":\"uptime\",\"pwd\":\"tmp\",\"job\":\"job1\"}}"
    );
    assert_eq!(Query::group("web").to_json().dump(), "{\"chain\":[{\"get\":[\"addr\",\"name\"]},{\"seta\":{\"groups\":\"web\"}}]}");
    let mut g = flags();
    assert_eq!(g.remote_target_destination("node1:/tmp").unwrap(), "/tmp");
    assert_eq!(g.name_or_group, "node1");
    assert!(g.remote_target_destination("node2:/tmp").is_err());
}

fn alias(name: &str, source: AliasSource, def: moi::flags::AliasDef) -> moi::flags::AliasEntry {
    moi::flags::AliasEntry { name: s(name), source, def }
}

fn def(command: Option<&str>, args: &[&str], alias_line: Option<&str>) -> moi::flags::AliasDef {
    moi::flags::AliasDef {
        alias: alias_line.map(s),
        command: command.map(s),
        args: if command.is_some() { Some(v(args)) } else { None },
        filter: None,
        group: None,
        quiet: false,
        help: None,
        stages: Vec::new(),
    }
}

#[test]
fn alias_expansion() {
    let mut d = def(Some("run"), &["tar xf $1", "tmp"], None);
    d.filter = Some(s("role=$2"));
    let aliases = vec![
        alias("unpack", AliasSource::Inline, d),
        alias("arch", AliasSource::User, def(Some("ls"), &["arch"], None)),
        alias("arch", AliasSource::Local, def(Some("ls"), &["arch", "cpus"], None)),
        alias("loop", AliasSource::Inline, def(None, &[], Some("loop"))),
    ];
    let mut f = flags();
    let cmds = vec![CommandArgs { command: s("unpack"), arguments: v(&["pkg.tar", "web"]) }];
    let q = f.construct_query_alias(&aliases, &cmds, true, 0, 8).unwrap();
    assert_eq!(q.to_json().dump(), "{\"run\":{\"cmd\":\"tar xf pkg.tar\",\"pwd\":\"tmp\",\"job\":null}}");
    assert_eq!(f.filter_desc, "role=web");
    let cmds = vec![CommandArgs { command: s("arch"), arguments: v(&[]) }];
    match flags().construct_query_alias(&aliases, &cmds, false, 0, 8).unwrap() {
        Query::Get(cols, _) => assert_eq!(cols, v(&["addr", "name", "arch", "cpus"])),
        _ => panic!("local definition first"),
    }
    let cmds = vec![CommandArgs { command: s("loop"), arguments: v(&[]) }];
    assert!(flags().construct_query_alias(&aliases, &cmds, false, 0, 8).is_err());
    let cmds = vec![CommandArgs { command: s("run"), arguments: v(&["reboot"]) }];
    assert!(flags().construct_query_alias(&aliases, &cmds, true, 0, 8).is_err());
    let cmds = vec![
        CommandArgs { command: s("ls"), arguments: v(&[]) },
        CommandArgs { command: s("wait"), arguments: v(&[]) },
    ];
    match flags().construct_query_alias(&aliases, &cmds, false, 0, 8).unwrap() {
        Query::Actions(qs) => assert_eq!(qs.len(), 2),
        _ => panic!("expected a pipeline"),
    }
}

#[test]
fn alias_stages() {
    let mut d = def(None, &[], None);
    d.stages = vec![def(Some("push"), &["$1", "tmp"], None), def(Some("run"), &["sh $(1:base)", "tmp"], None)];
    let aliases = vec![alias("deploy", AliasSource::Inline, d)];
    let cmds = vec![CommandArgs { command: s("deploy"), arguments: v(&["./x/setup.sh"]) }];
    match flags().construct_query_alias(&aliases, &cmds, false, 0, 8).unwrap() {
        Query::Actions(qs) => {
            assert_eq!(qs.len(), 2);
            assert!(matches!(&qs[0], Query::Copy(cf) if cf.filename == "setup.sh"));
            assert_eq!(qs[1].to_json().dump(), "{\"run\":{\"cmd\":\"sh setup.sh\",\"pwd\":\"tmp\",\"job\":null}}");
        }
        _ => panic!("expected two stages"),
    }
}

#[test]
fn restricted_mode_allows_read_only_commands() {
    let mut f = flags();
    assert!(f.construct_query("time", &v(&[]), true, 0).is_ok());
    assert!(matches!(f.construct_query("ping", &v(&[]), true, 7).unwrap(), Query::Ping(7)));
    assert!(f.construct_query("set", &v(&["a=b"]), true, 0).is_err());
    assert_eq!(f.filter_desc, "none");
    assert_eq!(f.name_or_group, "none");
}
