use dsesh::{
    config_path_in, contains_text, expand_tilde_in, find_session, find_session_index, join_path,
    list_sessions, parent_of, plan, resolve_import, same_text, working_dir, ConfigDocument, Loader,
    Phase, Plan, Session, Step,
};

fn session(name: &str) -> Session {
    Session { name: name.to_string(), path: None, startup_command: format!("echo {}", name) }
}

fn doc(imports: &[&str], names: &[&str]) -> ConfigDocument {
    ConfigDocument {
        import: imports.iter().map(|s| s.to_string()).collect(),
        session: names.iter().map(|n| session(n)).collect(),
    }
}

fn names(v: &[Session]) -> Vec<String> {
    v.iter().map(|s| s.name.clone()).collect()
}

fn expect_open(l: &mut Loader) -> String {
    match l.advance() {
        Step::Open(p) => p,
        _ => panic!("expected a path to open"),
    }
}

fn expect_done(l: &mut Loader) -> Vec<Session> {
    loop {
        match l.advance() {
            Step::Merged => continue,
            Step::Done(v) => return v,
            Step::Open(p) => panic!("unexpected open of {}", p),
        }
    }
}

fn args(a: &[&str]) -> Vec<String> {
    a.iter().map(|s| s.to_string()).collect()
}

#[test]
fn home_marker_alone_is_home() {
    assert_eq!(expand_tilde_in("~", Some("/home/u")), "/home/u");
}

#[test]
fn home_marker_prefix_joins_rest() {
    assert_eq!(expand_tilde_in("~/x/y", Some("/home/u")), "/home/u/x/y");
    assert_eq!(expand_tilde_in("~/", Some("/home/u")), "/home/u/");
}

#[test]
fn other_paths_pass_through() {
    assert_eq!(expand_tilde_in("/abs/path", Some("/home/u")), "/abs/path");
    assert_eq!(expand_tilde_in("rel/path", Some("/home/u")), "rel/path");
    assert_eq!(expand_tilde_in("~user/x", Some("/home/u")), "~user/x");
}

#[test]
fn unknown_home_leaves_marker() {
    assert_eq!(expand_tilde_in("~", None), "~");
    assert_eq!(expand_tilde_in("~/x", None), "~/x");
}

#[test]
fn join_follows_unix_rules() {
    assert_eq!(join_path("/cfg", "a.toml"), "/cfg/a.toml");
    assert_eq!(join_path("/", "a.toml"), "/a.toml");
    assert_eq!(join_path("/cfg", "/etc/a.toml"), "/etc/a.toml");
    assert_eq!(join_path("", "a.toml"), "a.toml");
}

#[test]
fn parent_of_canonical_paths() {
    assert_eq!(parent_of("/cfg/main.toml"), "/cfg");
    assert_eq!(parent_of("/main.toml"), "/");
    assert_eq!(parent_of("main.toml"), "");
}

#[test]
fn relative_import_resolves_against_importing_file() {
    let dir = parent_of("/cfg/main.toml");
    assert_eq!(resolve_import(&dir, "sub/extra.toml", Some("/home/u")), "/cfg/sub/extra.toml");
    assert_eq!(resolve_import(&dir, "/abs/x.toml", Some("/home/u")), "/abs/x.toml");
    assert_eq!(resolve_import(&dir, "~/more.toml", Some("/home/u")), "/home/u/more.toml");
}

#[test]
fn config_path_under_home() {
    assert_eq!(config_path_in("/home/u"), "/home/u/.config/sesh/sesh.toml");
}

#[test]
fn loader_hands_out_relative_import() {
    let mut l = Loader::new("/cfg/main.toml", Some("/home/u".to_string()));
    assert!(l.enter("/cfg/main.toml".to_string()));
    l.open(doc(&["sub/extra.toml"], &[]));
    assert_eq!(expect_open(&mut l), "/cfg/sub/extra.toml");
}

#[test]
fn mutual_imports_load_each_file_once() {
    let mut l = Loader::new("/cfg/a.toml", None);
    assert_eq!(l.phase(), Phase::Awaiting);
    assert!(l.enter("/cfg/a.toml".to_string()));
    assert_eq!(l.phase(), Phase::Pending);
    l.open(doc(&["b.toml"], &["a1"]));
    assert_eq!(expect_open(&mut l), "/cfg/b.toml");
    assert!(l.enter("/cfg/b.toml".to_string()));
    l.open(doc(&["a.toml"], &["b1"]));
    assert_eq!(expect_open(&mut l), "/cfg/a.toml");
    assert!(!l.enter("/cfg/a.toml".to_string()));
    let all = expect_done(&mut l);
    assert_eq!(names(&all), vec!["b1", "a1"]);
    assert_eq!(l.phase(), Phase::Finished);
}

#[test]
fn self_import_is_ignored() {
    let mut l = Loader::new("/cfg/a.toml", None);
    assert!(l.enter("/cfg/a.toml".to_string()));
    l.open(doc(&["a.toml"], &["a1"]));
    assert_eq!(expect_open(&mut l), "/cfg/a.toml");
    assert!(!l.enter("/cfg/a.toml".to_string()));
    assert_eq!(names(&expect_done(&mut l)), vec!["a1"]);
}

#[test]
fn imports_come_in_order_before_locals() {
    let mut l = Loader::new("/cfg/main.toml", None);
    assert!(l.enter("/cfg/main.toml".to_string()));
    l.open(doc(&["x.toml", "y.toml"], &["s1"]));
    assert_eq!(expect_open(&mut l), "/cfg/x.toml");
    assert!(l.enter("/cfg/x.toml".to_string()));
    l.open(doc(&[], &["x1", "x2"]));
    assert!(matches!(l.advance(), Step::Merged));
    assert_eq!(expect_open(&mut l), "/cfg/y.toml");
    assert!(l.enter("/cfg/y.toml".to_string()));
    l.open(doc(&[], &["y1"]));
    assert_eq!(names(&expect_done(&mut l)), vec!["x1", "x2", "y1", "s1"]);
}

#[test]
fn shared_import_contributes_once() {
    let mut l = Loader::new("/cfg/a.toml", None);
    assert!(l.enter("/cfg/a.toml".to_string()));
    l.open(doc(&["b.toml", "c.toml"], &["a1"]));
    assert_eq!(expect_open(&mut l), "/cfg/b.toml");
    assert!(l.enter("/cfg/b.toml".to_string()));
    l.open(doc(&["d.toml"], &["b1"]));
    assert_eq!(expect_open(&mut l), "/cfg/d.toml");
    assert!(l.enter("/cfg/d.toml".to_string()));
    l.open(doc(&[], &["d1"]));
    assert!(matches!(l.advance(), Step::Merged));
    assert!(matches!(l.advance(), Step::Merged));
    assert_eq!(expect_open(&mut l), "/cfg/c.toml");
    assert!(l.enter("/cfg/c.toml".to_string()));
    l.open(doc(&["d.toml"], &["c1"]));
    assert_eq!(expect_open(&mut l), "/cfg/d.toml");
    assert!(!l.enter("/cfg/d.toml".to_string()));
    assert_eq!(names(&expect_done(&mut l)), vec!["d1", "b1", "c1", "a1"]);
}

#[test]
fn empty_document_gives_no_sessions() {
    let mut l = Loader::new("/cfg/a.toml", None);
    assert!(l.enter("/cfg/a.toml".to_string()));
    l.open(doc(&[], &[]));
    assert!(expect_done(&mut l).is_empty());
}

#[test]
fn duplicate_names_are_kept() {
    let mut l = Loader::new("/cfg/a.toml", None);
    assert!(l.enter("/cfg/a.toml".to_string()));
    l.open(doc(&[], &["w", "w"]));
    assert_eq!(names(&expect_done(&mut l)), vec!["w", "w"]);
}

#[test]
fn filter_is_case_insensitive_substring() {
    let ss = vec![session("Work"), session("Home"), session("Workshop")];
    assert_eq!(list_sessions(&ss, Some("work")), vec!["Work", "Workshop"]);
    assert_eq!(list_sessions(&ss, Some("WORK")), vec!["Work", "Workshop"]);
    assert_eq!(list_sessions(&ss, Some("shop")), vec!["Workshop"]);
}

#[test]
fn empty_filter_lists_all() {
    let ss = vec![session("Work"), session("Home"), session("Workshop")];
    assert_eq!(list_sessions(&ss, Some("")), vec!["Work", "Home", "Workshop"]);
    assert_eq!(list_sessions(&ss, None), vec!["Work", "Home", "Workshop"]);
}

#[test]
fn filter_without_match_lists_nothing() {
    let ss = vec![session("Work"), session("Home")];
    assert!(list_sessions(&ss, Some("zzz")).is_empty());
    assert!(list_sessions(&[], Some("a")).is_empty());
}

#[test]
fn find_trims_whitespace() {
    let ss = vec![session("web"), session("db ")];
    assert_eq!(find_session(&ss, "db").map(|s| s.name.as_str()), Some("db "));
    assert_eq!(find_session(&ss, " db ").map(|s| s.name.as_str()), Some("db "));
    assert_eq!(find_session_index(&ss, "\tdb\n"), Some(1));
}

#[test]
fn find_takes_first_of_duplicates() {
    let mut ss = vec![session("a"), session("x"), session("x")];
    ss[2].startup_command = "second".to_string();
    assert_eq!(find_session_index(&ss, "x"), Some(1));
    assert_eq!(find_session(&ss, "x").map(|s| s.startup_command.as_str()), Some("echo x"));
}

#[test]
fn find_unknown_is_none() {
    let ss = vec![session("a")];
    assert!(find_session(&ss, "b").is_none());
    assert!(find_session(&ss, "A").is_none());
}

#[test]
fn text_helpers() {
    assert!(same_text("abc", "abc"));
    assert!(!same_text("abc", "abd"));
    assert!(!same_text("ab", "abc"));
    assert!(contains_text("workshop", "shop"));
    assert!(contains_text("abc", ""));
    assert!(!contains_text("ab", "abc"));
    assert!(!contains_text("workshop", "hops"));
}

#[test]
fn no_arguments_is_help() {
    assert!(matches!(plan(&[], &[session("a")]), Plan::Help));
}

#[test]
fn list_plan_prints_filtered_names() {
    let ss = vec![session("Work"), session("Home")];
    match plan(&args(&["list", "home"]), &ss) {
        Plan::Print(v) => assert_eq!(v, vec!["Home"]),
        _ => panic!("expected names"),
    }
    match plan(&args(&["list"]), &ss) {
        Plan::Print(v) => assert_eq!(v, vec!["Work", "Home"]),
        _ => panic!("expected names"),
    }
}

#[test]
fn list_with_no_match_succeeds_empty() {
    match plan(&args(&["list", "nothing"]), &[session("a")]) {
        Plan::Print(v) => assert!(v.is_empty()),
        _ => panic!("expected names"),
    }
}

#[test]
fn connect_unknown_fails_naming_it() {
    match plan(&args(&["connect", "nonexistent"]), &[session("a")]) {
        Plan::Fail(m) => {
            assert!(m.contains("nonexistent"));
            assert_eq!(m, "No such session: nonexistent");
        }
        _ => panic!("expected failure"),
    }
}

#[test]
fn connect_empty_name_is_quiet() {
    assert!(matches!(plan(&args(&["connect", ""]), &[session("a")]), Plan::Quiet));
}

#[test]
fn connect_without_name_fails() {
    match plan(&args(&["connect"]), &[session("a")]) {
        Plan::Fail(m) => assert_eq!(m, "connect requires a session name"),
        _ => panic!("expected failure"),
    }
}

#[test]
fn connect_known_launches_first_match() {
    let ss = vec![session("a"), session(" b"), session("b")];
    assert!(matches!(plan(&args(&["connect", "b "]), &ss), Plan::Launch(1)));
}

#[test]
fn unknown_command_fails() {
    match plan(&args(&["frobnicate"]), &[]) {
        Plan::Fail(m) => assert_eq!(m, "Unknown command: frobnicate"),
        _ => panic!("expected failure"),
    }
}

#[test]
fn working_dir_of_session() {
    let mut s = session("a");
    assert_eq!(working_dir(&s), None);
    s.path = Some("/srv".to_string());
    assert_eq!(working_dir(&s), Some("/srv".to_string()));
    s.path = Some("rel/dir".to_string());
    assert_eq!(working_dir(&s), Some("rel/dir".to_string()));
}
