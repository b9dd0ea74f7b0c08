use local_fqdn_filter::ipctl::{dispatch, on_ipctl, on_ipctl_query, split_words, IpctlReply};
use local_fqdn_filter::{CheckList, CompositeCheckList};

fn text(r: IpctlReply) -> String {
    match r {
        IpctlReply::Text(t) => t,
        _ => panic!("expected a text reply"),
    }
}

#[test]
fn ipctl_sequence() {
    let mut lists = CompositeCheckList::new(CheckList::in_memory(), CheckList::in_memory());
    assert_eq!("Add a.test to AllowList", text(on_ipctl("allow a.test", &mut lists)));
    assert_eq!("a.test is already in AllowList", text(on_ipctl("allow a.test", &mut lists)));
    assert_eq!("Remove a.test from AllowList", text(on_ipctl("deny a.test", &mut lists)));
    assert_eq!("Failed to save allowlist: In-memory mode", text(on_ipctl("save", &mut lists)));
}

#[test]
fn ipctl_verbs_ignore_case_and_check_arguments() {
    let mut lists = CompositeCheckList::new(CheckList::in_memory(), CheckList::in_memory());
    assert_eq!("Add b.test to AllowList", text(on_ipctl("ALLOW b.test", &mut lists)));
    assert_eq!("Remove b.test from AllowList", text(on_ipctl("Deny b.test", &mut lists)));
    assert_eq!("b.test is not in AllowList", text(on_ipctl("deny b.test", &mut lists)));
    assert_eq!("Invalid command: allow", text(on_ipctl("allow", &mut lists)));
    assert_eq!("Invalid command: frobnicate x", text(on_ipctl("frobnicate x", &mut lists)));
    match on_ipctl("log debug", &mut lists) {
        IpctlReply::SetLogLevel(l) => assert_eq!("debug", l),
        _ => panic!("expected a log level"),
    }
}

#[test]
fn ipctl_list_and_save() {
    let mut lists = CompositeCheckList::new(CheckList::text("/tmp/allow.txt".to_string(), "b.test\n"), CheckList::in_memory());
    on_ipctl("allow *.a.test", &mut lists);
    assert_eq!("b.test\n*.a.test", text(on_ipctl("list", &mut lists)));
    match on_ipctl("save", &mut lists) {
        IpctlReply::Save { path, text } => {
            assert_eq!("/tmp/allow.txt", path);
            assert_eq!("b.test\n*.a.test\n", text);
        }
        _ => panic!("expected a save"),
    }
    assert_eq!("x.test is not in AllowList", text(on_ipctl("deny x.test", &mut lists)));
}

#[test]
fn dispatch_takes_the_lowercased_verb() {
    let mut lists = CompositeCheckList::new(CheckList::in_memory(), CheckList::in_memory());
    let words = split_words("ALLOW c.test");
    assert_eq!(vec!["ALLOW".to_string(), "c.test".to_string()], words);
    assert_eq!("Add c.test to AllowList", text(dispatch("allow", &words, "ALLOW c.test", &mut lists)));
    assert_eq!("Invalid command: ALLOW c.test", text(dispatch("ALLOW", &words, "ALLOW c.test", &mut lists)));
    assert_eq!(vec!["a".to_string(), "".to_string(), "b".to_string()], split_words("a  b"));
}

#[test]
fn read_only_commands_need_no_write_access() {
    let lists = CompositeCheckList::new(CheckList::text("/tmp/r.txt".to_string(), "b.test\n*.a.test\n"), CheckList::in_memory());
    assert!(on_ipctl_query("allow x.test", &lists).is_none());
    assert!(on_ipctl_query("Deny x.test", &lists).is_none());
    assert_eq!("b.test\n*.a.test", text(on_ipctl_query("LIST", &lists).unwrap()));
    assert!(matches!(on_ipctl_query("save", &lists), Some(IpctlReply::Save { .. })));
    assert_eq!("Invalid command: log", text(on_ipctl_query("log", &lists).unwrap()));
}
