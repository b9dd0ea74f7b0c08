use local_fqdn_filter::{CheckList, CheckStatus, CompositeCheckList};

#[test]
fn test_check() {
    let mut allowlist = CheckList::in_memory();
    allowlist.add("example.com");
    allowlist.add("example.org");

    let mut denylist = CheckList::in_memory();
    denylist.add("example.org");

    let list = CompositeCheckList::new(allowlist, denylist);
    assert_eq!(CheckStatus::Deny, list.check("example.org"));
    assert_eq!(CheckStatus::Allow, list.check("example.com"));
    assert_eq!(CheckStatus::NotFound, list.check("example.net"));
}

#[test]
fn deny_pattern_wins_over_allowed_name() {
    let mut allowlist = CheckList::in_memory();
    allowlist.add("a.bad.test");
    let mut denylist = CheckList::in_memory();
    denylist.add("*.bad.test");
    let list = CompositeCheckList::new(allowlist, denylist);
    assert_eq!(CheckStatus::Deny, list.check("a.bad.test"));
    assert_eq!(CheckStatus::NotFound, list.check("bad.test"));
}
