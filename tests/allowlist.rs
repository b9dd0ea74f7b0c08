use local_fqdn_filter::allowlist::{has_wildcard, AllowList, InMemoryAllowList};
use local_fqdn_filter::Error;

fn has(v: &Vec<String>, s: &str) -> bool {
    v.iter().any(|x| x == s)
}

#[test]
fn test_inmemory_al_data() {
    let mut m = InMemoryAllowList::new();
    assert_eq!(None, m.path());
    assert_eq!(0, m.names().len());
    assert_eq!(0, m.wnames().len());
    assert_eq!(0, m.count());

    let name1 = "www.example.com";
    assert_eq!(1, m.add(name1));
    assert_eq!(1, m.names().len());
    assert_eq!(0, m.wnames().len());
    assert_eq!(1, m.count());
    assert!(has(m.names(), name1));
    assert_eq!(0, m.add(name1));
    assert_eq!(1, m.names().len());
    assert_eq!(0, m.wnames().len());
    assert_eq!(1, m.count());

    let name2 = "www.gnu.org";
    assert_eq!(1, m.add(name2));
    assert_eq!(2, m.names().len());
    assert_eq!(0, m.wnames().len());
    assert_eq!(2, m.count());
    assert!(has(m.names(), name1));
    assert!(has(m.names(), name2));
    assert_eq!(0, m.add(name2));
    assert_eq!(2, m.names().len());
    assert_eq!(0, m.wnames().len());
    assert_eq!(2, m.count());

    let name3 = "example.*";
    assert_eq!(1, m.add(name3));
    assert_eq!(2, m.names().len());
    assert_eq!(1, m.wnames().len());
    assert_eq!(3, m.count());
    assert!(has(m.names(), name1));
    assert!(has(m.names(), name2));
    assert!(has(m.wnames(), name3));
    assert_eq!(0, m.add(name3));
    assert_eq!(2, m.names().len());
    assert_eq!(1, m.wnames().len());
    assert_eq!(3, m.count());

    let name4 = "*.debian.org";
    assert_eq!(1, m.add(name4));
    assert_eq!(2, m.names().len());
    assert_eq!(2, m.wnames().len());
    assert_eq!(4, m.count());
    assert!(has(m.names(), name1));
    assert!(has(m.names(), name2));
    assert!(has(m.wnames(), name3));
    assert!(has(m.wnames(), name4));
    assert_eq!(0, m.add(name4));
    assert_eq!(2, m.names().len());
    assert_eq!(2, m.wnames().len());
    assert_eq!(4, m.count());
}

#[test]
fn test_inmemory_al_check() {
    let mut m = InMemoryAllowList::new();
    m.add("www.example.com");
    m.add("www.gnu.org");
    m.add("example.*");
    m.add("*.debian.org");

    assert!(m.check("www.example.com"));
    assert!(m.check("www.gnu.org"));
    assert!(m.check("example.org"));
    assert!(m.check("example.co.jp"));
    assert!(m.check("deb.debian.org"));
    assert!(m.check("ftp.jp.debian.org"));

    assert!(!m.check("example"));
    assert!(!m.check("www.example"));
    assert!(!m.check("debian.org"));
    assert!(!m.check("www.google.co.jp"));
}

#[test]
fn add_twice_changes_membership_once() {
    let mut m = AllowList::in_memory();
    assert_eq!(1, m.add("a.test"));
    assert!(m.check("a.test"));
    assert_eq!(0, m.add("a.test"));
    assert!(m.check("a.test"));
    assert_eq!(1, m.count());
    assert_eq!(1, m.add("*.a.test"));
    assert_eq!(0, m.add("*.a.test"));
    assert_eq!(2, m.count());
}

#[test]
fn count_follows_adds_and_deletes() {
    let mut m = AllowList::in_memory();
    m.add("a.test");
    m.add("b.test");
    m.add("*.c.test");
    assert_eq!(3, m.count());
    assert_eq!(1, m.delete("a.test"));
    assert_eq!(2, m.count());
    assert_eq!(0, m.delete("a.test"));
    assert_eq!(2, m.count());
    m.add("a.test");
    assert_eq!(3, m.count());
}

#[test]
fn added_name_is_checked() {
    let mut m = AllowList::in_memory();
    assert!(!m.check("x.test"));
    assert_eq!(1, m.add("x.test"));
    assert!(m.check("x.test"));
    assert_eq!(1, m.add("x?*"));
    assert!(m.check("x?*"));
}

#[test]
fn wildcard_pattern_matches_subdomains_only() {
    let mut m = AllowList::in_memory();
    m.add("*.example.com");
    assert!(m.check("a.example.com"));
    assert!(m.check("a.b.example.com"));
    assert!(!m.check("example.com"));
}

#[test]
fn question_mark_matches_one_character() {
    let mut m = AllowList::in_memory();
    m.add("ww?.*");
    assert!(m.check("www.example.com"));
    assert!(!m.check("ww.example.com"));
    assert!(!m.check("wwww"));
}

#[test]
fn delete_leaves_patterns() {
    let mut m = AllowList::in_memory();
    m.add("*.example.com");
    assert_eq!(0, m.delete("*.example.com"));
    assert!(m.check("a.example.com"));
    assert_eq!(1, m.count());
}

#[test]
fn save_in_memory_fails() {
    let m = AllowList::in_memory();
    assert!(matches!(m.save(), Err(Error::SaveButInMemory)));
}

#[test]
fn save_writes_sorted_names_then_patterns() {
    let mut m = AllowList::text("/tmp/list.txt".to_string(), "");
    m.add("zeta.test");
    m.add("*.b.test");
    m.add("alpha.test");
    m.add("*.a.test");
    let (path, text) = m.save().ok().unwrap();
    assert_eq!("/tmp/list.txt", path);
    assert_eq!("alpha.test\nzeta.test\n*.a.test\n*.b.test\n", text);
}

#[test]
fn save_then_load_gives_the_same_list() {
    let mut m = AllowList::text("/tmp/l.txt".to_string(), "");
    m.add("www.example.com");
    m.add("*.debian.org");
    m.add("example.*");
    let (_, text) = m.save().ok().unwrap();
    let l = AllowList::text("/tmp/l.txt".to_string(), &text);
    assert_eq!(3, l.count());
    assert!(l.check("www.example.com"));
    assert!(l.check("ftp.debian.org"));
    assert!(l.check("example.net"));
    assert_eq!(text, l.save().ok().unwrap().1);
}

#[test]
fn load_reads_lines() {
    let l = AllowList::text("f".to_string(), "a.test\r\nb.test\n\n*.c.test");
    assert_eq!(4, l.count());
    assert!(l.check("a.test"));
    assert!(l.check("b.test"));
    assert!(l.check(""));
    assert!(l.check("x.c.test"));
    assert_eq!(Some("f".to_string()), l.path());
}

#[test]
fn iterator_walks_names_then_patterns() {
    let mut m = AllowList::in_memory();
    m.add("*.p.test");
    m.add("n.test");
    let mut it = m.iter();
    assert_eq!(Some("n.test".to_string()), it.next());
    assert_eq!(Some("*.p.test".to_string()), it.next());
    assert_eq!(None, it.next());
}

#[test]
fn wildcard_detection() {
    assert!(has_wildcard("*.a"));
    assert!(!has_wildcard("a.b"));
}

#[test]
fn last_line_without_line_feed_keeps_its_carriage_return() {
    let l = AllowList::text("f".to_string(), "a.test\r\nb.test\r");
    assert_eq!(2, l.count());
    assert!(l.check("a.test"));
    assert!(l.check("b.test\r"));
    assert!(!l.check("b.test"));
}
