use cf_switch::registry::{replay, Config, Edit, Profile, ProfileError};

fn profile(email: &str, token: &str, zone: Option<&str>) -> Profile {
    Profile::new(email.to_string(), token.to_string(), zone.map(|z| z.to_string()))
}

fn names(c: &Config) -> Vec<String> {
    c.names()
}

#[test]
fn new_config_is_empty() {
    let c = Config::new();
    assert!(c.is_empty());
    assert_eq!(c.len(), 0);
    assert!(c.current().is_none());
    assert!(c.list().is_empty());
}

#[test]
fn names_come_out_in_lexical_order() {
    let mut c = Config::new();
    for n in ["work", "b", "a", "ab", "B", "personal"] {
        assert_eq!(c.add(n.to_string(), profile("e", "t", None)), Ok(()));
    }
    assert_eq!(names(&c), vec!["B", "a", "ab", "b", "personal", "work"]);
    assert_eq!(c.index_of("ab"), Some(2));
    assert_eq!(c.index_of("zz"), None);
    assert_eq!(c.name_at(4), "personal");
}

#[test]
fn add_twice_is_rejected_and_keeps_first() {
    let mut c = Config::new();
    assert_eq!(c.add("work".to_string(), profile("e1", "t1", Some("a.com"))), Ok(()));
    let second = c.add("work".to_string(), profile("e2", "t2", None));
    assert_eq!(second, Err(ProfileError::AlreadyExists("work".to_string())));
    assert_eq!(second.unwrap_err().exit_code(), 1);
    let p = c.get("work").unwrap();
    assert_eq!(p.email, "e1");
    assert_eq!(p.token, "t1");
    assert_eq!(p.zone.as_deref(), Some("a.com"));
    assert_eq!(c.len(), 1);
}

#[test]
fn get_and_contains() {
    let mut c = Config::new();
    c.add("x".to_string(), profile("ex", "tx", None)).unwrap();
    assert!(c.contains("x"));
    assert!(!c.contains("y"));
    assert!(c.get("y").is_none());
    assert_eq!(c.get("x").unwrap().email, "ex");
}

#[test]
fn removing_active_profile_clears_current() {
    let mut c = Config::new();
    c.add("a".to_string(), profile("ea", "ta", None)).unwrap();
    c.add("b".to_string(), profile("eb", "tb", None)).unwrap();
    c.set_current(Some("a".to_string()));
    let removed = c.remove("a").unwrap();
    assert_eq!(removed.email, "ea");
    assert!(c.current().is_none());
    assert_eq!(names(&c), vec!["b"]);
}

#[test]
fn removing_other_profile_keeps_current() {
    let mut c = Config::new();
    c.add("a".to_string(), profile("ea", "ta", None)).unwrap();
    c.add("b".to_string(), profile("eb", "tb", None)).unwrap();
    c.set_current(Some("a".to_string()));
    c.remove("b").unwrap();
    assert_eq!(c.current().map(|s| s.as_str()), Some("a"));
    assert_eq!(names(&c), vec!["a"]);
}

#[test]
fn removing_missing_profile_fails() {
    let mut c = Config::new();
    c.add("a".to_string(), profile("ea", "ta", None)).unwrap();
    let r = c.remove("zz");
    assert_eq!(r.err(), Some(ProfileError::NotFound("zz".to_string())));
    assert_eq!(names(&c), vec!["a"]);
}

#[test]
fn list_marks_the_active_profile() {
    let mut c = Config::new();
    c.add("work".to_string(), profile("e1", "t1", None)).unwrap();
    c.add("personal".to_string(), profile("e2", "t2", Some("example.com"))).unwrap();
    c.set_current(Some("work".to_string()));
    let l = c.list();
    assert_eq!(l.len(), 2);
    assert_eq!(l[0].name, "personal");
    assert_eq!(l[0].profile.email, "e2");
    assert!(!l[0].active);
    assert_eq!(l[1].name, "work");
    assert!(l[1].active);
}

#[test]
fn replay_is_set_algebra() {
    let mut c = Config::new();
    c.add("keep".to_string(), profile("k", "k", None)).unwrap();
    c.add("drop".to_string(), profile("d", "d", None)).unwrap();
    let edits = vec![
        Edit::Add { name: "new1".to_string(), profile: profile("n1", "n1", None) },
        Edit::Remove("drop".to_string()),
        Edit::Add { name: "new2".to_string(), profile: profile("n2", "n2", None) },
        Edit::Remove("absent".to_string()),
    ];
    let results = replay(&mut c, &edits);
    assert_eq!(results.len(), 4);
    assert_eq!(results[0], Ok(()));
    assert_eq!(results[1], Ok(()));
    assert_eq!(results[3], Err(ProfileError::NotFound("absent".to_string())));
    assert_eq!(names(&c), vec!["keep", "new1", "new2"]);

    let mut other = Config::new();
    other.add("keep".to_string(), profile("k", "k", None)).unwrap();
    other.add("drop".to_string(), profile("d", "d", None)).unwrap();
    let reordered = vec![
        Edit::Remove("absent".to_string()),
        Edit::Add { name: "new2".to_string(), profile: profile("n2", "n2", None) },
        Edit::Remove("drop".to_string()),
        Edit::Add { name: "new1".to_string(), profile: profile("n1", "n1", None) },
    ];
    replay(&mut other, &reordered);
    assert_eq!(names(&other), names(&c));
}

#[test]
fn duplicate_keeps_every_field() {
    let p = profile("e", "t", Some("z.org"));
    let q = p.duplicate();
    assert_eq!(q.email, "e");
    assert_eq!(q.token, "t");
    assert_eq!(q.zone.as_deref(), Some("z.org"));
}
