use cf_switch::activation::{
    activate_next, env_file_content, next_profile_name, output_source_command, switch_to_profile,
};
use cf_switch::registry::{Config, Profile, ProfileError};

fn profile(email: &str, token: &str, zone: Option<&str>) -> Profile {
    Profile::new(email.to_string(), token.to_string(), zone.map(|z| z.to_string()))
}

fn two_profiles() -> Config {
    let mut c = Config::new();
    c.add("work".to_string(), profile("e1", "t1", None)).unwrap();
    c.add("personal".to_string(), profile("e2", "t2", Some("example.com"))).unwrap();
    c
}

#[test]
fn rotate_with_no_profiles_reports_and_changes_nothing() {
    let mut c = Config::new();
    let r = activate_next(&mut c);
    let e = r.err().unwrap();
    assert_eq!(e, ProfileError::NoProfiles);
    assert_eq!(e.exit_code(), 0);
    assert!(c.is_empty());
    assert!(c.current().is_none());
}

#[test]
fn first_rotation_picks_lexically_first() {
    let mut c = two_profiles();
    let a = activate_next(&mut c).unwrap();
    assert_eq!(a.name, "personal");
    assert_eq!(a.email, "e2");
    assert!(a.env_file.contains("export CF_API_EMAIL=\"e2\""));
    assert!(a.env_file.contains("export CF_API_TOKEN=\"t2\""));
    assert_eq!(c.current().map(|s| s.as_str()), Some("personal"));
}

#[test]
fn rotation_moves_to_next_and_wraps() {
    let mut c = two_profiles();
    c.set_current(Some("personal".to_string()));
    assert_eq!(activate_next(&mut c).unwrap().name, "work");
    assert_eq!(activate_next(&mut c).unwrap().name, "personal");
}

#[test]
fn rotation_from_dangling_current_starts_at_first() {
    let mut c = two_profiles();
    c.set_current(Some("gone".to_string()));
    assert_eq!(next_profile_name(&c).as_deref(), Some("personal"));
}

#[test]
fn rotation_visits_each_once_and_returns() {
    let mut c = Config::new();
    for n in ["c", "a", "b"] {
        c.add(n.to_string(), profile("e", "t", None)).unwrap();
    }
    c.set_current(Some("b".to_string()));
    let mut seen = Vec::new();
    for _ in 0..3 {
        seen.push(activate_next(&mut c).unwrap().name);
    }
    assert_eq!(seen, vec!["c", "a", "b"]);
    assert_eq!(c.current().map(|s| s.as_str()), Some("b"));
}

#[test]
fn next_name_of_empty_is_none() {
    assert!(next_profile_name(&Config::new()).is_none());
}

#[test]
fn switch_keeps_profiles_and_sets_current() {
    let mut c = two_profiles();
    let a = switch_to_profile(&mut c, "work").unwrap();
    assert_eq!(a.name, "work");
    assert_eq!(
        a.env_file,
        "# Cloudflare credentials - profile: work\nexport CF_API_EMAIL=\"e1\"\nexport CF_API_KEY=\"t1\"\nexport CF_API_TOKEN=\"t1\"\n"
    );
    assert_eq!(c.current().map(|s| s.as_str()), Some("work"));
    assert_eq!(c.names(), vec!["personal", "work"]);
    assert_eq!(c.get("personal").unwrap().email, "e2");
}

#[test]
fn switch_to_unknown_profile_fails() {
    let mut c = two_profiles();
    c.set_current(Some("work".to_string()));
    let r = switch_to_profile(&mut c, "nope");
    let e = r.err().unwrap();
    assert_eq!(e, ProfileError::NotFound("nope".to_string()));
    assert_eq!(e.exit_code(), 1);
    assert_eq!(c.current().map(|s| s.as_str()), Some("work"));
}

#[test]
fn env_file_text_is_exact() {
    let p = profile("me@x.io", "tok", None);
    assert_eq!(
        env_file_content("main", &p),
        "# Cloudflare credentials - profile: main\nexport CF_API_EMAIL=\"me@x.io\"\nexport CF_API_KEY=\"tok\"\nexport CF_API_TOKEN=\"tok\"\n"
    );
}

#[test]
fn source_command_names_the_file() {
    assert_eq!(output_source_command("/home/u/.cloudflare.env"), "source /home/u/.cloudflare.env");
}
