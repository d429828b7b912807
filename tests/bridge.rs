use cf_switch::bridge::{
    classify_dns_record, classify_purge, dns_record_request, purge_request, resolve_zone,
    BridgeError, DnsRecordResult, PurgeResult, RunOutcome,
};
use cf_switch::hook::{detect_shell, hook_flavor, hook_lines, ShellFlavor};
use cf_switch::registry::{Config, Profile};

fn config_with(current: Option<&str>) -> Config {
    let mut c = Config::new();
    c.add("work".to_string(), Profile::new("e1".to_string(), "t1".to_string(), None)).unwrap();
    c.add(
        "personal".to_string(),
        Profile::new("e2".to_string(), "t2".to_string(), Some("example.com".to_string())),
    )
    .unwrap();
    c.set_current(current.map(|s| s.to_string()));
    c
}

fn exited(success: bool, stdout: &str, stderr: &str) -> RunOutcome {
    RunOutcome::Exited { success, stdout: stdout.to_string(), stderr: stderr.to_string() }
}

#[test]
fn purge_without_active_profile_fails() {
    let c = config_with(None);
    let e = purge_request(&c, Some("x.com".to_string())).err().unwrap();
    assert_eq!(e, BridgeError::NoActiveProfile);
    assert_eq!(e.exit_code(), 1);
}

#[test]
fn purge_with_dangling_current_fails() {
    let c = config_with(Some("gone"));
    let e = purge_request(&c, None).err().unwrap();
    assert_eq!(e, BridgeError::DanglingCurrent("gone".to_string()));
}

#[test]
fn purge_without_any_zone_fails() {
    let c = config_with(Some("work"));
    let e = purge_request(&c, None).err().unwrap();
    assert_eq!(e, BridgeError::NoZoneSpecified("work".to_string()));
}

#[test]
fn explicit_zone_wins_over_default() {
    assert_eq!(
        resolve_zone(Some("a.com".to_string()), &Some("b.com".to_string())).as_deref(),
        Some("a.com")
    );
    assert_eq!(resolve_zone(None, &Some("b.com".to_string())).as_deref(), Some("b.com"));
    assert_eq!(resolve_zone(None, &None), None);
    let c = config_with(Some("personal"));
    assert_eq!(purge_request(&c, Some("other.org".to_string())).unwrap().target, "other.org");
    assert_eq!(purge_request(&c, None).unwrap().target, "example.com");
}

#[test]
fn purge_request_is_exact() {
    let c = config_with(Some("personal"));
    let inv = purge_request(&c, None).unwrap();
    assert_eq!(inv.program, "flarectl");
    assert_eq!(inv.args, vec!["zone", "purge", "--zone", "example.com", "--everything"]);
    let env: Vec<(String, String)> = inv.env.iter().map(|v| (v.key.clone(), v.value.clone())).collect();
    assert_eq!(
        env,
        vec![
            ("CF_API_EMAIL".to_string(), "e2".to_string()),
            ("CF_API_TOKEN".to_string(), "t2".to_string()),
            ("CF_API_KEY".to_string(), "t2".to_string()),
        ]
    );
    assert_eq!(inv.profile, "personal");
}

#[test]
fn dns_record_request_is_exact() {
    let c = config_with(Some("work"));
    let inv = dns_record_request(&c, Some("myapp.com".to_string())).unwrap();
    assert_eq!(
        inv.args,
        vec![
            "dns", "create", "--zone", "myapp.com", "--type", "CNAME", "--name", "@", "--content",
            "apps.lamdera.app", "--proxy"
        ]
    );
    assert_eq!(inv.target, "myapp.com");
    let e = dns_record_request(&c, None).err().unwrap();
    assert_eq!(e, BridgeError::NoZoneSpecified("work".to_string()));
}

#[test]
fn purge_outcomes() {
    let ok = classify_purge(exited(true, "", ""));
    assert_eq!(ok, PurgeResult::Purged);
    assert_eq!(ok.exit_code(), 0);
    let failed = classify_purge(exited(false, "out", "bad zone"));
    assert_eq!(failed, PurgeResult::Failed("bad zone".to_string()));
    assert_eq!(failed.exit_code(), 1);
    let missing = classify_purge(RunOutcome::NotLaunched("not found".to_string()));
    assert_eq!(missing, PurgeResult::BinaryMissing("not found".to_string()));
    assert_eq!(missing.exit_code(), 1);
}

#[test]
fn dns_record_already_exists_is_success() {
    let r = classify_dns_record("example.com", exited(false, "", "Error: record already exists"));
    assert_eq!(r, DnsRecordResult::AlreadyExists);
    assert_eq!(r.exit_code(), 0);
    let r2 = classify_dns_record("example.com", exited(false, "it already exists!", ""));
    assert_eq!(r2, DnsRecordResult::AlreadyExists);
}

#[test]
fn dns_record_created_gives_urls() {
    let r = classify_dns_record("my.app.com", exited(true, "", ""));
    assert_eq!(
        r,
        DnsRecordResult::Created {
            site_url: "https://my.app.com/".to_string(),
            app_url: "https://my-app-com.lamdera.app/".to_string(),
        }
    );
    assert_eq!(r.exit_code(), 0);
}

#[test]
fn dns_record_other_failure() {
    let r = classify_dns_record("x.com", exited(false, "out", "err "));
    assert_eq!(r, DnsRecordResult::Failed("err out".to_string()));
    assert_eq!(r.exit_code(), 1);
    let m = classify_dns_record("x.com", RunOutcome::NotLaunched("no such file".to_string()));
    assert_eq!(m, DnsRecordResult::BinaryMissing("no such file".to_string()));
    assert_eq!(m.exit_code(), 1);
}

#[test]
fn shell_detection_and_hook() {
    assert_eq!(detect_shell("/usr/bin/fish"), "fish");
    assert_eq!(detect_shell("/bin/bash"), "bash");
    assert_eq!(detect_shell("zsh"), "zsh");
    assert_eq!(detect_shell(""), "");
    assert_eq!(hook_flavor("fish"), ShellFlavor::Fish);
    assert_eq!(hook_flavor("bash"), ShellFlavor::Posix);
    assert_eq!(hook_flavor(""), ShellFlavor::Posix);
    assert_eq!(hook_lines(ShellFlavor::Fish)[2], "    cf-switch $argv | source");
    assert_eq!(hook_lines(ShellFlavor::Posix), vec!["# ~/.bashrc or ~/.zshrc", "cfs() { eval \"$(cf-switch \"$@\")\"; }"]);
}
