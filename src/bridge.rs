use vstd::prelude::*;

use crate::registry::{copy_optional_text, opt_text, Config, ConfigModel, Profile, ProfileModel};

verus! {

/// Why an operation of the external binary could not be set up.
#[derive(Debug, PartialEq, Eq)]
pub enum BridgeError {
    /// No profile is active.
    NoActiveProfile,
    /// The active name belongs to no registered profile.
    DanglingCurrent(String),
    /// Neither an argument nor the active profile gives a zone; holds the profile's name.
    NoZoneSpecified(String),
}

impl BridgeError {
    /// The process exit status that this condition maps to.
    pub fn exit_code(&self) -> (r: i32)
        ensures
            r == 1,
    {
        1
    }
}

/// The characters of each text, in order.
pub open spec fn texts(v: Seq<String>) -> Seq<Seq<char>> {
    v.map_values(|s: String| s@)
}

/// The characters of each variable name and value, in order.
pub open spec fn env_texts(v: Seq<EnvVar>) -> Seq<(Seq<char>, Seq<char>)> {
    v.map_values(|e: EnvVar| (e.key@, e.value@))
}

/// The zone an operation works on: the explicit one, else the profile's default.
pub open spec fn chosen_zone(explicit: Option<Seq<char>>, fallback: Option<Seq<char>>) -> Option<
    Seq<char>,
> {
    if explicit is Some {
        explicit
    } else {
        fallback
    }
}

/// The environment handed to the external binary: the email, and the
/// token both as API token and as API key.
pub open spec fn credential_env(p: ProfileModel) -> Seq<(Seq<char>, Seq<char>)> {
    seq![("CF_API_EMAIL"@, p.email), ("CF_API_TOKEN"@, p.token), ("CF_API_KEY"@, p.token)]
}

/// Arguments that purge the whole cache of a zone.
pub open spec fn purge_args(zone: Seq<char>) -> Seq<Seq<char>> {
    seq!["zone"@, "purge"@, "--zone"@, zone, "--everything"@]
}

/// Arguments that create a proxied CNAME record from the apex to the app host.
pub open spec fn dns_record_args(domain: Seq<char>) -> Seq<Seq<char>> {
    seq![
        "dns"@,
        "create"@,
        "--zone"@,
        domain,
        "--type"@,
        "CNAME"@,
        "--name"@,
        "@"@,
        "--content"@,
        "apps.lamdera.app"@,
        "--proxy"@,
    ]
}

/// Whether `needle` occurs as a contiguous part of `hay`.
pub open spec fn has_text(hay: Seq<char>, needle: Seq<char>) -> bool {
    exists|i: int|
        0 <= i && i + needle.len() <= hay.len() && #[trigger] hay.subrange(i, i + needle.len())
            == needle
}

/// Each '.' replaced by '-'.
pub open spec fn dots_to_dashes(s: Seq<char>) -> Seq<char> {
    s.map_values(|c: char| if c == '.' { '-' } else { c })
}

/// The outcome of the setup shared by both operations: the active name, its
/// profile and the zone, or the first condition that prevents them.
pub open spec fn setup_error(m: ConfigModel, explicit: Option<Seq<char>>) -> Option<BridgeErrorKind> {
    match m.current {
        None => Some(BridgeErrorKind::NoActiveProfile),
        Some(c) => if !m.profiles.contains_key(c) {
            Some(BridgeErrorKind::DanglingCurrent)
        } else if chosen_zone(explicit, m.profiles[c].zone) is None {
            Some(BridgeErrorKind::NoZoneSpecified)
        } else {
            None
        },
    }
}

/// The condition that an error stands for, without its text.
pub ghost enum BridgeErrorKind {
    NoActiveProfile,
    DanglingCurrent,
    NoZoneSpecified,
}

pub open spec fn kind_of(e: BridgeError) -> BridgeErrorKind {
    match e {
        BridgeError::NoActiveProfile => BridgeErrorKind::NoActiveProfile,
        BridgeError::DanglingCurrent(_) => BridgeErrorKind::DanglingCurrent,
        BridgeError::NoZoneSpecified(_) => BridgeErrorKind::NoZoneSpecified,
    }
}

/// One environment variable for the external binary.
pub struct EnvVar {
    pub key: String,
    pub value: String,
}

/// A run of the external binary, ready to be launched.
pub struct Invocation {
    pub program: String,
    pub args: Vec<String>,
    pub env: Vec<EnvVar>,
    /// The active profile whose credentials are used.
    pub profile: String,
    /// The zone or domain operated on.
    pub target: String,
}

/// What came of launching the external binary.
pub enum RunOutcome {
    Exited { success: bool, stdout: String, stderr: String },
    /// The binary could not be started; holds the reason given.
    NotLaunched(String),
}

/// How a purge ended.
#[derive(Debug, PartialEq, Eq)]
pub enum PurgeResult {
    Purged,
    /// The binary failed; holds its error output verbatim.
    Failed(String),
    /// The binary could not be started; holds the reason given.
    BinaryMissing(String),
}

/// How the creation of the app record ended.
#[derive(Debug, PartialEq, Eq)]
pub enum DnsRecordResult {
    /// Created; holds the two addresses to verify the app under.
    Created { site_url: String, app_url: String },
    /// The record was there already, which counts as success.
    AlreadyExists,
    /// The binary failed; holds its error output followed by its standard output.
    Failed(String),
    /// The binary could not be started; holds the reason given.
    BinaryMissing(String),
}

impl PurgeResult {
    pub fn exit_code(&self) -> (r: i32)
        ensures
            r == (if *self is Purged { 0i32 } else { 1i32 }),
    {
        match self {
            PurgeResult::Purged => 0,
            _ => 1,
        }
    }
}

impl DnsRecordResult {
    pub fn exit_code(&self) -> (r: i32)
        ensures
            r == (if *self is Created || *self is AlreadyExists { 0i32 } else { 1i32 }),
    {
        match self {
            DnsRecordResult::Created { .. } => 0,
            DnsRecordResult::AlreadyExists => 0,
            _ => 1,
        }
    }
}

/// Relies on `str::contains` with a `&str` pattern: whether `needle` occurs
/// in `hay` as a contiguous substring.
#[verifier::external_body]
fn contains_text(hay: &str, needle: &str) -> (r: bool)
    ensures
        r == has_text(hay@, needle@),
{
    hay.contains(needle)
}

/// Relies on `str::replace` with a `char` pattern: every '.' becomes "-".
#[verifier::external_body]
fn replace_dots(s: &str) -> (r: String)
    ensures
        r@ == dots_to_dashes(s@),
{
    s.replace('.', "-")
}

/// Picks the explicit zone when there is one, else the fallback.
pub fn resolve_zone(explicit: Option<String>, fallback: &Option<String>) -> (r: Option<String>)
    ensures
        opt_text(r) == chosen_zone(opt_text(explicit), opt_text(*fallback)),
{
    match explicit {
        Some(z) => Some(z),
        None => copy_optional_text(fallback),
    }
}

/// The active name and its profile.
pub fn active_profile(config: &Config) -> (r: Result<(&String, &Profile), BridgeError>)
    requires
        config.wf(),
    ensures
        match config@.current {
            None => r == Err::<(&String, &Profile), BridgeError>(BridgeError::NoActiveProfile),
            Some(c) => if config@.profiles.contains_key(c) {
                r matches Ok((n, p)) && n@ == c && p@ == config@.profiles[c]
            } else {
                r matches Err(BridgeError::DanglingCurrent(s)) && s@ == c
            },
        },
{
    match config.current() {
        None => Err(BridgeError::NoActiveProfile),
        Some(name) => match config.get(name.as_str()) {
            Some(profile) => Ok((name, profile)),
            None => Err(BridgeError::DanglingCurrent(name.clone())),
        },
    }
}

/// The environment that carries a profile's credentials.
pub fn credentials(profile: &Profile) -> (r: Vec<EnvVar>)
    ensures
        env_texts(r@) == credential_env(profile@),
{
    let mut r: Vec<EnvVar> = Vec::new();
    r.push(EnvVar { key: String::from_str("CF_API_EMAIL"), value: profile.email.clone() });
    r.push(EnvVar { key: String::from_str("CF_API_TOKEN"), value: profile.token.clone() });
    r.push(EnvVar { key: String::from_str("CF_API_KEY"), value: profile.token.clone() });
    assert(env_texts(r@) =~= credential_env(profile@));
    r
}

fn texts_of(items: Vec<&str>) -> (r: Vec<String>)
    ensures
        r@.len() == items@.len(),
        forall|i: int| 0 <= i < r@.len() ==> #[trigger] r@[i]@ == items@[i]@,
{
    let mut r: Vec<String> = Vec::new();
    let mut i: usize = 0;
    while i < items.len()
        invariant
            i <= items@.len(),
            r@.len() == i,
            forall|k: int| 0 <= k < i ==> #[trigger] r@[k]@ == items@[k]@,
        decreases items@.len() - i,
    {
        r.push(String::from_str(items[i]));
        i = i + 1;
    }
    r
}

/// Sets up a purge of the whole cache of the zone, using the active
/// profile's credentials.
pub fn purge_request(config: &Config, zone: Option<String>) -> (r: Result<Invocation, BridgeError>)
    requires
        config.wf(),
    ensures
        match setup_error(config@, opt_text(zone)) {
            Some(k) => r matches Err(e) && kind_of(e) == k,
            None => r is Ok,
        },
        r matches Err(BridgeError::DanglingCurrent(s)) ==> Some(s@) == config@.current,
        r matches Err(BridgeError::NoZoneSpecified(s)) ==> Some(s@) == config@.current,
        r matches Ok(inv) ==> {
            let c = config@.current->0;
            let z = chosen_zone(opt_text(zone), config@.profiles[c].zone)->0;
            &&& inv.program@ == "flarectl"@
            &&& texts(inv.args@) == purge_args(z)
            &&& env_texts(inv.env@) == credential_env(config@.profiles[c])
            &&& inv.profile@ == c
            &&& inv.target@ == z
        },
{
    let (name, profile) = match active_profile(config) {
        Ok(found) => found,
        Err(e) => {
            return Err(e);
        },
    };
    let target = match resolve_zone(zone, &profile.zone) {
        Some(z) => z,
        None => {
            return Err(BridgeError::NoZoneSpecified(name.clone()));
        },
    };
    let args = texts_of(vec!["zone", "purge", "--zone", target.as_str(), "--everything"]);
    proof {
        assert(texts(args@) =~= purge_args(target@));
    }
    Ok(Invocation {
        program: String::from_str("flarectl"),
        args,
        env: credentials(profile),
        profile: name.clone(),
        target,
    })
}

/// Sets up the creation of the app's DNS record for the domain, using the
/// active profile's credentials.
pub fn dns_record_request(config: &Config, domain: Option<String>) -> (r: Result<
    Invocation,
    BridgeError,
>)
    requires
        config.wf(),
    ensures
        match setup_error(config@, opt_text(domain)) {
            Some(k) => r matches Err(e) && kind_of(e) == k,
            None => r is Ok,
        },
        r matches Err(BridgeError::DanglingCurrent(s)) ==> Some(s@) == config@.current,
        r matches Err(BridgeError::NoZoneSpecified(s)) ==> Some(s@) == config@.current,
        r matches Ok(inv) ==> {
            let c = config@.current->0;
            let d = chosen_zone(opt_text(domain), config@.profiles[c].zone)->0;
            &&& inv.program@ == "flarectl"@
            &&& texts(inv.args@) == dns_record_args(d)
            &&& env_texts(inv.env@) == credential_env(config@.profiles[c])
            &&& inv.profile@ == c
            &&& inv.target@ == d
        },
{
    let (name, profile) = match active_profile(config) {
        Ok(found) => found,
        Err(e) => {
            return Err(e);
        },
    };
    let target = match resolve_zone(domain, &profile.zone) {
        Some(z) => z,
        None => {
            return Err(BridgeError::NoZoneSpecified(name.clone()));
        },
    };
    let args = texts_of(
        vec![
            "dns",
            "create",
            "--zone",
            target.as_str(),
            "--type",
            "CNAME",
            "--name",
            "@",
            "--content",
            "apps.lamdera.app",
            "--proxy",
        ],
    );
    proof {
        assert(texts(args@) =~= dns_record_args(target@));
    }
    Ok(Invocation {
        program: String::from_str("flarectl"),
        args,
        env: credentials(profile),
        profile: name.clone(),
        target,
    })
}

/// Classifies the end of a purge run.
pub fn classify_purge(outcome: RunOutcome) -> (r: PurgeResult)
    ensures
        match outcome {
            RunOutcome::Exited { success, stderr, .. } => if success {
                r == PurgeResult::Purged
            } else {
                r matches PurgeResult::Failed(s) && s@ == stderr@
            },
            RunOutcome::NotLaunched(why) => r matches PurgeResult::BinaryMissing(s) && s@ == why@,
        },
{
    match outcome {
        RunOutcome::Exited { success, stderr, .. } => {
            if success {
                PurgeResult::Purged
            } else {
                PurgeResult::Failed(stderr)
            }
        },
        RunOutcome::NotLaunched(why) => PurgeResult::BinaryMissing(why),
    }
}

/// The address the app is served under on its own domain.
pub open spec fn site_url(domain: Seq<char>) -> Seq<char> {
    "https://"@ + domain + "/"@
}

/// The address the app is served under on the platform's host.
pub open spec fn app_url(domain: Seq<char>) -> Seq<char> {
    "https://"@ + dots_to_dashes(domain) + ".lamdera.app/"@
}

/// The marker by which the external binary reports an existing record.
pub open spec fn exists_marker() -> Seq<char> {
    "already exists"@
}

/// Classifies the end of a run that creates the app record for `domain`.
/// A failure whose output reports an existing record counts as success.
pub fn classify_dns_record(domain: &str, outcome: RunOutcome) -> (r: DnsRecordResult)
    ensures
        match outcome {
            RunOutcome::Exited { success, stdout, stderr } => if success {
                r matches DnsRecordResult::Created { site_url: a, app_url: b } && a@ == site_url(
                    domain@,
                ) && b@ == app_url(domain@)
            } else if has_text(stderr@, exists_marker()) || has_text(stdout@, exists_marker()) {
                r == DnsRecordResult::AlreadyExists
            } else {
                r matches DnsRecordResult::Failed(s) && s@ == stderr@ + stdout@
            },
            RunOutcome::NotLaunched(why) => r matches DnsRecordResult::BinaryMissing(s) && s@
                == why@,
        },
{
    match outcome {
        RunOutcome::Exited { success, stdout, stderr } => {
            if success {
                let site = String::from_str("https://").concat(domain).concat("/");
                let app = String::from_str("https://").concat(replace_dots(domain).as_str()).concat(
                    ".lamdera.app/",
                );
                DnsRecordResult::Created { site_url: site, app_url: app }
            } else if contains_text(stderr.as_str(), "already exists") || contains_text(
                stdout.as_str(),
                "already exists",
            ) {
                DnsRecordResult::AlreadyExists
            } else {
                DnsRecordResult::Failed(stderr.concat(stdout.as_str()))
            }
        },
        RunOutcome::NotLaunched(why) => DnsRecordResult::BinaryMissing(why),
    }
}

} // verus!
