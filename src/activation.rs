use vstd::prelude::*;

use crate::registry::{lemma_sorted_distinct, Config, ConfigModel, Profile, ProfileError, ProfileModel};

verus! {

/// The position of the active name among the ascending names; -1 when no
/// name is active or the active name belongs to no profile.
pub open spec fn current_index(m: ConfigModel) -> int {
    match m.current {
        Some(c) => if m.names.contains(c) {
            choose|i: int| 0 <= i < m.names.len() && m.names[i] == c
        } else {
            -1
        },
        None => -1,
    }
}

/// The name that rotation selects: the one after the active name in
/// ascending order, wrapping round; the first when there is no active name.
pub open spec fn next_name(m: ConfigModel) -> Seq<char> {
    m.names[(current_index(m) + 1) % (m.names.len() as int)]
}

/// The registry once `name` is active.
pub open spec fn activated(m: ConfigModel, name: Seq<char>) -> ConfigModel {
    ConfigModel { current: Some(name), ..m }
}

/// The text of the environment export file for a profile.
pub open spec fn env_file_text(name: Seq<char>, p: ProfileModel) -> Seq<char> {
    "# Cloudflare credentials - profile: "@ + name + "\nexport CF_API_EMAIL=\""@ + p.email
        + "\"\nexport CF_API_KEY=\""@ + p.token + "\"\nexport CF_API_TOKEN=\""@ + p.token
        + "\"\n"@
}

/// The shell line that loads the environment export file.
pub open spec fn source_line(env_path: Seq<char>) -> Seq<char> {
    "source "@ + env_path
}

/// What an activation hands to the caller: the name now active, its email
/// for the status line, and the text of the environment export file.
pub struct Activation {
    pub name: String,
    pub email: String,
    pub env_file: String,
}

/// The text that the environment export file receives for `profile`.
pub fn env_file_content(name: &str, profile: &Profile) -> (r: String)
    ensures
        r@ == env_file_text(name@, profile@),
{
    let s = String::from_str("# Cloudflare credentials - profile: ");
    let s = s.concat(name);
    let s = s.concat("\nexport CF_API_EMAIL=\"");
    let s = s.concat(profile.email.as_str());
    let s = s.concat("\"\nexport CF_API_KEY=\"");
    let s = s.concat(profile.token.as_str());
    let s = s.concat("\"\nexport CF_API_TOKEN=\"");
    let s = s.concat(profile.token.as_str());
    s.concat("\"\n")
}

/// The line for the calling shell to evaluate once a profile is active.
pub fn output_source_command(env_file: &str) -> (r: String)
    ensures
        r@ == source_line(env_file@),
{
    let s = String::from_str("source ");
    s.concat(env_file)
}

/// The name that rotation moves to, or `None` when no profile is registered.
pub fn next_profile_name(config: &Config) -> (r: Option<String>)
    requires
        config.wf(),
    ensures
        r is None == (config@.names.len() == 0),
        r is Some ==> r->0@ == next_name(config@),
{
    let n = config.len();
    if n == 0 {
        return None;
    }
    let start: usize = match config.current() {
        Some(c) => match config.index_of(c.as_str()) {
            Some(i) => {
                proof {
                    let m = config@;
                    assert(m.current == Some(c@));
                    assert(m.names[i as int] == c@);
                    let j = current_index(m);
                    assert(0 <= j < m.names.len() && m.names[j] == c@);
                    lemma_sorted_distinct(m.names, i as int, j);
                }
                i + 1
            },
            None => 0,
        },
        None => 0,
    };
    assert(current_index(config@) + 1 == start as int);
    let k = start % n;
    Some(config.name_at(k).clone())
}

/// Makes `name` the active profile. The profiles are untouched; the result
/// carries the environment export text of the newly active profile.
pub fn switch_to_profile(config: &mut Config, name: &str) -> (r: Result<Activation, ProfileError>)
    requires
        old(config).wf(),
    ensures
        final(config).wf(),
        old(config)@.profiles.contains_key(name@) ==> {
            &&& r is Ok
            &&& final(config)@ == activated(old(config)@, name@)
            &&& r->Ok_0.name@ == name@
            &&& r->Ok_0.email@ == old(config)@.profiles[name@].email
            &&& r->Ok_0.env_file@ == env_file_text(name@, old(config)@.profiles[name@])
        },
        !old(config)@.profiles.contains_key(name@) ==> {
            &&& r matches Err(ProfileError::NotFound(s)) && s@ == name@
            &&& final(config)@ == old(config)@
        },
{
    let (email, env_file) = match config.get(name) {
        Some(profile) => (profile.email.clone(), env_file_content(name, profile)),
        None => {
            return Err(ProfileError::NotFound(String::from_str(name)));
        },
    };
    config.set_current(Some(String::from_str(name)));
    Ok(Activation { name: String::from_str(name), email, env_file })
}

/// The command run without arguments: activates the profile after the
/// active one in ascending order of name.
pub fn activate_next(config: &mut Config) -> (r: Result<Activation, ProfileError>)
    requires
        old(config).wf(),
    ensures
        final(config).wf(),
        old(config)@.names.len() == 0 ==> {
            &&& r == Err::<Activation, ProfileError>(ProfileError::NoProfiles)
            &&& final(config)@ == old(config)@
        },
        old(config)@.names.len() > 0 ==> {
            let next = next_name(old(config)@);
            &&& r is Ok
            &&& final(config)@ == activated(old(config)@, next)
            &&& r->Ok_0.name@ == next
            &&& r->Ok_0.email@ == old(config)@.profiles[next].email
            &&& r->Ok_0.env_file@ == env_file_text(next, old(config)@.profiles[next])
        },
{
    match next_profile_name(config) {
        None => Err(ProfileError::NoProfiles),
        Some(next) => {
            proof {
                let m = config@;
                let k = (current_index(m) + 1) % (m.names.len() as int);
                assert(m.names.contains(m.names[k]));
            }
            switch_to_profile(config, next.as_str())
        },
    }
}

} // verus!
