use vstd::prelude::*;

use crate::bridge::texts;

verus! {

/// The part of a path after its last '/', or the whole path when it has none.
pub open spec fn last_segment(s: Seq<char>) -> Seq<char>
    decreases s.len(),
{
    if s.len() == 0 {
        s
    } else if s.last() == '/' {
        Seq::empty()
    } else {
        last_segment(s.drop_last()).push(s.last())
    }
}

/// Relies on `str::rsplit_once`: the text after the last '/', and `None`
/// when there is no '/'.
#[verifier::external_body]
fn after_last_slash(s: &str) -> (r: String)
    ensures
        r@ == last_segment(s@),
{
    match s.rsplit_once('/') {
        Some((_, tail)) => tail.to_string(),
        None => s.to_string(),
    }
}

/// The kinds of shell that get their own integration snippet.
#[derive(Debug, Clone, Copy, PartialEq, Eq)]
pub enum ShellFlavor {
    Fish,
    Posix,
}

/// The shell's name from the value of the variable naming the user's shell
/// (a path such as `/usr/bin/fish`).
pub fn detect_shell(shell_var: &str) -> (r: String)
    ensures
        r@ == last_segment(shell_var@),
{
    after_last_slash(shell_var)
}

/// Which snippet a shell of this name gets: fish its own, any other the
/// one for POSIX shells.
pub fn hook_flavor(shell: &str) -> (r: ShellFlavor)
    ensures
        r == (if shell@ == "fish"@ { ShellFlavor::Fish } else { ShellFlavor::Posix }),
{
    if String::from_str(shell) == String::from_str("fish") {
        ShellFlavor::Fish
    } else {
        ShellFlavor::Posix
    }
}

/// The lines of the snippet that wraps the tool in a shell function.
pub open spec fn hook_text(f: ShellFlavor) -> Seq<Seq<char>> {
    match f {
        ShellFlavor::Fish => seq![
            "# ~/.config/fish/config.fish"@,
            "function cfs"@,
            "    cf-switch $argv | source"@,
            "end"@,
        ],
        ShellFlavor::Posix => seq!["# ~/.bashrc or ~/.zshrc"@, "cfs() { eval \"$(cf-switch \"$@\")\"; }"@],
    }
}

pub fn hook_lines(f: ShellFlavor) -> (r: Vec<String>)
    ensures
        texts(r@) == hook_text(f),
{
    let mut r: Vec<String> = Vec::new();
    match f {
        ShellFlavor::Fish => {
            r.push(String::from_str("# ~/.config/fish/config.fish"));
            r.push(String::from_str("function cfs"));
            r.push(String::from_str("    cf-switch $argv | source"));
            r.push(String::from_str("end"));
        },
        ShellFlavor::Posix => {
            r.push(String::from_str("# ~/.bashrc or ~/.zshrc"));
            r.push(String::from_str("cfs() { eval \"$(cf-switch \"$@\")\"; }"));
        },
    }
    assert(texts(r@) =~= hook_text(f));
    r
}

} // verus!
