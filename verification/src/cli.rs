use vstd::prelude::*;

use crate::profile::{find_profile, find_profile_index, names_of, profile_views, Profile, ProfileView};
use crate::text::joined;

verus! {

/// The shells for which a wrapper function can be printed.
pub enum Shell {
    Bash,
    Zsh,
    Fish,
}

/// The command line: `--init <shell>` and `--profile <name>`.
pub struct Cli {
    pub init: Option<Shell>,
    pub profile: Option<String>,
}

/// The `asp` function for POSIX-style shells (bash and zsh).
pub open spec fn posix_wrapper() -> Seq<char> {
    "asp() {\n  eval \"$(command aws-profile-select \"$@\")\"\n}"@
}

/// The `asp` function for fish.
pub open spec fn fish_wrapper() -> Seq<char> {
    "function asp\n  command aws-profile-select $argv | source\nend"@
}

/// The wrapper printed for a shell.
pub open spec fn wrapper_for(shell: Shell) -> Seq<char> {
    match shell {
        Shell::Bash | Shell::Zsh => posix_wrapper(),
        Shell::Fish => fish_wrapper(),
    }
}

/// The shell function `asp`, which runs the selector and evaluates the
/// `export` line it prints in the calling shell.
pub fn shell_init(shell: &Shell) -> (r: &'static str)
    ensures
        r@ == wrapper_for(*shell),
{
    match shell {
        Shell::Bash | Shell::Zsh => "asp() {\n  eval \"$(command aws-profile-select \"$@\")\"\n}",
        Shell::Fish => "function asp\n  command aws-profile-select $argv | source\nend",
    }
}

/// Bash and zsh get the same wrapper, fish another one.
pub proof fn law_shell_wrappers()
    ensures
        wrapper_for(Shell::Zsh) == wrapper_for(Shell::Bash),
        wrapper_for(Shell::Fish) != wrapper_for(Shell::Bash),
{
    reveal_strlit("asp() {\n  eval \"$(command aws-profile-select \"$@\")\"\n}");
    reveal_strlit("function asp\n  command aws-profile-select $argv | source\nend");
    assert(posix_wrapper()[0] != fish_wrapper()[0]);
}

/// With `--init <shell>` the program prints the shell's wrapper and does
/// nothing else.
pub fn init_output(cli: &Cli) -> (r: Option<&'static str>)
    ensures
        match cli.init {
            Some(shell) => r matches Some(text) && text@ == wrapper_for(shell),
            None => r is None,
        },
{
    match &cli.init {
        Some(shell) => Some(shell_init(shell)),
        None => None,
    }
}

/// The line that the `asp` wrapper evaluates to switch to `name`.
pub open spec fn export_line_of(name: Seq<char>) -> Seq<char> {
    "export AWS_PROFILE='"@ + name + "';"@
}

/// The `export` statement printed for the chosen profile.
pub fn export_line(name: &str) -> (r: String)
    ensures
        r@ == export_line_of(name@),
{
    let mut line = String::from_str("export AWS_PROFILE='");
    line.append(name);
    line.append("';");
    line
}

/// The names of the profiles, separated by commas.
pub fn profile_names_list(profiles: &[Profile]) -> (r: String)
    ensures
        r@ == joined(names_of(profile_views(profiles@)), ", "@),
{
    let ghost names = names_of(profile_views(profiles@));
    let mut out = String::new();
    let mut i: usize = 0;
    while i < profiles.len()
        invariant
            names == names_of(profile_views(profiles@)),
            names.len() == profiles@.len(),
            forall|k: int| 0 <= k < profiles@.len() ==> names[k] == #[trigger] profiles@[k].name@,
            i <= profiles@.len(),
            out@ == joined(names.take(i as int), ", "@),
        decreases profiles.len() - i,
    {
        assert(names.take(i + 1).drop_last() =~= names.take(i as int));
        assert(names.take(i + 1).last() == profiles@[i as int].name@);
        if i > 0 {
            out.append(", ");
        } else {
            assert(names.take(1) =~= seq![names[0]]);
        }
        out.append(profiles[i].name.as_str());
        i = i + 1;
    }
    assert(names.take(profiles.len() as int) =~= names);
    out
}

/// The message given when `--profile` names no profile of the file at
/// `config_path`.
pub open spec fn not_found_message(name: Seq<char>, config_path: Seq<char>, ps: Seq<ProfileView>) -> Seq<char> {
    "Profile '"@ + name + "' not found in "@ + config_path + ".\nAvailable profiles: "@ + joined(
        names_of(ps),
        ", "@,
    )
}

/// Checks that `--profile <name>` names a profile of the file; otherwise the
/// error lists the profiles there are.
pub fn check_requested_profile(profiles: &[Profile], name: &str, config_path: &str) -> (r: Result<(), String>)
    ensures
        match r {
            Ok(()) => find_profile(profile_views(profiles@), name@) is Some,
            Err(message) => find_profile(profile_views(profiles@), name@) is None && message@
                == not_found_message(name@, config_path@, profile_views(profiles@)),
        },
{
    match find_profile_index(profiles, name) {
        Some(_) => Ok(()),
        None => {
            let mut message = String::from_str("Profile '");
            message.append(name);
            message.append("' not found in ");
            message.append(config_path);
            message.append(".\nAvailable profiles: ");
            let list = profile_names_list(profiles);
            message.append(list.as_str());
            Err(message)
        },
    }
}

} // verus!
