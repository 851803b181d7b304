use vstd::prelude::*;

use crate::text::{decimal, decimal_text};
use crate::profile::{find_profile, find_profile_index, is_sso_profile, profile_views, Profile, ProfileView};

verus! {

/// The profile whose SSO session `aws sso login` must refresh before
/// `chosen` can be used: `chosen` itself when it is an SSO profile, else the
/// `source_profile` of `chosen` when that names an SSO profile (an
/// assume-role profile backed by SSO); `None` when no login is needed, also
/// when `chosen` or its source is not in the list.
pub open spec fn sso_login_target(ps: Seq<ProfileView>, chosen: Seq<char>) -> Option<Seq<char>> {
    match find_profile(ps, chosen) {
        None => None,
        Some(p) => if is_sso_profile(p) {
            Some(p.name)
        } else {
            match p.source_profile {
                None => None,
                Some(source) => match find_profile(ps, source) {
                    Some(s) => if is_sso_profile(s) {
                        Some(s.name)
                    } else {
                        None
                    },
                    None => None,
                },
            }
        },
    }
}

/// Returns the profile name to use for `aws sso login`, or `None` if no SSO
/// login is required for `chosen_profile`.
pub fn sso_login_profile<'a>(profiles: &'a [Profile], chosen_profile: &str) -> (r: Option<&'a str>)
    ensures
        match r {
            Some(name) => sso_login_target(profile_views(profiles@), chosen_profile@) == Some(name@),
            None => sso_login_target(profile_views(profiles@), chosen_profile@) is None,
        },
{
    let i = match find_profile_index(profiles, chosen_profile) {
        Some(i) => i,
        None => return None,
    };
    let profile = &profiles[i];
    if profile.is_sso() {
        return Some(profile.name.as_str());
    }
    if let Some(source_name) = &profile.source_profile {
        let j = match find_profile_index(profiles, source_name.as_str()) {
            Some(j) => j,
            None => return None,
        };
        let source = &profiles[j];
        if source.is_sso() {
            return Some(source.name.as_str());
        }
    }
    None
}

/// Why the SSO login could not be completed.
pub enum SsoLoginError {
    /// The `aws` command could not be started; `detail` is the system's report.
    CommandUnavailable { detail: String },
    /// `aws sso login --profile <profile>` exited unsuccessfully with
    /// `exit_code` (-1 when it reported none).
    LoginFailed { profile: String, exit_code: i32 },
}

impl SsoLoginError {
    /// The message shown for the error.
    pub open spec fn message_text(&self) -> Seq<char> {
        match self {
            SsoLoginError::CommandUnavailable { detail } => "Failed to execute 'aws' command. Is it installed and in PATH? Error: "@
                + detail@,
            SsoLoginError::LoginFailed { profile, exit_code } => "'aws sso login --profile "@
                + profile@ + "' failed with exit code: "@ + decimal_text(*exit_code as int),
        }
    }

    /// The message shown for the error.
    pub fn message(&self) -> (r: String)
        ensures
            r@ == self.message_text(),
    {
        match self {
            SsoLoginError::CommandUnavailable { detail } => {
                let mut m = String::from_str(
                    "Failed to execute 'aws' command. Is it installed and in PATH? Error: ",
                );
                m.append(detail.as_str());
                m
            },
            SsoLoginError::LoginFailed { profile, exit_code } => {
                let mut m = String::from_str("'aws sso login --profile ");
                m.append(profile.as_str());
                m.append("' failed with exit code: ");
                let code = decimal(*exit_code);
                m.append(code.as_str());
                m
            },
        }
    }
}

/// What the SSO login flow asks of its runner next.
pub enum SsoLoginStep {
    /// Run `aws sso login --profile <profile>` with its output hidden, to
    /// test the session.
    QuietLogin(String),
    /// Run `aws sso login --profile <profile>` in the terminal.
    Login(String),
    /// The flow is over, with this outcome.
    Done(Result<(), SsoLoginError>),
}

/// What the runner reports back to the SSO login flow.
pub enum SsoLoginEvent {
    /// The flow begins.
    Start,
    /// The hidden login ran; `success` is false also when it could not start.
    QuietLoginExited { success: bool },
    /// The visible login of `profile` exited with this status.
    LoginExited { profile: String, success: bool, exit_code: Option<i32> },
    /// The visible login could not start.
    LoginNotStarted { detail: String },
}

/// The next step of the SSO login flow for `chosen` after `event`: a
/// profile that needs no SSO login is done at once; otherwise the session
/// of the login target (the chosen profile, or the SSO source of an
/// assume-role profile) is tested with a hidden login, and when that fails
/// the target is logged in visibly, whose failure is the flow's error.
pub fn sso_login_step(profiles: &[Profile], chosen: &str, event: SsoLoginEvent) -> (step: SsoLoginStep)
    ensures
        match event {
            SsoLoginEvent::Start => match sso_login_target(profile_views(profiles@), chosen@) {
                None => step matches SsoLoginStep::Done(Ok(())),
                Some(target) => step matches SsoLoginStep::QuietLogin(p) && p@ == target,
            },
            SsoLoginEvent::QuietLoginExited { success } => if success {
                step matches SsoLoginStep::Done(Ok(()))
            } else {
                match sso_login_target(profile_views(profiles@), chosen@) {
                    None => step matches SsoLoginStep::Done(Ok(())),
                    Some(target) => step matches SsoLoginStep::Login(p) && p@ == target,
                }
            },
            SsoLoginEvent::LoginExited { profile, success, exit_code } => if success {
                step matches SsoLoginStep::Done(Ok(()))
            } else {
                step matches SsoLoginStep::Done(Err(SsoLoginError::LoginFailed { profile: p, exit_code: c }))
                    && p@ == profile@ && c == match exit_code {
                    Some(code) => code,
                    None => -1i32,
                }
            },
            SsoLoginEvent::LoginNotStarted { detail } => step matches SsoLoginStep::Done(
                Err(SsoLoginError::CommandUnavailable { detail: d }),
            ) && d@ == detail@,
        },
{
    match event {
        SsoLoginEvent::Start => match sso_login_profile(profiles, chosen) {
            None => SsoLoginStep::Done(Ok(())),
            Some(target) => SsoLoginStep::QuietLogin(String::from_str(target)),
        },
        SsoLoginEvent::QuietLoginExited { success } => if success {
            SsoLoginStep::Done(Ok(()))
        } else {
            match sso_login_profile(profiles, chosen) {
                None => SsoLoginStep::Done(Ok(())),
                Some(target) => SsoLoginStep::Login(String::from_str(target)),
            }
        },
        SsoLoginEvent::LoginExited { profile, success, exit_code } => if success {
            SsoLoginStep::Done(Ok(()))
        } else {
            let code = match exit_code {
                Some(code) => code,
                None => -1,
            };
            SsoLoginStep::Done(Err(SsoLoginError::LoginFailed { profile, exit_code: code }))
        },
        SsoLoginEvent::LoginNotStarted { detail } => SsoLoginStep::Done(
            Err(SsoLoginError::CommandUnavailable { detail }),
        ),
    }
}

} // verus!

verus! {

proof fn lemma_find_profile_named(ps: Seq<ProfileView>, name: Seq<char>)
    ensures
        find_profile(ps, name) matches Some(p) ==> p.name == name,
    decreases ps.len(),
{
    if ps.len() > 0 && ps[0].name != name {
        lemma_find_profile_named(ps.drop_first(), name);
    }
}

/// The login target is always an SSO profile of the list, found under its
/// own name; a chosen SSO profile is its own target; a profile missing from
/// the list needs no login.
pub proof fn law_sso_login_target(ps: Seq<ProfileView>, chosen: Seq<char>)
    ensures
        sso_login_target(ps, chosen) matches Some(n) ==> find_profile(ps, n) matches Some(q)
            && is_sso_profile(q),
        find_profile(ps, chosen) matches Some(p) && is_sso_profile(p) ==> sso_login_target(ps, chosen)
            == Some(chosen),
        find_profile(ps, chosen) is None ==> sso_login_target(ps, chosen) is None,
{
    lemma_find_profile_named(ps, chosen);
    if let Some(p) = find_profile(ps, chosen) {
        if let Some(source) = p.source_profile {
            lemma_find_profile_named(ps, source);
        }
    }
}

} // verus!

verus! {

proof fn lemma_find_first_named(ps: Seq<ProfileView>, name: Seq<char>, i: int)
    requires
        0 <= i < ps.len(),
        ps[i].name == name,
        forall|k: int| 0 <= k < i ==> (#[trigger] ps[k]).name != name,
    ensures
        find_profile(ps, name) == Some(ps[i]),
    decreases i,
{
    if i > 0 {
        assert(ps[0].name != name);
        assert forall|k: int| 0 <= k < i - 1 implies (#[trigger] ps.drop_first()[k]).name != name by {
            assert(ps.drop_first()[k] == ps[k + 1]);
        }
        lemma_find_first_named(ps.drop_first(), name, i - 1);
    }
}

proof fn lemma_find_none_named(ps: Seq<ProfileView>, name: Seq<char>)
    requires
        forall|k: int| 0 <= k < ps.len() ==> (#[trigger] ps[k]).name != name,
    ensures
        find_profile(ps, name) is None,
    decreases ps.len(),
{
    if ps.len() > 0 {
        assert(ps[0].name != name);
        assert forall|k: int| 0 <= k < ps.len() - 1 implies (#[trigger] ps.drop_first()[k]).name != name by {
            assert(ps.drop_first()[k] == ps[k + 1]);
        }
        lemma_find_none_named(ps.drop_first(), name);
    }
}

/// The login target read off the list by position. Let `i` be the first
/// profile called `chosen`. When it names an SSO session or a start URL,
/// `chosen` itself is logged in. Otherwise, without a `source_profile` no
/// login is needed; with `source_profile` `s`, the first profile called `s`
/// (at `j`) is logged in exactly when it is an SSO profile, and no login is
/// needed when no profile is called `s`. Where the two profiles stand in the
/// list, and how their names compare, plays no part.
pub proof fn law_sso_login_target_by_position(ps: Seq<ProfileView>, chosen: Seq<char>, i: int, j: int)
    requires
        0 <= i < ps.len(),
        ps[i].name == chosen,
        forall|k: int| 0 <= k < i ==> (#[trigger] ps[k]).name != chosen,
    ensures
        ps[i].sso_session is Some || ps[i].sso_start_url is Some ==> sso_login_target(ps, chosen)
            == Some(chosen),
        ps[i].sso_session is None && ps[i].sso_start_url is None && ps[i].source_profile is None
            ==> sso_login_target(ps, chosen) is None,
        ps[i].source_profile matches Some(s) ==> (ps[i].sso_session is None && ps[i].sso_start_url is None
            && (forall|k: int| 0 <= k < ps.len() ==> (#[trigger] ps[k]).name != s) ==> sso_login_target(
            ps,
            chosen,
        ) is None),
        ps[i].source_profile matches Some(s) ==> (ps[i].sso_session is None && ps[i].sso_start_url is None
            && 0 <= j < ps.len() && ps[j].name == s && (forall|k: int|
            0 <= k < j ==> (#[trigger] ps[k]).name != s) ==> sso_login_target(ps, chosen) == if ps[j].sso_session is Some
            || ps[j].sso_start_url is Some {
            Some(s)
        } else {
            None
        }),
{
    lemma_find_first_named(ps, chosen, i);
    if let Some(s) = ps[i].source_profile {
        if forall|k: int| 0 <= k < ps.len() ==> (#[trigger] ps[k]).name != s {
            lemma_find_none_named(ps, s);
        }
        if 0 <= j < ps.len() && ps[j].name == s && (forall|k: int| 0 <= k < j ==> (#[trigger] ps[k]).name != s) {
            lemma_find_first_named(ps, s, j);
        }
    }
}

/// A profile missing from the list needs no login.
pub proof fn law_sso_login_target_missing(ps: Seq<ProfileView>, chosen: Seq<char>)
    requires
        forall|k: int| 0 <= k < ps.len() ==> (#[trigger] ps[k]).name != chosen,
    ensures
        sso_login_target(ps, chosen) is None,
{
    lemma_find_none_named(ps, chosen);
}

} // verus!
