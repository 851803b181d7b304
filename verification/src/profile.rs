use vstd::prelude::*;

use crate::text::text_eq;

verus! {

/// One profile of the AWS configuration file, with the fields that the
/// selector reads.
pub struct Profile {
    pub name: String,
    pub environment: Option<String>,
    pub sso_session: Option<String>,
    pub sso_start_url: Option<String>,
    pub source_profile: Option<String>,
    pub duration: Option<String>,
    pub readonly: Option<bool>,
}

/// The mathematical value of a `Profile`: each text as its characters.
pub struct ProfileView {
    pub name: Seq<char>,
    pub environment: Option<Seq<char>>,
    pub sso_session: Option<Seq<char>>,
    pub sso_start_url: Option<Seq<char>>,
    pub source_profile: Option<Seq<char>>,
    pub duration: Option<Seq<char>>,
    pub readonly: Option<bool>,
}

impl View for Profile {
    type V = ProfileView;

    open spec fn view(&self) -> ProfileView {
        ProfileView {
            name: self.name@,
            environment: self.environment.deep_view(),
            sso_session: self.sso_session.deep_view(),
            sso_start_url: self.sso_start_url.deep_view(),
            source_profile: self.source_profile.deep_view(),
            duration: self.duration.deep_view(),
            readonly: self.readonly,
        }
    }
}

/// A profile needs `aws sso login` when it names an `[sso-session ...]`
/// block (modern style) or carries `sso_start_url` itself (legacy style).
pub open spec fn is_sso_profile(p: ProfileView) -> bool {
    p.sso_session is Some || p.sso_start_url is Some
}

/// The label shown for a profile in the selector: its name, then the
/// duration in brackets when there is one, then an eye when the profile is
/// read-only and a flame when it is explicitly not; nothing when the
/// `readonly` field is absent.
pub open spec fn display_name_of(p: ProfileView) -> Seq<char> {
    p.name + match p.duration {
        Some(d) => " ("@ + d + ")"@,
        None => Seq::<char>::empty(),
    } + match p.readonly {
        Some(true) => " 👀"@,
        Some(false) => " 🔥"@,
        None => Seq::<char>::empty(),
    }
}

/// The label is the name, then ` (<duration>)` for any duration text, then
/// ` 👀` for a read-only profile or ` 🔥` for one marked not read-only.
pub proof fn law_display_name(p: ProfileView)
    ensures
        p.duration is None && p.readonly is None ==> display_name_of(p) == p.name,
        p.duration is None && p.readonly == Some(true) ==> display_name_of(p) == p.name + " 👀"@,
        p.duration is None && p.readonly == Some(false) ==> display_name_of(p) == p.name + " 🔥"@,
        p.duration matches Some(d) ==> (p.readonly is None ==> display_name_of(p) == p.name + " ("@ + d
            + ")"@),
        p.duration matches Some(d) ==> (p.readonly == Some(true) ==> display_name_of(p) == p.name
            + " ("@ + d + ")"@ + " 👀"@),
        p.duration matches Some(d) ==> (p.readonly == Some(false) ==> display_name_of(p) == p.name
            + " ("@ + d + ")"@ + " 🔥"@),
{
    let e = Seq::<char>::empty();
    match p.duration {
        Some(d) => {
            assert(p.name + (" ("@ + d + ")"@) =~= p.name + " ("@ + d + ")"@);
            assert(p.name + (" ("@ + d + ")"@) + e =~= p.name + " ("@ + d + ")"@);
        },
        None => {
            assert(p.name + e =~= p.name);
            assert(p.name + e + e =~= p.name);
            assert(p.name + e + " 👀"@ =~= p.name + " 👀"@);
            assert(p.name + e + " 🔥"@ =~= p.name + " 🔥"@);
        },
    }
}

/// The profiles of a sequence, each by its view.
pub open spec fn profile_views(ps: Seq<Profile>) -> Seq<ProfileView> {
    ps.map_values(|p: Profile| p@)
}

/// The names of the profiles, in order.
pub open spec fn names_of(ps: Seq<ProfileView>) -> Seq<Seq<char>> {
    ps.map_values(|p: ProfileView| p.name)
}

/// The first profile of `ps` called `name`.
pub open spec fn find_profile(ps: Seq<ProfileView>, name: Seq<char>) -> Option<ProfileView>
    decreases ps.len(),
{
    if ps.len() == 0 {
        None
    } else if ps[0].name == name {
        Some(ps[0])
    } else {
        find_profile(ps.drop_first(), name)
    }
}

/// The position of the first profile called `name`, as `Iterator::position`
/// finds it.
pub fn find_profile_index(profiles: &[Profile], name: &str) -> (r: Option<usize>)
    ensures
        match r {
            Some(i) => i < profiles@.len() && find_profile(profile_views(profiles@), name@) == Some(
                profiles@[i as int]@,
            ) && forall|k: int| 0 <= k < i ==> #[trigger] profiles@[k].name@ != name@,
            None => find_profile(profile_views(profiles@), name@) is None && forall|k: int|
                0 <= k < profiles@.len() ==> #[trigger] profiles@[k].name@ != name@,
        },
{
    let ghost views = profile_views(profiles@);
    let mut i: usize = 0;
    assert(views.skip(0) =~= views);
    while i < profiles.len()
        invariant
            views == profile_views(profiles@),
            i <= profiles@.len(),
            find_profile(views, name@) == find_profile(views.skip(i as int), name@),
            forall|k: int| 0 <= k < i ==> #[trigger] profiles@[k].name@ != name@,
        decreases profiles.len() - i,
    {
        assert(views.skip(i as int)[0] == profiles@[i as int]@);
        if text_eq(profiles[i].name.as_str(), name) {
            return Some(i);
        }
        assert(views.skip(i as int).drop_first() =~= views.skip(i + 1));
        i = i + 1;
    }
    assert(views.skip(i as int).len() == 0);
    None
}

impl Profile {
    /// Returns `true` when the profile is configured for AWS SSO and therefore
    /// requires `aws sso login` before use.
    pub fn is_sso(&self) -> (b: bool)
        ensures
            b == is_sso_profile(self@),
    {
        self.sso_session.is_some() || self.sso_start_url.is_some()
    }

    /// Returns the profile name with its annotations.
    pub fn display_name(&self) -> (s: String)
        ensures
            s@ == display_name_of(self@),
    {
        let mut display = self.name.clone();
        if let Some(dur) = &self.duration {
            display.append(" (");
            display.append(dur.as_str());
            display.append(")");
        }
        match self.readonly {
            Some(true) => display.append(" 👀"),
            Some(false) => display.append(" 🔥"),
            None => {},
        }
        display
    }
}

} // verus!
