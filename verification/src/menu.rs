use vstd::prelude::*;

use crate::profile::{names_of, profile_views, Profile, ProfileView};
use crate::text::{
    lemma_text_le_antisymmetric, lemma_text_le_total, lemma_text_le_transitive, text_eq, text_le,
    text_le_exec,
};

verus! {

/// The environment a profile is listed under: its `environment` field, or
/// `other` when it has none.
pub open spec fn environment_of(p: ProfileView) -> Seq<char> {
    match p.environment {
        Some(e) => e,
        None => "other"@,
    }
}

/// A profile is listed under its own environment, and under `other` when it
/// names none.
pub proof fn law_environment_of(p: ProfileView)
    ensures
        p.environment matches Some(e) ==> environment_of(p) == e,
        p.environment is None ==> environment_of(p) == "other"@,
{
}

/// The names of the profiles listed under environment `e`, in order.
pub open spec fn names_in_environment(ps: Seq<ProfileView>, e: Seq<char>) -> Seq<Seq<char>>
    decreases ps.len(),
{
    if ps.len() == 0 {
        Seq::empty()
    } else if environment_of(ps.last()) == e {
        names_in_environment(ps.drop_last(), e).push(ps.last().name)
    } else {
        names_in_environment(ps.drop_last(), e)
    }
}

/// An environment with the names of its profiles.
pub struct EnvironmentGroup {
    pub environment: String,
    pub profiles: Vec<String>,
}

/// A group as plain values.
pub type GroupView = (Seq<char>, Seq<Seq<char>>);

impl View for EnvironmentGroup {
    type V = GroupView;

    open spec fn view(&self) -> GroupView {
        (self.environment@, self.profiles.deep_view())
    }
}

/// The groups of a sequence, each by its view.
pub open spec fn group_views(gs: Seq<EnvironmentGroup>) -> Seq<GroupView> {
    gs.map_values(|g: EnvironmentGroup| g@)
}

/// Environments strictly increase along `gs`, so none comes twice.
pub open spec fn environments_ascending(gs: Seq<GroupView>) -> bool {
    forall|i: int, j: int|
        0 <= i < j < gs.len() ==> text_le(#[trigger] gs[i].0, #[trigger] gs[j].0) && gs[i].0
            != gs[j].0
}

/// `gs` groups the profiles `ps` by environment: one group for each
/// environment that some profile is listed under, sorted by environment,
/// each holding the names of that environment's profiles in their order.
pub open spec fn is_grouping_of(gs: Seq<GroupView>, ps: Seq<ProfileView>) -> bool {
    &&& environments_ascending(gs)
    &&& forall|i: int|
        0 <= i < gs.len() ==> (#[trigger] gs[i]).1 == names_in_environment(ps, gs[i].0)
            && gs[i].1.len() > 0
    &&& forall|k: int|
        0 <= k < ps.len() ==> exists|i: int|
            0 <= i < gs.len() && #[trigger] gs[i].0 == environment_of(#[trigger] ps[k])
}

proof fn lemma_names_in_environment_step(ps: Seq<ProfileView>, i: int, e: Seq<char>)
    requires
        0 <= i < ps.len(),
    ensures
        names_in_environment(ps.take(i + 1), e) == if environment_of(ps[i]) == e {
            names_in_environment(ps.take(i), e).push(ps[i].name)
        } else {
            names_in_environment(ps.take(i), e)
        },
{
    assert(ps.take(i + 1).drop_last() =~= ps.take(i));
    assert(ps.take(i + 1).last() == ps[i]);
}

proof fn lemma_names_in_environment_absent(ps: Seq<ProfileView>, e: Seq<char>)
    requires
        forall|k: int| 0 <= k < ps.len() ==> environment_of(#[trigger] ps[k]) != e,
    ensures
        names_in_environment(ps, e) == Seq::<Seq<char>>::empty(),
    decreases ps.len(),
{
    if ps.len() > 0 {
        assert forall|k: int| 0 <= k < ps.drop_last().len() implies environment_of(
            #[trigger] ps.drop_last()[k],
        ) != e by {
            assert(ps.drop_last()[k] == ps[k]);
        }
        lemma_names_in_environment_absent(ps.drop_last(), e);
    }
}

/// The environment a profile is listed under, as a new text.
fn environment_key(p: &Profile) -> (r: String)
    ensures
        r@ == environment_of(p@),
{
    match &p.environment {
        Some(e) => e.clone(),
        None => String::from_str("other"),
    }
}

/// Groups the profiles by environment, as the interactive selector lists
/// them: environments in ascending order, profiles without one under
/// `other`.
pub fn group_by_environment(profiles: &[Profile]) -> (gs: Vec<EnvironmentGroup>)
    ensures
        is_grouping_of(group_views(gs@), profile_views(profiles@)),
{
    let ghost ps = profile_views(profiles@);
    let mut groups: Vec<EnvironmentGroup> = Vec::new();
    let mut i: usize = 0;
    while i < profiles.len()
        invariant
            ps == profile_views(profiles@),
            i <= profiles.len(),
            is_grouping_of(group_views(groups@), ps.take(i as int)),
        decreases profiles.len() - i,
    {
        let ghost before = group_views(groups@);
        let ghost pv = ps[i as int];
        assert(pv == profiles@[i as int]@);
        let key = environment_key(&profiles[i]);
        let name = profiles[i].name.clone();
        // Look for the group of this environment.
        let mut g: usize = 0;
        while g < groups.len()
            invariant
                before == group_views(groups@),
                g <= groups.len(),
                forall|k: int| 0 <= k < g ==> #[trigger] before[k].0 != key@,
            ensures
                g <= groups.len(),
                forall|k: int| 0 <= k < g ==> #[trigger] before[k].0 != key@,
                g < groups.len() ==> before[g as int].0 == key@,
            decreases groups.len() - g,
        {
            if text_eq(groups[g].environment.as_str(), key.as_str()) {
                break;
            }
            g = g + 1;
        }
        proof {
            lemma_names_in_environment_step(ps, i as int, key@);
            assert forall|e: Seq<char>| e != key@ implies names_in_environment(ps.take(i + 1), e)
                == names_in_environment(ps.take(i as int), e) by {
                lemma_names_in_environment_step(ps, i as int, e);
            }
            assert(ps.take(i + 1)[i as int] == pv);
            assert forall|k: int| 0 <= k < i implies #[trigger] ps.take(i + 1)[k] == ps.take(
                i as int,
            )[k] by {}
        }
        if g < groups.len() {
            let mut group = groups.remove(g);
            group.profiles.push(name);
            groups.insert(g, group);
            proof {
                let after = group_views(groups@);
                assert(after.len() == before.len());
                assert forall|k: int| 0 <= k < after.len() && k != g implies after[k]
                    == before[k] by {}
                assert(after[g as int].0 == key@);
                assert(after[g as int].1 =~= before[g as int].1.push(pv.name));
                assert forall|k: int| 0 <= k < i + 1 implies exists|x: int|
                    0 <= x < after.len() && #[trigger] after[x].0 == environment_of(
                        #[trigger] ps.take(i + 1)[k],
                    ) by {
                    if k < i {
                        let x = choose|x: int|
                            0 <= x < before.len() && #[trigger] before[x].0 == environment_of(
                                ps.take(i as int)[k],
                            );
                        assert(after[x].0 == before[x].0);
                    } else {
                        assert(after[g as int].0 == environment_of(ps.take(i + 1)[k]));
                    }
                }
            }
        } else {
            // A new environment: it goes after every environment before it.
            let mut j: usize = 0;
            while j < groups.len()
                invariant
                    before == group_views(groups@),
                    j <= groups.len(),
                    forall|k: int| 0 <= k < j ==> text_le(#[trigger] before[k].0, key@),
                ensures
                    j <= groups.len(),
                    forall|k: int| 0 <= k < j ==> text_le(#[trigger] before[k].0, key@),
                    j < groups.len() ==> !text_le(before[j as int].0, key@),
                decreases groups.len() - j,
            {
                if !text_le_exec(groups[j].environment.as_str(), key.as_str()) {
                    break;
                }
                j = j + 1;
            }
            proof {
                assert forall|k: int| 0 <= k < i implies environment_of(
                    #[trigger] ps.take(i as int)[k],
                ) != key@ by {
                    let x = choose|x: int|
                        0 <= x < before.len() && #[trigger] before[x].0 == environment_of(
                            ps.take(i as int)[k],
                        );
                }
                lemma_names_in_environment_absent(ps.take(i as int), key@);
                if j < before.len() {
                    lemma_text_le_total(before[j as int].0, key@);
                    assert forall|k: int| j <= k < before.len() implies text_le(
                        key@,
                        #[trigger] before[k].0,
                    ) by {
                        if k > j {
                            lemma_text_le_transitive(key@, before[j as int].0, before[k].0);
                        }
                    }
                }
            }
            let mut names: Vec<String> = Vec::new();
            names.push(name);
            assert(names.deep_view() =~= seq![pv.name]);
            let ghost kv = key@;
            let fresh = EnvironmentGroup { environment: key, profiles: names };
            assert(fresh@ == (kv, seq![pv.name]));
            groups.insert(j, fresh);
            proof {
                let after = group_views(groups@);
                assert(after =~= before.take(j as int) + seq![(kv, seq![pv.name])] + before.skip(
                    j as int,
                ));
                assert(Seq::<Seq<char>>::empty().push(pv.name) =~= seq![pv.name]);
                assert(after[j as int].1 =~= seq![pv.name]);
                assert forall|a: int, b: int| 0 <= a < b < after.len() implies text_le(
                    #[trigger] after[a].0,
                    #[trigger] after[b].0,
                ) && after[a].0 != after[b].0 by {
                    if b < j {
                    } else if a < j && b == j {
                    } else if a < j && b > j {
                        assert(after[b] == before[b - 1]);
                        lemma_text_le_transitive(after[a].0, kv, after[b].0);
                        if after[a].0 == after[b].0 {
                            assert(text_le(kv, after[a].0));
                            lemma_text_le_antisymmetric(kv, after[a].0);
                        }
                    } else if a == j {
                        assert(after[b] == before[b - 1]);
                    } else {
                        assert(after[a] == before[a - 1]);
                        assert(after[b] == before[b - 1]);
                    }
                }
                assert forall|x: int| 0 <= x < after.len() implies (#[trigger] after[x]).1
                    == names_in_environment(ps.take(i + 1), after[x].0) && after[x].1.len() > 0 by {
                    if x < j {
                        assert(after[x] == before[x]);
                    } else if x > j {
                        assert(after[x] == before[x - 1]);
                    }
                }
                assert forall|k: int| 0 <= k < i + 1 implies exists|x: int|
                    0 <= x < after.len() && #[trigger] after[x].0 == environment_of(
                        #[trigger] ps.take(i + 1)[k],
                    ) by {
                    if k < i {
                        let x = choose|x: int|
                            0 <= x < before.len() && #[trigger] before[x].0 == environment_of(
                                ps.take(i as int)[k],
                            );
                        if x < j {
                            assert(after[x] == before[x]);
                        } else {
                            assert(after[x + 1] == before[x]);
                        }
                    } else {
                        assert(after[j as int].0 == environment_of(ps.take(i + 1)[k]));
                    }
                }
            }
        }
        i = i + 1;
    }
    assert(ps.take(profiles.len() as int) =~= ps);
    groups
}

} // verus!

verus! {

/// Where the interactive selection stands.
pub enum MenuLevel {
    /// Choosing an environment.
    Environments,
    /// Choosing a profile of the environment at this position.
    Profiles(usize),
    /// Choosing among all profiles, when no profile names an environment.
    Flat,
}

/// What follows an answer of the user.
pub enum MenuStep {
    /// Ask again, at this level.
    Ask(MenuLevel),
    /// The user chose this profile.
    Chosen(String),
    /// The user left the selection.
    Cancelled,
}

/// The data of the interactive selection, built once from the profiles.
pub struct ProfileMenu {
    /// Some profile names an environment, so environments come first.
    pub grouped: bool,
    pub groups: Vec<EnvironmentGroup>,
    /// The names of all profiles, in order.
    pub names: Vec<String>,
    /// The profile in use now, preselected where it is listed.
    pub current: String,
}

/// Some profile of `ps` names an environment.
pub open spec fn has_environments(ps: Seq<ProfileView>) -> bool {
    exists|k: int| 0 <= k < ps.len() && (#[trigger] ps[k]).environment is Some
}

/// The selection is by environment as soon as any one profile, wherever it
/// stands, names an environment; only when none does is it a flat list.
pub proof fn law_grouped_when_any_environment(ps: Seq<ProfileView>, k: int)
    requires
        0 <= k < ps.len(),
    ensures
        ps[k].environment is Some ==> has_environments(ps),
        (forall|j: int| 0 <= j < ps.len() ==> (#[trigger] ps[j]).environment is None) ==> !has_environments(ps),
{
}

/// The position of the first `item` in `items`, or 0 when there is none, as
/// the selector preselects the profile in use.
pub open spec fn default_position(items: Seq<Seq<char>>, item: Seq<char>) -> int
    decreases items.len(),
{
    if items.len() == 0 {
        0
    } else if items.last() == item && !items.drop_last().contains(item) {
        items.len() - 1
    } else {
        default_position(items.drop_last(), item)
    }
}

/// The preselected position is that of the first item equal to `item`, and
/// the first position when no item is.
pub proof fn law_default_position(items: Seq<Seq<char>>, item: Seq<char>, i: int)
    ensures
        0 <= i < items.len() && items[i] == item && (forall|k: int| 0 <= k < i ==> #[trigger] items[k] != item)
            ==> default_position(items, item) == i,
        (forall|k: int| 0 <= k < items.len() ==> #[trigger] items[k] != item) ==> default_position(
            items,
            item,
        ) == 0,
{
    if 0 <= i < items.len() && items[i] == item && (forall|k: int| 0 <= k < i ==> #[trigger] items[k] != item) {
        lemma_default_position_first(items, item, i);
    }
    if forall|k: int| 0 <= k < items.len() ==> #[trigger] items[k] != item {
        lemma_default_position_absent(items, item);
    }
}

/// A copy of a list of texts.
fn copy_texts(v: &Vec<String>) -> (r: Vec<String>)
    ensures
        r.deep_view() == v.deep_view(),
{
    let mut r: Vec<String> = Vec::new();
    let mut i: usize = 0;
    while i < v.len()
        invariant
            i <= v.len(),
            r.len() == i,
            forall|k: int| 0 <= k < i ==> #[trigger] r@[k]@ == v@[k]@,
        decreases v.len() - i,
    {
        r.push(v[i].clone());
        i = i + 1;
    }
    assert(r.deep_view() =~= v.deep_view());
    r
}

/// The position of the first `item` in `items`, or 0.
fn position_or_first(items: &Vec<String>, item: &str) -> (r: usize)
    ensures
        r == default_position(items.deep_view(), item@),
        r == 0 || r < items.len(),
{
    let ghost its = items.deep_view();
    let mut i: usize = 0;
    while i < items.len()
        invariant
            its == items.deep_view(),
            i <= items.len(),
            forall|k: int| 0 <= k < i ==> #[trigger] its[k] != item@,
        decreases items.len() - i,
    {
        if text_eq(items[i].as_str(), item) {
            proof {
                lemma_default_position_first(its, item@, i as int);
            }
            return i;
        }
        i = i + 1;
    }
    proof {
        lemma_default_position_absent(its, item@);
    }
    0
}

proof fn lemma_default_position_first(items: Seq<Seq<char>>, item: Seq<char>, i: int)
    requires
        0 <= i < items.len(),
        items[i] == item,
        forall|k: int| 0 <= k < i ==> #[trigger] items[k] != item,
    ensures
        default_position(items, item) == i,
    decreases items.len(),
{
    if i == items.len() - 1 {
        assert(!items.drop_last().contains(item)) by {
            if items.drop_last().contains(item) {
                let k = choose|k: int| 0 <= k < items.drop_last().len() && items.drop_last()[k] == item;
                assert(items[k] == item);
            }
        }
    } else {
        assert(items.drop_last()[i] == item);
        assert(items.drop_last().contains(item));
        lemma_default_position_first(items.drop_last(), item, i);
    }
}

proof fn lemma_default_position_absent(items: Seq<Seq<char>>, item: Seq<char>)
    requires
        forall|k: int| 0 <= k < items.len() ==> #[trigger] items[k] != item,
    ensures
        default_position(items, item) == 0,
    decreases items.len(),
{
    if items.len() > 0 {
        assert(items.last() == items[items.len() - 1]);
        lemma_default_position_absent(items.drop_last(), item);
    }
}

/// The names of the environments of some groups.
pub open spec fn environments_of(gs: Seq<GroupView>) -> Seq<Seq<char>> {
    gs.map_values(|g: GroupView| g.0)
}

impl ProfileMenu {
    /// The level is one this menu can be at.
    pub open spec fn level_is_valid(&self, level: MenuLevel) -> bool {
        match level {
            MenuLevel::Profiles(g) => g < self.groups.len(),
            _ => true,
        }
    }

    /// The items offered at a level.
    pub open spec fn items_at(&self, level: MenuLevel) -> Seq<Seq<char>> {
        match level {
            MenuLevel::Environments => environments_of(group_views(self.groups@)),
            MenuLevel::Profiles(g) => group_views(self.groups@)[g as int].1,
            MenuLevel::Flat => self.names.deep_view(),
        }
    }

    /// Builds the selection for the profiles, the profile in use being
    /// `current_aws_profile`.
    pub fn new(profiles: &[Profile], current_aws_profile: &str) -> (m: ProfileMenu)
        ensures
            m.grouped == has_environments(profile_views(profiles@)),
            m.grouped <==> exists|k: int|
                0 <= k < profiles@.len() && (#[trigger] profiles@[k]).environment is Some,
            is_grouping_of(group_views(m.groups@), profile_views(profiles@)),
            m.names.deep_view() == names_of(profile_views(profiles@)),
            m.current@ == current_aws_profile@,
    {
        let ghost ps = profile_views(profiles@);
        let mut grouped = false;
        let mut names: Vec<String> = Vec::new();
        let mut i: usize = 0;
        while i < profiles.len()
            invariant
                ps == profile_views(profiles@),
                i <= profiles.len(),
                names.len() == i,
                forall|k: int| 0 <= k < i ==> #[trigger] names@[k]@ == ps[k].name,
                grouped == exists|k: int| 0 <= k < i && (#[trigger] ps[k]).environment is Some,
            decreases profiles.len() - i,
        {
            assert(ps[i as int] == profiles@[i as int]@);
            if profiles[i].environment.is_some() {
                grouped = true;
            }
            names.push(profiles[i].name.clone());
            i = i + 1;
        }
        assert(names.deep_view() =~= names_of(ps));
        proof {
            if grouped {
                let k = choose|k: int| 0 <= k < i && (#[trigger] ps[k]).environment is Some;
                assert(ps[k] == profiles@[k]@);
                assert(profiles@[k].environment is Some);
            } else {
                assert forall|k: int| 0 <= k < profiles@.len() implies (
                #[trigger] profiles@[k]).environment is None by {
                    assert(ps[k] == profiles@[k]@);
                }
            }
        }
        ProfileMenu {
            grouped,
            groups: group_by_environment(profiles),
            names,
            current: String::from_str(current_aws_profile),
        }
    }

    /// Where the selection starts: at the environments when there are any,
    /// else at the list of all profiles.
    pub fn start(&self) -> (level: MenuLevel)
        ensures
            if self.grouped {
                level is Environments
            } else {
                level is Flat
            },
    {
        if self.grouped {
            MenuLevel::Environments
        } else {
            MenuLevel::Flat
        }
    }

    /// The question asked at a level.
    pub fn prompt(&self, level: &MenuLevel) -> (r: &'static str)
        ensures
            r@ == match level {
                MenuLevel::Environments => "Select the environment"@,
                _ => "Select the AWS Profile to switch"@,
            },
    {
        match level {
            MenuLevel::Environments => "Select the environment",
            _ => "Select the AWS Profile to switch",
        }
    }

    /// The items offered at a level.
    pub fn items(&self, level: &MenuLevel) -> (r: Vec<String>)
        requires
            self.level_is_valid(*level),
        ensures
            r.deep_view() == self.items_at(*level),
    {
        match level {
            MenuLevel::Environments => {
                let mut r: Vec<String> = Vec::new();
                let mut i: usize = 0;
                while i < self.groups.len()
                    invariant
                        i <= self.groups.len(),
                        r.len() == i,
                        forall|k: int| 0 <= k < i ==> #[trigger] r@[k]@ == self.groups@[k].environment@,
                    decreases self.groups.len() - i,
                {
                    r.push(self.groups[i].environment.clone());
                    i = i + 1;
                }
                assert(r.deep_view() =~= environments_of(group_views(self.groups@)));
                r
            },
            MenuLevel::Profiles(g) => copy_texts(&self.groups[*g].profiles),
            MenuLevel::Flat => copy_texts(&self.names),
        }
    }

    /// The item preselected at a level: the first environment, or the
    /// profile in use where the list holds it and the first profile
    /// otherwise.
    pub fn default_item(&self, level: &MenuLevel) -> (r: usize)
        requires
            self.level_is_valid(*level),
        ensures
            r == match level {
                MenuLevel::Environments => 0,
                _ => default_position(self.items_at(*level), self.current@),
            },
    {
        match level {
            MenuLevel::Environments => 0,
            MenuLevel::Profiles(g) => position_or_first(&self.groups[*g].profiles, self.current.as_str()),
            MenuLevel::Flat => position_or_first(&self.names, self.current.as_str()),
        }
    }

    /// What follows the user's answer at a level, `None` being Escape: a
    /// chosen environment opens its profiles, a chosen profile ends the
    /// selection; Escape among an environment's profiles goes back to the
    /// environments, and elsewhere leaves the selection.
    pub fn answer(&self, level: &MenuLevel, answer: Option<usize>) -> (step: MenuStep)
        requires
            self.level_is_valid(*level),
            answer matches Some(i) ==> i < self.items_at(*level).len(),
        ensures
            match (*level, answer) {
                (MenuLevel::Environments, None) => step is Cancelled,
                (MenuLevel::Environments, Some(i)) => step matches MenuStep::Ask(MenuLevel::Profiles(
                    g,
                )) && g == i,
                (MenuLevel::Profiles(_), None) => step matches MenuStep::Ask(MenuLevel::Environments),
                (MenuLevel::Flat, None) => step is Cancelled,
                (_, Some(i)) => step matches MenuStep::Chosen(name) && name@ == self.items_at(
                    *level,
                )[i as int],
            },
            step matches MenuStep::Ask(next) ==> self.level_is_valid(next),
    {
        match (level, answer) {
            (MenuLevel::Environments, None) => MenuStep::Cancelled,
            (MenuLevel::Environments, Some(i)) => MenuStep::Ask(MenuLevel::Profiles(i)),
            (MenuLevel::Profiles(_), None) => MenuStep::Ask(MenuLevel::Environments),
            (MenuLevel::Profiles(g), Some(i)) => {
                assert(self.groups@[*g as int].profiles@[i as int]@ == self.items_at(*level)[i as int]);
                MenuStep::Chosen(self.groups[*g].profiles[i].clone())
            },
            (MenuLevel::Flat, None) => MenuStep::Cancelled,
            (MenuLevel::Flat, Some(i)) => MenuStep::Chosen(self.names[i].clone()),
        }
    }
}

} // verus!

verus! {

/// In a grouping every profile is listed under exactly one group, the one
/// of its environment, and its name is among that group's names.
pub proof fn law_grouping_lists_each_profile_once(gs: Seq<GroupView>, ps: Seq<ProfileView>, k: int)
    requires
        is_grouping_of(gs, ps),
        0 <= k < ps.len(),
    ensures
        exists|i: int|
            0 <= i < gs.len() && #[trigger] gs[i].0 == environment_of(ps[k]) && gs[i].1.contains(
                ps[k].name,
            ) && forall|j: int| 0 <= j < gs.len() && j != i ==> #[trigger] gs[j].0 != gs[i].0,
{
    let i = choose|i: int| 0 <= i < gs.len() && #[trigger] gs[i].0 == environment_of(ps[k]);
    lemma_names_in_environment_has(ps, k);
    assert forall|j: int| 0 <= j < gs.len() && j != i implies #[trigger] gs[j].0 != gs[i].0 by {
        if j < i {
            assert(gs[j].0 != gs[i].0);
        } else {
            assert(gs[i].0 != gs[j].0);
        }
    }
}

proof fn lemma_names_in_environment_has(ps: Seq<ProfileView>, k: int)
    requires
        0 <= k < ps.len(),
    ensures
        names_in_environment(ps, environment_of(ps[k])).contains(ps[k].name),
    decreases ps.len(),
{
    let e = environment_of(ps[k]);
    if k == ps.len() - 1 {
        let r = names_in_environment(ps, e);
        assert(r[r.len() - 1] == ps[k].name);
    } else {
        assert(ps.drop_last()[k] == ps[k]);
        lemma_names_in_environment_has(ps.drop_last(), k);
        let r0 = names_in_environment(ps.drop_last(), e);
        let x = choose|x: int| 0 <= x < r0.len() && r0[x] == ps[k].name;
        if environment_of(ps.last()) == e {
            assert(names_in_environment(ps, e)[x] == ps[k].name);
        }
    }
}

} // verus!

verus! {

proof fn lemma_names_in_environment_witness(ps: Seq<ProfileView>, e: Seq<char>)
    requires
        names_in_environment(ps, e).len() > 0,
    ensures
        exists|k: int| 0 <= k < ps.len() && environment_of(#[trigger] ps[k]) == e,
    decreases ps.len(),
{
    if environment_of(ps.last()) == e {
        assert(environment_of(ps[ps.len() - 1]) == e);
    } else {
        lemma_names_in_environment_witness(ps.drop_last(), e);
        let k = choose|k: int| 0 <= k < ps.drop_last().len() && environment_of(
            #[trigger] ps.drop_last()[k],
        ) == e;
        assert(ps[k] == ps.drop_last()[k]);
    }
}

/// The environments offered by a grouping are the environments of the
/// profiles, each once, in ascending order.
pub proof fn law_grouping_environments(gs: Seq<GroupView>, ps: Seq<ProfileView>)
    requires
        is_grouping_of(gs, ps),
    ensures
        environments_of(gs).no_duplicates(),
        forall|i: int, j: int|
            0 <= i < j < gs.len() ==> text_le(
                #[trigger] environments_of(gs)[i],
                #[trigger] environments_of(gs)[j],
            ),
        forall|e: Seq<char>|
            #[trigger] environments_of(gs).contains(e) <==> exists|k: int|
                0 <= k < ps.len() && environment_of(#[trigger] ps[k]) == e,
{
    let envs = environments_of(gs);
    assert forall|i: int, j: int|
        0 <= i < envs.len() && 0 <= j < envs.len() && i != j implies envs[i] != envs[j] by {
        if i < j {
            assert(gs[i].0 != gs[j].0);
        } else {
            assert(gs[j].0 != gs[i].0);
        }
    }
    assert forall|i: int, j: int| 0 <= i < j < gs.len() implies text_le(
        #[trigger] envs[i],
        #[trigger] envs[j],
    ) by {
        assert(text_le(gs[i].0, gs[j].0));
    }
    assert forall|e: Seq<char>| #[trigger] envs.contains(e) <==> exists|k: int|
        0 <= k < ps.len() && environment_of(#[trigger] ps[k]) == e by {
        if envs.contains(e) {
            let i = choose|i: int| 0 <= i < envs.len() && envs[i] == e;
            assert(gs[i].1 == names_in_environment(ps, gs[i].0));
            lemma_names_in_environment_witness(ps, e);
        }
        if exists|k: int| 0 <= k < ps.len() && environment_of(#[trigger] ps[k]) == e {
            let k = choose|k: int| 0 <= k < ps.len() && environment_of(#[trigger] ps[k]) == e;
            let i = choose|i: int|
                0 <= i < gs.len() && #[trigger] gs[i].0 == environment_of(#[trigger] ps[k]);
            assert(envs[i] == e);
        }
    }
}

} // verus!
