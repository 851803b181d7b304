use vstd::prelude::*;

use crate::config_source::{
    entries_describe, entries_within, entry_views, has_flat_keys, ini_config, key_is_set_whole,
    lands_in, lemma_flat_entries_describe, load_ini, table_view, ConfigEntry, ConfigField,
    ConfigModel, EntryView, FieldView, TableModel,
};
use crate::profile::{profile_views, Profile, ProfileView};
use crate::text::{
    occurs_at, lemma_text_le_antisymmetric, lemma_text_le_reflexive, lemma_text_le_total,
    lemma_text_le_transitive, replace_all, replace_text, text_le, text_le_exec, text_occurs_at,
};

verus! {

/// Why a configuration text yields no profiles.
pub enum ProfilesError {
    /// The `config` crate refused the text.
    Config(config::ConfigError),
}

/// The value of the first field called `name`.
pub open spec fn first_field(fields: Seq<FieldView>, name: Seq<char>) -> Option<Seq<char>>
    decreases fields.len(),
{
    if fields.len() == 0 {
        None
    } else if fields[0].0 == name {
        fields[0].1
    } else {
        first_field(fields.drop_first(), name)
    }
}

/// The text of field `name` of an entry's table; `None` when the entry has
/// no table, the table no such field, or the field no text.
pub open spec fn field_of(table: Option<Seq<FieldView>>, name: Seq<char>) -> Option<Seq<char>> {
    match table {
        Some(fields) => first_field(fields, name),
        None => None,
    }
}

/// The key of an `[sso-session <name>]` block: the keyword and a space.
pub open spec fn is_sso_session_key(k: Seq<char>) -> bool {
    occurs_at(k, "sso-session "@, 0)
}

/// Entries for `[sso-session <name>]` blocks are not profiles.
pub open spec fn is_profile_entry(e: EntryView) -> bool {
    !is_sso_session_key(e.key)
}

/// The profile that an entry describes: the key without its `profile `
/// prefix (every occurrence of it, as `str::replace` removes them), the
/// fields read from the table, and `readonly` true exactly for the text
/// `true`.
pub open spec fn profile_of(e: EntryView) -> ProfileView {
    ProfileView {
        name: replace_all(e.key, "profile "@, Seq::<char>::empty()),
        environment: field_of(e.table, "environment"@),
        sso_session: field_of(e.table, "sso_session"@),
        sso_start_url: field_of(e.table, "sso_start_url"@),
        source_profile: field_of(e.table, "source_profile"@),
        duration: field_of(e.table, "duration"@),
        readonly: match field_of(e.table, "readonly"@) {
            Some(v) => Some(v == "true"@),
            None => None,
        },
    }
}

/// The profiles of the entries that are profiles, in the entries' order.
pub open spec fn candidates(es: Seq<EntryView>) -> Seq<ProfileView>
    decreases es.len(),
{
    if es.len() == 0 {
        Seq::empty()
    } else if is_profile_entry(es.last()) {
        candidates(es.drop_last()).push(profile_of(es.last()))
    } else {
        candidates(es.drop_last())
    }
}

/// The profiles of `s` called `n`, in their order.
pub open spec fn with_name(s: Seq<ProfileView>, n: Seq<char>) -> Seq<ProfileView>
    decreases s.len(),
{
    if s.len() == 0 {
        Seq::empty()
    } else if s.last().name == n {
        with_name(s.drop_last(), n).push(s.last())
    } else {
        with_name(s.drop_last(), n)
    }
}

/// Names never decrease along `s`.
pub open spec fn sorted_by_name(s: Seq<ProfileView>) -> bool {
    forall|i: int, j: int| 0 <= i < j < s.len() ==> text_le(#[trigger] s[i].name, #[trigger] s[j].name)
}

/// `out` is `inp` sorted by name, stably: sorted, and for every name the
/// profiles called so come in the same order as in `inp`. This fixes `out`
/// given `inp`.
pub open spec fn is_sorting_by_name(out: Seq<ProfileView>, inp: Seq<ProfileView>) -> bool {
    &&& sorted_by_name(out)
    &&& forall|n: Seq<char>| #[trigger] with_name(out, n) == with_name(inp, n)
}

/// `ps` are the profiles of the loaded configuration `m`: for some listing
/// of `m`'s entries, `ps` are the profiles of those entries sorted by name.
pub open spec fn profiles_of_config(ps: Seq<ProfileView>, m: ConfigModel) -> bool {
    exists|es: Seq<EntryView>| #[trigger]
        entries_describe(es, m) && is_sorting_by_name(ps, candidates(es))
}

/// Selecting by name distributes over concatenation.
pub proof fn lemma_with_name_add(a: Seq<ProfileView>, b: Seq<ProfileView>, n: Seq<char>)
    ensures
        with_name(a + b, n) == with_name(a, n) + with_name(b, n),
    decreases b.len(),
{
    if b.len() == 0 {
        assert(a + b =~= a);
        assert(with_name(a, n) + with_name(b, n) =~= with_name(a, n));
    } else {
        assert((a + b).drop_last() =~= a + b.drop_last());
        lemma_with_name_add(a, b.drop_last(), n);
        if b.last().name == n {
            assert(with_name(a, n) + with_name(b.drop_last(), n).push(b.last()) =~= (with_name(
                a,
                n,
            ) + with_name(b.drop_last(), n)).push(b.last()));
        }
    }
}

/// No profile of `s` is called `n`, so none is selected.
pub proof fn lemma_with_name_none(s: Seq<ProfileView>, n: Seq<char>)
    requires
        forall|i: int| 0 <= i < s.len() ==> #[trigger] s[i].name != n,
    ensures
        with_name(s, n) == Seq::<ProfileView>::empty(),
    decreases s.len(),
{
    if s.len() > 0 {
        lemma_with_name_none(s.drop_last(), n);
    }
}

/// The first field called `name` in a table, by its text.
fn field_value(table: &Option<Vec<ConfigField>>, name: &str) -> (r: Option<String>)
    ensures
        r.deep_view() == field_of(table_view(*table), name@),
{
    match table {
        None => None,
        Some(fields) => {
            let ghost views = table_view(*table)->0;
            assert(table_view(*table) == Some(views));
            let wanted = String::from_str(name);
            let mut i: usize = 0;
            assert(views.skip(0) =~= views);
            while i < fields.len()
                invariant
                    table_view(*table) == Some(views),
                    views.len() == fields.len(),
                    forall|k: int| 0 <= k < fields.len() ==> views[k] == #[trigger] fields@[k]@,
                    wanted@ == name@,
                    i <= fields.len(),
                    first_field(views, name@) == first_field(views.skip(i as int), name@),
                decreases fields.len() - i,
            {
                assert(views.skip(i as int)[0] == views[i as int]);
                assert(views[i as int] == fields@[i as int]@);
                if fields[i].key == wanted {
                    assert(views.skip(i as int)[0].0 == name@);
                    let r = match &fields[i].value {
                        Some(v) => Some(v.clone()),
                        None => None,
                    };
                    return r;
                }
                assert(views.skip(i as int).drop_first() =~= views.skip(i + 1));
                i = i + 1;
            }
            assert(views.skip(i as int).len() == 0);
            None
        },
    }
}

/// The profile that a configuration entry describes.
pub fn profile_from_entry(entry: &ConfigEntry) -> (p: Profile)
    ensures
        p@ == profile_of(entry@),
{
    proof {
        reveal_strlit("profile ");
        reveal_strlit("");
    }
    assert(""@ =~= Seq::<char>::empty());
    let readonly_text = field_value(&entry.table, "readonly");
    let readonly = match readonly_text {
        Some(v) => {
            let t = String::from_str("true");
            Some(v == t)
        },
        None => None,
    };
    Profile {
        name: replace_text(entry.key.as_str(), "profile ", ""),
        environment: field_value(&entry.table, "environment"),
        sso_session: field_value(&entry.table, "sso_session"),
        sso_start_url: field_value(&entry.table, "sso_start_url"),
        source_profile: field_value(&entry.table, "source_profile"),
        duration: field_value(&entry.table, "duration"),
        readonly,
    }
}

/// Puts `p` into the name-sorted `out` after every profile whose name is at
/// most its own.
fn insert_by_name(out: &mut Vec<Profile>, p: Profile)
    requires
        sorted_by_name(profile_views(old(out)@)),
    ensures
        sorted_by_name(profile_views(final(out)@)),
        forall|n: Seq<char>|
            #[trigger] with_name(profile_views(final(out)@), n) == if p@.name == n {
                with_name(profile_views(old(out)@), n).push(p@)
            } else {
                with_name(profile_views(old(out)@), n)
            },
{
    let ghost before = profile_views(out@);
    let mut j: usize = 0;
    while j < out.len()
        invariant
            before == profile_views(out@),
            sorted_by_name(before),
            j <= out.len(),
            forall|k: int| 0 <= k < j ==> text_le(#[trigger] before[k].name, p@.name),
        ensures
            j <= out.len(),
            forall|k: int| 0 <= k < j ==> text_le(#[trigger] before[k].name, p@.name),
            j < out.len() ==> !text_le(before[j as int].name, p@.name),
        decreases out.len() - j,
    {
        if !text_le_exec(out[j].name.as_str(), p.name.as_str()) {
            break;
        }
        j = j + 1;
    }
    proof {
        if j < before.len() {
            lemma_text_le_total(before[j as int].name, p@.name);
            assert forall|k: int| j <= k < before.len() implies text_le(
                p@.name,
                #[trigger] before[k].name,
            ) && before[k].name != p@.name by {
                if k > j {
                    assert(text_le(before[j as int].name, before[k].name));
                    lemma_text_le_transitive(p@.name, before[j as int].name, before[k].name);
                    if before[k].name == p@.name {
                        lemma_text_le_reflexive(p@.name);
                    }
                } else {
                    if before[k].name == p@.name {
                        lemma_text_le_reflexive(p@.name);
                    }
                }
            }
        }
    }
    let ghost pv = p@;
    out.insert(j, p);
    proof {
        let after = profile_views(out@);
        let left = before.take(j as int);
        let right = before.skip(j as int);
        assert(after =~= left + seq![pv] + right);
        assert(before =~= left + right);
        assert forall|a: int, b: int| 0 <= a < b < after.len() implies text_le(
            #[trigger] after[a].name,
            #[trigger] after[b].name,
        ) by {
            if b < j {
            } else if a < j && b == j {
            } else if a < j && b > j {
                assert(after[b] == before[b - 1]);
                lemma_text_le_transitive(after[a].name, pv.name, after[b].name);
            } else if a == j {
                assert(after[b] == before[b - 1]);
            } else {
                assert(after[a] == before[a - 1]);
                assert(after[b] == before[b - 1]);
            }
        }
        assert forall|n: Seq<char>| #[trigger] with_name(after, n) == if pv.name == n {
            with_name(before, n).push(pv)
        } else {
            with_name(before, n)
        } by {
            lemma_with_name_add(left + seq![pv], right, n);
            lemma_with_name_add(left, seq![pv], n);
            lemma_with_name_add(left, right, n);
            assert(seq![pv].drop_last() =~= Seq::<ProfileView>::empty());
            assert(with_name(Seq::<ProfileView>::empty(), n) == Seq::<ProfileView>::empty());
            assert(with_name(seq![pv], n) == if pv.name == n {
                seq![pv]
            } else {
                Seq::<ProfileView>::empty()
            }) by {
                assert(Seq::<ProfileView>::empty().push(pv) =~= seq![pv]);
            }
            if pv.name == n {
                assert forall|i: int| 0 <= i < right.len() implies #[trigger] right[i].name
                    != n by {
                    assert(right[i] == before[j + i]);
                }
                lemma_with_name_none(right, n);
                assert(with_name(left, n) + with_name(seq![pv], n) + with_name(right, n)
                    =~= with_name(left, n).push(pv));
                assert(with_name(left, n) + with_name(right, n) =~= with_name(left, n));
            } else {
                assert(with_name(left, n) + with_name(seq![pv], n) + with_name(right, n)
                    =~= with_name(left, n) + with_name(right, n));
            }
        }
    }
}

/// The profiles of configuration entries: the entries of `[sso-session ...]`
/// blocks left out, each other entry read as a profile, the profiles sorted
/// by name (stably, as `sort_by` sorts).
pub fn profiles_from_entries(entries: Vec<ConfigEntry>) -> (r: Vec<Profile>)
    ensures
        is_sorting_by_name(profile_views(r@), candidates(entry_views(entries@))),
{
    let ghost es = entry_views(entries@);
    let mut out: Vec<Profile> = Vec::new();
    let mut i: usize = 0;
    while i < entries.len()
        invariant
            es == entry_views(entries@),
            i <= entries.len(),
            sorted_by_name(profile_views(out@)),
            forall|n: Seq<char>| #[trigger] with_name(profile_views(out@), n) == with_name(
                candidates(es.take(i as int)),
                n,
            ),
        decreases entries.len() - i,
    {
        let entry = &entries[i];
        assert(es.take(i + 1).drop_last() =~= es.take(i as int));
        assert(es.take(i + 1).last() == entry@);
        let ghost prev = candidates(es.take(i as int));
        if !text_occurs_at(entry.key.as_str(), "sso-session ", 0) {
            let p = profile_from_entry(entry);
            insert_by_name(&mut out, p);
            assert(candidates(es.take(i + 1)) == prev.push(p@));
            assert(prev.push(p@).drop_last() =~= prev);
            assert forall|n: Seq<char>| #[trigger] with_name(profile_views(out@), n) == with_name(
                candidates(es.take(i + 1)),
                n,
            ) by {
                assert(with_name(prev.push(p@), n) == if p@.name == n {
                    with_name(prev, n).push(p@)
                } else {
                    with_name(prev, n)
                });
            }
        }
        i = i + 1;
    }
    assert(es.take(entries.len() as int) =~= es);
    out
}

/// Reads the profiles of an AWS configuration file, given its text.
///
/// The text is loaded as INI with the `config` crate; each top-level entry
/// other than an `[sso-session <name>]` block becomes a profile, and the
/// profiles come sorted by name. Each profile is named after a top-level key
/// of the merged configuration, and every section set whole (one that
/// `config` cannot read as a path and that no other key is merged into)
/// gives its own profile. Where no section name may be read as a path, the
/// profiles are exactly those of the sections.
pub fn parse_profiles(text: &str) -> (r: Result<Vec<Profile>, ProfilesError>)
    ensures
        r is Ok <==> ini_config(text@) is Some,
        r matches Ok(ps) ==> sorted_by_name(profile_views(ps@)),
        r matches Ok(ps) ==> forall|i: int|
            0 <= i < ps@.len() ==> is_merged_profile(
                #[trigger] profile_views(ps@)[i],
                ini_config(text@)->0,
            ),
        r matches Ok(ps) ==> forall|k: Seq<char>|
            #[trigger] ini_config(text@)->0.contains_key(k) && key_is_set_whole(k, ini_config(text@)->0)
                && !is_sso_session_key(k) ==> profile_views(ps@).contains(
                section_profile(k, ini_config(text@)->0[k]),
            ),
        r matches Ok(ps) ==> (has_flat_keys(ini_config(text@)->0) ==> profiles_of_config(
            profile_views(ps@),
            ini_config(text@)->0,
        )),
{
    match load_ini(text) {
        Ok(entries) => {
            let ghost es = entry_views(entries@);
            let ps = profiles_from_entries(entries);
            proof {
                lemma_sorting_by_name_permutes(profile_views(ps@), candidates(es));
                lemma_merged_profiles(profile_views(ps@), ini_config(text@)->0, es);
                lemma_whole_sections_give_profiles(profile_views(ps@), ini_config(text@)->0, es);
                if has_flat_keys(ini_config(text@)->0) {
                    lemma_flat_entries_describe(es, ini_config(text@)->0);
                    assert(profiles_of_config(profile_views(ps@), ini_config(text@)->0));
                }
            }
            Ok(ps)
        },
        Err(e) => Err(ProfilesError::Config(e)),
    }
}

} // verus!

verus! {

proof fn lemma_with_name_witness(s: Seq<ProfileView>, n: Seq<char>)
    requires
        with_name(s, n).len() > 0,
    ensures
        exists|j: int| 0 <= j < s.len() && (#[trigger] s[j]).name == n,
    decreases s.len(),
{
    if s.last().name == n {
        assert(s[s.len() - 1].name == n);
    } else {
        lemma_with_name_witness(s.drop_last(), n);
        let j = choose|j: int| 0 <= j < s.drop_last().len() && (#[trigger] s.drop_last()[j]).name == n;
        assert(s[j] == s.drop_last()[j]);
    }
}

proof fn lemma_last_is_greatest(s: Seq<ProfileView>, j: int)
    requires
        sorted_by_name(s),
        0 <= j < s.len(),
    ensures
        text_le(s[j].name, s.last().name),
{
    if j == s.len() - 1 {
        lemma_text_le_reflexive(s[j].name);
    }
}

/// A sorting by name is unique: two name-sorted sequences that hold, for
/// every name, the same profiles of that name in the same order are equal.
/// So `is_sorting_by_name(out, inp)` fixes `out` given `inp`.
pub proof fn lemma_sorting_by_name_unique(a: Seq<ProfileView>, b: Seq<ProfileView>)
    requires
        sorted_by_name(a),
        sorted_by_name(b),
        forall|n: Seq<char>| #[trigger] with_name(a, n) == with_name(b, n),
    ensures
        a == b,
    decreases a.len() + b.len(),
{
    if a.len() == 0 && b.len() == 0 {
        assert(a =~= b);
    } else if a.len() == 0 {
        assert(with_name(b, b.last().name) == with_name(a, b.last().name));
    } else if b.len() == 0 {
        assert(with_name(a, a.last().name) == with_name(b, a.last().name));
    } else {
        let ma = a.last().name;
        let mb = b.last().name;
        assert(with_name(a, ma).len() > 0);
        assert(with_name(b, ma) == with_name(a, ma));
        lemma_with_name_witness(b, ma);
        let jb = choose|j: int| 0 <= j < b.len() && (#[trigger] b[j]).name == ma;
        lemma_last_is_greatest(b, jb);
        assert(with_name(a, mb) == with_name(b, mb));
        assert(with_name(b, mb).len() > 0);
        lemma_with_name_witness(a, mb);
        let ja = choose|j: int| 0 <= j < a.len() && (#[trigger] a[j]).name == mb;
        lemma_last_is_greatest(a, ja);
        lemma_text_le_antisymmetric(ma, mb);
        assert(with_name(a, ma).last() == a.last());
        assert(with_name(b, ma).last() == b.last());
        let a2 = a.drop_last();
        let b2 = b.drop_last();
        assert forall|n: Seq<char>| #[trigger] with_name(a2, n) == with_name(b2, n) by {
            if n == ma {
                assert(with_name(a, n).drop_last() =~= with_name(a2, n));
                assert(with_name(b, n).drop_last() =~= with_name(b2, n));
            } else {
                assert(with_name(a, n) == with_name(a2, n));
                assert(with_name(b, n) == with_name(b2, n));
            }
        }
        assert forall|i: int, j: int| 0 <= i < j < a2.len() implies text_le(
            #[trigger] a2[i].name,
            #[trigger] a2[j].name,
        ) by {
            assert(a2[i] == a[i] && a2[j] == a[j]);
        }
        assert forall|i: int, j: int| 0 <= i < j < b2.len() implies text_le(
            #[trigger] b2[i].name,
            #[trigger] b2[j].name,
        ) by {
            assert(b2[i] == b[i] && b2[j] == b[j]);
        }
        lemma_sorting_by_name_unique(a2, b2);
        assert(a =~= a2.push(a.last()));
        assert(b =~= b2.push(b.last()));
    }
}

proof fn lemma_count_by_name(s: Seq<ProfileView>, x: ProfileView)
    ensures
        s.to_multiset().count(x) == with_name(s, x.name).to_multiset().count(x),
    decreases s.len(),
{
    broadcast use vstd::seq_lib::group_to_multiset_ensures;

    if s.len() == 0 {
        assert(with_name(s, x.name) =~= s);
    } else {
        lemma_count_by_name(s.drop_last(), x);
        assert(s =~= s.drop_last().push(s.last()));
    }
}

/// Sorting by name only reorders: the sorted profiles are the given ones,
/// each as often.
pub proof fn lemma_sorting_by_name_permutes(out: Seq<ProfileView>, inp: Seq<ProfileView>)
    requires
        is_sorting_by_name(out, inp),
    ensures
        out.to_multiset() == inp.to_multiset(),
{
    assert forall|x: ProfileView| out.to_multiset().count(x) == inp.to_multiset().count(x) by {
        lemma_count_by_name(out, x);
        lemma_count_by_name(inp, x);
        assert(with_name(out, x.name) == with_name(inp, x.name));
    }
    assert(out.to_multiset() =~= inp.to_multiset());
}

} // verus!

verus! {

/// The text of field `name` of a section table of the loaded configuration.
pub open spec fn table_field(t: Option<TableModel>, name: Seq<char>) -> Option<Seq<char>> {
    match t {
        Some(tm) => if tm.contains_key(name) {
            tm[name]
        } else {
            None
        },
        None => None,
    }
}

/// The profile of section `key` with table `t`, read as `profile_of` reads
/// an entry.
pub open spec fn section_profile(key: Seq<char>, t: Option<TableModel>) -> ProfileView {
    ProfileView {
        name: replace_all(key, "profile "@, Seq::<char>::empty()),
        environment: table_field(t, "environment"@),
        sso_session: table_field(t, "sso_session"@),
        sso_start_url: table_field(t, "sso_start_url"@),
        source_profile: table_field(t, "source_profile"@),
        duration: table_field(t, "duration"@),
        readonly: match table_field(t, "readonly"@) {
            Some(v) => Some(v == "true"@),
            None => None,
        },
    }
}

/// The sections of the loaded configuration that are profiles: every key
/// but those of `[sso-session ...]` blocks.
pub open spec fn profile_sections(m: ConfigModel) -> Set<Seq<char>> {
    m.dom().filter(|k: Seq<char>| !is_sso_session_key(k))
}

/// The keys of the entries that are profiles, in order.
pub open spec fn profile_entry_keys(es: Seq<EntryView>) -> Seq<Seq<char>>
    decreases es.len(),
{
    if es.len() == 0 {
        Seq::empty()
    } else if is_profile_entry(es.last()) {
        profile_entry_keys(es.drop_last()).push(es.last().key)
    } else {
        profile_entry_keys(es.drop_last())
    }
}

proof fn lemma_first_field_at(fields: Seq<FieldView>, name: Seq<char>, i: int)
    requires
        0 <= i < fields.len(),
        fields[i].0 == name,
        forall|j: int| 0 <= j < i ==> (#[trigger] fields[j]).0 != name,
    ensures
        first_field(fields, name) == fields[i].1,
    decreases i,
{
    if i > 0 {
        assert forall|j: int| 0 <= j < i - 1 implies (#[trigger] fields.drop_first()[j]).0 != name by {
            assert(fields.drop_first()[j] == fields[j + 1]);
        }
        assert(fields[0].0 != name);
        lemma_first_field_at(fields.drop_first(), name, i - 1);
    }
}

proof fn lemma_first_field_none(fields: Seq<FieldView>, name: Seq<char>)
    requires
        forall|j: int| 0 <= j < fields.len() ==> (#[trigger] fields[j]).0 != name,
    ensures
        first_field(fields, name) is None,
    decreases fields.len(),
{
    if fields.len() > 0 {
        assert(fields[0].0 != name);
        assert forall|j: int| 0 <= j < fields.len() - 1 implies (
        #[trigger] fields.drop_first()[j]).0 != name by {
            assert(fields.drop_first()[j] == fields[j + 1]);
        }
        lemma_first_field_none(fields.drop_first(), name);
    }
}

proof fn lemma_field_of_table(table: Option<Seq<FieldView>>, t: Option<TableModel>, name: Seq<char>)
    requires
        crate::config_source::entry_table_describes(table, t),
    ensures
        field_of(table, name) == table_field(t, name),
{
    if let Some(fields) = table {
        let tm = t->0;
        if exists|i: int| 0 <= i < fields.len() && fields[i].0 == name {
            let i = choose|i: int| 0 <= i < fields.len() && fields[i].0 == name;
            assert forall|j: int| 0 <= j < i implies (#[trigger] fields[j]).0 != name by {
                if fields[j].0 == name {
                    assert(fields[j].0 == fields[i].0);
                }
            }
            lemma_first_field_at(fields, name, i);
            assert(tm.contains_key(fields[i].0));
        } else {
            assert forall|j: int| 0 <= j < fields.len() implies (#[trigger] fields[j]).0 != name by {
                if fields[j].0 == name {
                    assert(0 <= j < fields.len() && fields[j].0 == name);
                }
            }
            lemma_first_field_none(fields, name);
            if tm.contains_key(name) {
                let i = choose|i: int| 0 <= i < fields.len() && fields[i].0 == name;
                assert(fields[i].0 == name);
            }
        }
    }
}

proof fn lemma_entry_profile(e: EntryView, t: Option<TableModel>)
    requires
        crate::config_source::entry_table_describes(e.table, t),
    ensures
        profile_of(e) == section_profile(e.key, t),
{
    lemma_field_of_table(e.table, t, "environment"@);
    lemma_field_of_table(e.table, t, "sso_session"@);
    lemma_field_of_table(e.table, t, "sso_start_url"@);
    lemma_field_of_table(e.table, t, "source_profile"@);
    lemma_field_of_table(e.table, t, "duration"@);
    lemma_field_of_table(e.table, t, "readonly"@);
}

#[verifier::rlimit(40)]
proof fn lemma_candidates_shape(es: Seq<EntryView>)
    ensures
        candidates(es).len() == profile_entry_keys(es).len(),
        forall|i: int|
            0 <= i < candidates(es).len() ==> exists|j: int|
                0 <= j < es.len() && is_profile_entry(#[trigger] es[j]) && #[trigger] candidates(es)[i]
                    == profile_of(es[j]) && profile_entry_keys(es)[i] == es[j].key,
        forall|j: int|
            0 <= j < es.len() && is_profile_entry(#[trigger] es[j]) ==> exists|i: int|
                0 <= i < candidates(es).len() && candidates(es)[i] == profile_of(es[j])
                    && profile_entry_keys(es)[i] == es[j].key,
    decreases es.len(),
{
    if es.len() > 0 {
        let rest = es.drop_last();
        lemma_candidates_shape(rest);
        let c = candidates(es);
        let k = profile_entry_keys(es);
        assert forall|i: int| 0 <= i < c.len() implies exists|j: int|
            0 <= j < es.len() && is_profile_entry(#[trigger] es[j]) && #[trigger] c[i] == profile_of(es[j])
                && k[i] == es[j].key by {
            if i < candidates(rest).len() {
                let j = choose|j: int|
                    0 <= j < rest.len() && is_profile_entry(#[trigger] rest[j]) && candidates(
                        rest,
                    )[i] == profile_of(rest[j]) && profile_entry_keys(rest)[i] == rest[j].key;
                assert(rest[j] == es[j]);
            } else {
                assert(es[es.len() - 1] == es.last());
            }
        }
        assert forall|j: int| 0 <= j < es.len() && is_profile_entry(#[trigger] es[j]) implies exists|
            i: int,
        | 0 <= i < c.len() && c[i] == profile_of(es[j]) && k[i] == es[j].key by {
            if j < es.len() - 1 {
                assert(rest[j] == es[j]);
                let i = choose|i: int|
                    0 <= i < candidates(rest).len() && candidates(rest)[i] == profile_of(rest[j])
                        && profile_entry_keys(rest)[i] == rest[j].key;
                assert(c[i] == candidates(rest)[i]);
            } else {
                assert(c[c.len() - 1] == profile_of(es[j]));
            }
        }
    }
}

proof fn lemma_profile_entry_keys_distinct(es: Seq<EntryView>)
    requires
        forall|i: int, j: int| 0 <= i < j < es.len() ==> #[trigger] es[i].key != #[trigger] es[j].key,
    ensures
        profile_entry_keys(es).no_duplicates(),
        forall|i: int|
            0 <= i < profile_entry_keys(es).len() ==> exists|j: int|
                0 <= j < es.len() && #[trigger] profile_entry_keys(es)[i] == es[j].key,
    decreases es.len(),
{
    if es.len() > 0 {
        let rest = es.drop_last();
        assert forall|i: int, j: int| 0 <= i < j < rest.len() implies #[trigger] rest[i].key
            != #[trigger] rest[j].key by {
            assert(rest[i] == es[i] && rest[j] == es[j]);
        }
        lemma_profile_entry_keys_distinct(rest);
        let kr = profile_entry_keys(rest);
        let k = profile_entry_keys(es);
        assert forall|i: int| 0 <= i < k.len() implies exists|j: int|
            0 <= j < es.len() && #[trigger] k[i] == es[j].key by {
            if i < kr.len() {
                let j = choose|j: int| 0 <= j < rest.len() && #[trigger] kr[i] == rest[j].key;
                assert(rest[j] == es[j]);
            } else {
                assert(k[i] == es[es.len() - 1].key);
            }
        }
        if is_profile_entry(es.last()) {
            assert forall|i: int| 0 <= i < kr.len() implies #[trigger] kr[i] != es.last().key by {
                let j = choose|j: int| 0 <= j < rest.len() && #[trigger] kr[i] == rest[j].key;
                assert(rest[j] == es[j]);
                assert(es[j].key != es[es.len() - 1].key);
            }
        }
    }
}

/// `p` is the profile of a section of `m` that is not an `[sso-session ...]`
/// block.
pub open spec fn is_section_profile(p: ProfileView, m: ConfigModel) -> bool {
    exists|k: Seq<char>| #[trigger] profile_sections(m).contains(k) && p == section_profile(k, m[k])
}

proof fn lemma_profiles_from_sections(ps: Seq<ProfileView>, m: ConfigModel, es: Seq<EntryView>)
    requires
        entries_describe(es, m),
        ps.to_multiset() == candidates(es).to_multiset(),
    ensures
        forall|i: int| 0 <= i < ps.len() ==> is_section_profile(#[trigger] ps[i], m),
{
    let c = candidates(es);
    lemma_candidates_shape(es);
    assert forall|i: int| 0 <= i < ps.len() implies is_section_profile(#[trigger] ps[i], m) by {
        broadcast use vstd::seq_lib::group_to_multiset_ensures;

        assert(ps.contains(ps[i]));
        assert(ps.to_multiset().count(ps[i]) > 0);
        assert(c.contains(ps[i]));
        let x = choose|x: int| 0 <= x < c.len() && c[x] == ps[i];
        let j = choose|j: int|
            0 <= j < es.len() && is_profile_entry(#[trigger] es[j]) && #[trigger] c[x] == profile_of(es[j])
                && profile_entry_keys(es)[x] == es[j].key;
        lemma_entry_profile(es[j], m[es[j].key]);
        assert(profile_sections(m).contains(es[j].key));
    }
}

proof fn lemma_sections_give_profiles(ps: Seq<ProfileView>, m: ConfigModel, es: Seq<EntryView>)
    requires
        entries_describe(es, m),
        ps.to_multiset() == candidates(es).to_multiset(),
    ensures
        forall|k: Seq<char>|
            #[trigger] profile_sections(m).contains(k) ==> ps.contains(section_profile(k, m[k])),
{
    let c = candidates(es);
    lemma_candidates_shape(es);
    assert forall|k: Seq<char>| #[trigger] profile_sections(m).contains(k) implies ps.contains(
        section_profile(k, m[k]),
    ) by {
        broadcast use vstd::seq_lib::group_to_multiset_ensures;

        assert(m.contains_key(k));
        let j = choose|j: int| 0 <= j < es.len() && es[j].key == k;
        assert(is_profile_entry(es[j]));
        let x = choose|x: int|
            0 <= x < c.len() && c[x] == profile_of(es[j]) && profile_entry_keys(es)[x] == es[j].key;
        lemma_entry_profile(es[j], m[es[j].key]);
        assert(c.contains(c[x]));
        assert(c.to_multiset().count(c[x]) > 0);
        assert(ps.contains(c[x]));
    }
}

proof fn lemma_section_count(m: ConfigModel, es: Seq<EntryView>)
    requires
        entries_describe(es, m),
    ensures
        profile_sections(m).finite(),
        candidates(es).len() == profile_sections(m).len(),
{
    let c = candidates(es);
    lemma_candidates_shape(es);
    lemma_profile_entry_keys_distinct(es);
    let keys = profile_entry_keys(es);
    assert(keys.to_set() =~= profile_sections(m)) by {
        assert forall|k: Seq<char>| keys.to_set().contains(k) implies profile_sections(m).contains(k) by {
            let x = choose|x: int| 0 <= x < keys.len() && keys[x] == k;
            let j = choose|j: int|
                0 <= j < es.len() && is_profile_entry(#[trigger] es[j]) && #[trigger] c[x] == profile_of(es[j])
                    && keys[x] == es[j].key;
        }
        assert forall|k: Seq<char>| profile_sections(m).contains(k) implies keys.to_set().contains(k) by {
            let j = choose|j: int| 0 <= j < es.len() && es[j].key == k;
            assert(is_profile_entry(es[j]));
            let x = choose|x: int|
                0 <= x < c.len() && c[x] == profile_of(es[j]) && keys[x] == es[j].key;
            assert(keys.contains(k));
        }
    }
    keys.unique_seq_to_set();
    vstd::seq_lib::seq_to_set_is_finite(keys);
}

/// `p` may be the profile of a top-level entry merged from the keys of `m`:
/// its name is that of a top-level key `r` under which some key of `m` may
/// be set, with every `profile ` removed; `r` is not an `[sso-session ...]`
/// block; and where `r` is a key of `m` set whole, `p` is the profile of
/// that section.
pub open spec fn is_merged_profile(p: ProfileView, m: ConfigModel) -> bool {
    exists|r: Seq<char>|
        #[trigger] lands_in(r, m) && !is_sso_session_key(r) && p.name == replace_all(
            r,
            "profile "@,
            Seq::<char>::empty(),
        ) && (m.contains_key(r) && key_is_set_whole(r, m) ==> p == section_profile(r, m[r]))
}

proof fn lemma_merged_profiles(ps: Seq<ProfileView>, m: ConfigModel, es: Seq<EntryView>)
    requires
        entries_within(es, m),
        ps.to_multiset() == candidates(es).to_multiset(),
    ensures
        forall|i: int| 0 <= i < ps.len() ==> is_merged_profile(#[trigger] ps[i], m),
{
    let c = candidates(es);
    lemma_candidates_shape(es);
    assert forall|i: int| 0 <= i < ps.len() implies is_merged_profile(#[trigger] ps[i], m) by {
        broadcast use vstd::seq_lib::group_to_multiset_ensures;

        assert(ps.contains(ps[i]));
        assert(ps.to_multiset().count(ps[i]) > 0);
        assert(c.contains(ps[i]));
        let x = choose|x: int| 0 <= x < c.len() && c[x] == ps[i];
        let j = choose|j: int|
            0 <= j < es.len() && is_profile_entry(#[trigger] es[j]) && #[trigger] c[x] == profile_of(es[j])
                && profile_entry_keys(es)[x] == es[j].key;
        let r = es[j].key;
        assert(lands_in(r, m));
        if m.contains_key(r) && key_is_set_whole(r, m) {
            lemma_entry_profile(es[j], m[r]);
        }
    }
}

proof fn lemma_whole_sections_give_profiles(ps: Seq<ProfileView>, m: ConfigModel, es: Seq<EntryView>)
    requires
        entries_within(es, m),
        ps.to_multiset() == candidates(es).to_multiset(),
    ensures
        forall|k: Seq<char>|
            #[trigger] m.contains_key(k) && key_is_set_whole(k, m) && !is_sso_session_key(k)
                ==> ps.contains(section_profile(k, m[k])),
{
    let c = candidates(es);
    lemma_candidates_shape(es);
    assert forall|k: Seq<char>|
        #[trigger] m.contains_key(k) && key_is_set_whole(k, m) && !is_sso_session_key(k) implies ps.contains(
        section_profile(k, m[k]),
    ) by {
        broadcast use vstd::seq_lib::group_to_multiset_ensures;

        let i = choose|i: int| 0 <= i < es.len() && #[trigger] crate::config_source::may_root(k, es[i].key);
        assert(es[i].key == k);
        assert(is_profile_entry(es[i]));
        lemma_entry_profile(es[i], m[k]);
        let x = choose|x: int|
            0 <= x < c.len() && c[x] == profile_of(es[i]) && profile_entry_keys(es)[x] == es[i].key;
        assert(c.contains(c[x]));
        assert(c.to_multiset().count(c[x]) > 0);
        assert(ps.contains(c[x]));
    }
}

/// What the profiles read from a loaded configuration `m` are: sorted by
/// name; each is the profile of a section of `m` that is not an
/// `[sso-session ...]` block; each such section gives one; and there are as
/// many profiles as such sections.
pub proof fn law_profiles_of_config(ps: Seq<ProfileView>, m: ConfigModel)
    requires
        profiles_of_config(ps, m),
    ensures
        sorted_by_name(ps),
        forall|i: int| 0 <= i < ps.len() ==> is_section_profile(#[trigger] ps[i], m),
        forall|k: Seq<char>|
            #[trigger] profile_sections(m).contains(k) ==> ps.contains(section_profile(k, m[k])),
        profile_sections(m).finite(),
        ps.len() == profile_sections(m).len(),
{
    let es = choose|es: Seq<EntryView>|
        #[trigger] entries_describe(es, m) && is_sorting_by_name(ps, candidates(es));
    lemma_sorting_by_name_permutes(ps, candidates(es));
    lemma_profiles_from_sections(ps, m, es);
    lemma_sections_give_profiles(ps, m, es);
    lemma_section_count(m, es);
    assert(ps.len() == candidates(es).len()) by {
        broadcast use vstd::seq_lib::group_to_multiset_ensures;

        assert(ps.to_multiset().len() == ps.len());
        assert(candidates(es).to_multiset().len() == candidates(es).len());
    }
}

} // verus!
