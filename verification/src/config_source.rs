use vstd::prelude::*;

verus! {

/// The error of the `config` crate, carried through unread.
#[verifier::external_type_specification]
#[verifier::external_body]
pub struct ExConfigError(config::ConfigError);

/// One key and value of a section table, the value as text when `config`
/// can render it as a string.
pub struct ConfigField {
    pub key: String,
    pub value: Option<String>,
}

/// One top-level key of the loaded configuration with its table, or `None`
/// for a top-level value that is not a table.
pub struct ConfigEntry {
    pub key: String,
    pub table: Option<Vec<ConfigField>>,
}

/// A field as plain values: its key and its text.
pub type FieldView = (Seq<char>, Option<Seq<char>>);

/// An entry as plain values.
pub struct EntryView {
    pub key: Seq<char>,
    pub table: Option<Seq<FieldView>>,
}

impl View for ConfigField {
    type V = FieldView;

    open spec fn view(&self) -> FieldView {
        (self.key@, self.value.deep_view())
    }
}

/// A table's fields, each by its view.
pub open spec fn table_view(table: Option<Vec<ConfigField>>) -> Option<Seq<FieldView>> {
    match table {
        Some(fields) => Some(fields@.map_values(|f: ConfigField| f@)),
        None => None,
    }
}

impl View for ConfigEntry {
    type V = EntryView;

    open spec fn view(&self) -> EntryView {
        EntryView { key: self.key@, table: table_view(self.table) }
    }
}

/// The entries of a vector, each by its view.
pub open spec fn entry_views(es: Seq<ConfigEntry>) -> Seq<EntryView> {
    es.map_values(|e: ConfigEntry| e@)
}

/// A table as the `config` crate holds it: keys to the text of their values.
pub type TableModel = Map<Seq<char>, Option<Seq<char>>>;

/// A loaded configuration: top-level keys to their table, `None` for a
/// value that is not a table.
pub type ConfigModel = Map<Seq<char>, Option<TableModel>>;

/// What the INI format of the `config` crate reads from a text, before the
/// keys are merged into a configuration (each section becomes a table under
/// its name, each key outside any section a plain value): `None` where it
/// refuses the text.
pub uninterp spec fn ini_config(text: Seq<char>) -> Option<ConfigModel>;

/// A character that `config` allows in a segment of a key path.
pub open spec fn is_path_char(c: char) -> bool {
    ||| ('a' as int) <= (c as int) <= ('z' as int)
    ||| ('A' as int) <= (c as int) <= ('Z' as int)
    ||| ('0' as int) <= (c as int) <= ('9' as int)
    ||| c == '_'
    ||| c == '-'
}

/// `config` may read key `k` as a path into nested tables: a first segment
/// of path characters followed by `.` or `[`. Keys that it may not are set
/// as they are.
pub open spec fn may_be_config_path(k: Seq<char>) -> bool {
    exists|i: int|
        0 < i < k.len() && (k[i] == '.' || k[i] == '[') && forall|j: int|
            0 <= j < i ==> is_path_char(#[trigger] k[j])
}

/// The leading run of path characters of `k`: the first segment of a key
/// path, which is where `config` sets a key that it reads as a path.
pub open spec fn path_head(k: Seq<char>) -> Seq<char>
    decreases k.len(),
{
    if k.len() > 0 && is_path_char(k[0]) {
        seq![k[0]] + path_head(k.drop_first())
    } else {
        Seq::empty()
    }
}

/// `r` may be the top-level key under which `config` sets key `k`: `k`
/// itself, or, where `k` may be read as a path, its first segment.
pub open spec fn may_root(k: Seq<char>, r: Seq<char>) -> bool {
    r == k || (may_be_config_path(k) && r == path_head(k))
}

/// Some key of `m` may be set under the top-level key `r`.
pub open spec fn lands_in(r: Seq<char>, m: ConfigModel) -> bool {
    exists|k: Seq<char>| #[trigger] m.contains_key(k) && may_root(k, r)
}

/// Key `k` is set as it is and no other key of `m` may be set under it, so
/// the top-level value under `k` is `m[k]` alone, whatever the order of
/// merging.
pub open spec fn key_is_set_whole(k: Seq<char>, m: ConfigModel) -> bool {
    &&& !may_be_config_path(k)
    &&& forall|k2: Seq<char>|
        #[trigger] m.contains_key(k2) && may_be_config_path(k2) ==> path_head(k2) != k
}

/// No key of `m` may be read as a nested path, so merging the keys into the
/// configuration leaves each one as it is, in whatever order they come.
pub open spec fn has_flat_keys(m: ConfigModel) -> bool {
    forall|k: Seq<char>| #[trigger] m.contains_key(k) ==> !may_be_config_path(k)
}

/// The fields list each key of `t` exactly once, with its value.
pub open spec fn table_describes(fields: Seq<FieldView>, t: TableModel) -> bool {
    &&& forall|i: int, j: int|
        0 <= i < j < fields.len() ==> #[trigger] fields[i].0 != #[trigger] fields[j].0
    &&& forall|i: int|
        0 <= i < fields.len() ==> t.contains_key(#[trigger] fields[i].0) && t[fields[i].0]
            == fields[i].1
    &&& forall|k: Seq<char>|
        #[trigger] t.contains_key(k) ==> exists|i: int| 0 <= i < fields.len() && fields[i].0 == k
}

/// An entry's table agrees with the model's value for its key.
pub open spec fn entry_table_describes(table: Option<Seq<FieldView>>, t: Option<TableModel>) -> bool {
    match (table, t) {
        (Some(fields), Some(m)) => table_describes(fields, m),
        (None, None) => true,
        _ => false,
    }
}

/// The entries list each top-level key of `m` exactly once, in some order,
/// with its table.
pub open spec fn entries_describe(es: Seq<EntryView>, m: ConfigModel) -> bool {
    &&& forall|i: int, j: int| 0 <= i < j < es.len() ==> #[trigger] es[i].key != #[trigger] es[j].key
    &&& forall|i: int|
        0 <= i < es.len() ==> m.contains_key(#[trigger] es[i].key) && entry_table_describes(
            es[i].table,
            m[es[i].key],
        )
    &&& forall|k: Seq<char>|
        #[trigger] m.contains_key(k) ==> exists|i: int| 0 <= i < es.len() && es[i].key == k
}

/// The entries of a configuration merged from the keys of `m`: each
/// top-level key once; each key of `m` set under one of them and each of
/// them holding some key of `m`; and under a key of `m` that is set whole,
/// the table of that key.
pub open spec fn entries_within(es: Seq<EntryView>, m: ConfigModel) -> bool {
    &&& forall|i: int, j: int| 0 <= i < j < es.len() ==> #[trigger] es[i].key != #[trigger] es[j].key
    &&& forall|k: Seq<char>|
        #[trigger] m.contains_key(k) ==> exists|i: int| 0 <= i < es.len() && #[trigger] may_root(k, es[i].key)
    &&& forall|i: int| 0 <= i < es.len() ==> lands_in(#[trigger] es[i].key, m)
    &&& forall|i: int|
        0 <= i < es.len() && m.contains_key(#[trigger] es[i].key) && key_is_set_whole(es[i].key, m)
            ==> entry_table_describes(es[i].table, m[es[i].key])
}

/// Where no key may be read as a path, the merged entries list the keys of
/// `m` exactly, each with its table.
pub proof fn lemma_flat_entries_describe(es: Seq<EntryView>, m: ConfigModel)
    requires
        has_flat_keys(m),
        entries_within(es, m),
    ensures
        entries_describe(es, m),
{
    assert forall|i: int| 0 <= i < es.len() implies m.contains_key(#[trigger] es[i].key)
        && entry_table_describes(es[i].table, m[es[i].key]) by {
        assert(lands_in(es[i].key, m));
        let k = choose|k: Seq<char>| #[trigger] m.contains_key(k) && may_root(k, es[i].key);
        assert(!may_be_config_path(k));
        assert(key_is_set_whole(es[i].key, m));
    }
    assert forall|k: Seq<char>| #[trigger] m.contains_key(k) implies exists|i: int|
        0 <= i < es.len() && es[i].key == k by {
        let i = choose|i: int| 0 <= i < es.len() && #[trigger] may_root(k, es[i].key);
        assert(!may_be_config_path(k));
    }
}

/// Loads `text` as an INI file with the `config` crate:
/// `Config::builder().add_source(File::from_str(text, FileFormat::Ini)).build()`,
/// then `Source::collect`, each value turned by `Value::into_table` and each
/// table value by `Value::into_string`. The contract claims that the crate
/// succeeds exactly when its INI format reads the text (building merges
/// keys and cannot fail otherwise), and that the entries are those of a
/// configuration merged from what the format read (`entries_within`): a key
/// is set under itself or, where `config` reads it as a path, under its first
/// segment. Which of the two holds for a key that may be read as a path, and
/// the tables under keys that several keys may share, are left unsaid: they
/// rest on `config`'s path grammar and on the order of a hash map whose seed
/// differs from run to run. The order of the entries is left open too.
#[verifier::external_body]
pub(crate) fn load_ini(text: &str) -> (r: Result<Vec<ConfigEntry>, config::ConfigError>)
    ensures
        r is Ok <==> ini_config(text@) is Some,
        r matches Ok(es) ==> entries_within(entry_views(es@), ini_config(text@)->0),
{
    let source = config::File::from_str(text, config::FileFormat::Ini);
    let loaded = config::Config::builder().add_source(source).build()?;
    let map = config::Source::collect(&loaded)?;
    Ok(map.into_iter().map(|(key, value)| ConfigEntry {
        key,
        table: value.into_table().ok().map(|t| {
            t.into_iter().map(|(k, v)| ConfigField { key: k, value: v.into_string().ok() }).collect()
        }),
    }).collect())
}

} // verus!
