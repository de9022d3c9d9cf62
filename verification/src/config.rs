//! The configuration model: which note storages exist, which is the
//! default, and the configured external programs.  Reading the file
//! and parsing its TOML happen outside; the rules that turn the
//! parsed storage table into a configuration live here, verified.
use vstd::prelude::*;

use crate::util::string_views;

verus! {

#[verifier::external_type_specification]
#[verifier::external_body]
pub struct ExTomlValue(toml::Value);

/// What the storage rules read from one value of the configuration's
/// storage table: a text, or something of another type.
pub enum TomlItem {
    Str(String),
    Other,
}

/// The model of a `TomlItem`.
pub enum TomlItemView {
    Str(Seq<char>),
    Other,
}

impl View for TomlItem {
    type V = TomlItemView;

    open spec fn view(&self) -> TomlItemView {
        match self {
            TomlItem::Str(s) => TomlItemView::Str(s@),
            TomlItem::Other => TomlItemView::Other,
        }
    }
}

/// The models of a key-value list, in order.
pub open spec fn entry_views(es: Seq<(String, TomlItem)>) -> Seq<(Seq<char>, TomlItemView)> {
    Seq::new(es.len(), |i: int| (es[i].0@, es[i].1@))
}

/// What loading or reading a configuration can report.
#[derive(Debug)]
pub enum ConfigError {
    /// The configuration file could not be read.
    Read,
    /// The configuration file is not valid TOML.
    Parse,
    /// The storage table cannot be used, for the given reason.
    InvalidStorage(String),
    /// The configuration has no storage table.
    NoStorage,
    /// The storage table is empty.
    NoStorages,
    /// Several storages, but none marked as the default.
    NoDefaultStorage,
    /// The programs table cannot be used.
    InvalidPrograms,
    /// The marked default is unusable or missing.
    InvalidDefaultStorage,
}

/// The named note storages: each a name and a folder path, and the
/// name of the default one.
pub struct StorageConfig {
    pub default: String,
    pub storages: Vec<(String, String)>,
}

/// The value under the first occurrence of `key`, if any.
pub open spec fn find_key(es: Seq<(Seq<char>, TomlItemView)>, key: Seq<char>) -> Option<
    TomlItemView,
>
    decreases es.len(),
{
    if es.len() == 0 {
        None
    } else if es[0].0 == key {
        Some(es[0].1)
    } else {
        find_key(es.drop_first(), key)
    }
}

/// Whether every entry apart from the `default` marker holds a text.
pub open spec fn all_paths_text(es: Seq<(Seq<char>, TomlItemView)>) -> bool
    decreases es.len(),
{
    if es.len() == 0 {
        true
    } else {
        (es[0].0 == "default"@ || es[0].1 is Str) && all_paths_text(es.drop_first())
    }
}

/// The storage entries: every pair apart from the `default` marker,
/// with its text payload.
pub open spec fn storages_of(es: Seq<(Seq<char>, TomlItemView)>) -> Seq<(Seq<char>, Seq<char>)>
    decreases es.len(),
{
    if es.len() == 0 {
        Seq::empty()
    } else {
        (if es[0].0 == "default"@ {
            Seq::empty()
        } else {
            match es[0].1 {
                TomlItemView::Str(p) => seq![(es[0].0, p)],
                TomlItemView::Other => Seq::empty(),
            }
        }) + storages_of(es.drop_first())
    }
}

/// Whether a storage of that name is listed.
pub open spec fn has_storage(ss: Seq<(Seq<char>, Seq<char>)>, name: Seq<char>) -> bool {
    exists|i: int| 0 <= i < ss.len() && (#[trigger] ss[i]).0 == name
}

/// The models of the kept storage pairs.
pub open spec fn storage_views(ss: Seq<(String, String)>) -> Seq<(Seq<char>, Seq<char>)> {
    Seq::new(ss.len(), |i: int| (ss[i].0@, ss[i].1@))
}

/// What `parse_storage_config` decides for the given table, checks in
/// the order the parser makes them.
pub open spec fn storage_outcome_ok(
    es: Seq<(Seq<char>, TomlItemView)>,
    r: Result<StorageConfig, ConfigError>,
) -> bool {
    match find_key(es, "default"@) {
        Some(TomlItemView::Other) => r matches Err(ConfigError::InvalidDefaultStorage),
        Some(TomlItemView::Str(d)) => if !all_paths_text(es) {
            r matches Err(ConfigError::InvalidStorage(_))
        } else if !has_storage(storages_of(es), d) {
            r matches Err(ConfigError::InvalidDefaultStorage)
        } else {
            r matches Ok(sc) && sc.default@ == d && storage_views(sc.storages@) == storages_of(es)
        },
        None => if es.len() == 0 {
            r matches Err(ConfigError::NoStorages)
        } else if es.len() != 1 {
            r matches Err(ConfigError::NoDefaultStorage)
        } else if !all_paths_text(es) {
            r matches Err(ConfigError::InvalidStorage(_))
        } else {
            r matches Ok(sc) && sc.default@ == es[0].0 && storage_views(sc.storages@)
                == storages_of(es)
        },
    }
}

/// Turns the entries of the configuration's storage table into a
/// storage configuration.  The `default` entry, when present, must be
/// a text naming one of the other entries; without it a single listed
/// storage becomes the default.  Every other entry must be a text: a
/// storage's folder path.  The errors, in the order the checks are
/// made, are what `storage_outcome_ok` lays down.
pub fn parse_storage_config(entries: Vec<(String, TomlItem)>) -> (r: Result<
    StorageConfig,
    ConfigError,
>)
    ensures
        storage_outcome_ok(entry_views(entries@), r),
{
    let ghost es = entry_views(entries@);
    let mut i: usize = 0;
    let mut found_default = false;
    while i < entries.len() && !found_default
        invariant
            i <= entries@.len(),
            es == entry_views(entries@),
            !found_default ==> forall|q: int| 0 <= q < i ==> (#[trigger] es[q]).0 != "default"@,
            found_default ==> i > 0 && es[i - 1].0 == "default"@ && (forall|q: int|
                0 <= q < i - 1 ==> (#[trigger] es[q]).0 != "default"@),
        decreases entries@.len() - i,
    {
        if string_is_lit(&entries[i].0, "default") {
            found_default = true;
        }
        i = i + 1;
    }
    let mut default: Option<String> = None;
    if found_default {
        proof {
            lemma_find_key_at(es, "default"@, i - 1);
        }
        match &entries[i - 1].1 {
            TomlItem::Str(d) => {
                default = Some(d.clone());
            },
            TomlItem::Other => {
                return Err(ConfigError::InvalidDefaultStorage);
            },
        }
    } else {
        proof {
            lemma_find_key_none(es, "default"@);
        }
    }
    if entries.len() == 0 {
        return Err(ConfigError::NoStorages);
    }
    if default.is_none() && entries.len() != 1 {
        return Err(ConfigError::NoDefaultStorage);
    }
    let chosen: String = match default {
        Some(d) => d,
        None => entries[0].0.clone(),
    };
    let ghost chosen_ok = (match find_key(es, "default"@) {
        Some(TomlItemView::Str(d)) => chosen@ == d,
        None => es.len() == 1 && chosen@ == es[0].0,
        Some(TomlItemView::Other) => false,
    });
    proof {
        assert(chosen_ok);
    }
    let mut storages: Vec<(String, String)> = Vec::new();
    let mut j: usize = 0;
    while j < entries.len()
        invariant
            j <= entries@.len(),
            es == entry_views(entries@),
            (match find_key(es, "default"@) {
                Some(TomlItemView::Str(d)) => chosen@ == d,
                None => es.len() == 1 && chosen@ == es[0].0,
                Some(TomlItemView::Other) => false,
            }),
            forall|q: int|
                0 <= q < j ==> ((#[trigger] es[q]).0 == "default"@ || es[q].1 is Str),
            storage_views(storages@) == storages_of(es.subrange(0, j as int)),
        decreases entries@.len() - j,
    {
        let ghost pre = es.subrange(0, j + 1 as int);
        if !string_is_lit(&entries[j].0, "default") {
            match &entries[j].1 {
                TomlItem::Str(p) => {
                    storages.push((entries[j].0.clone(), p.clone()));
                },
                TomlItem::Other => {
                    proof {
                        lemma_bad_entry(es, j as int);
                    }
                    return Err(ConfigError::InvalidStorage("Not a string".to_owned()));
                },
            }
        }
        proof {
            lemma_storages_of_push(es, j as int);
            assert(storage_views(storages@) =~= storages_of(pre));
        }
        j = j + 1;
    }
    proof {
        assert(es.subrange(0, es.len() as int) =~= es);
        lemma_all_paths_text(es);
    }
    let mut found = false;
    let mut k: usize = 0;
    while k < storages.len()
        invariant
            k <= storages@.len(),
            es == entry_views(entries@),
            (match find_key(es, "default"@) {
                Some(TomlItemView::Str(d)) => chosen@ == d,
                None => es.len() == 1 && chosen@ == es[0].0,
                Some(TomlItemView::Other) => false,
            }),
            all_paths_text(es),
            storage_views(storages@) == storages_of(es),
            !found ==> forall|q: int| 0 <= q < k ==> (#[trigger] storages@[q]).0@ != chosen@,
            found ==> has_storage(storage_views(storages@), chosen@),
        decreases storages@.len() - k,
    {
        if string_is_lit(&storages[k].0, chosen.as_str()) {
            found = true;
            proof {
                assert(storage_views(storages@)[k as int].0 == chosen@);
            }
        }
        k = k + 1;
    }
    if !found {
        proof {
            assert(!has_storage(storage_views(storages@), chosen@)) by {
                assert forall|q: int|
                    0 <= q < storage_views(storages@).len() implies (#[trigger] storage_views(
                    storages@,
                )[q]).0 != chosen@ by {
                    assert(storages@[q].0@ != chosen@);
                }
            }
            if find_key(es, "default"@) is None {
                assert(es.drop_first().len() == 0);
                assert(storages_of(es.drop_first()) =~= Seq::<(Seq<char>, Seq<char>)>::empty());
                assert(es[0].1 is Str);
                assert(storages_of(es)[0].0 == chosen@);
                assert(has_storage(storages_of(es), chosen@));
            }
        }
        return Err(ConfigError::InvalidDefaultStorage);
    }
    Ok(StorageConfig { default: chosen, storages })
}

/// A non-text entry that is not the `default` marker spoils the
/// all-text check.
proof fn lemma_bad_entry(es: Seq<(Seq<char>, TomlItemView)>, j: int)
    requires
        0 <= j < es.len(),
        es[j].0 != "default"@,
        !(es[j].1 is Str),
    ensures
        !all_paths_text(es),
    decreases j,
{
    if j > 0 {
        assert(es.drop_first()[j - 1] == es[j]);
        lemma_bad_entry(es.drop_first(), j - 1);
    }
}

/// `find_key` finds index `i` when nothing before it carries the key
/// and `i` does.
proof fn lemma_find_key_at(es: Seq<(Seq<char>, TomlItemView)>, key: Seq<char>, i: int)
    requires
        0 <= i < es.len(),
        es[i].0 == key,
        forall|q: int| 0 <= q < i ==> (#[trigger] es[q]).0 != key,
    ensures
        find_key(es, key) == Some(es[i].1),
    decreases i,
{
    if i > 0 {
        assert(es.drop_first()[i - 1] == es[i]);
        assert forall|q: int| 0 <= q < i - 1 implies (#[trigger] es.drop_first()[q]).0 != key by {
            assert(es.drop_first()[q] == es[q + 1]);
        }
        lemma_find_key_at(es.drop_first(), key, i - 1);
    }
}

/// `find_key` finds nothing when no entry carries the key.
proof fn lemma_find_key_none(es: Seq<(Seq<char>, TomlItemView)>, key: Seq<char>)
    requires
        forall|q: int| 0 <= q < es.len() ==> (#[trigger] es[q]).0 != key,
    ensures
        find_key(es, key) is None,
    decreases es.len(),
{
    if es.len() > 0 {
        assert forall|q: int|
            0 <= q < es.drop_first().len() implies (#[trigger] es.drop_first()[q]).0 != key by {
            assert(es.drop_first()[q] == es[q + 1]);
        }
        lemma_find_key_none(es.drop_first(), key);
    }
}

/// Extending the scanned prefix by one entry extends its storages by
/// that entry's contribution.
proof fn lemma_storages_of_push(es: Seq<(Seq<char>, TomlItemView)>, j: int)
    requires
        0 <= j < es.len(),
    ensures
        storages_of(es.subrange(0, j + 1)) == storages_of(es.subrange(0, j)) + (if es[j].0
            == "default"@ {
            Seq::<(Seq<char>, Seq<char>)>::empty()
        } else {
            match es[j].1 {
                TomlItemView::Str(p) => seq![(es[j].0, p)],
                TomlItemView::Other => Seq::<(Seq<char>, Seq<char>)>::empty(),
            }
        }),
    decreases j,
{
    let pre = es.subrange(0, j + 1);
    if j == 0 {
        assert(pre.drop_first() =~= es.subrange(0, 0));
        assert(storages_of(es.subrange(0, 0)) =~= Seq::<(Seq<char>, Seq<char>)>::empty());
        assert(storages_of(pre) =~= storages_of(es.subrange(0, j)) + (if es[0].0 == "default"@ {
            Seq::<(Seq<char>, Seq<char>)>::empty()
        } else {
            match es[0].1 {
                TomlItemView::Str(p) => seq![(es[0].0, p)],
                TomlItemView::Other => Seq::<(Seq<char>, Seq<char>)>::empty(),
            }
        }));
    } else {
        lemma_storages_of_push(es.drop_first(), j - 1);
        assert(pre.drop_first() =~= es.drop_first().subrange(0, j));
        assert(es.subrange(0, j).drop_first() =~= es.drop_first().subrange(0, j - 1));
        assert(es.drop_first()[j - 1] == es[j]);
    }
}

/// A prefix-wise all-text scan covers the whole table.
proof fn lemma_all_paths_text(es: Seq<(Seq<char>, TomlItemView)>)
    requires
        forall|q: int| 0 <= q < es.len() ==> ((#[trigger] es[q]).0 == "default"@ || es[q].1 is Str),
    ensures
        all_paths_text(es),
    decreases es.len(),
{
    if es.len() > 0 {
        assert forall|q: int|
            0 <= q < es.drop_first().len() implies ((#[trigger] es.drop_first()[q]).0 == "default"@
            || es.drop_first()[q].1 is Str) by {
            assert(es.drop_first()[q] == es[q + 1]);
        }
        lemma_all_paths_text(es.drop_first());
    }
}

/// Whether the string holds exactly this text.
fn string_is_lit(s: &String, lit: &str) -> (r: bool)
    ensures
        r == (s@ == lit@),
{
    let owned = lit.to_owned();
    s.eq(&owned)
}

/// The configuration: the storages, the configured external programs,
/// and the raw parsed file for anything else.
pub struct Config {
    pub value: Option<toml::Value>,
    pub storage: StorageConfig,
    pub programs: Vec<(String, Vec<String>)>,
}

impl Config {
    /// A configuration is usable when its default storage is listed.
    pub open spec fn wf(self) -> bool {
        has_storage(storage_views(self.storage.storages@), self.storage.default@)
    }

    /// Assembles a configuration from its parsed parts.
    pub fn from_parts(
        value: Option<toml::Value>,
        storage: StorageConfig,
        programs: Vec<(String, Vec<String>)>,
    ) -> (r: Config)
        ensures
            r.storage == storage,
            r.programs == programs,
    {
        Config { value, storage, programs }
    }

    /// Returns the parsed configuration file as a raw value.
    pub fn value(&self) -> &Option<toml::Value> {
        &self.value
    }

    /// Returns the path of the storage with the given name, if present.
    pub fn storage_folder(&self, name: &str) -> (r: Option<&String>)
        ensures
            r matches Some(p) ==> exists|i: int|
                0 <= i < self.storage.storages@.len() && (#[trigger] self.storage.storages@[i]).0@
                    == name@ && self.storage.storages@[i].1 == p,
            r is None ==> !has_storage(storage_views(self.storage.storages@), name@),
    {
        let mut i: usize = 0;
        while i < self.storage.storages.len()
            invariant
                i <= self.storage.storages@.len(),
                forall|q: int| 0 <= q < i ==> (#[trigger] self.storage.storages@[q]).0@ != name@,
            decreases self.storage.storages@.len() - i,
        {
            if string_is_lit(&self.storage.storages[i].0, name) {
                return Some(&self.storage.storages[i].1);
            }
            i = i + 1;
        }
        proof {
            assert forall|q: int|
                0 <= q < storage_views(self.storage.storages@).len() implies (
            #[trigger] storage_views(self.storage.storages@)[q]).0 != name@ by {
                assert(self.storage.storages@[q].0@ != name@);
            }
        }
        None
    }

    /// Returns the path of the default storage.
    pub fn default_storage_folder(&self) -> (r: &String)
        requires
            self.wf(),
        ensures
            exists|i: int|
                0 <= i < self.storage.storages@.len() && (#[trigger] self.storage.storages@[i]).0@
                    == self.storage.default@ && self.storage.storages@[i].1 == r,
    {
        let mut i: usize = 0;
        while i < self.storage.storages.len()
            invariant
                i <= self.storage.storages@.len(),
                self.wf(),
                forall|q: int|
                    0 <= q < i ==> (#[trigger] self.storage.storages@[q]).0@
                        != self.storage.default@,
            decreases self.storage.storages@.len() - i,
        {
            if string_is_lit(&self.storage.storages[i].0, self.storage.default.as_str()) {
                return &self.storage.storages[i].1;
            }
            i = i + 1;
        }
        proof {
            assert forall|q: int|
                0 <= q < storage_views(self.storage.storages@).len() implies (
            #[trigger] storage_views(self.storage.storages@)[q]).0 != self.storage.default@ by {
                assert(self.storage.storages@[q].0@ != self.storage.default@);
            }
            assert(false);
        }
        &self.storage.storages[0].1
    }
}

} // verus!
