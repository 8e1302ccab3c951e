//! The configuration that the toolchain logic reads: the default selector,
//! the alias table and where toolchains are fetched from.

use rustc_hash::FxHashMap;
use vstd::prelude::*;

use crate::text::owned;

verus! {

/// The hasher that the alias table is built with.
#[verifier::external_type_specification]
#[verifier::external_body]
pub struct ExFxBuildHasher(rustc_hash::FxBuildHasher);

/// The selector that a fresh configuration starts with.
pub const DEFAULT_SELECTOR: &'static str = "stable";

/// The server that a fresh configuration fetches from.
pub const DEFAULT_ROOT_URL: &'static str = "https://sm.alliedmods.net/smdrop/";

/// The download limit, in bytes, of a fresh configuration.
pub const DEFAULT_MAX_DOWNLOAD_SIZE: u64 = 75_000_000;

/// Where toolchains are fetched from.
#[derive(Debug, Clone, PartialEq, Eq, PartialOrd, Ord, Hash)]
pub struct Source {
    /// Root URL of the static file server that holds the archives.
    pub root_url: String,
    /// The most bytes that one download may hold.
    pub max_download_size: u64,
}

impl Default for Source {
    fn default() -> (r: Self)
        ensures
            r.root_url@ == DEFAULT_ROOT_URL@,
            r.max_download_size == DEFAULT_MAX_DOWNLOAD_SIZE,
    {
        Source { root_url: owned(DEFAULT_ROOT_URL), max_download_size: DEFAULT_MAX_DOWNLOAD_SIZE }
    }
}

/// The entries of an alias table: the version that each alias name stands
/// for.
pub uninterp spec fn alias_entries(table: FxHashMap<String, String>) -> Map<Seq<char>, Seq<char>>;

/// The alias table without entries.
pub open spec fn no_aliases() -> Map<Seq<char>, Seq<char>> {
    Map::empty()
}

/// `HashMap::get` on the alias table: the version stored under `name`, or
/// `None` where the table has no such name.
#[verifier::external_body]
fn alias_get<'a>(table: &'a FxHashMap<String, String>, name: &str) -> (r: Option<&'a String>)
    ensures
        match r {
            Some(version) => alias_entries(*table).contains_key(name@) && alias_entries(
                *table,
            )[name@] == version@,
            None => !alias_entries(*table).contains_key(name@),
        },
{
    table.get(name)
}

/// Whether one of `list` holds the text `text`.
pub open spec fn holds_text(list: Seq<String>, text: Seq<char>) -> bool {
    exists|i: int| 0 <= i < list.len() && (#[trigger] list[i])@ == text
}

/// `HashMap::values` on the alias table: the versions that the aliases
/// stand for. The order in which the table gives them cannot be told
/// beforehand, so only which versions occur is stated.
#[verifier::external_body]
fn alias_values(table: &FxHashMap<String, String>) -> (r: Vec<String>)
    ensures
        forall|version: Seq<char>| #[trigger]
            holds_text(r@, version) <==> alias_entries(*table).contains_value(version),
{
    table.values().cloned().collect()
}

/// `HashMap::default` for the alias table: a table without entries.
#[verifier::external_body]
fn alias_table_new() -> (r: FxHashMap<String, String>)
    ensures
        alias_entries(r) == no_aliases(),
{
    FxHashMap::default()
}

/// The configuration of the toolchain manager.
#[derive(Debug, Clone)]
pub struct ConfigData {
    /// Selector of the toolchain to use where none is asked for.
    pub default: String,
    /// The version that each alias stands for.
    pub aliases: FxHashMap<String, String>,
    /// Where toolchains are fetched from.
    pub source: Source,
}

impl ConfigData {
    /// The alias table as a map from alias name to version.
    pub open spec fn alias_map(&self) -> Map<Seq<char>, Seq<char>> {
        alias_entries(self.aliases)
    }

    /// The version that the alias `name` stands for, if it is defined.
    pub fn alias(&self, name: &str) -> (r: Option<&String>)
        ensures
            match r {
                Some(version) => self.alias_map().contains_key(name@) && self.alias_map()[name@]
                    == version@,
                None => !self.alias_map().contains_key(name@),
            },
    {
        alias_get(&self.aliases, name)
    }
}

impl ConfigData {
    /// The versions that the aliases stand for, in no order that could be
    /// told beforehand.
    pub fn alias_versions(&self) -> (r: Vec<String>)
        ensures
            forall|version: Seq<char>| #[trigger]
                holds_text(r@, version) <==> self.alias_map().contains_value(version),
    {
        alias_values(&self.aliases)
    }
}

impl Default for ConfigData {
    fn default() -> (r: Self)
        ensures
            r.default@ == DEFAULT_SELECTOR@,
            r.alias_map() == no_aliases(),
            r.source.root_url@ == DEFAULT_ROOT_URL@,
            r.source.max_download_size == DEFAULT_MAX_DOWNLOAD_SIZE,
    {
        ConfigData {
            default: owned(DEFAULT_SELECTOR),
            aliases: alias_table_new(),
            source: Source::default(),
        }
    }
}

} // verus!
