//! Finding an installed toolchain. Toolchains live in two homes, the custom
//! one and the cached one, each a directory with one subdirectory per
//! toolchain. The library reads no directory: it is handed what the homes
//! hold and decides.

use rustc_hash::FxHashSet;
use std::path::PathBuf;
use vstd::prelude::*;

use crate::config::ConfigData;
use crate::failure::FailureKind;
use crate::paths::{joined, path_join};
use crate::selector::{Selector, SelectorView};
use crate::text::{owned, str_eq};
use crate::version::{
    comes_after, lemma_parts_sign_transitive, lemma_prefix_sign_zero, lemma_version_sign_mirror,
    parts_of, refines, same_shape, version_sign, Version,
};

verus! {

/// Name of the directory of shared include files.
pub const INCLUDES_PATH: &'static str = "includes";

/// The homes in the order in which they are searched.
#[derive(Default, Debug, Clone, Copy, PartialEq, Eq, Structural, PartialOrd, Ord, Hash)]
pub enum ToolchainHomes {
    /// The custom home comes next.
    #[default]
    Custom,
    /// The cached home comes next.
    Cached,
    /// Both homes have been given out.
    Done,
}

impl ToolchainHomes {
    /// The search before its first home.
    pub fn new() -> (r: Self)
        ensures
            r == ToolchainHomes::Custom,
    {
        ToolchainHomes::Custom
    }

    /// The home that this state gives out, if one is left.
    pub open spec fn given(self) -> Option<ToolchainHomes> {
        match self {
            ToolchainHomes::Custom => Some(ToolchainHomes::Custom),
            ToolchainHomes::Cached => Some(ToolchainHomes::Cached),
            ToolchainHomes::Done => None,
        }
    }

    /// The state that follows this one.
    pub open spec fn following(self) -> ToolchainHomes {
        match self {
            ToolchainHomes::Custom => ToolchainHomes::Cached,
            _ => ToolchainHomes::Done,
        }
    }

    /// The home to search next, `Custom` before `Cached`, and `None` after
    /// both.
    pub fn next(&mut self) -> (r: Option<ToolchainHomes>)
        ensures
            r == old(self).given(),
            *final(self) == old(self).following(),
    {
        match *self {
            ToolchainHomes::Custom => {
                *self = ToolchainHomes::Cached;
                Some(ToolchainHomes::Custom)
            },
            ToolchainHomes::Cached => {
                *self = ToolchainHomes::Done;
                Some(ToolchainHomes::Cached)
            },
            ToolchainHomes::Done => None,
        }
    }
}

/// The walk over the homes and what is installed in each.
#[derive(Default, Debug, Clone, Copy, PartialEq, Eq, PartialOrd, Ord, Hash)]
pub struct ToolchainVersions {
    /// The homes that are still to be visited.
    pub homes: ToolchainHomes,
}

impl ToolchainVersions {
    /// The walk before its first home.
    pub fn new() -> (r: Self)
        ensures
            r.homes == ToolchainHomes::Custom,
    {
        ToolchainVersions { homes: ToolchainHomes::new() }
    }

    /// The home whose toolchains are to be listed next.
    pub fn next(&mut self) -> (r: Option<ToolchainHomes>)
        ensures
            r == old(self).homes.given(),
            final(self).homes == old(self).homes.following(),
    {
        self.homes.next()
    }
}

/// One home as it was found on disk.
#[derive(Debug, Clone, PartialEq, Eq)]
pub struct ToolchainHome {
    /// The directory of the home.
    pub path: PathBuf,
    /// The names of its subdirectories, in the order in which the directory
    /// gave them.
    pub names: Vec<String>,
}

/// What is installed: the two homes, each `None` where the home is missing
/// or cannot be read.
#[derive(Debug, Clone, PartialEq, Eq)]
pub struct Installed {
    /// The custom home, which is searched first.
    pub custom: Option<ToolchainHome>,
    /// The cached home.
    pub cached: Option<ToolchainHome>,
}

/// The texts of a sequence of strings.
pub open spec fn texts(names: Seq<String>) -> Seq<Seq<char>> {
    Seq::new(names.len(), |i: int| names[i]@)
}

/// The names that a home holds; none where the home is missing.
pub open spec fn names_in(home: Option<ToolchainHome>) -> Seq<Seq<char>> {
    match home {
        Some(h) => texts(h.names@),
        None => Seq::empty(),
    }
}

impl Installed {
    /// The names of both homes as one pool, those of the custom home first.
    pub open spec fn pool(&self) -> Seq<Seq<char>> {
        names_in(self.custom) + names_in(self.cached)
    }

    /// The directory of the home that the pool's entry `i` came from.
    pub open spec fn path_of(&self, i: int) -> PathBuf {
        if i < names_in(self.custom).len() {
            self.custom->0.path
        } else {
            self.cached->0.path
        }
    }

    /// The path of the toolchain named exactly `version`: the directory of
    /// the home that holds it, extended by `version`. The custom home comes
    /// first, so where both homes hold the version the path lies in the
    /// custom home.
    pub open spec fn path_holding(&self, version: Seq<char>) -> Option<PathBuf> {
        match self.home_holding(version) {
            Some(ToolchainHomes::Custom) => Some(joined(self.custom->0.path, version)),
            Some(_) => Some(joined(self.cached->0.path, version)),
            None => None,
        }
    }

    /// The home that holds a toolchain named exactly `version`: the custom
    /// home where it does, whatever the cached home holds.
    pub open spec fn home_holding(&self, version: Seq<char>) -> Option<ToolchainHomes> {
        if names_in(self.custom).contains(version) {
            Some(ToolchainHomes::Custom)
        } else if names_in(self.cached).contains(version) {
            Some(ToolchainHomes::Cached)
        } else {
            None
        }
    }
}

/// Index of the newest of `names` among those that are `prefix` or refine
/// it, or `-1` where none does. The names are taken in turn, and a later
/// one replaces the choice so far unless that one comes after it in the
/// order of versions; so of names that the order ties, the last is chosen.
pub open spec fn latest_index(names: Seq<Seq<char>>, prefix: Seq<char>) -> int
    decreases names.len(),
{
    if names.len() == 0 {
        -1
    } else {
        let i = names.len() - 1;
        let before = latest_index(names.drop_last(), prefix);
        if !refines(names[i], prefix) {
            before
        } else if before >= 0 && version_sign(names[before], names[i]) > 0 {
            before
        } else {
            i
        }
    }
}

/// What `latest_index` chooses is one of the names and is `prefix` or a
/// refinement of it, and it chooses one wherever a name qualifies.
pub proof fn lemma_latest_index(names: Seq<Seq<char>>, prefix: Seq<char>)
    ensures
        -1 <= latest_index(names, prefix) < names.len(),
        latest_index(names, prefix) >= 0 ==> refines(
            names[latest_index(names, prefix)],
            prefix,
        ),
        latest_index(names, prefix) < 0 <==> forall|j: int|
            0 <= j < names.len() ==> !refines(#[trigger] names[j], prefix),
    decreases names.len(),
{
    if names.len() > 0 {
        let init = names.drop_last();
        lemma_latest_index(init, prefix);
        if latest_index(names, prefix) < 0 {
            assert forall|j: int| 0 <= j < names.len() implies !refines(
                #[trigger] names[j],
                prefix,
            ) by {
                if j < init.len() {
                    assert(init[j] == names[j]);
                }
            }
        } else {
            let k = latest_index(names, prefix);
            if k < init.len() {
                assert(init[k] == names[k]);
            }
        }
    }
}

/// What `latest_index` chooses comes after every qualifying name that
/// follows it: any of those that did not come before it would have
/// replaced it.
pub proof fn lemma_latest_after_later(names: Seq<Seq<char>>, prefix: Seq<char>, j: int)
    requires
        0 <= latest_index(names, prefix) < j < names.len(),
        refines(names[j], prefix),
    ensures
        version_sign(names[latest_index(names, prefix)], names[j]) > 0,
    decreases names.len(),
{
    let init = names.drop_last();
    lemma_latest_index(init, prefix);
    if j < names.len() - 1 {
        lemma_latest_after_later(init, prefix, j);
    }
}

/// Among names with the same number of parts, no name that is `prefix` or
/// refines it comes after the one that `latest_index` chooses.
pub proof fn lemma_latest_is_maximal(names: Seq<Seq<char>>, prefix: Seq<char>, j: int)
    requires
        same_shape(names),
        0 <= j < names.len(),
        refines(names[j], prefix),
    ensures
        0 <= latest_index(names, prefix) < names.len(),
        version_sign(names[latest_index(names, prefix)], names[j]) >= 0,
    decreases names.len(),
{
    let init = names.drop_last();
    let last = names.last();
    lemma_latest_index(names, prefix);
    lemma_latest_index(init, prefix);
    let chosen = latest_index(names, prefix);
    let before = latest_index(init, prefix);
    assert(same_shape(init)) by {
        assert forall|i: int, k: int| 0 <= i < init.len() && 0 <= k < init.len() implies (
        #[trigger] parts_of(init[i])).len() == (#[trigger] parts_of(init[k])).len() by {
            assert(init[i] == names[i] && init[k] == names[k]);
        }
    }
    if j == names.len() - 1 {
        if chosen == j {
            lemma_prefix_sign_zero(parts_of(last), parts_of(last));
        }
    } else {
        assert(init[j] == names[j]);
        lemma_latest_is_maximal(init, prefix, j);
        if chosen != before {
            assert(init[before] == names[before]);
            lemma_version_sign_mirror(names[before], last);
            assert(parts_of(last).len() == parts_of(names[before]).len());
            assert(parts_of(names[before]).len() == parts_of(names[j]).len());
            lemma_parts_sign_transitive(
                parts_of(last),
                parts_of(names[before]),
                parts_of(names[j]),
            );
        }
    }
}

/// Whether `names` holds `version`.
fn holds_name(names: &Vec<String>, version: &str) -> (r: bool)
    ensures
        r == texts(names@).contains(version@),
{
    let mut i: usize = 0;
    while i < names.len()
        invariant
            i <= names.len(),
            forall|j: int| 0 <= j < i ==> texts(names@)[j] != version@,
        decreases names.len() - i,
    {
        if str_eq(names[i].as_str(), version) {
            assert(texts(names@)[i as int] == version@);
            return true;
        }
        i = i + 1;
    }
    false
}

/// Whether a home holds `version`.
fn home_holds(home: &Option<ToolchainHome>, version: &str) -> (r: bool)
    ensures
        r == names_in(*home).contains(version@),
{
    match home {
        Some(h) => holds_name(&h.names, version),
        None => false,
    }
}

/// The home that holds a toolchain named exactly `version`. The custom home
/// wins where both hold it.
pub fn find_toolchain_home(version: &str, installed: &Installed) -> (r: Option<ToolchainHomes>)
    ensures
        r == installed.home_holding(version@),
        names_in(installed.custom).contains(version@) ==> r == Some(ToolchainHomes::Custom),
{
    if home_holds(&installed.custom, version) {
        Some(ToolchainHomes::Custom)
    } else if home_holds(&installed.cached, version) {
        Some(ToolchainHomes::Cached)
    } else {
        None
    }
}

/// Whether a toolchain named exactly `version` is installed in either home.
pub fn is_installed(version: &str, installed: &Installed) -> (r: bool)
    ensures
        r == installed.pool().contains(version@),
{
    proof {
        lemma_pool_contains(*installed, version@);
    }
    find_toolchain_home(version, installed).is_some()
}

/// The pool holds a name exactly where one of the homes does.
pub proof fn lemma_pool_contains(installed: Installed, version: Seq<char>)
    ensures
        installed.pool().contains(version) <==> installed.home_holding(version) is Some,
{
    let a = names_in(installed.custom);
    let b = names_in(installed.cached);
    if a.contains(version) {
        let i = choose|i: int| 0 <= i < a.len() && a[i] == version;
        assert((a + b)[i] == version);
    }
    if b.contains(version) {
        let i = choose|i: int| 0 <= i < b.len() && b[i] == version;
        assert((a + b)[a.len() + i] == version);
    }
    if (a + b).contains(version) {
        let i = choose|i: int| 0 <= i < (a + b).len() && (a + b)[i] == version;
        if i < a.len() {
            assert(a[i] == version);
        } else {
            assert(b[i - a.len()] == version);
        }
    }
}

/// The path of the installed toolchain named exactly `version`, in the
/// custom home where that holds it and else in the cached home: the home's
/// directory extended by `version`.
pub fn find_toolchain_path(version: &str, installed: &Installed) -> (r: Option<PathBuf>)
    ensures
        r == installed.path_holding(version@),
        names_in(installed.custom).contains(version@) ==> r == Some(
            joined(installed.custom->0.path, version@),
        ),
{
    match find_toolchain_home(version, installed) {
        Some(ToolchainHomes::Custom) => match &installed.custom {
            Some(h) => Some(path_join(h.path.clone(), version)),
            None => None,
        },
        Some(_) => match &installed.cached {
            Some(h) => Some(path_join(h.path.clone(), version)),
            None => None,
        },
        None => None,
    }
}

/// Goes on with the choice of the newest name through `names`, which follow
/// `before` in the pool. `best` is the name chosen in `before`. The result
/// is the index in `names` of the new choice, or `None` where the choice
/// stays in `before` or there is none.
fn extend_latest(
    names: &Vec<String>,
    prefix: &str,
    best: Option<&str>,
    Ghost(before): Ghost<Seq<Seq<char>>>,
) -> (r: Option<usize>)
    requires
        match best {
            Some(t) => latest_index(before, prefix@) >= 0 && t@ == before[latest_index(
                before,
                prefix@,
            )],
            None => latest_index(before, prefix@) < 0,
        },
    ensures
        match r {
            Some(i) => i < names.len() && latest_index(before + texts(names@), prefix@)
                == before.len() + i,
            None => latest_index(before + texts(names@), prefix@) == latest_index(
                before,
                prefix@,
            ),
        },
{
    let ghost all = before + texts(names@);
    let mut chosen: Option<usize> = None;
    let mut i: usize = 0;
    proof {
        assert(all.take(before.len() as int) =~= before);
    }
    while i < names.len()
        invariant
            i <= names.len(),
            all == before + texts(names@),
            match best {
                Some(t) => latest_index(before, prefix@) >= 0 && t@ == before[latest_index(
                    before,
                    prefix@,
                )],
                None => latest_index(before, prefix@) < 0,
            },
            match chosen {
                Some(c) => c < i && latest_index(all.take(before.len() + i), prefix@)
                    == before.len() + c,
                None => latest_index(all.take(before.len() + i), prefix@) == latest_index(
                    before,
                    prefix@,
                ),
            },
        decreases names.len() - i,
    {
        let name = names[i].as_str();
        proof {
            let upto = all.take(before.len() + i + 1);
            assert(upto.drop_last() =~= all.take(before.len() + i));
            assert(upto[upto.len() - 1] == name@);
            lemma_latest_index(before, prefix@);
        }
        if name.is_sub_version_of(prefix) {
            let keep = match chosen {
                Some(c) => {
                    assert(all[before.len() + c] == names@[c as int]@);
                    comes_after(names[c].as_str(), name)
                },
                None => match best {
                    Some(t) => comes_after(t, name),
                    None => false,
                },
            };
            if !keep {
                chosen = Some(i);
            }
        }
        i = i + 1;
    }
    proof {
        assert(all.take(before.len() + i) =~= all);
    }
    chosen
}

/// The index of the newest of `names` among those that are `prefix` or
/// refine it: see `latest_index`.
pub fn latest_of(names: &Vec<String>, prefix: &str) -> (r: Option<usize>)
    ensures
        match r {
            Some(i) => i < names.len() && i == latest_index(texts(names@), prefix@),
            None => latest_index(texts(names@), prefix@) < 0,
        },
{
    let ghost none = Seq::<Seq<char>>::empty();
    proof {
        assert(none + texts(names@) =~= texts(names@));
        lemma_latest_index(texts(names@), prefix@);
    }
    extend_latest(names, prefix, None, Ghost(none))
}

/// The newest installed toolchain that is `super_version` or refines it,
/// with the directory of the home that holds it. Both homes count as one
/// pool, the custom home's names first. `None` where no name qualifies.
///
/// The order of versions ties a version with its refinements, so the choice
/// among such names rests on their order in the pool: see `latest_index`.
pub fn find_latest_toolchain_of(super_version: &str, installed: &Installed) -> (r: Option<
    (String, PathBuf),
>)
    ensures
        match r {
            Some((name, home)) => {
                let i = latest_index(installed.pool(), super_version@);
                i >= 0 && name@ == installed.pool()[i] && home == installed.path_of(i)
            },
            None => latest_index(installed.pool(), super_version@) < 0,
        },
{
    let ghost a = names_in(installed.custom);
    let ghost b = names_in(installed.cached);
    let ghost none = Seq::<Seq<char>>::empty();
    let first: Option<usize> = match &installed.custom {
        Some(h) => extend_latest(&h.names, super_version, None, Ghost(none)),
        None => None,
    };
    proof {
        assert(none + a =~= a);
        lemma_latest_index(a, super_version@);
    }
    let best: Option<&str> = match first {
        Some(i) => match &installed.custom {
            Some(h) => Some(h.names[i].as_str()),
            None => None,
        },
        None => None,
    };
    let second: Option<usize> = match &installed.cached {
        Some(h) => extend_latest(&h.names, super_version, best, Ghost(a)),
        None => None,
    };
    proof {
        if installed.cached is None {
            assert(a + b =~= a);
        }
        lemma_latest_index(a + b, super_version@);
    }
    match second {
        Some(j) => match &installed.cached {
            Some(h) => Some((h.names[j].clone(), h.path.clone())),
            None => None,
        },
        None => match first {
            Some(i) => match &installed.custom {
                Some(h) => Some((h.names[i].clone(), h.path.clone())),
                None => None,
            },
            None => None,
        },
    }
}

/// A toolchain that was found.
#[derive(Debug, Clone, PartialEq, Eq, PartialOrd, Ord, Hash)]
pub struct FoundToolchain {
    /// The name of the toolchain's directory: its version.
    pub name: String,
    /// How it was found, and where.
    pub kinded: FoundToolchainKinded,
}

/// How a toolchain was found.
#[derive(Debug, Clone, PartialEq, Eq, PartialOrd, Ord, Hash)]
pub enum FoundToolchainKinded {
    /// As the newest that refines a version prefix, in the home `home`.
    Latest { home: PathBuf },
    /// By the version that an alias stands for, at `path`.
    Aliased { path: PathBuf },
}

impl FoundToolchain {
    /// The directory of the toolchain: the home extended by the name, or
    /// the path that the search gave.
    pub fn into_path(self) -> (r: PathBuf)
        ensures
            r == match self.kinded {
                FoundToolchainKinded::Latest { home } => joined(home, self.name@),
                FoundToolchainKinded::Aliased { path } => path,
            },
    {
        match self.kinded {
            FoundToolchainKinded::Latest { home } => path_join(home, self.name.as_str()),
            FoundToolchainKinded::Aliased { path } => path,
        }
    }
}

/// Why no toolchain was found.
#[derive(Debug, Clone, PartialEq, Eq)]
pub enum FindToolchainError {
    /// No installed toolchain refines this version prefix.
    LatestNotFound(String),
    /// The alias stands for a version that is not installed.
    NotFound { version: String, alias: String },
    /// The alias stands for nothing.
    NoAliasDefault(String),
}

impl FindToolchainError {
    /// The kind of this failure: an alias that stands for nothing could
    /// not be resolved, and in the other cases nothing installed matches.
    pub fn kind(&self) -> (r: FailureKind)
        ensures
            r == match *self {
                FindToolchainError::NoAliasDefault(_) => FailureKind::ResolutionFailure,
                _ => FailureKind::NotFound,
            },
    {
        match self {
            FindToolchainError::NoAliasDefault(_) => FailureKind::ResolutionFailure,
            _ => FailureKind::NotFound,
        }
    }

    /// The message of this error, which names the version and the alias
    /// that the search was for.
    pub open spec fn message(self) -> Seq<char> {
        match self {
            FindToolchainError::LatestNotFound(version) =>
                "latest toolchain compatible with version "@ + version@ + " was not found"@,
            FindToolchainError::NotFound { version, alias } => "version "@ + version@
                + " (as specified by alias \""@ + alias@ + "\") was not found"@,
            FindToolchainError::NoAliasDefault(alias) => "alias \""@ + alias@
                + "\" has no default version set"@,
        }
    }

    /// The message of this error.
    pub fn to_string(&self) -> (r: String)
        ensures
            r@ == self.message(),
    {
        match self {
            FindToolchainError::LatestNotFound(version) => owned(
                "latest toolchain compatible with version ",
            ).concat(version.as_str()).concat(" was not found"),
            FindToolchainError::NotFound { version, alias } => owned("version ").concat(
                version.as_str(),
            ).concat(" (as specified by alias \"").concat(alias.as_str()).concat(
                "\") was not found",
            ),
            FindToolchainError::NoAliasDefault(alias) => owned("alias \"").concat(
                alias.as_str(),
            ).concat("\" has no default version set"),
        }
    }
}

/// What the search for `selector` must give.
pub open spec fn toolchain_found(
    r: Result<FoundToolchain, FindToolchainError>,
    selector: SelectorView,
    aliases: Map<Seq<char>, Seq<char>>,
    installed: Installed,
) -> bool {
    match selector {
        SelectorView::Super(prefix) => {
            let i = latest_index(installed.pool(), prefix);
            if i >= 0 {
                &&& r matches Ok(found)
                &&& found.name@ == installed.pool()[i]
                &&& found.kinded == (FoundToolchainKinded::Latest { home: installed.path_of(i) })
            } else {
                r matches Err(FindToolchainError::LatestNotFound(v)) && v@ == prefix
            }
        },
        SelectorView::Alias(name) => {
            if !aliases.contains_key(name) {
                r matches Err(FindToolchainError::NoAliasDefault(a)) && a@ == name
            } else if installed.home_holding(aliases[name]) is Some {
                &&& r matches Ok(found)
                &&& found.name@ == aliases[name]
                &&& installed.path_holding(aliases[name]) == Some(found.kinded->path)
                &&& found.kinded is Aliased
            } else {
                &&& r matches Err(FindToolchainError::NotFound { version, alias })
                &&& version@ == aliases[name]
                &&& alias@ == name
            }
        },
    }
}

/// Searches for the toolchain that `selector` names. A version prefix gives
/// the newest installed toolchain that refines it, from either home. An
/// alias is looked up in the alias table, and the version it stands for
/// must be installed under exactly that name.
pub fn find_toolchain(config: &ConfigData, selector: Selector<'_>, installed: &Installed) -> (r:
    Result<FoundToolchain, FindToolchainError>)
    ensures
        toolchain_found(r, selector@, config.alias_map(), *installed),
{
    match selector {
        Selector::Super(s) => match find_latest_toolchain_of(s, installed) {
            Some((name, home)) => Ok(
                FoundToolchain { name, kinded: FoundToolchainKinded::Latest { home } },
            ),
            None => Err(FindToolchainError::LatestNotFound(owned(s))),
        },
        Selector::Alias(s) => match config.alias(s) {
            None => Err(FindToolchainError::NoAliasDefault(owned(s))),
            Some(version) => match find_toolchain_path(version.as_str(), installed) {
                Some(path) => Ok(
                    FoundToolchain {
                        name: version.clone(),
                        kinded: FoundToolchainKinded::Aliased { path },
                    },
                ),
                None => Err(
                    FindToolchainError::NotFound {
                        version: version.clone(),
                        alias: owned(s),
                    },
                ),
            },
        },
    }
}

/// Whether the toolchain named `name` is in use: whether it is the default
/// toolchain or some alias stands for it.
pub open spec fn is_used(
    name: Seq<char>,
    default_name: Option<Seq<char>>,
    aliases: Map<Seq<char>, Seq<char>>,
) -> bool {
    default_name == Some(name) || aliases.contains_value(name)
}

/// The text of a string slice that may be missing.
pub open spec fn text_of(name: Option<&str>) -> Option<Seq<char>> {
    match name {
        Some(text) => Some(text@),
        None => None,
    }
}

/// The names that a set of toolchain names holds.
pub uninterp spec fn name_set(set: FxHashSet<String>) -> Set<Seq<char>>;

/// The set without a name.
pub open spec fn no_names() -> Set<Seq<char>> {
    Set::empty()
}

/// One of the first `upto` of `names` is `name`.
pub open spec fn among(names: Seq<Seq<char>>, upto: int, name: Seq<char>) -> bool {
    exists|k: int| 0 <= k < upto && k < names.len() && #[trigger] names[k] == name
}

/// `HashSet::default`: a set of names that holds none.
#[verifier::external_body]
fn name_set_new() -> (r: FxHashSet<String>)
    ensures
        name_set(r) == no_names(),
{
    FxHashSet::default()
}

/// `HashSet::insert`: the set holds `name` besides what it held.
#[verifier::external_body]
fn name_set_insert(set: &mut FxHashSet<String>, name: String)
    ensures
        name_set(*final(set)) == name_set(*old(set)).insert(name@),
{
    set.insert(name);
}

/// `HashSet::remove`: the set holds what it held, but for `name`.
#[verifier::external_body]
fn name_set_remove(set: &mut FxHashSet<String>, name: &str)
    ensures
        name_set(*final(set)) == name_set(*old(set)).remove(name@),
{
    set.remove(name);
}

/// `HashSet::into_iter`: the names that the set holds, each once. The
/// order in which the set gives them cannot be told beforehand.
#[verifier::external_body]
fn name_set_into_vec(set: FxHashSet<String>) -> (r: Vec<String>)
    ensures
        forall|name: Seq<char>| #[trigger]
            crate::config::holds_text(r@, name) <==> name_set(set).contains(name),
        forall|i: int, j: int| 0 <= i < j < r.len() ==> (#[trigger] r[i])@ != (#[trigger] r[j])@,
{
    set.into_iter().collect()
}

/// The installed toolchains that can be removed: those of `names` that are
/// neither the default toolchain `default_name` nor the version that some
/// alias stands for, each once. They come in the order in which a set
/// gives them, which cannot be told beforehand.
pub fn unused_toolchains(names: &Vec<String>, default_name: Option<&str>, data: &ConfigData) -> (r:
    Vec<String>)
    ensures
        forall|name: Seq<char>| #[trigger]
            crate::config::holds_text(r@, name) <==> (texts(names@).contains(name) && !is_used(
                name,
                text_of(default_name),
                data.alias_map(),
            )),
        forall|i: int, j: int| 0 <= i < j < r.len() ==> (#[trigger] r[i])@ != (#[trigger] r[j])@,
{
    let ghost all = texts(names@);
    let mut set = name_set_new();
    let mut i: usize = 0;
    while i < names.len()
        invariant
            i <= names.len(),
            all == texts(names@),
            forall|name: Seq<char>| #[trigger] name_set(set).contains(name) <==> among(all, i as int, name),
        decreases names.len() - i,
    {
        let ghost before = name_set(set);
        name_set_insert(&mut set, names[i].clone());
        proof {
            assert forall|name: Seq<char>| #[trigger]
                name_set(set).contains(name) <==> among(all, i + 1, name) by {
                if among(all, i as int, name) {
                    let k = choose|k: int| 0 <= k < i && k < all.len() && #[trigger] all[k] == name;
                    assert(0 <= k < i + 1 && all[k] == name);
                }
                if name == all[i as int] {
                    assert(among(all, i + 1, name));
                }
                if among(all, i + 1, name) {
                    let k = choose|k: int|
                        0 <= k < i + 1 && k < all.len() && #[trigger] all[k] == name;
                    if k < i {
                        assert(among(all, i as int, name));
                    }
                }
            }
        }
        i = i + 1;
    }
    match default_name {
        Some(default) => {
            name_set_remove(&mut set, default);
        },
        None => {},
    }
    let versions = data.alias_versions();
    let mut k: usize = 0;
    while k < versions.len()
        invariant
            k <= versions.len(),
            all == texts(names@),
            forall|name: Seq<char>| #[trigger]
                name_set(set).contains(name) <==> (among(all, all.len() as int, name)
                    && text_of(default_name) != Some(name) && !among(
                    texts(versions@),
                    k as int,
                    name,
                )),
        decreases versions.len() - k,
    {
        let ghost held = texts(versions@);
        name_set_remove(&mut set, versions[k].as_str());
        proof {
            assert forall|name: Seq<char>| #[trigger]
                name_set(set).contains(name) <==> (among(all, all.len() as int, name)
                    && text_of(default_name) != Some(name) && !among(held, k + 1, name)) by {
                if among(held, k as int, name) {
                    let j = choose|j: int| 0 <= j < k && j < held.len() && #[trigger] held[j] == name;
                    assert(0 <= j < k + 1 && held[j] == name);
                }
                if name == held[k as int] {
                    assert(among(held, k + 1, name));
                }
                if among(held, k + 1, name) {
                    let j = choose|j: int|
                        0 <= j < k + 1 && j < held.len() && #[trigger] held[j] == name;
                    if j < k {
                        assert(among(held, k as int, name));
                    }
                }
            }
        }
        k = k + 1;
    }
    let out = name_set_into_vec(set);
    proof {
        let held = texts(versions@);
        assert forall|name: Seq<char>| #[trigger]
            crate::config::holds_text(out@, name) <==> (all.contains(name) && !is_used(
                name,
                text_of(default_name),
                data.alias_map(),
            )) by {
            if all.contains(name) {
                let j = choose|j: int| 0 <= j < all.len() && all[j] == name;
                assert(among(all, all.len() as int, name));
            }
            if among(all, all.len() as int, name) {
                let j = choose|j: int| 0 <= j < all.len() && j < all.len() && #[trigger] all[j] == name;
                assert(all.contains(name));
            }
            if crate::config::holds_text(versions@, name) {
                let j = choose|j: int| 0 <= j < versions@.len() && (#[trigger] versions@[j])@ == name;
                assert(held[j] == name);
                assert(among(held, held.len() as int, name));
            }
            if among(held, held.len() as int, name) {
                let j = choose|j: int|
                    0 <= j < held.len() && j < held.len() && #[trigger] held[j] == name;
                assert(versions@[j]@ == name);
                assert(crate::config::holds_text(versions@, name));
            }
        }
    }
    out
}

/// Where the name of the current toolchain came from.
#[derive(Debug, Clone, Copy, PartialEq, Eq, Structural, PartialOrd, Ord, Hash)]
pub enum ToolchainSource {
    /// From the environment.
    Env,
    /// From the configuration.
    Config,
}

/// What the environment holds under a name.
#[derive(Debug, Clone, PartialEq, Eq)]
pub enum EnvValue {
    /// A value that is text.
    Present(String),
    /// No value.
    NotPresent,
    /// A value that is no text.
    NotUnicode,
}

/// Why the current toolchain is not known.
#[derive(Debug, Clone, Copy, PartialEq, Eq, Structural)]
pub enum CurrentToolchainError {
    /// The environment names the toolchain by something that is no text.
    ToString,
}

/// The selector of the current toolchain and where it came from: the
/// environment's where it holds one, the configuration's default otherwise.
pub fn current_toolchain(env: EnvValue, data: &ConfigData) -> (r: Result<
    (String, ToolchainSource),
    CurrentToolchainError,
>)
    ensures
        match env {
            EnvValue::Present(toolchain) => r == Ok::<
                (String, ToolchainSource),
                CurrentToolchainError,
            >((toolchain, ToolchainSource::Env)),
            EnvValue::NotPresent => r matches Ok((toolchain, source)) && toolchain@
                == data.default@ && source == ToolchainSource::Config,
            EnvValue::NotUnicode => r == Err::<
                (String, ToolchainSource),
                CurrentToolchainError,
            >(CurrentToolchainError::ToString),
        },
{
    match env {
        EnvValue::Present(toolchain) => Ok((toolchain, ToolchainSource::Env)),
        EnvValue::NotPresent => Ok((data.default.clone(), ToolchainSource::Config)),
        EnvValue::NotUnicode => Err(CurrentToolchainError::ToString),
    }
}

} // verus!
