//! What to fetch: the archives of a branch that suit this platform, the
//! branch that a selector names, and whether a download is due.

use core::cmp::Ordering;
use vstd::prelude::*;

use crate::config::ConfigData;
use crate::failure::FailureKind;
use crate::selector::{written, Selector, SelectorView};
use crate::smdrop::branches::{names_of, Branch};
use crate::smdrop::versions::{
    normalized_text, target_of, urls_of, version_text_of, Version, VersionUrl,
};
use crate::text::{owned, str_eq};
use crate::toolchain::{latest_index, latest_of, texts};
use crate::version::{
    comes_before, lemma_newest_index, lemma_newest_is_maximal, newest_index, newest_of,
    ordering_of, parts_of, refines, same_shape, version_ord, version_sign, views,
    Version as VersionText,
};

verus! {

/// The version text that stands for "whatever is newest" on the server, and
/// names no version.
pub const LATEST: &'static str = "latest";

/// The alias that names the newest branch but one.
pub const STABLE: &'static str = "stable";

/// The normalized version of the archive at `url`, where the archive is for
/// the platform `os` and names a version other than the placeholder
/// `latest`; `None` for every other URL.
pub open spec fn relevant_version(url: Seq<char>, os: Seq<char>) -> Option<Seq<char>> {
    if target_of(url) == Some(os) && version_text_of(url) is Some && version_text_of(url)->0
        != LATEST@ {
        Some(normalized_text(version_text_of(url)->0))
    } else {
        None
    }
}

/// The URL of an archive that suits the running platform, with the version
/// that it holds.
#[derive(Debug)]
pub struct RelevantUrl {
    url: VersionUrl,
    version: String,
}

impl RelevantUrl {
    /// The URL of the archive.
    pub closed spec fn url_text(&self) -> Seq<char> {
        self.url@
    }

    /// The normalized version that the archive holds.
    pub closed spec fn version_text(&self) -> Seq<char> {
        self.version@
    }

    /// The URL names a target, and a version other than the placeholder,
    /// and the version held is that version, normalized.
    #[verifier::type_invariant]
    pub closed spec fn wf(&self) -> bool {
        &&& target_of(self.url@) is Some
        &&& version_text_of(self.url@) is Some
        &&& version_text_of(self.url@)->0 != LATEST@
        &&& self.version@ == normalized_text(version_text_of(self.url@)->0)
    }

    /// The archive at `url`, if it is for the platform `os` and names a
    /// version other than `latest`.
    pub fn new(url: VersionUrl, os: &str) -> (r: Option<Self>)
        ensures
            match r {
                Some(relevant) => relevant.url_text() == url@ && relevant_version(url@, os@)
                    == Some(relevant.version_text()),
                None => relevant_version(url@, os@) is None,
            },
    {
        let suits = match url.target() {
            Some(target) => str_eq(target, os),
            None => false,
        };
        if !suits {
            return None;
        }
        let version = match url.version_str() {
            Some(v) => {
                if str_eq(v.0, LATEST) {
                    return None;
                }
                v.normalized()
            },
            None => {
                return None;
            },
        };
        Some(RelevantUrl { url, version })
    }

    /// The URL of the archive.
    pub fn url(&self) -> (r: &str)
        ensures
            r@ == self.url_text(),
    {
        self.url.as_str()
    }

    /// The normalized version that the archive holds.
    pub fn version(&self) -> (r: &str)
        ensures
            r@ == self.version_text(),
            version_text_of(self.url_text()) is Some,
            r@ == normalized_text(version_text_of(self.url_text())->0),
    {
        proof {
            use_type_invariant(self);
        }
        self.version.as_str()
    }

    /// The order of this archive's version and `other`'s.
    pub fn version_ord(&self, other: &Self) -> (r: Ordering)
        ensures
            r == ordering_of(version_sign(self.version_text(), other.version_text())),
    {
        version_ord(self.version.as_str(), other.version.as_str())
    }
}

/// The URLs, of `urls`, of the archives that suit the platform `os`, in
/// order.
pub open spec fn relevant_among(urls: Seq<Seq<char>>, os: Seq<char>) -> Seq<Seq<char>>
    decreases urls.len(),
{
    if urls.len() == 0 {
        Seq::empty()
    } else {
        let before = relevant_among(urls.drop_last(), os);
        if relevant_version(urls.last(), os) is Some {
            before.push(urls.last())
        } else {
            before
        }
    }
}

/// The URLs of a sequence of relevant archives.
pub open spec fn relevant_url_texts(urls: Seq<RelevantUrl>) -> Seq<Seq<char>> {
    Seq::new(urls.len(), |i: int| urls[i].url_text())
}

/// The versions of a sequence of relevant archives.
pub open spec fn relevant_version_texts(urls: Seq<RelevantUrl>) -> Seq<Seq<char>> {
    Seq::new(urls.len(), |i: int| urls[i].version_text())
}

/// The archives, of the versions of a branch, that suit the platform `os`
/// and name a version: for each of them, in order, its URL with the
/// normalized version.
pub fn relevant_urls(versions: &Vec<Version>, os: &str) -> (r: Vec<RelevantUrl>)
    ensures
        relevant_url_texts(r@) == relevant_among(urls_of(versions@), os@),
        forall|i: int|
            0 <= i < r.len() ==> relevant_version(#[trigger] r[i].url_text(), os@) == Some(
                r[i].version_text(),
            ),
{
    let ghost all = urls_of(versions@);
    let mut out: Vec<RelevantUrl> = Vec::new();
    let mut i: usize = 0;
    proof {
        assert(all.take(0) =~= Seq::<Seq<char>>::empty());
        assert(relevant_url_texts(out@) =~= relevant_among(all.take(0), os@));
    }
    while i < versions.len()
        invariant
            i <= versions.len(),
            all == urls_of(versions@),
            relevant_url_texts(out@) == relevant_among(all.take(i as int), os@),
            forall|k: int|
                0 <= k < out.len() ==> relevant_version(#[trigger] out[k].url_text(), os@)
                    == Some(out[k].version_text()),
        decreases versions.len() - i,
    {
        let ghost before = out@;
        proof {
            assert(all.take(i + 1).drop_last() =~= all.take(i as int));
            assert(all.take(i + 1).last() == versions@[i as int]@);
        }
        let url = VersionUrl(owned(versions[i].as_str()));
        match RelevantUrl::new(url, os) {
            Some(relevant) => {
                out.push(relevant);
                proof {
                    assert(relevant_url_texts(out@) =~= relevant_url_texts(before).push(
                        versions@[i as int]@,
                    ));
                }
            },
            None => {},
        }
        i = i + 1;
    }
    proof {
        assert(all.take(i as int) =~= all);
    }
    out
}

/// Index of the first of `names` that `version` is or refines, or
/// `names.len()` where there is none.
pub open spec fn first_branch_for(names: Seq<Seq<char>>, version: Seq<char>) -> int
    decreases names.len(),
{
    if names.len() == 0 || refines(version, names[0]) {
        0
    } else {
        1 + first_branch_for(names.skip(1), version)
    }
}

/// `first_branch_for` is the least index of a name that `version` is or
/// refines.
pub proof fn lemma_first_branch_for(names: Seq<Seq<char>>, version: Seq<char>)
    ensures
        0 <= first_branch_for(names, version) <= names.len(),
        first_branch_for(names, version) < names.len() ==> refines(
            version,
            names[first_branch_for(names, version)],
        ),
        forall|j: int|
            0 <= j < first_branch_for(names, version) ==> !refines(version, #[trigger] names[j]),
    decreases names.len(),
{
    if names.len() == 0 || refines(version, names[0]) {
    } else {
        let rest = names.skip(1);
        lemma_first_branch_for(rest, version);
        assert forall|j: int| 0 <= j < first_branch_for(names, version) implies !refines(
            version,
            #[trigger] names[j],
        ) by {
            if j > 0 {
                assert(rest[j - 1] == names[j]);
            }
        }
    }
}

/// An index of a name that `version` is or refines, with no such name
/// before it, is `first_branch_for`.
pub proof fn lemma_first_branch_is(names: Seq<Seq<char>>, version: Seq<char>, i: int)
    requires
        0 <= i <= names.len(),
        i < names.len() ==> refines(version, names[i]),
        forall|j: int| 0 <= j < i ==> !refines(version, #[trigger] names[j]),
    ensures
        first_branch_for(names, version) == i,
{
    lemma_first_branch_for(names, version);
    let k = first_branch_for(names, version);
    if k < i {
        assert(!refines(version, names[k]));
    }
}

/// Index of the newest of `names` but one, or `-1` where there are fewer
/// than two names: the newest of what is left when the newest is taken
/// out. Where the order of versions is total on the names, this is the
/// name that a sort by that order puts next to last.
pub open spec fn stable_index(names: Seq<Seq<char>>) -> int {
    if names.len() < 2 {
        -1
    } else {
        let top = newest_index(names);
        let next = newest_index(names.remove(top));
        if next < top {
            next
        } else {
            next + 1
        }
    }
}

/// Of two or more names, `stable_index` chooses one, and not the one that
/// `newest_index` chooses.
pub proof fn lemma_stable_index(names: Seq<Seq<char>>)
    requires
        names.len() >= 2,
    ensures
        0 <= stable_index(names) < names.len(),
        stable_index(names) != newest_index(names),
{
    lemma_newest_index(names);
    let top = newest_index(names);
    lemma_newest_index(names.remove(top));
}

/// Among two or more names with the same number of parts, none but the
/// newest comes after the one that `stable_index` chooses: it is the name
/// that a sort by the order of versions puts next to last.
pub proof fn lemma_stable_is_next(names: Seq<Seq<char>>, j: int)
    requires
        same_shape(names),
        names.len() >= 2,
        0 <= j < names.len(),
        j != newest_index(names),
    ensures
        version_sign(names[stable_index(names)], names[j]) >= 0,
        version_sign(names[newest_index(names)], names[stable_index(names)]) >= 0,
{
    lemma_newest_index(names);
    let top = newest_index(names);
    let rest = names.remove(top);
    lemma_newest_index(rest);
    let next = newest_index(rest);
    assert(same_shape(rest)) by {
        assert forall|i: int, k: int| 0 <= i < rest.len() && 0 <= k < rest.len() implies (
        #[trigger] parts_of(rest[i])).len() == (#[trigger] parts_of(rest[k])).len() by {
            let i0 = if i < top {
                i
            } else {
                i + 1
            };
            let k0 = if k < top {
                k
            } else {
                k + 1
            };
            assert(rest[i] == names[i0] && rest[k] == names[k0]);
        }
    }
    let k = if j < top {
        j
    } else {
        j - 1
    };
    assert(rest[k] == names[j]);
    assert(rest[next] == names[stable_index(names)]);
    lemma_newest_is_maximal(rest, k);
    lemma_newest_is_maximal(names, stable_index(names));
}

/// Why no branch was selected. Every variant holds the selector as it is
/// written.
#[derive(Debug, Clone, PartialEq, Eq)]
pub enum SelectBranchError {
    /// The server offers no branch.
    NoLatest { selector: String },
    /// The server offers fewer than two branches.
    NoStable { selector: String },
    /// The alias stands for nothing.
    UnresolvedAlias { selector: String, alias: String },
    /// No branch holds the version.
    NoBranch { selector: String, version: String },
}

impl SelectBranchError {
    /// The selector that the search was for, as it is written.
    pub open spec fn selector_text(self) -> Seq<char> {
        match self {
            SelectBranchError::NoLatest { selector } => selector@,
            SelectBranchError::NoStable { selector } => selector@,
            SelectBranchError::UnresolvedAlias { selector, .. } => selector@,
            SelectBranchError::NoBranch { selector, .. } => selector@,
        }
    }

    /// The kind of this failure: nothing on the server qualifies.
    pub fn kind(&self) -> (r: FailureKind)
        ensures
            r == FailureKind::ResolutionFailure,
    {
        FailureKind::ResolutionFailure
    }

    /// The message of this error, which names the selector and, where there
    /// is one, the alias or the version that could not be resolved.
    pub open spec fn message(self) -> Seq<char> {
        match self {
            SelectBranchError::NoLatest { selector } =>
                "couldn't select latest branch with selector \""@ + selector@ + "\""@,
            SelectBranchError::NoStable { selector } =>
                "couldn't select latest stable branch with selector \""@ + selector@ + "\""@,
            SelectBranchError::UnresolvedAlias { selector, alias } => "failed to resolve alias \""@
                + alias@ + "\" of selector \""@ + selector@ + "\""@,
            SelectBranchError::NoBranch { selector, version } =>
                "couldn't select branch with version \""@ + version@ + "\" for selector \""@
                    + selector@ + "\""@,
        }
    }

    /// The message of this error.
    pub fn to_string(&self) -> (r: String)
        ensures
            r@ == self.message(),
    {
        match self {
            SelectBranchError::NoLatest { selector } => owned(
                "couldn't select latest branch with selector \"",
            ).concat(selector.as_str()).concat("\""),
            SelectBranchError::NoStable { selector } => owned(
                "couldn't select latest stable branch with selector \"",
            ).concat(selector.as_str()).concat("\""),
            SelectBranchError::UnresolvedAlias { selector, alias } => owned(
                "failed to resolve alias \"",
            ).concat(alias.as_str()).concat("\" of selector \"").concat(selector.as_str()).concat(
                "\"",
            ),
            SelectBranchError::NoBranch { selector, version } => owned(
                "couldn't select branch with version \"",
            ).concat(version.as_str()).concat("\" for selector \"").concat(
                selector.as_str(),
            ).concat("\""),
        }
    }
}

/// What the selection of a branch for the version `version` must give.
pub open spec fn branch_for_version(
    r: Result<Branch, SelectBranchError>,
    branches: Seq<Branch>,
    version: Seq<char>,
) -> bool {
    let at = first_branch_for(names_of(branches), version);
    if 0 <= at < branches.len() {
        r == Ok::<Branch, SelectBranchError>(branches[at])
    } else {
        r matches Err(SelectBranchError::NoBranch { version: v, .. }) && v@ == version
    }
}

/// What the selection of a branch for `selector` must give.
pub open spec fn branch_selected(
    r: Result<Branch, SelectBranchError>,
    branches: Seq<Branch>,
    selector: SelectorView,
    aliases: Map<Seq<char>, Seq<char>>,
) -> bool {
    let names = names_of(branches);
    &&& r matches Err(e) ==> e.selector_text() == written(selector)
    &&& match selector {
        SelectorView::Alias(name) => {
            if name == LATEST@ {
                if names.len() > 0 {
                    r == Ok::<Branch, SelectBranchError>(branches[newest_index(names)])
                } else {
                    r matches Err(SelectBranchError::NoLatest { .. })
                }
            } else if name == STABLE@ {
                if names.len() >= 2 {
                    r == Ok::<Branch, SelectBranchError>(branches[stable_index(names)])
                } else {
                    r matches Err(SelectBranchError::NoStable { .. })
                }
            } else if aliases.contains_key(name) {
                branch_for_version(r, branches, aliases[name])
            } else {
                r matches Err(SelectBranchError::UnresolvedAlias { alias, .. }) && alias@ == name
            }
        },
        SelectorView::Super(prefix) => branch_for_version(r, branches, prefix),
    }
}

/// The names of `branches`, borrowed.
fn branch_keys(branches: &Vec<Branch>) -> (r: Vec<&str>)
    ensures
        views(r@) == names_of(branches@),
{
    let mut keys: Vec<&str> = Vec::new();
    let mut i: usize = 0;
    while i < branches.len()
        invariant
            i <= branches.len(),
            views(keys@) == names_of(branches@).take(i as int),
        decreases branches.len() - i,
    {
        let ghost before = keys@;
        keys.push(branches[i].name());
        proof {
            assert(views(keys@) =~= views(before).push(branches@[i as int]@));
            assert(names_of(branches@).take(i + 1) =~= names_of(branches@).take(i as int).push(
                branches@[i as int]@,
            ));
        }
        i = i + 1;
    }
    proof {
        assert(names_of(branches@).take(i as int) =~= names_of(branches@));
    }
    keys
}

/// `keys` without the one at `at`.
fn without<'a>(keys: &Vec<&'a str>, at: usize) -> (r: Vec<&'a str>)
    requires
        at < keys.len(),
    ensures
        views(r@) == views(keys@).remove(at as int),
{
    let ghost all = views(keys@);
    let mut rest: Vec<&'a str> = Vec::new();
    let mut k: usize = 0;
    while k < keys.len()
        invariant
            k <= keys.len(),
            at < keys.len(),
            all == views(keys@),
            k <= at ==> views(rest@) == all.take(k as int),
            k > at ==> views(rest@) == all.take(k as int).remove(at as int),
        decreases keys.len() - k,
    {
        let ghost before = rest@;
        if k != at {
            rest.push(keys[k]);
            proof {
                assert(views(rest@) =~= views(before).push(all[k as int]));
            }
        }
        proof {
            if k < at {
                assert(all.take(k + 1) =~= all.take(k as int).push(all[k as int]));
            } else if k == at {
                assert(all.take(k + 1).remove(at as int) =~= all.take(k as int));
            } else {
                assert(all.take(k + 1).remove(at as int) =~= all.take(k as int).remove(
                    at as int,
                ).push(all[k as int]));
            }
        }
        k = k + 1;
    }
    proof {
        assert(all.take(k as int) =~= all);
    }
    rest
}

/// Index of the first of `branches` that `version` is or refines.
fn find_branch_for(branches: &Vec<Branch>, version: &str) -> (r: usize)
    ensures
        r <= branches.len(),
        r == first_branch_for(names_of(branches@), version@),
{
    let mut i: usize = 0;
    while i < branches.len()
        invariant
            i <= branches.len(),
            forall|j: int| 0 <= j < i ==> !refines(version@, #[trigger] names_of(branches@)[j]),
        decreases branches.len() - i,
    {
        if version.is_sub_version_of(branches[i].name()) {
            proof {
                lemma_first_branch_is(names_of(branches@), version@, i as int);
            }
            return i;
        }
        i = i + 1;
    }
    proof {
        lemma_first_branch_is(names_of(branches@), version@, i as int);
    }
    i
}

/// The first of `branches` that `version` is or refines.
fn select_branch_with_ver(branches: Vec<Branch>, version: &str, selector: Selector<'_>) -> (r:
    Result<Branch, SelectBranchError>)
    ensures
        branch_for_version(r, branches@, version@),
        r matches Err(e) ==> e.selector_text() == written(selector@),
{
    let at = find_branch_for(&branches, version);
    if at < branches.len() {
        let mut branches = branches;
        Ok(branches.swap_remove(at))
    } else {
        Err(SelectBranchError::NoBranch { selector: selector.to_string(), version: owned(version) })
    }
}

/// Selects the branch that `selector` names, among `branches` in the order
/// in which the server lists them.
///
/// The alias `latest` names the newest branch. The alias `stable` names the
/// newest but one, the newest being taken as unreleased. Any other alias
/// names the first branch that holds the version it stands for, and a
/// version prefix the first branch that holds the prefix. A branch holds a
/// version that is its name or refines it.
pub fn select_branch(branches: Vec<Branch>, data: &ConfigData, selector: Selector<'_>) -> (r:
    Result<Branch, SelectBranchError>)
    ensures
        branch_selected(r, branches@, selector@, data.alias_map()),
{
    match selector {
        Selector::Alias(name) => {
            if str_eq(name, LATEST) {
                let keys = branch_keys(&branches);
                match newest_of(&keys) {
                    Some(top) => {
                        let mut branches = branches;
                        Ok(branches.swap_remove(top))
                    },
                    None => Err(SelectBranchError::NoLatest { selector: selector.to_string() }),
                }
            } else if str_eq(name, STABLE) {
                let keys = branch_keys(&branches);
                match newest_of(&keys) {
                    Some(top) => {
                        let rest = without(&keys, top);
                        match newest_of(&rest) {
                            Some(next) => {
                                let at = if next < top {
                                    next
                                } else {
                                    next + 1
                                };
                                let mut branches = branches;
                                Ok(branches.swap_remove(at))
                            },
                            None => Err(
                                SelectBranchError::NoStable { selector: selector.to_string() },
                            ),
                        }
                    },
                    None => Err(SelectBranchError::NoStable { selector: selector.to_string() }),
                }
            } else {
                match data.alias(name) {
                    Some(version) => select_branch_with_ver(branches, version.as_str(), selector),
                    None => Err(
                        SelectBranchError::UnresolvedAlias {
                            selector: selector.to_string(),
                            alias: owned(name),
                        },
                    ),
                }
            }
        },
        Selector::Super(prefix) => select_branch_with_ver(branches, prefix, selector),
    }
}

/// Index of the archive to install for `selector`, or `-1` where none
/// qualifies: for an alias the newest of `versions`, for a version prefix
/// the newest of those that are the prefix or refine it.
pub open spec fn version_index(versions: Seq<Seq<char>>, selector: SelectorView) -> int {
    match selector {
        SelectorView::Alias(_) => newest_index(versions),
        SelectorView::Super(prefix) => latest_index(versions, prefix),
    }
}

/// The index, in `urls`, of the newest archive of a branch.
pub fn newest_version(urls: &Vec<RelevantUrl>) -> (r: Option<usize>)
    ensures
        match r {
            Some(i) => i < urls.len() && i == newest_index(relevant_version_texts(urls@)),
            None => urls.len() == 0,
        },
{
    let mut keys: Vec<&str> = Vec::new();
    let mut i: usize = 0;
    while i < urls.len()
        invariant
            i <= urls.len(),
            views(keys@) == relevant_version_texts(urls@).take(i as int),
        decreases urls.len() - i,
    {
        let ghost before = keys@;
        keys.push(urls[i].version());
        proof {
            assert(views(keys@) =~= views(before).push(urls@[i as int].version_text()));
            assert(relevant_version_texts(urls@).take(i + 1) =~= relevant_version_texts(
                urls@,
            ).take(i as int).push(urls@[i as int].version_text()));
        }
        i = i + 1;
    }
    proof {
        assert(relevant_version_texts(urls@).take(i as int) =~= relevant_version_texts(urls@));
    }
    newest_of(&keys)
}

/// The index, in `urls`, of the archive to install for `selector`: see
/// `version_index`.
pub fn select_version(urls: &Vec<RelevantUrl>, selector: Selector<'_>) -> (r: Option<usize>)
    ensures
        match r {
            Some(i) => i < urls.len() && i == version_index(
                relevant_version_texts(urls@),
                selector@,
            ),
            None => version_index(relevant_version_texts(urls@), selector@) < 0,
        },
{
    match selector {
        Selector::Alias(_) => {
            proof {
                lemma_newest_index(relevant_version_texts(urls@));
            }
            newest_version(urls)
        },
        Selector::Super(requested) => {
            let mut keys: Vec<String> = Vec::new();
            let mut i: usize = 0;
            while i < urls.len()
                invariant
                    i <= urls.len(),
                    texts(keys@) == relevant_version_texts(urls@).take(i as int),
                decreases urls.len() - i,
            {
                let ghost before = keys@;
                keys.push(owned(urls[i].version()));
                proof {
                    assert(texts(keys@) =~= texts(before).push(urls@[i as int].version_text()));
                    assert(relevant_version_texts(urls@).take(i + 1)
                        =~= relevant_version_texts(urls@).take(i as int).push(
                        urls@[i as int].version_text(),
                    ));
                }
                i = i + 1;
            }
            proof {
                assert(relevant_version_texts(urls@).take(i as int) =~= relevant_version_texts(
                    urls@,
                ));
            }
            latest_of(&keys, requested)
        },
    }
}

/// Whether the remote version is newer than what is installed: whether
/// nothing is installed, or the installed version comes before the remote
/// one in the order of versions.
pub fn is_upgrade(installed: Option<&str>, remote: &str) -> (r: bool)
    ensures
        r == match installed {
            Some(version) => version_sign(version@, remote@) < 0,
            None => true,
        },
{
    match installed {
        Some(version) => comes_before(version, remote),
        None => true,
    }
}

/// Whether an update must download: where a download was asked for, or the
/// remote version is an upgrade and is not installed under its own name.
pub fn update_needs_download(redownload: bool, upgrading: bool, installed: bool) -> (r: bool)
    ensures
        r == (redownload || (upgrading && !installed)),
{
    redownload || (upgrading && !installed)
}

/// Whether an install must download: where a download was asked for, or
/// the version is not installed under its own name.
pub fn install_needs_download(redownload: bool, installed: bool) -> (r: bool)
    ensures
        r == (redownload || !installed),
{
    redownload || !installed
}

} // verus!
