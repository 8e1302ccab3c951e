//! Versions on a branch of the archive server. A version is known by the
//! URL of its archive, whose file name reads
//! `<product>-<version>-<target>.<ext>`.

use vstd::prelude::*;

use super::listing::{DirectoryItem, SEPARATOR};
use crate::text::{
    chars_of, find_char, find_chars, first_index_of, first_match, last_index_of,
    lemma_first_index_of, lemma_first_match, lemma_first_match_is, lemma_last_index_of, occurs_at,
    owned, rfind_char, slice_of,
};
use crate::version::{join_dots, parts_of, Part, VersionStrSplit, DOT};

verus! {

/// The character that separates product, version and target in a file name.
pub const DASH: char = '-';

/// The mark that stands before the revision number in a file name.
pub open spec fn git_mark() -> Seq<char> {
    seq!['-', 'g', 'i', 't']
}

/// The file name of a URL: what follows its last separator, or all of it.
pub open spec fn file_name_of(url: Seq<char>) -> Seq<char> {
    url.skip(last_index_of(url, SEPARATOR) + 1)
}

/// The target platform in a URL: what stands in its file name between the
/// last dash and the first dot after it, or the end. `None` where the file
/// name has no dash.
pub open spec fn target_of(url: Seq<char>) -> Option<Seq<char>> {
    let name = file_name_of(url);
    let dash = last_index_of(name, DASH);
    if dash < 0 {
        None
    } else {
        let suffix = name.skip(dash + 1);
        Some(suffix.take(first_index_of(suffix, DOT)))
    }
}

/// The version text in a URL: what stands in its file name between the
/// first dash and the last. `None` where the file name has fewer than two
/// dashes.
pub open spec fn version_text_of(url: Seq<char>) -> Option<Seq<char>> {
    let name = file_name_of(url);
    let first = first_index_of(name, DASH);
    if first >= name.len() {
        None
    } else {
        let rest = name.skip(first + 1);
        let last = last_index_of(rest, DASH);
        if last < 0 {
            None
        } else {
            Some(rest.take(last))
        }
    }
}

/// A version text with its revision made a part: the first `-git` in it
/// becomes a dot, and a text without that mark stays as it is.
pub open spec fn normalized_text(version: Seq<char>) -> Seq<char> {
    let at = first_match(version, git_mark());
    if 0 <= at < version.len() {
        version.take(at) + seq![DOT] + version.skip(at + 4)
    } else {
        version
    }
}

/// The parts of a version as a file name writes them: joined by dots, but
/// the last part, where there is more than one, joined by `-git`.
pub open spec fn url_form_of(parts: Seq<Seq<char>>) -> Seq<char> {
    if parts.len() <= 1 {
        join_dots(parts)
    } else {
        join_dots(parts.drop_last()) + git_mark() + parts.last()
    }
}

/// A version of two or more parts, written as a file name writes it and
/// then normalized, is the version again, where no `-git` stands before its
/// last part.
pub proof fn lemma_normalized_url_form(version: Seq<char>)
    requires
        parts_of(version).len() >= 2,
        forall|j: int|
            !occurs_at(join_dots(parts_of(version).drop_last()), git_mark(), j),
    ensures
        normalized_text(url_form_of(parts_of(version))) == version,
{
    let parts = parts_of(version);
    let head = join_dots(parts.drop_last());
    let written = url_form_of(parts);
    let at = head.len() as int;
    assert(written.subrange(at, at + 4) =~= git_mark());
    assert forall|j: int| 0 <= j < at implies !occurs_at(written, git_mark(), j) by {
        if occurs_at(written, git_mark(), j) {
            let found = written.subrange(j, j + 4);
            if j + 4 <= at {
                assert(head.subrange(j, j + 4) =~= found);
                assert(occurs_at(head, git_mark(), j));
            } else {
                assert(found[at - j] == written[at]);
                assert(written[at] == '-');
            }
        }
    }
    lemma_first_match_is(written, git_mark(), at);
    assert(written.take(at) =~= head);
    assert(written.skip(at + 4) =~= parts.last());
    crate::version::lemma_join_parts(version);
}

/// The URL of the archive of one version.
#[derive(Debug, Clone, PartialEq, Eq, PartialOrd, Ord, Hash)]
pub struct VersionUrl(pub String);

impl View for VersionUrl {
    type V = Seq<char>;

    open spec fn view(&self) -> Seq<char> {
        self.0@
    }
}

/// The version text of a file name, as the server writes it.
#[derive(Debug, Clone, Copy, PartialEq, Eq, PartialOrd, Ord, Hash)]
pub struct VersionStr<'a>(pub &'a str);

impl<'a> View for VersionStr<'a> {
    type V = Seq<char>;

    open spec fn view(&self) -> Seq<char> {
        self.0@
    }
}

/// A dotted version that is written as the server's file names write it.
#[derive(Debug, Clone, Copy, PartialEq, Eq, PartialOrd, Ord, Hash)]
pub struct UrlVersionStr<'a>(pub &'a str);

impl VersionUrl {
    /// The whole URL.
    pub fn as_str(&self) -> (r: &str)
        ensures
            r@ == self@,
    {
        self.0.as_str()
    }

    /// The name of the file that this URL points at.
    pub fn file_name(&self) -> (r: &str)
        ensures
            r@ == file_name_of(self@),
    {
        let url = self.0.as_str();
        let chars = chars_of(url);
        proof {
            lemma_last_index_of(url@, SEPARATOR);
        }
        match rfind_char(&chars, SEPARATOR) {
            Some(i) => slice_of(url, i + 1, chars.len()),
            None => {
                assert(url@.skip(0) =~= url@);
                url
            },
        }
    }

    /// The target platform that this URL names.
    pub fn target(&self) -> (r: Option<&str>)
        ensures
            match r {
                Some(t) => target_of(self@) == Some(t@),
                None => target_of(self@) is None,
            },
    {
        let name = self.file_name();
        let chars = chars_of(name);
        proof {
            lemma_last_index_of(name@, DASH);
        }
        match rfind_char(&chars, DASH) {
            None => None,
            Some(dash) => {
                let suffix = slice_of(name, dash + 1, chars.len());
                let suffix_chars = chars_of(suffix);
                let dot = find_char(&suffix_chars, DOT);
                proof {
                    lemma_first_index_of(suffix@, DOT);
                }
                Some(slice_of(suffix, 0, dot))
            },
        }
    }

    /// The version text that this URL names.
    pub fn version_str(&self) -> (r: Option<VersionStr<'_>>)
        ensures
            match r {
                Some(v) => version_text_of(self@) == Some(v@),
                None => version_text_of(self@) is None,
            },
    {
        let name = self.file_name();
        let chars = chars_of(name);
        let first = find_char(&chars, DASH);
        proof {
            lemma_first_index_of(name@, DASH);
        }
        if first >= chars.len() {
            return None;
        }
        let rest = slice_of(name, first + 1, chars.len());
        let rest_chars = chars_of(rest);
        proof {
            lemma_last_index_of(rest@, DASH);
        }
        match rfind_char(&rest_chars, DASH) {
            None => None,
            Some(last) => Some(VersionStr(slice_of(rest, 0, last))),
        }
    }
}

impl<'a> VersionStr<'a> {
    /// The version with its revision made a part: `1.12.0-git7192` becomes
    /// `1.12.0.7192`.
    pub fn normalized(&self) -> (r: String)
        ensures
            r@ == normalized_text(self@),
    {
        let chars = chars_of(self.0);
        let mark = chars_of("-git");
        proof {
            reveal_strlit("-git");
            reveal_strlit(".");
            assert(mark@ =~= git_mark());
            assert("."@ =~= seq![DOT]);
            lemma_first_match(self.0@, git_mark());
        }
        let at = find_chars(&chars, &mark);
        if at < chars.len() {
            let head = slice_of(self.0, 0, at);
            let tail = slice_of(self.0, at + 4, chars.len());
            owned(head).concat(".").concat(tail)
        } else {
            owned(self.0)
        }
    }

    /// The normalized version, as it is shown.
    pub fn to_string(&self) -> (r: String)
        ensures
            r@ == normalized_text(self@),
    {
        self.normalized()
    }
}

impl<'a> UrlVersionStr<'a> {
    /// The version as a file name writes it: `1.12.0.7192` becomes
    /// `1.12.0-git7192`, and a version of one part stays as it is.
    pub fn to_string(&self) -> (r: String)
        ensures
            r@ == url_form_of(parts_of(self.0@)),
    {
        let mut parts = VersionStrSplit::new(self.0);
        let ghost all = parts_of(self.0@);
        proof {
            crate::version::lemma_parts_nonempty(self.0@);
            reveal_strlit("-git");
            reveal_strlit(".");
            assert("-git"@ =~= git_mark());
            assert("."@ =~= seq![DOT]);
        }
        let mut out = match parts.next() {
            Some(first) => owned(first.0),
            None => owned(""),
        };
        let mut pending: Option<Part<'_>> = parts.next();
        let ghost mut done: int = 1;
        proof {
            assert(all.take(1) =~= seq![all[0]]);
            if all.len() >= 2 {
                assert(all.skip(1).skip(1) =~= all.skip(2));
            }
        }
        loop
            invariant
                "-git"@ == git_mark(),
                "."@ == seq![DOT],
                all == parts_of(self.0@),
                1 <= done <= all.len(),
                match pending {
                    Some(p) => done < all.len() && p.0@ == all[done] && parts@ == all.skip(
                        done + 1,
                    ) && out@ == join_dots(all.take(done)),
                    None => done == all.len() && out@ == url_form_of(all),
                },
            decreases all.len() - done,
        {
            match pending {
                None => {
                    return out;
                },
                Some(part) => {
                    let following = parts.next();
                    proof {
                        assert(all.take(done + 1).drop_last() =~= all.take(done));
                        if following is None {
                            assert(all.len() == done + 1);
                            assert(all.drop_last() =~= all.take(done));
                        } else {
                            assert(all.skip(done + 1).skip(1) =~= all.skip(done + 2));
                        }
                    }
                    if following.is_some() {
                        out = out.concat(".").concat(part.0);
                    } else {
                        out = out.concat("-git").concat(part.0);
                    }
                    pending = following;
                    proof {
                        done = done + 1;
                    }
                },
            }
        }
    }
}

/// A version that a branch of the server offers.
#[derive(Debug, Clone, PartialEq, Eq, PartialOrd, Ord, Hash)]
pub struct Version {
    url: VersionUrl,
}

impl View for Version {
    type V = Seq<char>;

    /// The URL of the version's archive.
    closed spec fn view(&self) -> Seq<char> {
        self.url@
    }
}

impl Version {
    /// The version whose archive is at `url`.
    pub fn new(url: VersionUrl) -> (r: Self)
        ensures
            r@ == url@,
    {
        Version { url }
    }

    /// The URL of the archive that holds this version, as text.
    pub fn as_str(&self) -> (r: &str)
        ensures
            r@ == self@,
    {
        self.url.as_str()
    }

    /// The URL of the archive that holds this version.
    pub fn into_url(self) -> (r: VersionUrl)
        ensures
            r@ == self@,
    {
        self.url
    }
}

/// The URLs that a listing under `root` gives: for each file of `items`, in
/// order, `root` followed by the file's link.
pub open spec fn version_urls(items: Seq<DirectoryItem>, root: Seq<char>) -> Seq<Seq<char>>
    decreases items.len(),
{
    if items.len() == 0 {
        Seq::empty()
    } else {
        let before = version_urls(items.drop_last(), root);
        match items.last() {
            DirectoryItem::File(name) => before.push(root + name@),
            DirectoryItem::Directory(_) => before,
        }
    }
}

/// The URLs of a sequence of versions.
pub open spec fn urls_of(versions: Seq<Version>) -> Seq<Seq<char>> {
    Seq::new(versions.len(), |i: int| versions[i]@)
}

/// The versions that the listing of a branch names: one for every file of
/// the listing, its URL made of the branch's `root` and the file's link.
pub fn versions_of(items: &Vec<DirectoryItem>, root: &str) -> (r: Vec<Version>)
    ensures
        urls_of(r@) == version_urls(items@, root@),
{
    let mut out: Vec<Version> = Vec::new();
    let mut i: usize = 0;
    proof {
        assert(items@.take(0) =~= Seq::<DirectoryItem>::empty());
        assert(urls_of(out@) =~= version_urls(items@.take(0), root@));
    }
    while i < items.len()
        invariant
            i <= items.len(),
            urls_of(out@) == version_urls(items@.take(i as int), root@),
        decreases items.len() - i,
    {
        proof {
            assert(items@.take(i + 1).drop_last() =~= items@.take(i as int));
        }
        let ghost before = out@;
        match &items[i] {
            DirectoryItem::File(name) => {
                let url = owned(root).concat(name.as_str());
                out.push(Version::new(VersionUrl(url)));
                proof {
                    assert(urls_of(out@) =~= urls_of(before).push(root@ + name@));
                }
            },
            DirectoryItem::Directory(_) => {},
        }
        i = i + 1;
    }
    proof {
        assert(items@.take(i as int) =~= items@);
    }
    out
}

} // verus!
