//! Branches of the archive server: its top-level directories, each named
//! like a version.

use vstd::prelude::*;

use super::listing::{DirectoryItem, SEPARATOR};
use crate::text::{chars_of, owned, slice_of};

verus! {

/// A branch that the server offers.
#[derive(Debug, Clone, PartialEq, Eq, PartialOrd, Ord, Hash)]
pub struct Branch {
    id: String,
}

impl View for Branch {
    type V = Seq<char>;

    /// The name of the branch.
    closed spec fn view(&self) -> Seq<char> {
        self.id@
    }
}

impl Branch {
    /// The branch named `id`.
    pub fn new(id: String) -> (r: Self)
        ensures
            r@ == id@,
    {
        Branch { id }
    }

    /// The name of this branch.
    pub fn name(&self) -> (r: &str)
        ensures
            r@ == self@,
    {
        self.id.as_str()
    }

    /// The URL of this branch on the server at `root_url`: the root
    /// followed by the name.
    pub fn url(&self, root_url: &str) -> (r: String)
        ensures
            r@ == root_url@ + self@,
    {
        owned(root_url).concat(self.id.as_str())
    }

    /// The URL of the listing of this branch, which is also what the URLs
    /// of its versions begin with: the root, the name and a separator.
    pub fn versions_root(&self, root_url: &str) -> (r: String)
        ensures
            r@ == root_url@ + self@ + seq![SEPARATOR],
    {
        proof {
            reveal_strlit("/");
            assert("/"@ =~= seq![SEPARATOR]);
        }
        owned(root_url).concat(self.id.as_str()).concat("/")
    }

    /// The name of this branch, as it is shown.
    pub fn to_string(&self) -> (r: String)
        ensures
            r@ == self@,
    {
        self.id.clone()
    }

    /// The name of this branch, taken out of it.
    pub fn into_string(self) -> (r: String)
        ensures
            r@ == self@,
    {
        self.id
    }
}

/// Whether the link `href` names a branch: whether it does not begin with a
/// separator. The link up to the parent directory does.
pub open spec fn is_branch_link(href: Seq<char>) -> bool {
    !(href.len() > 0 && href[0] == SEPARATOR)
}

/// The name of the branch that the directory link `href` names: the link
/// without its last character, the separator.
pub open spec fn branch_name_of(href: Seq<char>) -> Seq<char> {
    if href.len() > 0 {
        href.drop_last()
    } else {
        href
    }
}

/// The names of the branches that a listing gives: for each directory of
/// `items` whose link names a branch, in order, the name in the link.
pub open spec fn branch_names(items: Seq<DirectoryItem>) -> Seq<Seq<char>>
    decreases items.len(),
{
    if items.len() == 0 {
        Seq::empty()
    } else {
        let before = branch_names(items.drop_last());
        match items.last() {
            DirectoryItem::Directory(href) => if is_branch_link(href@) {
                before.push(branch_name_of(href@))
            } else {
                before
            },
            DirectoryItem::File(_) => before,
        }
    }
}

/// The names of a sequence of branches.
pub open spec fn names_of(branches: Seq<Branch>) -> Seq<Seq<char>> {
    Seq::new(branches.len(), |i: int| branches[i]@)
}

/// The branches that the listing of the server's root names: one for every
/// directory whose link is relative, which leaves the parent directory out.
pub fn branches_of(items: &Vec<DirectoryItem>) -> (r: Vec<Branch>)
    ensures
        names_of(r@) == branch_names(items@),
{
    let mut out: Vec<Branch> = Vec::new();
    let mut i: usize = 0;
    proof {
        assert(items@.take(0) =~= Seq::<DirectoryItem>::empty());
        assert(names_of(out@) =~= branch_names(items@.take(0)));
    }
    while i < items.len()
        invariant
            i <= items.len(),
            names_of(out@) == branch_names(items@.take(i as int)),
        decreases items.len() - i,
    {
        proof {
            assert(items@.take(i + 1).drop_last() =~= items@.take(i as int));
        }
        let ghost before = out@;
        match &items[i] {
            DirectoryItem::Directory(href) => {
                let chars = chars_of(href.as_str());
                if !(chars.len() > 0 && chars[0] == SEPARATOR) {
                    let name = if chars.len() > 0 {
                        slice_of(href.as_str(), 0, chars.len() - 1)
                    } else {
                        href.as_str()
                    };
                    out.push(Branch::new(owned(name)));
                    proof {
                        assert(names_of(out@) =~= names_of(before).push(branch_name_of(href@)));
                    }
                }
            },
            DirectoryItem::File(_) => {},
        }
        i = i + 1;
    }
    proof {
        assert(items@.take(i as int) =~= items@);
    }
    out
}

} // verus!
