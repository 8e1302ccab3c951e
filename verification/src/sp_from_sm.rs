//! Which entries of a SourceMod archive make a SourcePawn toolchain, and
//! where each is installed.
//!
//! The archive holds a whole SourceMod tree. A toolchain is what lies under
//! its scripting directory: the include files and the compiler. The name
//! of an entry comes from outside, so no name is trusted: a path is only
//! given out after it was checked to stay inside the destination.

use vstd::prelude::*;
use vstd::utf8::{decode_utf8, encode_utf8, valid_utf8};

use crate::text::{chars_of, has_prefix, slice_of, str_eq};
use crate::{is_compiler, is_windows, spcomp_exe_text, WINDOWS};

verus! {

/// What the name of every entry of a toolchain begins with.
pub const SM_SP_ROOT: &'static str = "addons/sourcemod/scripting/";

/// The directory of the include files, below the root.
pub const INCLUDE_DIR: &'static str = "include";

/// Whether `c` separates the pieces of a path: the slash everywhere, and
/// the backslash too on Windows.
pub open spec fn is_separator(c: char, windows: bool) -> bool {
    c == '/' || (windows && c == '\\')
}

/// What is left of the entry name `name` below the root: `None` where the
/// name does not begin with the root, or is the root itself.
pub open spec fn root_stripped(name: Seq<char>) -> Option<Seq<char>> {
    if SM_SP_ROOT@.is_prefix_of(name) && name.len() > SM_SP_ROOT@.len() {
        Some(name.skip(SM_SP_ROOT@.len() as int))
    } else {
        None
    }
}

/// Index of the first separator in `path`, or `path.len()` where it has
/// none.
pub open spec fn first_separator(path: Seq<char>, windows: bool) -> int
    decreases path.len(),
{
    if path.len() == 0 || is_separator(path[0], windows) {
        0
    } else {
        1 + first_separator(path.skip(1), windows)
    }
}

/// The pieces of `path`: what stands between its separators. A path
/// without a separator is one piece.
pub open spec fn pieces_of(path: Seq<char>, windows: bool) -> Seq<Seq<char>>
    decreases path.len(),
{
    let n = first_separator(path, windows);
    if 0 <= n < path.len() {
        seq![path.take(n)] + pieces_of(path.skip(n + 1), windows)
    } else {
        seq![path]
    }
}

/// The piece that steps to the parent directory.
pub open spec fn parent_step() -> Seq<char> {
    seq!['.', '.']
}

/// Some piece of `path` is a step to the parent directory.
pub open spec fn has_parent_step(path: Seq<char>, windows: bool) -> bool {
    pieces_of(path, windows).contains(parent_step())
}

/// How far a piece leads down: a step to the parent one up, the piece `.`
/// and the empty piece nowhere, any other piece one down.
pub open spec fn step_of(piece: Seq<char>) -> int {
    if piece == parent_step() {
        -1
    } else if piece.len() == 0 || piece == seq!['.'] {
        0
    } else {
        1
    }
}

/// How far below the directory it began in a walk along `pieces` ends.
pub open spec fn depth_after(pieces: Seq<Seq<char>>) -> int
    decreases pieces.len(),
{
    if pieces.len() == 0 {
        0
    } else {
        depth_after(pieces.drop_last()) + step_of(pieces.last())
    }
}

/// `path` begins at a root of the file system, not at the directory it is
/// joined to: it begins with a separator, or on Windows names a drive.
pub open spec fn is_rooted(path: Seq<char>, windows: bool) -> bool {
    (path.len() > 0 && is_separator(path[0], windows)) || (windows && path.contains(':'))
}

/// `path`, joined to a directory, stays inside that directory: it is not
/// empty, begins at no root and takes no step to a parent directory.
pub open spec fn confined(path: Seq<char>, windows: bool) -> bool {
    path.len() > 0 && !is_rooted(path, windows) && !has_parent_step(path, windows)
}

/// `path` is the include directory or lies inside it.
pub open spec fn in_include(path: Seq<char>, windows: bool) -> bool {
    INCLUDE_DIR@.is_prefix_of(path) && (path.len() == INCLUDE_DIR@.len() || is_separator(
        path[INCLUDE_DIR@.len() as int],
        windows,
    ))
}

/// `path` belongs to a toolchain on the platform `os`: it lies inside the
/// include directory or is the compiler executable.
pub open spec fn is_sp_path(path: Seq<char>, os: Seq<char>) -> bool {
    in_include(path, is_windows(os)) || path == spcomp_exe_text(os)
}

/// `String::from_utf8`: the text that `bytes` encode, or `None` where they
/// are no UTF-8.
#[verifier::external_body]
fn text_of_utf8(bytes: Vec<u8>) -> (r: Option<String>)
    ensures
        match r {
            Some(text) => valid_utf8(bytes@) && encode_utf8(text@) == bytes@,
            None => !valid_utf8(bytes@),
        },
{
    String::from_utf8(bytes).ok()
}

/// The path `path` cleaned: with its `.` pieces and doubled separators
/// taken out and each `..` resolved against the piece before it, as far as
/// there is one. `None` where what cleaning gives is no text. Cleaning
/// reads the text of the path and nothing else.
pub uninterp spec fn cleaned_path(path: Seq<char>) -> Option<Seq<char>>;

/// `clean_path::clean`: `path` cleaned, as `cleaned_path` names it.
#[verifier::external_body]
fn clean(path: &str) -> (r: Option<String>)
    ensures
        match r {
            Some(text) => cleaned_path(path@) == Some(text@),
            None => cleaned_path(path@) is None,
        },
{
    clean_path::clean(path).into_os_string().into_string().ok()
}

/// The path, below the destination, of the entry named `name` on the
/// platform `os`: what is left of the name below the root, cleaned, where
/// that stays inside the destination. `None` where the name does not lie
/// below the root, and where what was cleaned would leave the destination.
pub open spec fn sp_path_of(name: Seq<char>, os: Seq<char>) -> Option<Seq<char>> {
    match root_stripped(name) {
        Some(rest) => match cleaned_path(rest) {
            Some(path) => if confined(path, is_windows(os)) {
                Some(path)
            } else {
                None
            },
            None => None,
        },
        None => None,
    }
}

/// Whether `c` separates the pieces of a path.
fn separates(c: char, windows: bool) -> (r: bool)
    ensures
        r == is_separator(c, windows),
{
    c == '/' || (windows && c == '\\')
}

/// What is left of `name` below the root, if `name` lies below it.
pub fn strip_root(name: &str) -> (r: Option<&str>)
    ensures
        match r {
            Some(rest) => root_stripped(name@) == Some(rest@),
            None => root_stripped(name@) is None,
        },
{
    let chars = chars_of(name);
    let root = chars_of(SM_SP_ROOT);
    if has_prefix(&chars, &root) && chars.len() > root.len() {
        Some(slice_of(name, root.len(), chars.len()))
    } else {
        None
    }
}

/// `first_separator` is the least index that holds a separator.
pub proof fn lemma_first_separator(path: Seq<char>, windows: bool)
    ensures
        0 <= first_separator(path, windows) <= path.len(),
        first_separator(path, windows) < path.len() ==> is_separator(
            path[first_separator(path, windows)],
            windows,
        ),
        forall|j: int|
            0 <= j < first_separator(path, windows) ==> !is_separator(#[trigger] path[j], windows),
    decreases path.len(),
{
    if path.len() == 0 || is_separator(path[0], windows) {
    } else {
        let rest = path.skip(1);
        lemma_first_separator(rest, windows);
        assert forall|j: int| 0 <= j < first_separator(path, windows) implies !is_separator(
            #[trigger] path[j],
            windows,
        ) by {
            if j > 0 {
                assert(rest[j - 1] == path[j]);
            }
        }
    }
}

/// An index that holds a separator, with none before it, is
/// `first_separator`; so is `path.len()` where `path` holds none.
pub proof fn lemma_first_separator_is(path: Seq<char>, windows: bool, i: int)
    requires
        0 <= i <= path.len(),
        i < path.len() ==> is_separator(path[i], windows),
        forall|j: int| 0 <= j < i ==> !is_separator(#[trigger] path[j], windows),
    ensures
        first_separator(path, windows) == i,
{
    lemma_first_separator(path, windows);
    let k = first_separator(path, windows);
    if k < i {
        assert(!is_separator(path[k], windows));
    }
}

/// A walk along pieces of which none steps to the parent never ends above
/// the directory it began in, however far it is taken.
pub proof fn lemma_depth_without_parent_step(pieces: Seq<Seq<char>>, upto: int)
    requires
        !pieces.contains(parent_step()),
        0 <= upto <= pieces.len(),
    ensures
        depth_after(pieces.take(upto)) >= 0,
    decreases upto,
{
    if upto > 0 {
        lemma_depth_without_parent_step(pieces, upto - 1);
        assert(pieces.take(upto).drop_last() =~= pieces.take(upto - 1));
        assert(pieces.take(upto).last() == pieces[upto - 1]);
    }
}

/// A confined path begins at no root, and a walk along its pieces never
/// ends above the directory it began in: joined to a directory, the path
/// names nothing outside that directory.
pub proof fn lemma_confined_stays_inside(path: Seq<char>, windows: bool, upto: int)
    requires
        confined(path, windows),
        0 <= upto <= pieces_of(path, windows).len(),
    ensures
        !is_rooted(path, windows),
        depth_after(pieces_of(path, windows).take(upto)) >= 0,
{
    lemma_depth_without_parent_step(pieces_of(path, windows), upto);
}

/// Whether some piece of `path` is a step to the parent directory.
fn steps_to_parent(path: &Vec<char>, windows: bool) -> (r: bool)
    ensures
        r == has_parent_step(path@, windows),
{
    let ghost all = pieces_of(path@, windows);
    let ghost mut done: Seq<Seq<char>> = Seq::empty();
    let mut from: usize = 0;
    let mut i: usize = 0;
    proof {
        assert(path@.skip(0) =~= path@);
    }
    loop
        invariant
            from <= i <= path.len(),
            all == pieces_of(path@, windows),
            forall|j: int| from <= j < i ==> !is_separator(#[trigger] path@[j], windows),
            all == done + pieces_of(path@.skip(from as int), windows),
            !done.contains(parent_step()),
        decreases path.len() - i,
    {
        let ghost rest = path@.skip(from as int);
        if i == path.len() || separates(path[i], windows) {
            let ghost piece = path@.subrange(from as int, i as int);
            proof {
                assert forall|j: int| 0 <= j < i - from implies !is_separator(
                    #[trigger] rest[j],
                    windows,
                ) by {
                    assert(rest[j] == path@[from + j]);
                }
                lemma_first_separator_is(rest, windows, i - from);
                assert(rest.take(i - from) =~= piece);
            }
            let parent = i - from == 2 && path[from] == '.' && path[from + 1] == '.';
            proof {
                if parent {
                    assert(piece =~= parent_step());
                } else if piece == parent_step() {
                    assert(piece[0] == '.' && piece[1] == '.');
                }
                assert(pieces_of(rest, windows)[0] == piece) by {
                    if i == path.len() {
                        assert(rest =~= piece);
                    }
                }
            }
            if parent {
                proof {
                    assert(all[done.len() as int] == parent_step());
                }
                return true;
            }
            if i == path.len() {
                proof {
                    assert(rest =~= piece);
                    assert(all =~= done.push(piece));
                    if all.contains(parent_step()) {
                        let k = choose|k: int| 0 <= k < all.len() && all[k] == parent_step();
                        if k < done.len() {
                            assert(done[k] == parent_step());
                        }
                    }
                }
                return false;
            }
            proof {
                assert(rest.skip(i - from + 1) =~= path@.skip(i + 1));
                let before = done;
                done = done.push(piece);
                assert(all =~= done + pieces_of(path@.skip(i + 1), windows));
                if done.contains(parent_step()) {
                    let k = choose|k: int| 0 <= k < done.len() && done[k] == parent_step();
                    if k < before.len() {
                        assert(before[k] == parent_step());
                    }
                }
            }
            from = i + 1;
        }
        i = i + 1;
    }
}

/// Whether `path` names a drive: whether it holds a colon.
fn holds_colon(path: &Vec<char>) -> (r: bool)
    ensures
        r == path@.contains(':'),
{
    let mut i: usize = 0;
    while i < path.len()
        invariant
            i <= path.len(),
            forall|j: int| 0 <= j < i ==> path@[j] != ':',
        decreases path.len() - i,
    {
        if path[i] == ':' {
            return true;
        }
        i = i + 1;
    }
    false
}

/// Whether `path`, joined to a directory on the platform `os`, stays inside
/// that directory.
pub fn is_confined(path: &str, os: &str) -> (r: bool)
    ensures
        r == confined(path@, is_windows(os@)),
{
    let windows = str_eq(os, WINDOWS);
    let chars = chars_of(path);
    if chars.len() == 0 {
        return false;
    }
    if separates(chars[0], windows) {
        return false;
    }
    if windows && holds_colon(&chars) {
        return false;
    }
    !steps_to_parent(&chars, windows)
}

/// The path, below the destination, of the entry named `name`: what is
/// left of the name below the root, cleaned. `None` where the name does not
/// lie below the root, and where what was cleaned would leave the
/// destination.
pub fn map_to_sp_root(name: String, os: &str) -> (r: Option<String>)
    ensures
        match r {
            Some(path) => sp_path_of(name@, os@) == Some(path@),
            None => sp_path_of(name@, os@) is None,
        },
        r matches Some(path) ==> confined(path@, is_windows(os@)),
{
    match strip_root(name.as_str()) {
        None => None,
        Some(rest) => match clean(rest) {
            None => None,
            Some(path) => {
                if is_confined(path.as_str(), os) {
                    Some(path)
                } else {
                    None
                }
            },
        },
    }
}

/// Whether `path` belongs to a toolchain on the platform `os`: whether it
/// lies inside the include directory or is the compiler executable.
pub fn is_sp_file(path: &str, os: &str) -> (r: bool)
    ensures
        r == is_sp_path(path@, os@),
{
    let windows = str_eq(os, WINDOWS);
    let chars = chars_of(path);
    let dir = chars_of(INCLUDE_DIR);
    if has_prefix(&chars, &dir) && (chars.len() == dir.len() || separates(
        chars[dir.len()],
        windows,
    )) {
        true
    } else {
        is_compiler(path, os)
    }
}

/// What is done with one entry of an archive.
#[derive(Debug, Clone, PartialEq, Eq)]
pub enum EntryAction {
    /// Nothing: the entry is no file of a toolchain.
    Skip,
    /// The entry's bytes are written to `path` below the destination, and
    /// the file is made executable where `executable` holds.
    Write { path: String, executable: bool },
}

/// What is done with an entry whose cleaned path is `cleaned`: `None` is
/// an entry whose name gave no path.
pub open spec fn action_for(cleaned: Option<String>, is_dir: bool, os: Seq<char>) -> EntryAction {
    match cleaned {
        Some(path) => if confined(path@, is_windows(os)) && is_sp_path(path@, os) && !is_dir {
            EntryAction::Write { path, executable: path@ == spcomp_exe_text(os) }
        } else {
            EntryAction::Skip
        },
        None => EntryAction::Skip,
    }
}

/// Decides what is done with an entry by the path that cleaning its name
/// gave: the entry is written to that path where the path stays inside the
/// destination and belongs to a toolchain, and the entry is no directory.
pub fn cleaned_entry_action(cleaned: Option<String>, is_dir: bool, os: &str) -> (r: EntryAction)
    ensures
        r == action_for(cleaned, is_dir, os@),
{
    match cleaned {
        None => EntryAction::Skip,
        Some(path) => {
            if !is_confined(path.as_str(), os) || !is_sp_file(path.as_str(), os) || is_dir {
                EntryAction::Skip
            } else {
                let executable = is_compiler(path.as_str(), os);
                EntryAction::Write { path, executable }
            }
        },
    }
}

/// Decides what is done with the entry of an archive whose name is the
/// bytes `name`.
///
/// An entry is written exactly where its name is text and lies below the
/// root, the cleaned rest of the name stays inside the destination and
/// belongs to a toolchain, and the entry is no directory. It is written to
/// that cleaned rest, and the compiler is written as an executable.
pub fn entry_action(name: Vec<u8>, is_dir: bool, os: &str) -> (r: EntryAction)
    ensures
        !valid_utf8(name@) ==> r is Skip,
        valid_utf8(name@) ==> (r is Write <==> (sp_path_of(decode_utf8(name@), os@) matches Some(
            path,
        ) && is_sp_path(path, os@) && !is_dir)),
        r matches EntryAction::Write { path, executable } ==> {
            &&& sp_path_of(decode_utf8(name@), os@) == Some(path@)
            &&& confined(path@, is_windows(os@))
            &&& is_sp_path(path@, os@)
            &&& executable == (path@ == spcomp_exe_text(os@))
        },
{
    let text = match text_of_utf8(name) {
        Some(text) => text,
        None => {
            return EntryAction::Skip;
        },
    };
    proof {
        vstd::utf8::encode_utf8_decode_utf8(text@);
    }
    let cleaned = match strip_root(text.as_str()) {
        Some(rest) => clean(rest),
        None => None,
    };
    cleaned_entry_action(cleaned, is_dir, os)
}

} // verus!
