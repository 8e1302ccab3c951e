//! Version strings: text cut at dots into parts, an order on the parts, and
//! the prefix relation between two versions.
//!
//! A version is never read as a number. Its parts are compared by the length
//! of their UTF-8 encoding first and byte by byte second, which orders whole
//! numbers without leading zeros as numbers and anything else as text.

use core::cmp::Ordering;
use vstd::prelude::*;
use vstd::utf8::encode_utf8;

use crate::text::{first_index_of, lemma_first_index_of, next_piece, split_on, str_eq};

verus! {

/// The character that separates the parts of a version.
pub const DOT: char = '.';

/// How one version stands to another.
#[derive(Debug, Clone, Copy, PartialEq, Eq, Structural, PartialOrd, Ord, Hash)]
pub enum Relation {
    /// Both have the same parts (`1.12.0.7192` and `1.12.0.7192`).
    Equal,
    /// Some part differs (`1.12.0.7192` and `1.12.0.7150`).
    Different,
    /// This version refines the other: the other's parts begin it
    /// (`1.12.0.7192` to `1.12`).
    IsSubVersionOf,
    /// The other version refines this one (`1.12` to `1.12.0.7192`).
    IsSuperVersionOf,
}

/// The parts of a version: the pieces of `s` between its dots. A text
/// without a dot is one part, and so is the empty text.
pub open spec fn parts_of(s: Seq<char>) -> Seq<Seq<char>> {
    split_on(s, DOT)
}

/// Parts joined by dots.
pub open spec fn join_dots(parts: Seq<Seq<char>>) -> Seq<char>
    decreases parts.len(),
{
    if parts.len() == 0 {
        Seq::empty()
    } else if parts.len() == 1 {
        parts[0]
    } else {
        join_dots(parts.drop_last()) + seq![DOT] + parts.last()
    }
}

/// Byte sequences in lexical order: `-1`, `0` or `1` as `a` comes before,
/// with or after `b`.
pub open spec fn bytes_sign(a: Seq<u8>, b: Seq<u8>) -> int
    decreases a.len(),
{
    if a.len() == 0 && b.len() == 0 {
        0
    } else if a.len() == 0 {
        -1
    } else if b.len() == 0 {
        1
    } else if a[0] < b[0] {
        -1
    } else if a[0] > b[0] {
        1
    } else {
        bytes_sign(a.skip(1), b.skip(1))
    }
}

/// The order of two parts: the shorter encoding first, and among encodings
/// of one length the lexically smaller first.
pub open spec fn part_sign(a: Seq<char>, b: Seq<char>) -> int {
    let x = encode_utf8(a);
    let y = encode_utf8(b);
    if x.len() < y.len() {
        -1
    } else if x.len() > y.len() {
        1
    } else {
        bytes_sign(x, y)
    }
}

/// The order of two part sequences: that of the first pair of parts that
/// are not in order `0`, over the pairs that both sequences have. A version
/// and any refinement of it are therefore in order `0`.
pub open spec fn parts_sign(a: Seq<Seq<char>>, b: Seq<Seq<char>>) -> int
    decreases a.len(),
{
    if a.len() == 0 || b.len() == 0 {
        0
    } else if part_sign(a[0], b[0]) != 0 {
        part_sign(a[0], b[0])
    } else {
        parts_sign(a.skip(1), b.skip(1))
    }
}

/// The order of two version texts.
pub open spec fn version_sign(a: Seq<char>, b: Seq<char>) -> int {
    parts_sign(parts_of(a), parts_of(b))
}

/// The relation of the part sequence `a` to `b`.
pub open spec fn parts_relation(a: Seq<Seq<char>>, b: Seq<Seq<char>>) -> Relation
    decreases a.len(),
{
    if a.len() == 0 && b.len() == 0 {
        Relation::Equal
    } else if b.len() == 0 {
        Relation::IsSubVersionOf
    } else if a.len() == 0 {
        Relation::IsSuperVersionOf
    } else if a[0] != b[0] {
        Relation::Different
    } else {
        parts_relation(a.skip(1), b.skip(1))
    }
}

/// The relation of the version text `a` to `b`.
pub open spec fn version_relation(a: Seq<char>, b: Seq<char>) -> Relation {
    parts_relation(parts_of(a), parts_of(b))
}

/// `a` is `b` or a refinement of it.
pub open spec fn refines(a: Seq<char>, b: Seq<char>) -> bool {
    version_relation(a, b) == Relation::Equal || version_relation(a, b) == Relation::IsSubVersionOf
}

/// The `Ordering` that a sign stands for.
pub open spec fn ordering_of(sign: int) -> Ordering {
    if sign < 0 {
        Ordering::Less
    } else if sign == 0 {
        Ordering::Equal
    } else {
        Ordering::Greater
    }
}

/// A text has at least one part.
pub proof fn lemma_parts_nonempty(s: Seq<char>)
    ensures
        parts_of(s).len() >= 1,
{
    lemma_first_index_of(s, DOT);
}

/// No part of a version holds a dot.
pub proof fn lemma_parts_hold_no_dot(s: Seq<char>, i: int)
    requires
        0 <= i < parts_of(s).len(),
    ensures
        !parts_of(s)[i].contains(DOT),
    decreases s.len(),
{
    lemma_first_index_of(s, DOT);
    let n = first_index_of(s, DOT);
    if n < s.len() {
        if i > 0 {
            lemma_parts_hold_no_dot(s.skip(n + 1), i - 1);
        }
    }
}

/// A part before joined parts is joined to them by a dot.
pub proof fn lemma_join_dots_first(head: Seq<char>, tail: Seq<Seq<char>>)
    requires
        tail.len() > 0,
    ensures
        join_dots(seq![head] + tail) == head + seq![DOT] + join_dots(tail),
    decreases tail.len(),
{
    let all = seq![head] + tail;
    assert(all.drop_last() =~= seq![head] + tail.drop_last());
    assert(all.last() == tail.last());
    if tail.len() == 1 {
        assert(all.drop_last() =~= seq![head]);
        assert(join_dots(seq![head]) == head);
        assert(join_dots(tail) == tail[0]);
        assert(join_dots(all) =~= head + seq![DOT] + join_dots(tail));
    } else {
        lemma_join_dots_first(head, tail.drop_last());
        assert(join_dots(all) =~= head + seq![DOT] + join_dots(tail));
    }
}

/// The parts of a text, joined by dots, are the text again.
pub proof fn lemma_join_parts(s: Seq<char>)
    ensures
        join_dots(parts_of(s)) == s,
    decreases s.len(),
{
    lemma_first_index_of(s, DOT);
    let n = first_index_of(s, DOT);
    if n < s.len() {
        let rest = s.skip(n + 1);
        lemma_join_parts(rest);
        lemma_parts_nonempty(rest);
        lemma_join_dots_first(s.take(n), parts_of(rest));
        assert(s.take(n) + seq![DOT] + rest =~= s);
    }
}

/// Byte sequences are in order `0` exactly when they are equal.
pub proof fn lemma_bytes_sign_zero(a: Seq<u8>, b: Seq<u8>)
    ensures
        bytes_sign(a, b) == 0 <==> a == b,
    decreases a.len(),
{
    if a.len() == 0 || b.len() == 0 {
        if a.len() == 0 && b.len() == 0 {
            assert(a =~= b);
        }
    } else if a[0] == b[0] {
        lemma_bytes_sign_zero(a.skip(1), b.skip(1));
        if a.skip(1) == b.skip(1) {
            assert(a =~= seq![a[0]] + a.skip(1));
            assert(b =~= seq![b[0]] + b.skip(1));
        }
    }
}

/// Parts are in order `0` exactly when they are equal.
pub proof fn lemma_part_sign_zero(a: Seq<char>, b: Seq<char>)
    ensures
        part_sign(a, b) == 0 <==> a == b,
{
    lemma_bytes_sign_zero(encode_utf8(a), encode_utf8(b));
    vstd::utf8::encode_utf8_decode_utf8(a);
    vstd::utf8::encode_utf8_decode_utf8(b);
}

/// The order of byte sequences turns round with its arguments.
pub proof fn lemma_bytes_sign_mirror(a: Seq<u8>, b: Seq<u8>)
    ensures
        bytes_sign(b, a) == -bytes_sign(a, b),
    decreases a.len(),
{
    if a.len() == 0 || b.len() == 0 {
    } else if a[0] == b[0] {
        lemma_bytes_sign_mirror(a.skip(1), b.skip(1));
    }
}

/// The order of parts turns round with its arguments.
pub proof fn lemma_part_sign_mirror(a: Seq<char>, b: Seq<char>)
    ensures
        part_sign(b, a) == -part_sign(a, b),
{
    lemma_bytes_sign_mirror(encode_utf8(a), encode_utf8(b));
}

/// The order of versions turns round with its arguments: where `a` comes
/// before `b`, `b` comes after `a`, and a tie is a tie both ways.
pub proof fn lemma_version_sign_mirror(a: Seq<char>, b: Seq<char>)
    ensures
        version_sign(b, a) == -version_sign(a, b),
{
    lemma_parts_sign_mirror(parts_of(a), parts_of(b));
}

/// The order of part sequences turns round with its arguments.
pub proof fn lemma_parts_sign_mirror(a: Seq<Seq<char>>, b: Seq<Seq<char>>)
    ensures
        parts_sign(b, a) == -parts_sign(a, b),
    decreases a.len(),
{
    if a.len() == 0 || b.len() == 0 {
    } else {
        lemma_part_sign_mirror(a[0], b[0]);
        lemma_parts_sign_mirror(a.skip(1), b.skip(1));
    }
}

/// The relation is `Equal` exactly between equal part sequences.
pub proof fn lemma_relation_equal(a: Seq<Seq<char>>, b: Seq<Seq<char>>)
    ensures
        parts_relation(a, b) == Relation::Equal <==> a == b,
    decreases a.len(),
{
    if a.len() == 0 || b.len() == 0 {
        if a.len() == 0 && b.len() == 0 {
            assert(a =~= b);
        }
    } else if a[0] == b[0] {
        lemma_relation_equal(a.skip(1), b.skip(1));
        if a.skip(1) == b.skip(1) {
            assert(a =~= seq![a[0]] + a.skip(1));
            assert(b =~= seq![b[0]] + b.skip(1));
        }
    }
}

/// `a` is a sub-version of `b` exactly when the parts of `b` begin `a` and
/// `a` has more of them; in the relation `Equal` or `IsSubVersionOf`
/// exactly when the parts of `b` begin `a`.
pub proof fn lemma_relation_prefix(a: Seq<Seq<char>>, b: Seq<Seq<char>>)
    ensures
        parts_relation(a, b) == Relation::IsSubVersionOf <==> (b.is_prefix_of(a) && b.len()
            < a.len()),
        (parts_relation(a, b) == Relation::Equal || parts_relation(a, b)
            == Relation::IsSubVersionOf) <==> b.is_prefix_of(a),
    decreases a.len(),
{
    if a.len() == 0 || b.len() == 0 {
    } else if a[0] != b[0] {
        if b.is_prefix_of(a) {
            assert(b[0] == a[0]);
        }
    } else {
        let x = a.skip(1);
        let y = b.skip(1);
        lemma_relation_prefix(x, y);
        if y.is_prefix_of(x) {
            assert forall|i: int| 0 <= i < b.len() implies b[i] == a[i] by {
                if i > 0 {
                    assert(y[i - 1] == x[i - 1]);
                }
            }
        }
        if b.is_prefix_of(a) {
            assert forall|i: int| 0 <= i < y.len() implies y[i] == x[i] by {
                assert(b[i + 1] == a[i + 1]);
            }
        }
    }
}

/// Two part sequences of which one begins the other are in order `0`.
pub proof fn lemma_prefix_sign_zero(a: Seq<Seq<char>>, b: Seq<Seq<char>>)
    requires
        b.is_prefix_of(a) || a.is_prefix_of(b),
    ensures
        parts_sign(a, b) == 0,
    decreases a.len(),
{
    if a.len() == 0 || b.len() == 0 {
    } else {
        assert(a[0] == b[0]);
        lemma_part_sign_zero(a[0], b[0]);
        let x = a.skip(1);
        let y = b.skip(1);
        if b.is_prefix_of(a) {
            assert forall|i: int| 0 <= i < y.len() implies y[i] == x[i] by {
                assert(b[i + 1] == a[i + 1]);
            }
        } else {
            assert forall|i: int| 0 <= i < x.len() implies x[i] == y[i] by {
                assert(a[i + 1] == b[i + 1]);
            }
        }
        lemma_prefix_sign_zero(x, y);
    }
}

/// Versions in the relation `Equal` are in order `Equal`.
pub proof fn lemma_equal_relation_equal_order(a: Seq<char>, b: Seq<char>)
    requires
        version_relation(a, b) == Relation::Equal,
    ensures
        version_sign(a, b) == 0,
        ordering_of(version_sign(a, b)) == Ordering::Equal,
{
    lemma_relation_equal(parts_of(a), parts_of(b));
    lemma_prefix_sign_zero(parts_of(a), parts_of(b));
}

/// A version refines another exactly when the other is refined by it.
pub proof fn lemma_relation_mirror(a: Seq<char>, b: Seq<char>)
    ensures
        version_relation(a, b) == Relation::IsSubVersionOf <==> version_relation(b, a)
            == Relation::IsSuperVersionOf,
{
    lemma_parts_relation_mirror(parts_of(a), parts_of(b));
}

/// The relation of `b` to `a` is the mirror image of that of `a` to `b`.
pub proof fn lemma_parts_relation_mirror(a: Seq<Seq<char>>, b: Seq<Seq<char>>)
    ensures
        parts_relation(a, b) == Relation::IsSubVersionOf <==> parts_relation(b, a)
            == Relation::IsSuperVersionOf,
        parts_relation(a, b) == Relation::IsSuperVersionOf <==> parts_relation(b, a)
            == Relation::IsSubVersionOf,
        parts_relation(a, b) == Relation::Equal <==> parts_relation(b, a) == Relation::Equal,
        parts_relation(a, b) == Relation::Different <==> parts_relation(b, a)
            == Relation::Different,
    decreases a.len(),
{
    if a.len() == 0 || b.len() == 0 {
    } else if a[0] != b[0] {
    } else {
        lemma_parts_relation_mirror(a.skip(1), b.skip(1));
    }
}

/// A version and a refinement of it are in order `Equal`: the order alone
/// does not tell them apart.
pub proof fn lemma_refinement_ties(a: Seq<char>, b: Seq<char>)
    requires
        refines(a, b),
    ensures
        version_sign(a, b) == 0,
        version_sign(b, a) == 0,
{
    lemma_relation_prefix(parts_of(a), parts_of(b));
    lemma_prefix_sign_zero(parts_of(a), parts_of(b));
    lemma_prefix_sign_zero(parts_of(b), parts_of(a));
}

/// The length of a version part.
pub trait PartLen {
    /// The length of this part.
    spec fn spec_len(&self) -> nat;

    /// The length of this part.
    fn len(&self) -> (n: usize)
        ensures
            n == self.spec_len(),
    ;

    /// Whether this part is empty.
    fn is_empty(&self) -> (r: bool)
        ensures
            r == (self.spec_len() == 0),
    ;
}

impl PartLen for str {
    /// The number of bytes that encode the text, where that fits a `usize`.
    open spec fn spec_len(&self) -> nat {
        (encode_utf8(self@).len() as usize) as nat
    }

    fn len(&self) -> (n: usize) {
        self.len()
    }

    fn is_empty(&self) -> (r: bool) {
        self.len() == 0
    }
}

impl<T> PartLen for [T] {
    open spec fn spec_len(&self) -> nat {
        self@.len()
    }

    fn len(&self) -> (n: usize) {
        self.len()
    }

    fn is_empty(&self) -> (r: bool) {
        self.len() == 0
    }
}

/// One part of a version, ordered as parts are.
#[derive(Debug, Clone, Copy, PartialEq, Eq, Hash)]
pub struct Part<'a>(pub &'a str);

/// The sign of the lexical order of the bytes `x` and `y`.
fn bytes_sign_of(x: &[u8], y: &[u8]) -> (r: i8)
    ensures
        r == bytes_sign(x@, y@),
{
    let mut i: usize = 0;
    proof {
        assert(x@.skip(0) =~= x@);
        assert(y@.skip(0) =~= y@);
    }
    loop
        invariant
            i <= x@.len(),
            i <= y@.len(),
            bytes_sign(x@, y@) == bytes_sign(x@.skip(i as int), y@.skip(i as int)),
        decreases x@.len() - i,
    {
        if i >= x.len() || i >= y.len() {
            if i >= x.len() && i >= y.len() {
                return 0;
            } else if i >= x.len() {
                return -1;
            } else {
                return 1;
            }
        }
        let a = x[i];
        let b = y[i];
        if a < b {
            return -1;
        }
        if a > b {
            return 1;
        }
        proof {
            assert(x@.skip(i as int).skip(1) =~= x@.skip(i + 1));
            assert(y@.skip(i as int).skip(1) =~= y@.skip(i + 1));
        }
        i = i + 1;
    }
}

/// The sign of the order of two parts.
fn part_sign_of(a: &str, b: &str) -> (r: i8)
    ensures
        r == part_sign(a@, b@),
{
    let x = a.as_bytes();
    let y = b.as_bytes();
    if x.len() < y.len() {
        -1
    } else if x.len() > y.len() {
        1
    } else {
        bytes_sign_of(x, y)
    }
}

impl<'a> PartialOrd for Part<'a> {
    /// The order of this part and `other`: by length, then lexically.
    fn partial_cmp(&self, other: &Self) -> (r: Option<Ordering>) {
        Some(self.cmp(other))
    }
}

impl<'a> vstd::std_specs::cmp::PartialOrdSpecImpl for Part<'a> {
    open spec fn obeys_partial_cmp_spec() -> bool {
        true
    }

    open spec fn partial_cmp_spec(&self, other: &Self) -> Option<Ordering> {
        Some(ordering_of(part_sign(self.0@, other.0@)))
    }
}

impl<'a> Part<'a> {
    /// The order of this part and `other`: by length, then lexically.
    pub fn cmp(&self, other: &Part<'_>) -> (r: Ordering)
        ensures
            r == ordering_of(part_sign(self.0@, other.0@)),
    {
        let c = part_sign_of(self.0, other.0);
        if c < 0 {
            Ordering::Less
        } else if c == 0 {
            Ordering::Equal
        } else {
            Ordering::Greater
        }
    }

    /// Whether this part and `other` hold the same text.
    pub fn same(&self, other: &Part<'_>) -> (r: bool)
        ensures
            r == (self.0@ == other.0@),
    {
        str_eq(self.0, other.0)
    }
}

/// A walk over the parts of a version text, first part first.
#[derive(Debug, Clone, Copy)]
pub struct VersionStrSplit<'a>(pub Option<&'a str>);

impl<'a> View for VersionStrSplit<'a> {
    type V = Seq<Seq<char>>;

    /// The parts that are still to come.
    open spec fn view(&self) -> Seq<Seq<char>> {
        match self.0 {
            Some(rest) => parts_of(rest@),
            None => Seq::empty(),
        }
    }
}

impl<'a> VersionStrSplit<'a> {
    /// A walk over the parts of `s`.
    pub fn new(s: &'a str) -> (it: Self)
        ensures
            it@ == parts_of(s@),
    {
        VersionStrSplit(Some(s))
    }

    /// The next part, if one is left.
    pub fn next(&mut self) -> (r: Option<Part<'a>>)
        ensures
            match r {
                Some(part) => old(self)@.len() > 0 && part.0@ == old(self)@[0] && final(self)@
                    == old(self)@.skip(1),
                None => old(self)@.len() == 0 && final(self)@ == old(self)@,
            },
    {
        match self.0 {
            None => None,
            Some(rest) => {
                let (head, tail) = next_piece(rest, DOT);
                self.0 = tail;
                Some(Part(head))
            },
        }
    }
}

/// Text that is read as a version.
pub trait Version {
    /// The parts of this version.
    spec fn parts(&self) -> Seq<Seq<char>>;

    /// A walk over the parts of this version.
    fn iter_parts(&self) -> (it: VersionStrSplit<'_>)
        ensures
            it@ == self.parts(),
    ;

    /// The relation of this version to `other`.
    fn relation_to(&self, other: &Self) -> (r: Relation)
        ensures
            r == parts_relation(self.parts(), other.parts()),
    {
        let mut mine = self.iter_parts();
        let mut theirs = other.iter_parts();
        loop
            invariant
                parts_relation(mine@, theirs@) == parts_relation(self.parts(), other.parts()),
            decreases mine@.len() + theirs@.len(),
        {
            let s = mine.next();
            let o = theirs.next();
            match (s, o) {
                (None, None) => {
                    return Relation::Equal;
                },
                (Some(_), None) => {
                    return Relation::IsSubVersionOf;
                },
                (None, Some(_)) => {
                    return Relation::IsSuperVersionOf;
                },
                (Some(s), Some(o)) => {
                    if !s.same(&o) {
                        return Relation::Different;
                    }
                },
            }
        }
    }

    /// Whether this version is `other` or a refinement of it.
    fn is_sub_version_of(&self, other: &Self) -> (r: bool)
        ensures
            r == (parts_relation(self.parts(), other.parts()) == Relation::Equal
                || parts_relation(self.parts(), other.parts()) == Relation::IsSubVersionOf),
    {
        match self.relation_to(other) {
            Relation::Equal => true,
            Relation::IsSubVersionOf => true,
            _ => false,
        }
    }
}

impl Version for str {
    open spec fn parts(&self) -> Seq<Seq<char>> {
        parts_of(self@)
    }

    fn iter_parts(&self) -> (it: VersionStrSplit<'_>) {
        VersionStrSplit::new(self)
    }
}

impl Version for String {
    open spec fn parts(&self) -> Seq<Seq<char>> {
        parts_of(self@)
    }

    fn iter_parts(&self) -> (it: VersionStrSplit<'_>) {
        VersionStrSplit::new(self.as_str())
    }
}

/// The order of two versions: that of the first pair of their parts that
/// differ in order, over the parts that both have.
pub fn version_ord<V: Version + ?Sized>(a: &V, b: &V) -> (r: Ordering)
    ensures
        r == ordering_of(parts_sign(a.parts(), b.parts())),
{
    let mut x = a.iter_parts();
    let mut y = b.iter_parts();
    loop
        invariant
            parts_sign(x@, y@) == parts_sign(a.parts(), b.parts()),
        decreases x@.len(),
    {
        match x.next() {
            None => {
                return Ordering::Equal;
            },
            Some(p) => match y.next() {
                None => {
                    return Ordering::Equal;
                },
                Some(q) => {
                    let c = p.cmp(&q);
                    match c {
                        Ordering::Equal => {},
                        _ => {
                            return c;
                        },
                    }
                },
            },
        }
    }
}

/// Whether `a` comes after `b` in the order of versions.
pub fn comes_after(a: &str, b: &str) -> (r: bool)
    ensures
        r == (version_sign(a@, b@) > 0),
{
    match version_ord(a, b) {
        Ordering::Greater => true,
        _ => false,
    }
}

/// Whether `a` comes before `b` in the order of versions.
pub fn comes_before(a: &str, b: &str) -> (r: bool)
    ensures
        r == (version_sign(a@, b@) < 0),
{
    match version_ord(a, b) {
        Ordering::Less => true,
        _ => false,
    }
}

/// The texts of a sequence of string slices.
pub open spec fn views(names: Seq<&str>) -> Seq<Seq<char>> {
    Seq::new(names.len(), |i: int| names[i]@)
}

/// Index of the newest of `names`, or `-1` where there is none. The names
/// are taken in turn, and a later one replaces the choice so far unless
/// that one comes after it in the order of versions; so of names that the
/// order ties, the last is chosen.
pub open spec fn newest_index(names: Seq<Seq<char>>) -> int
    decreases names.len(),
{
    if names.len() == 0 {
        -1
    } else {
        let before = newest_index(names.drop_last());
        if before >= 0 && version_sign(names[before], names.last()) > 0 {
            before
        } else {
            names.len() - 1
        }
    }
}

/// `newest_index` chooses one of the names wherever there is one.
pub proof fn lemma_newest_index(names: Seq<Seq<char>>)
    ensures
        -1 <= newest_index(names) < names.len(),
        newest_index(names) < 0 <==> names.len() == 0,
    decreases names.len(),
{
    if names.len() > 0 {
        lemma_newest_index(names.drop_last());
    }
}

/// What `newest_index` chooses comes after every name that follows it:
/// any of those that did not come before it would have replaced it.
pub proof fn lemma_newest_after_later(names: Seq<Seq<char>>, j: int)
    requires
        newest_index(names) < j < names.len(),
    ensures
        version_sign(names[newest_index(names)], names[j]) > 0,
    decreases names.len(),
{
    let init = names.drop_last();
    lemma_newest_index(init);
    if j < names.len() - 1 {
        lemma_newest_after_later(init, j);
    }
}

/// Where a byte sequence comes after a second and that after a third, the
/// first comes after the third.
pub proof fn lemma_bytes_sign_transitive(a: Seq<u8>, b: Seq<u8>, c: Seq<u8>)
    requires
        bytes_sign(a, b) > 0,
        bytes_sign(b, c) > 0,
    ensures
        bytes_sign(a, c) > 0,
    decreases a.len(),
{
    if c.len() > 0 && a[0] == c[0] {
        lemma_bytes_sign_transitive(a.skip(1), b.skip(1), c.skip(1));
    }
}

/// Where a part comes after a second and that after a third, the first
/// comes after the third.
pub proof fn lemma_part_sign_transitive(a: Seq<char>, b: Seq<char>, c: Seq<char>)
    requires
        part_sign(a, b) > 0,
        part_sign(b, c) > 0,
    ensures
        part_sign(a, c) > 0,
{
    let x = encode_utf8(a);
    let y = encode_utf8(b);
    let z = encode_utf8(c);
    if x.len() == y.len() && y.len() == z.len() {
        lemma_bytes_sign_transitive(x, y, z);
    }
}

/// Among part sequences of one length the order is transitive: where one
/// does not come before a second, nor that before a third, the first does
/// not come before the third.
pub proof fn lemma_parts_sign_transitive(
    a: Seq<Seq<char>>,
    b: Seq<Seq<char>>,
    c: Seq<Seq<char>>,
)
    requires
        a.len() == b.len(),
        b.len() == c.len(),
        parts_sign(a, b) >= 0,
        parts_sign(b, c) >= 0,
    ensures
        parts_sign(a, c) >= 0,
    decreases a.len(),
{
    if a.len() > 0 {
        let p = part_sign(a[0], b[0]);
        let q = part_sign(b[0], c[0]);
        lemma_part_sign_zero(a[0], b[0]);
        lemma_part_sign_zero(b[0], c[0]);
        lemma_part_sign_zero(a[0], c[0]);
        if p > 0 && q > 0 {
            lemma_part_sign_transitive(a[0], b[0], c[0]);
        } else if p == 0 && q == 0 {
            lemma_parts_sign_transitive(a.skip(1), b.skip(1), c.skip(1));
        }
    }
}

/// All of `names` have the same number of parts.
pub open spec fn same_shape(names: Seq<Seq<char>>) -> bool {
    forall|i: int, j: int|
        0 <= i < names.len() && 0 <= j < names.len() ==> (#[trigger] parts_of(names[i])).len()
            == (#[trigger] parts_of(names[j])).len()
}

/// Among names with the same number of parts, none comes after the one
/// that `newest_index` chooses.
pub proof fn lemma_newest_is_maximal(names: Seq<Seq<char>>, j: int)
    requires
        same_shape(names),
        0 <= j < names.len(),
    ensures
        version_sign(names[newest_index(names)], names[j]) >= 0,
    decreases names.len(),
{
    let init = names.drop_last();
    let last = names.last();
    lemma_newest_index(names);
    lemma_newest_index(init);
    let chosen = newest_index(names);
    let before = newest_index(init);
    assert(same_shape(init)) by {
        assert forall|i: int, k: int| 0 <= i < init.len() && 0 <= k < init.len() implies (
        #[trigger] parts_of(init[i])).len() == (#[trigger] parts_of(init[k])).len() by {
            assert(init[i] == names[i] && init[k] == names[k]);
        }
    }
    if j == names.len() - 1 {
        if chosen == j {
            lemma_prefix_sign_zero(parts_of(last), parts_of(last));
        }
    } else {
        lemma_newest_is_maximal(init, j);
        assert(init[j] == names[j]);
        if chosen != before {
            assert(init[before] == names[before]);
            lemma_version_sign_mirror(names[before], last);
            assert(parts_of(last).len() == parts_of(names[before]).len());
            assert(parts_of(names[before]).len() == parts_of(names[j]).len());
            lemma_parts_sign_transitive(
                parts_of(last),
                parts_of(names[before]),
                parts_of(names[j]),
            );
        }
    }
}

/// The index of the newest of `names`: see `newest_index`.
pub fn newest_of(names: &Vec<&str>) -> (r: Option<usize>)
    ensures
        match r {
            Some(i) => i < names.len() && i == newest_index(views(names@)),
            None => names.len() == 0,
        },
{
    let ghost all = views(names@);
    let mut chosen: Option<usize> = None;
    let mut i: usize = 0;
    while i < names.len()
        invariant
            i <= names.len(),
            all == views(names@),
            match chosen {
                Some(c) => c < i && c == newest_index(all.take(i as int)),
                None => i == 0,
            },
        decreases names.len() - i,
    {
        proof {
            assert(all.take(i + 1).drop_last() =~= all.take(i as int));
            assert(all.take(i + 1).last() == names@[i as int]@);
            lemma_newest_index(all.take(i as int));
        }
        let keep = match chosen {
            Some(c) => {
                assert(all.take(i + 1)[c as int] == names@[c as int]@);
                comes_after(names[c], names[i])
            },
            None => false,
        };
        if !keep {
            chosen = Some(i);
        }
        i = i + 1;
    }
    proof {
        assert(all.take(i as int) =~= all);
    }
    chosen
}

} // verus!
