//! The documentation of the items of the configuration, by which the
//! comments of the configuration file are written.

use core::any::TypeId;
use vstd::prelude::*;

use crate::text::{next_piece, split_on, str_eq};

verus! {

/// The identifier of a type, of the standard library.
#[verifier::external_type_specification]
#[verifier::external_body]
pub struct ExTypeId(TypeId);

/// The character that separates the words of a field's name.
pub const UNDERSCORE: char = '_';

/// The character that separates the words of a key of the configuration
/// file.
pub const HYPHEN: char = '-';

/// The documentation of one field of an item.
#[derive(Debug)]
pub struct FieldDoc {
    /// The name of the field, its words separated by underscores.
    pub name: &'static str,
    /// The documentation of the field.
    pub docs: &'static str,
    /// The type of the field.
    pub type_id: TypeId,
}

/// The documentation of an item, with something more of type `D`.
#[derive(Debug)]
pub struct ItemDoc<D> {
    /// The documentation of the item itself.
    pub item_docs: &'static str,
    /// The documentation of its fields, in the order of the fields.
    pub fields: Vec<FieldDoc>,
    /// What else is kept with the item.
    pub extra: D,
}

/// Whether the field named `name` is the one that the key `query` of the
/// configuration file stands for: whether the words of `name` between its
/// underscores are the words of `query` between its hyphens.
pub open spec fn names_key(name: Seq<char>, query: Seq<char>) -> bool {
    split_on(name, UNDERSCORE) == split_on(query, HYPHEN)
}

/// Index of the first of `fields` that the key `query` stands for, or
/// `fields.len()` where there is none.
pub open spec fn first_field_for(fields: Seq<FieldDoc>, query: Seq<char>) -> int
    decreases fields.len(),
{
    if fields.len() == 0 || names_key(fields[0].name@, query) {
        0
    } else {
        1 + first_field_for(fields.skip(1), query)
    }
}

/// `first_field_for` is the least index of a field that `query` stands
/// for.
pub proof fn lemma_first_field_for(fields: Seq<FieldDoc>, query: Seq<char>)
    ensures
        0 <= first_field_for(fields, query) <= fields.len(),
        first_field_for(fields, query) < fields.len() ==> names_key(
            fields[first_field_for(fields, query)].name@,
            query,
        ),
        forall|j: int|
            0 <= j < first_field_for(fields, query) ==> !names_key(
                (#[trigger] fields[j]).name@,
                query,
            ),
    decreases fields.len(),
{
    if fields.len() == 0 || names_key(fields[0].name@, query) {
    } else {
        let rest = fields.skip(1);
        lemma_first_field_for(rest, query);
        assert forall|j: int| 0 <= j < first_field_for(fields, query) implies !names_key(
            (#[trigger] fields[j]).name@,
            query,
        ) by {
            if j > 0 {
                assert(rest[j - 1] == fields[j]);
            }
        }
    }
}

/// An index of a field that `query` stands for, with no such field before
/// it, is `first_field_for`.
pub proof fn lemma_first_field_is(fields: Seq<FieldDoc>, query: Seq<char>, i: int)
    requires
        0 <= i <= fields.len(),
        i < fields.len() ==> names_key(fields[i].name@, query),
        forall|j: int| 0 <= j < i ==> !names_key((#[trigger] fields[j]).name@, query),
    ensures
        first_field_for(fields, query) == i,
{
    lemma_first_field_for(fields, query);
    let k = first_field_for(fields, query);
    if k < i {
        assert(!names_key(fields[k].name@, query));
    }
}

/// Whether the words of `name` between its underscores are the words of
/// `query` between its hyphens.
pub fn is_key_of(name: &str, query: &str) -> (r: bool)
    ensures
        r == names_key(name@, query@),
{
    let ghost names = split_on(name@, UNDERSCORE);
    let ghost keys = split_on(query@, HYPHEN);
    let mut left: Option<&str> = Some(name);
    let mut right: Option<&str> = Some(query);
    let ghost mut done: int = 0;
    proof {
        assert(names.skip(0) =~= names);
        assert(keys.skip(0) =~= keys);
    }
    loop
        invariant
            names == split_on(name@, UNDERSCORE),
            keys == split_on(query@, HYPHEN),
            0 <= done <= names.len(),
            done <= keys.len(),
            forall|j: int| 0 <= j < done ==> names[j] == keys[j],
            match left {
                Some(rest) => done < names.len() && names.skip(done) == split_on(
                    rest@,
                    UNDERSCORE,
                ),
                None => done == names.len(),
            },
            match right {
                Some(rest) => done < keys.len() && keys.skip(done) == split_on(rest@, HYPHEN),
                None => done == keys.len(),
            },
        decreases names.len() - done,
    {
        match (left, right) {
            (None, None) => {
                assert(names =~= keys);
                return true;
            },
            (Some(_), None) => {
                return false;
            },
            (None, Some(_)) => {
                return false;
            },
            (Some(a), Some(b)) => {
                let (word, after) = next_piece(a, UNDERSCORE);
                let (key, behind) = next_piece(b, HYPHEN);
                proof {
                    assert(names.skip(done)[0] == names[done]);
                    assert(keys.skip(done)[0] == keys[done]);
                }
                if !str_eq(word, key) {
                    return false;
                }
                proof {
                    assert(names.skip(done).skip(1) =~= names.skip(done + 1));
                    assert(keys.skip(done).skip(1) =~= keys.skip(done + 1));
                    done = done + 1;
                }
                left = after;
                right = behind;
            },
        }
    }
}

impl<D> ItemDoc<D> {
    /// The documentation of an item: that of the item itself, that of its
    /// fields, and what else is kept with it.
    pub fn new(item_docs: &'static str, fields: Vec<FieldDoc>, extra: D) -> (r: Self)
        ensures
            r.item_docs == item_docs,
            r.fields == fields,
            r.extra == extra,
    {
        ItemDoc { item_docs, fields, extra }
    }

    /// Looks a field up by the key that the configuration file writes for
    /// it, its words separated by hyphens: the first field whose name has
    /// the same words.
    pub fn field_kebab_case(&self, query: &str) -> (r: Option<&FieldDoc>)
        ensures
            match r {
                Some(field) => first_field_for(self.fields@, query@) < self.fields.len() && *field
                    == self.fields[first_field_for(self.fields@, query@)],
                None => first_field_for(self.fields@, query@) == self.fields.len(),
            },
    {
        let mut i: usize = 0;
        while i < self.fields.len()
            invariant
                i <= self.fields.len(),
                forall|j: int| 0 <= j < i ==> !names_key((#[trigger] self.fields@[j]).name@, query@),
            decreases self.fields.len() - i,
        {
            if is_key_of(self.fields[i].name, query) {
                proof {
                    lemma_first_field_is(self.fields@, query@, i as int);
                }
                return Some(&self.fields[i]);
            }
            i = i + 1;
        }
        proof {
            lemma_first_field_is(self.fields@, query@, i as int);
        }
        None
    }
}

} // verus!
