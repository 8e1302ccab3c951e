//! The comments of the configuration file that is written where none
//! exists: each setting is preceded by its documentation.

use vstd::prelude::*;

use crate::text::{chars_of, find_char_from, first_index_of, lemma_first_index_of, slice_of};

verus! {

/// The character that ends a line.
pub const NEWLINE: char = '\n';

/// The character that may precede the end of a line.
pub const RETURN: char = '\r';

/// What a comment line begins with.
pub open spec fn comment_mark() -> Seq<char> {
    seq!['#', ' ']
}

/// A line without the carriage return at its end, if it has one.
pub open spec fn without_return(line: Seq<char>) -> Seq<char> {
    if line.len() > 0 && line.last() == RETURN {
        line.drop_last()
    } else {
        line
    }
}

/// The lines of a text. A line ends at a newline, and a carriage return
/// before that newline is no part of the line. What follows the last
/// newline is a line too unless it is empty, so the empty text has no line.
pub open spec fn lines_of(text: Seq<char>) -> Seq<Seq<char>>
    decreases text.len(),
{
    if text.len() == 0 {
        Seq::empty()
    } else {
        let n = first_index_of(text, NEWLINE);
        if 0 <= n < text.len() {
            seq![without_return(text.take(n))] + lines_of(text.skip(n + 1))
        } else {
            seq![text]
        }
    }
}

/// Lines as comments: each line behind a comment mark and ended by a
/// newline.
pub open spec fn commented(lines: Seq<Seq<char>>) -> Seq<char>
    decreases lines.len(),
{
    if lines.len() == 0 {
        Seq::empty()
    } else {
        commented(lines.drop_last()) + comment_mark() + lines.last() + seq![NEWLINE]
    }
}

/// The documentation `doc` as comments, after an empty line where
/// `push_nl` holds.
pub open spec fn toml_doc(doc: Seq<char>, push_nl: bool) -> Seq<char> {
    if push_nl {
        seq![NEWLINE] + commented(lines_of(doc))
    } else {
        commented(lines_of(doc))
    }
}

/// Writes the documentation `doc` as the comment that precedes a setting:
/// every line of it behind `# `, and all of it after an empty line where
/// `push_nl` holds.
pub fn to_toml_doc(doc: &str, push_nl: bool) -> (r: String)
    ensures
        r@ == toml_doc(doc@, push_nl),
{
    let chars = chars_of(doc);
    let mut buffer = String::new();
    proof {
        reveal_strlit("\n");
        reveal_strlit("# ");
        assert("\n"@ =~= seq![NEWLINE]);
        assert("# "@ =~= comment_mark());
    }
    if push_nl {
        buffer.append("\n");
    }
    let ghost before = buffer@;
    let ghost mut done: Seq<Seq<char>> = Seq::empty();
    let mut from: usize = 0;
    proof {
        assert(doc@.skip(0) =~= doc@);
        assert(buffer@ =~= before + commented(done));
    }
    while from < chars.len()
        invariant
            from <= chars.len(),
            chars@ == doc@,
            "\n"@ == seq![NEWLINE],
            "# "@ == comment_mark(),
            lines_of(doc@) == done + lines_of(doc@.skip(from as int)),
            buffer@ == before + commented(done),
        decreases chars.len() - from,
    {
        let ghost rest = doc@.skip(from as int);
        let end = find_char_from(&chars, NEWLINE, from);
        proof {
            lemma_first_index_of(rest, NEWLINE);
        }
        let line = if end < chars.len() && end > from && chars[end - 1] == RETURN {
            slice_of(doc, from, end - 1)
        } else {
            slice_of(doc, from, end)
        };
        let next = if end < chars.len() {
            end + 1
        } else {
            end
        };
        proof {
            let piece = rest.take(end - from);
            assert(piece =~= doc@.subrange(from as int, end as int));
            if end < chars.len() {
                if end > from {
                    assert(piece.last() == doc@[end - 1]);
                }
                assert(line@ =~= without_return(piece));
                assert(rest.skip(end - from + 1) =~= doc@.skip(next as int));
            } else {
                assert(piece =~= rest);
                assert(line@ == rest);
                assert(doc@.skip(next as int).len() == 0);
            }
            assert(lines_of(rest) =~= seq![line@] + lines_of(doc@.skip(next as int)));
            assert(done.push(line@).drop_last() =~= done);
            assert(lines_of(doc@) =~= done.push(line@) + lines_of(doc@.skip(next as int)));
            done = done.push(line@);
        }
        buffer.append("# ");
        buffer.append(line);
        buffer.append("\n");
        proof {
            assert(buffer@ =~= before + commented(done));
        }
        from = next;
    }
    proof {
        assert(doc@.skip(from as int).len() == 0);
        assert(lines_of(doc@) =~= done);
    }
    buffer
}

} // verus!
