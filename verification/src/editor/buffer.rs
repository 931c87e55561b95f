//! The text of the editing buffer as lines: loading text into lines and
//! reading the lines back as text.
use vstd::prelude::*;
use crate::text::{join_lines, join_with, lines_of, newline_index, lemma_newline_index_bound, split_lines, strip_cr};

verus! {

/// The lines a buffer holds for `text`: its lines, or one empty line for a
/// text without any.
pub open spec fn buffer_lines(text: Seq<char>) -> Seq<Seq<char>> {
    if lines_of(text).len() == 0 {
        seq![seq![]]
    } else {
        lines_of(text)
    }
}

/// The lines of a text as the buffer holds them; never none.
pub fn lines_for_buffer(text: &str) -> (lines: Vec<String>)
    ensures
        lines.deep_view() == buffer_lines(text@),
        lines@.len() >= 1,
{
    let mut lines = split_lines(text);
    if lines.len() == 0 {
        lines.push(String::new());
        assert(lines.deep_view() =~= seq![Seq::<char>::empty()]);
    }
    lines
}

/// The buffer's text: its lines joined with line breaks.
pub fn content(lines: &Vec<String>) -> (r: String)
    ensures
        r@ == join_with(lines.deep_view(), seq!['\n']),
{
    join_lines(lines)
}

/// Whether the buffer holds nothing: at most one line, and that one empty.
pub fn is_empty(lines: &Vec<String>) -> (r: bool)
    ensures
        r == (lines@.len() <= 1 && (lines@.len() == 0 || lines.deep_view()[0].len() == 0)),
{
    if lines.len() > 1 {
        return false;
    }
    if lines.len() == 0 {
        return true;
    }
    let first = &lines[0];
    assert(first@ == lines.deep_view()[0]);
    first.as_str().is_empty()
}

proof fn lemma_join_cons(a: Seq<char>, rest: Seq<Seq<char>>, sep: Seq<char>)
    requires
        rest.len() > 0,
    ensures
        join_with(seq![a] + rest, sep) == a + sep + join_with(rest, sep),
    decreases rest.len(),
{
    let x = seq![a] + rest;
    if rest.len() == 1 {
        assert(x.drop_last() =~= seq![a]);
        assert(x.last() == rest[0]);
        assert(join_with(rest, sep) == rest[0]);
        assert(join_with(seq![a], sep) == a);
        assert(join_with(x, sep) == join_with(x.drop_last(), sep) + sep + x.last());
        assert(join_with(x, sep) =~= a + sep + join_with(rest, sep));
    } else {
        lemma_join_cons(a, rest.drop_last(), sep);
        assert(x.drop_last() =~= seq![a] + rest.drop_last());
        assert(x.last() == rest.last());
        assert(join_with(x, sep) =~= a + sep + join_with(rest, sep));
    }
}

proof fn lemma_lines_nonempty(s: Seq<char>)
    requires
        s.len() > 0,
    ensures
        lines_of(s).len() > 0,
{
}

/// A text with no carriage return and no final line break reads back
/// unchanged after it is loaded into lines.
pub proof fn law_load_then_read_back(text: Seq<char>)
    requires
        forall|i: int| 0 <= i < text.len() ==> text[i] != '\r',
        text.len() == 0 || text.last() != '\n',
    ensures
        join_with(buffer_lines(text), seq!['\n']) == text,
    decreases text.len(),
{
    if text.len() == 0 {
        assert(join_with(seq![Seq::<char>::empty()], seq!['\n']) == Seq::<char>::empty());
        assert(text =~= Seq::<char>::empty());
    } else {
        let k = newline_index(text);
        lemma_newline_index_bound(text);
        if k < text.len() {
            let head = text.take(k as int);
            let rest = text.skip((k + 1) as int);
            assert(k + 1 < text.len()) by {
                if k + 1 == text.len() {
                    assert(text.last() == text[k as int]);
                }
            }
            assert(strip_cr(head) == head) by {
                if head.len() > 0 {
                    assert(head.last() == text[k - 1]);
                }
            }
            assert forall|i: int| 0 <= i < rest.len() implies rest[i] != '\r' by {
                assert(rest[i] == text[k + 1 + i]);
            }
            assert(rest.last() == text.last());
            law_load_then_read_back(rest);
            lemma_lines_nonempty(rest);
            assert(buffer_lines(rest) == lines_of(rest));
            lemma_join_cons(head, lines_of(rest), seq!['\n']);
            assert(lines_of(text) == seq![head] + lines_of(rest));
            assert(text =~= head + seq!['\n'] + rest);
        } else {
            assert(lines_of(text) == seq![text]);
        }
    }
}

} // verus!
