//! The multi-line string literal: every line of the text behind a marker, on
//! a line of its own.

use crate::lines::{
    join_lines, lemma_join_lines_push, lemma_split_lines_joins_back, lemma_split_lines_push,
    lemma_split_of_join, split_lines, unbroken,
};
use vstd::prelude::*;

verus! {

/// The marker that opens every line of the literal: two blanks, `#|`.
pub open spec fn line_marker() -> Seq<char> {
    seq![' ', ' ', '#', '|']
}

/// A line as it stands in the literal: the marker, the line as it is, a line
/// break.
pub open spec fn marked_line(line: Seq<char>) -> Seq<char> {
    line_marker() + line + seq!['\n']
}

/// The lines as they stand in the literal, one marked line for each, in
/// order.
pub open spec fn marked_lines(lines: Seq<Seq<char>>) -> Seq<char>
    decreases lines.len(),
{
    if lines.len() == 0 {
        Seq::empty()
    } else {
        marked_lines(lines.drop_last()) + marked_line(lines.last())
    }
}

/// The literal for `text`: its lines, each marked, the empty last line of a
/// text that ends in a line break too.
///
/// A line is written as it is, however long: nothing in it is escaped, quoted
/// or wrapped. A reader that gives a meaning of its own to something inside a
/// marked line does not get the text back; `decode_text_literal` says what
/// reader the literal is written for.
pub open spec fn text_literal(text: Seq<char>) -> Seq<char> {
    marked_lines(split_lines(text))
}

/// The literal while its last line is still open: all marked lines but the
/// last, then the marker and the last line without its line break.
spec fn open_literal(text: Seq<char>) -> Seq<char> {
    let lines = split_lines(text);
    marked_lines(lines.drop_last()) + line_marker() + lines.last()
}

/// What one more character adds to the open literal: itself, and after a
/// line break the marker of the line that it opens.
spec fn literal_step(c: char) -> Seq<char> {
    if c == '\n' {
        seq!['\n'] + line_marker()
    } else {
        seq![c]
    }
}

/// The open literal of the empty text is the marker alone.
proof fn lemma_open_literal_empty()
    ensures
        open_literal(Seq::empty()) == line_marker(),
{
    let lines = split_lines(Seq::<char>::empty());
    assert(lines =~= seq![Seq::<char>::empty()]);
    assert(lines.drop_last() =~= Seq::<Seq<char>>::empty());
    assert(open_literal(Seq::empty()) =~= line_marker());
}

/// The open literal of a text with one more character.
proof fn lemma_open_literal_push(text: Seq<char>, c: char)
    ensures
        open_literal(text.push(c)) == open_literal(text) + literal_step(c),
{
    lemma_split_lines_push(text, c);
    let lines = split_lines(text);
    let more = split_lines(text.push(c));
    if c == '\n' {
        assert(more.drop_last() =~= lines);
    } else {
        assert(more.drop_last() =~= lines.drop_last());
    }
    assert(open_literal(text.push(c)) =~= open_literal(text) + literal_step(c));
}

/// Closing the open literal with a line break gives the literal.
proof fn lemma_open_literal_closed(text: Seq<char>)
    ensures
        text_literal(text) == open_literal(text) + seq!['\n'],
{
    lemma_split_lines_joins_back(text);
    assert(text_literal(text) =~= open_literal(text) + seq!['\n']);
}

/// Appends the marker that opens a line.
fn push_line_marker(out: &mut String)
    ensures
        final(out)@ == old(out)@ + line_marker(),
{
    let ghost before = out@;
    out.push(' ');
    out.push(' ');
    out.push('#');
    out.push('|');
    assert(out@ =~= before + line_marker());
}

/// Appends the literal for `text`.
pub fn push_text_literal(out: &mut String, text: &str)
    ensures
        final(out)@ == old(out)@ + text_literal(text@),
{
    broadcast use vstd::string::group_string_axioms;

    let ghost before = out@;
    push_line_marker(out);
    proof {
        lemma_open_literal_empty();
        assert(text@.take(0) =~= Seq::<char>::empty());
    }
    for c in it: text.chars()
        invariant
            it.seq() == text@,
            out@ == before + open_literal(text@.take(it.index() as int)),
    {
        let ghost so_far = out@;
        let ghost done = text@.take(it.index() as int);
        out.push(c);
        if c == '\n' {
            push_line_marker(out);
        }
        proof {
            assert(text@.take(it.index() + 1) =~= done.push(c));
            lemma_open_literal_push(done, c);
            assert(out@ =~= so_far + literal_step(c));
        }
    }
    proof {
        assert(text@.take(text@.len() as int) =~= text@);
        lemma_open_literal_closed(text@);
    }
    out.push('\n');
}

/// What follows the marker in a line of the literal.
pub open spec fn after_marker(marked: Seq<char>) -> Seq<char> {
    marked.skip(line_marker().len() as int)
}

/// The text that a string literal stands for, as a reader of the marker
/// syntax takes it: the literal is made of lines, each closed by a line
/// break and each opening with the marker; what follows the marker is one
/// line of the text, taken as it is, and the lines of the text are joined by
/// line breaks. `None` where `literal` is not made of such lines.
pub open spec fn decode_text_literal(literal: Seq<char>) -> Option<Seq<char>> {
    if literal.len() > 0 && literal.last() == '\n' {
        let marked = split_lines(literal.drop_last());
        if forall|i: int|
            0 <= i < marked.len() ==> line_marker().is_prefix_of(#[trigger] marked[i]) {
            Some(join_lines(marked.map_values(|line: Seq<char>| after_marker(line))))
        } else {
            None
        }
    } else {
        None
    }
}

/// A line of the literal without its line break: the marker and the line.
spec fn with_marker(line: Seq<char>) -> Seq<char> {
    line_marker() + line
}

/// The marked lines of at least one line are those lines, each behind the
/// marker, joined by line breaks and closed by one more.
proof fn lemma_marked_lines_joined(lines: Seq<Seq<char>>)
    requires
        lines.len() >= 1,
    ensures
        marked_lines(lines) == join_lines(lines.map_values(|line: Seq<char>| with_marker(line)))
            + seq!['\n'],
    decreases lines.len(),
{
    let marked = lines.map_values(|line: Seq<char>| with_marker(line));
    if lines.len() == 1 {
        assert(marked_lines(lines.drop_last()) =~= Seq::<char>::empty());
        assert(marked_lines(lines) =~= join_lines(marked) + seq!['\n']);
    } else {
        let init = lines.drop_last();
        let marked_init = init.map_values(|line: Seq<char>| with_marker(line));
        lemma_marked_lines_joined(init);
        assert(marked =~= marked_init.push(with_marker(lines.last())));
        lemma_join_lines_push(marked_init, with_marker(lines.last()));
        assert(marked_lines(lines) =~= join_lines(marked) + seq!['\n']);
    }
}

/// Round trip: the literal for `text` stands for exactly `text`, whatever it
/// is: empty, with empty lines in it, or ending in a line break.
pub proof fn lemma_text_round_trip(text: Seq<char>)
    ensures
        decode_text_literal(text_literal(text)) == Some(text),
{
    let lines = split_lines(text);
    lemma_split_lines_joins_back(text);
    lemma_marked_lines_joined(lines);
    let marked = lines.map_values(|line: Seq<char>| with_marker(line));
    assert forall|i: int| 0 <= i < marked.len() implies unbroken(#[trigger] marked[i]) by {
        assert(unbroken(lines[i]));
    }
    lemma_split_of_join(marked);
    assert(text_literal(text).drop_last() =~= join_lines(marked));
    assert(marked.map_values(|line: Seq<char>| after_marker(line)) =~= lines) by {
        assert forall|i: int| 0 <= i < lines.len() implies after_marker(marked[i]) == lines[i] by {
            assert(after_marker(with_marker(lines[i])) =~= lines[i]);
        }
    }
}

} // verus!
