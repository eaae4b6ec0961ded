//! Lines of a text: splitting at line breaks and joining again.

use vstd::prelude::*;

verus! {

/// Index of the first line break in `s`; `s.len()` where `s` has none.
pub open spec fn first_break(s: Seq<char>) -> int
    decreases s.len(),
{
    if s.len() == 0 || s[0] == '\n' {
        0
    } else {
        1 + first_break(s.skip(1))
    }
}

/// The lines of `s`: the pieces between its line breaks, in order. A text
/// without a line break is one line, the empty text too, and a text that ends
/// in a line break has an empty last line.
pub open spec fn split_lines(s: Seq<char>) -> Seq<Seq<char>>
    decreases s.len(),
{
    let k = first_break(s);
    if 0 <= k < s.len() {
        seq![s.take(k)] + split_lines(s.skip(k + 1))
    } else {
        seq![s]
    }
}

/// The lines with one line break between each two neighbours.
pub open spec fn join_lines(lines: Seq<Seq<char>>) -> Seq<char>
    decreases lines.len(),
{
    if lines.len() == 0 {
        Seq::empty()
    } else if lines.len() == 1 {
        lines[0]
    } else {
        lines[0] + seq!['\n'] + join_lines(lines.skip(1))
    }
}

/// `line` holds no line break.
pub open spec fn unbroken(line: Seq<char>) -> bool {
    forall|i: int| 0 <= i < line.len() ==> line[i] != '\n'
}

/// None of `lines` holds a line break.
pub open spec fn all_unbroken(lines: Seq<Seq<char>>) -> bool {
    forall|i: int| 0 <= i < lines.len() ==> unbroken(#[trigger] lines[i])
}

/// `first_break` is within bounds, points at a line break unless it is the
/// length, and nothing before it is a line break.
pub proof fn lemma_first_break(s: Seq<char>)
    ensures
        0 <= first_break(s) <= s.len(),
        first_break(s) < s.len() ==> s[first_break(s)] == '\n',
        forall|i: int| 0 <= i < first_break(s) ==> s[i] != '\n',
    decreases s.len(),
{
    if s.len() == 0 || s[0] == '\n' {
    } else {
        let t = s.skip(1);
        lemma_first_break(t);
        assert forall|i: int| 0 <= i < first_break(s) implies s[i] != '\n' by {
            if i > 0 {
                assert(s[i] == t[i - 1]);
            }
        }
    }
}

/// An index with no line break before it, which is the length or points at a
/// line break, is `first_break`.
pub proof fn lemma_first_break_is(s: Seq<char>, k: int)
    requires
        0 <= k <= s.len(),
        k < s.len() ==> s[k] == '\n',
        forall|i: int| 0 <= i < k ==> s[i] != '\n',
    ensures
        first_break(s) == k,
    decreases s.len(),
{
    if s.len() == 0 || s[0] == '\n' {
    } else {
        let t = s.skip(1);
        assert forall|i: int| 0 <= i < k - 1 implies t[i] != '\n' by {
            assert(t[i] == s[i + 1]);
        }
        lemma_first_break_is(t, k - 1);
    }
}

/// Joining with one more line adds a line break and that line.
pub proof fn lemma_join_lines_push(lines: Seq<Seq<char>>, line: Seq<char>)
    requires
        lines.len() >= 1,
    ensures
        join_lines(lines.push(line)) == join_lines(lines) + seq!['\n'] + line,
    decreases lines.len(),
{
    let more = lines.push(line);
    if lines.len() == 1 {
        assert(more.skip(1) =~= seq![line]);
        assert(join_lines(more.skip(1)) == line);
    } else {
        lemma_join_lines_push(lines.skip(1), line);
        assert(more.skip(1) =~= lines.skip(1).push(line));
        assert(join_lines(more) =~= join_lines(lines) + seq!['\n'] + line);
    }
}

/// Joining after text was added to the last line adds that text at the end.
pub proof fn lemma_join_lines_extend_last(lines: Seq<Seq<char>>, tail: Seq<char>)
    requires
        lines.len() >= 1,
    ensures
        join_lines(lines.drop_last().push(lines.last() + tail)) == join_lines(lines) + tail,
    decreases lines.len(),
{
    let longer = lines.drop_last().push(lines.last() + tail);
    if lines.len() == 1 {
        assert(longer[0] == lines[0] + tail);
    } else {
        lemma_join_lines_extend_last(lines.skip(1), tail);
        assert(longer.skip(1) =~= lines.skip(1).drop_last().push(lines.skip(1).last() + tail));
        assert(join_lines(longer) =~= join_lines(lines) + tail);
    }
}

/// Splitting gives at least one line, no line holds a line break, and the
/// lines joined are the text again. These three facts single the lines out.
pub proof fn lemma_split_lines_joins_back(s: Seq<char>)
    ensures
        split_lines(s).len() >= 1,
        all_unbroken(split_lines(s)),
        join_lines(split_lines(s)) == s,
    decreases s.len(),
{
    lemma_first_break(s);
    let k = first_break(s);
    if k < s.len() {
        let rest = s.skip(k + 1);
        lemma_split_lines_joins_back(rest);
        let lines = split_lines(s);
        assert(lines.skip(1) =~= split_lines(rest));
        assert(lines[0] == s.take(k));
        assert(join_lines(lines) =~= s);
        assert forall|i: int| 0 <= i < lines.len() implies unbroken(#[trigger] lines[i]) by {
            if i > 0 {
                assert(lines[i] == split_lines(rest)[i - 1]);
            }
        }
    }
}

/// Splitting a text that was joined from lines without line breaks gives
/// those lines.
pub proof fn lemma_split_of_join(lines: Seq<Seq<char>>)
    requires
        lines.len() >= 1,
        all_unbroken(lines),
    ensures
        split_lines(join_lines(lines)) == lines,
    decreases lines.len(),
{
    let s = join_lines(lines);
    let head = lines[0];
    assert(unbroken(head));
    if lines.len() == 1 {
        lemma_first_break_is(s, s.len() as int);
        assert(split_lines(s) =~= lines);
    } else {
        let rest = lines.skip(1);
        assert forall|i: int| 0 <= i < rest.len() implies unbroken(#[trigger] rest[i]) by {
            assert(rest[i] == lines[i + 1]);
        }
        lemma_split_of_join(rest);
        let k = head.len() as int;
        assert(s[k] == '\n');
        assert forall|i: int| 0 <= i < k implies s[i] != '\n' by {
            assert(s[i] == head[i]);
        }
        lemma_first_break_is(s, k);
        assert(s.take(k) =~= head);
        assert(s.skip(k + 1) =~= join_lines(rest));
        assert(split_lines(s) =~= lines);
    }
}

/// The lines of a text with one more character: a line break opens a new,
/// empty line, and any other character goes to the end of the last line.
pub proof fn lemma_split_lines_push(s: Seq<char>, c: char)
    ensures
        split_lines(s).len() >= 1,
        c == '\n' ==> split_lines(s.push(c)) == split_lines(s).push(Seq::empty()),
        c != '\n' ==> split_lines(s.push(c)) == split_lines(s).drop_last().push(
            split_lines(s).last().push(c),
        ),
{
    lemma_split_lines_joins_back(s);
    let lines = split_lines(s);
    let grown = if c == '\n' {
        lines.push(Seq::empty())
    } else {
        lines.drop_last().push(lines.last().push(c))
    };
    assert forall|i: int| 0 <= i < grown.len() implies unbroken(#[trigger] grown[i]) by {
        if i < lines.len() - 1 {
            assert(grown[i] == lines[i]);
        } else if c != '\n' {
            assert(unbroken(lines.last()));
        }
    }
    if c == '\n' {
        lemma_join_lines_push(lines, Seq::empty());
    } else {
        lemma_join_lines_extend_last(lines, seq![c]);
        assert(lines.last().push(c) =~= lines.last() + seq![c]);
    }
    assert(join_lines(grown) =~= s.push(c));
    lemma_split_of_join(grown);
}

} // verus!
