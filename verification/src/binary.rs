//! The byte-array literal: every byte as a two-digit hexadecimal entry, twelve
//! entries to a row.

use crate::hex::{hex_digit, hex_digit_of, hex_value, lemma_hex_digit_value};
use crate::lines::{
    join_lines, lemma_join_lines_extend_last, lemma_join_lines_push, lemma_split_of_join,
    split_lines, unbroken,
};
use vstd::prelude::*;
use vstd::string::StringExecFns;

verus! {

/// Number of entries in a full row.
pub const ROW_WIDTH: usize = 12;

/// One byte as it stands in the literal: `0x`, two lowercase hexadecimal
/// digits, a comma and a blank.
pub open spec fn byte_entry(b: u8) -> Seq<char> {
    seq!['0', 'x', hex_digit(b as int / 16), hex_digit(b as int % 16), ',', ' ']
}

/// The entries of `bytes` one after another, in order.
pub open spec fn entries(bytes: Seq<u8>) -> Seq<char>
    decreases bytes.len(),
{
    if bytes.len() == 0 {
        Seq::empty()
    } else {
        entries(bytes.drop_last()) + byte_entry(bytes.last())
    }
}

/// A row of the literal: an indent of two blanks, then the entries.
pub open spec fn row_text(chunk: Seq<u8>) -> Seq<char> {
    seq![' ', ' '] + entries(chunk)
}

/// Number of rows that `len` bytes take: none for no bytes, else as many as
/// are needed with `ROW_WIDTH` bytes to a row.
pub open spec fn row_count(len: nat) -> nat {
    ((len + ROW_WIDTH - 1) / (ROW_WIDTH as int)) as nat
}

/// The bytes of row `k`: at most `ROW_WIDTH` of them, from index
/// `ROW_WIDTH * k` on.
pub open spec fn row_bytes(bytes: Seq<u8>, k: int) -> Seq<u8> {
    let from = ROW_WIDTH * k;
    let to = if from + ROW_WIDTH <= bytes.len() {
        from + ROW_WIDTH
    } else {
        bytes.len() as int
    };
    bytes.subrange(from, to)
}

/// The rows of the literal for `bytes`, first row first.
pub open spec fn rows(bytes: Seq<u8>) -> Seq<Seq<char>> {
    Seq::new(row_count(bytes.len()), |k: int| row_text(row_bytes(bytes, k)))
}

/// What stands between the brackets of the literal: the rows, with a line
/// break between each two. No bytes give the empty text.
pub open spec fn bytes_body(bytes: Seq<u8>) -> Seq<char> {
    join_lines(rows(bytes))
}

/// The byte-array literal for `bytes`: the body between `Bytes::of([` and
/// `])`, each of the two on a line of its own.
pub open spec fn bytes_literal(bytes: Seq<u8>) -> Seq<char> {
    "Bytes::of([\n"@ + bytes_body(bytes) + "\n])\n"@
}

/// What one more byte adds to the body: before the first entry of a row the
/// indent, after a line break unless the row is the first; then the entry.
spec fn body_step(len: nat, b: u8) -> Seq<char> {
    let lead: Seq<char> = if len % (ROW_WIDTH as nat) != 0 {
        Seq::empty()
    } else if len == 0 {
        seq![' ', ' ']
    } else {
        seq!['\n', ' ', ' ']
    };
    lead + byte_entry(b)
}

/// The body for one more byte is the body so far and `body_step`.
proof fn lemma_bytes_body_push(bytes: Seq<u8>, b: u8)
    ensures
        bytes_body(bytes.push(b)) == bytes_body(bytes) + body_step(bytes.len(), b),
{
    let more = bytes.push(b);
    let n = bytes.len() as int;
    let width = ROW_WIDTH as int;
    let old_rows = rows(bytes);
    let new_rows = rows(more);
    assert forall|k: int| 0 <= k < old_rows.len() && width * k + width <= n implies new_rows[k]
        == old_rows[k] by {
        assert(row_bytes(more, k) =~= row_bytes(bytes, k));
    }
    if n % width == 0 {
        let last = row_bytes(more, n / width);
        assert(last =~= seq![b]);
        assert(last.drop_last() =~= Seq::<u8>::empty());
        assert(entries(last.drop_last()) =~= Seq::<char>::empty());
        assert(entries(last) =~= byte_entry(b));
        assert(new_rows =~= old_rows.push(row_text(last)));
        if n == 0 {
            assert(old_rows =~= Seq::<Seq<char>>::empty());
        } else {
            lemma_join_lines_push(old_rows, row_text(last));
        }
    } else {
        let k = n / width;
        let before = row_bytes(bytes, k);
        let after = row_bytes(more, k);
        assert(after =~= before.push(b));
        assert(after.drop_last() =~= before);
        assert(row_text(after) =~= row_text(before) + byte_entry(b));
        assert(new_rows =~= old_rows.drop_last().push(old_rows.last() + byte_entry(b)));
        lemma_join_lines_extend_last(old_rows, byte_entry(b));
    }
    assert(bytes_body(more) =~= bytes_body(bytes) + body_step(bytes.len(), b));
}

/// Appends the entry of one byte.
fn push_byte_entry(out: &mut String, b: u8)
    ensures
        final(out)@ == old(out)@ + byte_entry(b),
{
    let ghost before = out@;
    out.push('0');
    out.push('x');
    out.push(hex_digit_of(b / 16));
    out.push(hex_digit_of(b % 16));
    out.push(',');
    out.push(' ');
    assert(out@ =~= before + byte_entry(b));
}

/// Appends the body of the literal for `bytes`: what stands between its
/// brackets.
pub fn push_bytes_body(out: &mut String, bytes: &[u8])
    ensures
        final(out)@ == old(out)@ + bytes_body(bytes@),
{
    let ghost before = out@;
    let mut i: usize = 0;
    proof {
        lemma_rows_of_nothing(bytes@.take(0));
        assert(out@ =~= before + bytes_body(bytes@.take(0)));
    }
    while i < bytes.len()
        invariant
            i <= bytes.len(),
            out@ == before + bytes_body(bytes@.take(i as int)),
        decreases bytes.len() - i,
    {
        let b = bytes[i];
        let ghost so_far = out@;
        if i % ROW_WIDTH == 0 {
            if i > 0 {
                out.push('\n');
            }
            out.push(' ');
            out.push(' ');
        }
        push_byte_entry(out, b);
        proof {
            let done = bytes@.take(i as int);
            assert(bytes@.take(i + 1) =~= done.push(b));
            lemma_bytes_body_push(done, b);
            assert(out@ =~= so_far + body_step(done.len(), b));
        }
        i += 1;
    }
    assert(bytes@.take(bytes.len() as int) =~= bytes@);
}

/// Appends the byte-array literal for `bytes`.
pub fn push_bytes_literal(out: &mut String, bytes: &[u8])
    ensures
        final(out)@ == old(out)@ + bytes_literal(bytes@),
{
    let ghost before = out@;
    out.append("Bytes::of([\n");
    push_bytes_body(out, bytes);
    out.append("\n])\n");
    assert(out@ =~= before + bytes_literal(bytes@));
}

/// No row holds a line break.
pub proof fn lemma_row_unbroken(chunk: Seq<u8>)
    ensures
        unbroken(entries(chunk)),
        unbroken(row_text(chunk)),
    decreases chunk.len(),
{
    if chunk.len() > 0 {
        lemma_row_unbroken(chunk.drop_last());
        lemma_hex_digit_value(chunk.last() as int / 16);
        lemma_hex_digit_value(chunk.last() as int % 16);
    }
}

/// Grouping: the lines of the body are the rows, as many as the bytes need.
/// Row `k` holds the indent and the entries of the bytes from index
/// `ROW_WIDTH * k` on: `ROW_WIDTH` of them in every row but the last, and in
/// the last row as many as are left, which is the number of bytes modulo
/// `ROW_WIDTH`, or `ROW_WIDTH` where that is zero.
pub proof fn lemma_rows_group_the_bytes(bytes: Seq<u8>, k: int)
    requires
        0 <= k < row_count(bytes.len()),
    ensures
        split_lines(bytes_body(bytes)).len() == row_count(bytes.len()),
        split_lines(bytes_body(bytes))[k] == row_text(row_bytes(bytes, k)),
        row_bytes(bytes, k) == bytes.subrange(
            ROW_WIDTH * k,
            ROW_WIDTH * k + row_bytes(bytes, k).len(),
        ),
        row_bytes(bytes, k).len() == if k + 1 < row_count(bytes.len()) {
            ROW_WIDTH as int
        } else if bytes.len() % (ROW_WIDTH as nat) == 0 {
            ROW_WIDTH as int
        } else {
            (bytes.len() % (ROW_WIDTH as nat)) as int
        },
{
    let all = rows(bytes);
    assert forall|i: int| 0 <= i < all.len() implies unbroken(#[trigger] all[i]) by {
        lemma_row_unbroken(row_bytes(bytes, i));
    }
    lemma_split_of_join(all);
}

/// No bytes take no row, and only they: the body is then empty, and holds no
/// entry.
pub proof fn lemma_rows_of_nothing(bytes: Seq<u8>)
    ensures
        row_count(bytes.len()) == 0 <==> bytes.len() == 0,
        bytes.len() == 0 ==> bytes_body(bytes) == Seq::<char>::empty(),
{
    if bytes.len() == 0 {
        assert(rows(bytes) =~= Seq::<Seq<char>>::empty());
    }
}

/// A blank or a line break: what a reader of the literal passes over.
pub open spec fn is_blank(c: char) -> bool {
    c == ' ' || c == '\n'
}

/// The test that holds of every character but blanks and line breaks.
pub open spec fn not_blank() -> spec_fn(char) -> bool {
    |c: char| !is_blank(c)
}

/// `s` with its blanks and line breaks left out.
pub open spec fn without_blanks(s: Seq<char>) -> Seq<char> {
    s.filter(not_blank())
}

/// An entry without its blank: `0x`, two lowercase hexadecimal digits, a
/// comma.
spec fn dense_entry(b: u8) -> Seq<char> {
    seq!['0', 'x', hex_digit(b as int / 16), hex_digit(b as int % 16), ',']
}

/// The entries of `bytes` without their blanks, one after another.
spec fn dense_entries(bytes: Seq<u8>) -> Seq<char>
    decreases bytes.len(),
{
    if bytes.len() == 0 {
        Seq::empty()
    } else {
        dense_entries(bytes.drop_last()) + dense_entry(bytes.last())
    }
}

/// The bytes that a run of entries without blanks stands for: each entry is
/// `0x`, two hexadecimal digits in either case, and a comma. `None` where `s`
/// is not such a run.
pub open spec fn read_entries(s: Seq<char>) -> Option<Seq<u8>>
    decreases s.len(),
{
    if s.len() == 0 {
        Some(Seq::empty())
    } else if s.len() < 5 || s[0] != '0' || s[1] != 'x' || s[4] != ',' {
        None
    } else {
        match (hex_value(s[2]), hex_value(s[3]), read_entries(s.skip(5))) {
            (Some(high), Some(low), Some(rest)) => Some(seq![(16 * high + low) as u8] + rest),
            _ => None,
        }
    }
}

/// The bytes that a byte-array literal stands for, as a reader takes it for
/// whom blanks and line breaks mean nothing: between `Bytes::of([` and `])`
/// stand entries, each closed by a comma. `None` where `literal` is not of
/// that form.
pub open spec fn decode_bytes_literal(literal: Seq<char>) -> Option<Seq<u8>> {
    let dense = without_blanks(literal);
    let opening = "Bytes::of(["@;
    let closing = "])"@;
    let inner_end = dense.len() - closing.len();
    if opening.len() <= inner_end && dense.take(opening.len() as int) == opening && dense.skip(
        inner_end,
    ) == closing {
        read_entries(dense.subrange(opening.len() as int, inner_end))
    } else {
        None
    }
}

/// Leaving out blanks changes nothing in a text that has none.
proof fn lemma_without_blanks_keeps(s: Seq<char>)
    requires
        forall|i: int| 0 <= i < s.len() ==> !is_blank(s[i]),
    ensures
        without_blanks(s) == s,
    decreases s.len(),
{
    if s.len() == 0 {
        reveal_with_fuel(Seq::filter, 1);
    } else {
        lemma_without_blanks_keeps(s.drop_last());
        s.drop_last().lemma_filter_push(s.last(), not_blank());
        assert(s.drop_last().push(s.last()) =~= s);
    }
}

/// Leaving out blanks in what one more byte adds to the body leaves the
/// entry without its blank.
proof fn lemma_without_blanks_step(len: nat, b: u8)
    ensures
        without_blanks(body_step(len, b)) == dense_entry(b),
{
    lemma_hex_digit_value(b as int / 16);
    lemma_hex_digit_value(b as int % 16);
    let lead: Seq<char> = if len % (ROW_WIDTH as nat) != 0 {
        Seq::empty()
    } else if len == 0 {
        seq![' ', ' ']
    } else {
        seq!['\n', ' ', ' ']
    };
    assert(without_blanks(lead) =~= Seq::<char>::empty()) by {
        reveal_with_fuel(Seq::filter, 4);
    }
    lemma_without_blanks_keeps(dense_entry(b));
    assert(without_blanks(seq![' ']) =~= Seq::<char>::empty()) by {
        reveal_with_fuel(Seq::filter, 2);
    }
    assert(body_step(len, b) =~= lead + (dense_entry(b) + seq![' ']));
    Seq::filter_distributes_over_add(dense_entry(b), seq![' '], not_blank());
    Seq::filter_distributes_over_add(lead, dense_entry(b) + seq![' '], not_blank());
}

/// The body without blanks and line breaks is the entries without blanks.
proof fn lemma_without_blanks_body(bytes: Seq<u8>)
    ensures
        without_blanks(bytes_body(bytes)) == dense_entries(bytes),
    decreases bytes.len(),
{
    if bytes.len() == 0 {
        assert(rows(bytes) =~= Seq::<Seq<char>>::empty());
    } else {
        let init = bytes.drop_last();
        lemma_without_blanks_body(init);
        lemma_bytes_body_push(init, bytes.last());
        assert(init.push(bytes.last()) =~= bytes);
        lemma_without_blanks_step(init.len(), bytes.last());
        Seq::filter_distributes_over_add(
            bytes_body(init),
            body_step(init.len(), bytes.last()),
            not_blank(),
        );
    }
}

/// A run of entries that is read as some bytes, with the entry of one more
/// byte behind it, is read as those bytes and that byte.
proof fn lemma_read_entries_push(s: Seq<char>, b: u8)
    requires
        read_entries(s) is Some,
    ensures
        read_entries(s + dense_entry(b)) == Some(read_entries(s)->0.push(b)),
    decreases s.len(),
{
    let longer = s + dense_entry(b);
    lemma_hex_digit_value(b as int / 16);
    lemma_hex_digit_value(b as int % 16);
    if s.len() == 0 {
        assert(longer =~= dense_entry(b));
        assert(longer.skip(5) =~= Seq::<char>::empty());
        assert(read_entries(longer.skip(5)) == Some(Seq::<u8>::empty()));
        assert(16 * (b as int / 16) + b as int % 16 == b);
        assert(read_entries(longer)->0 =~= seq![b]);
        assert(read_entries(s)->0 =~= Seq::<u8>::empty());
        assert(read_entries(s)->0.push(b) =~= seq![b]);
    } else {
        lemma_read_entries_push(s.skip(5), b);
        assert(longer.skip(5) =~= s.skip(5) + dense_entry(b));
        assert(read_entries(longer)->0 =~= read_entries(s)->0.push(b));
    }
}

/// The entries of `bytes` without blanks are read as `bytes`.
proof fn lemma_read_dense_entries(bytes: Seq<u8>)
    ensures
        read_entries(dense_entries(bytes)) == Some(bytes),
    decreases bytes.len(),
{
    if bytes.len() > 0 {
        lemma_read_dense_entries(bytes.drop_last());
        lemma_read_entries_push(dense_entries(bytes.drop_last()), bytes.last());
        assert(bytes.drop_last().push(bytes.last()) =~= bytes);
    }
}

/// The literal without blanks and line breaks: the two brackets, and between
/// them the entries without blanks.
proof fn lemma_without_blanks_literal(bytes: Seq<u8>)
    ensures
        without_blanks(bytes_literal(bytes)) == "Bytes::of(["@ + dense_entries(bytes) + "])"@,
        "Bytes::of(["@.len() == 11,
        "])"@.len() == 2,
{
    let opening = "Bytes::of(["@;
    let closing = "])"@;
    let br = seq!['\n'];
    let body = bytes_body(bytes);
    assert("Bytes::of([\n"@ =~= opening + br && "\n])\n"@ =~= br + closing + br
        && opening.len() == 11 && closing.len() == 2 && without_blanks(opening) == opening
        && without_blanks(closing) == closing) by {
        reveal_strlit("Bytes::of([\n");
        reveal_strlit("\n])\n");
        reveal_strlit("Bytes::of([");
        reveal_strlit("])");
        lemma_without_blanks_keeps(opening);
        lemma_without_blanks_keeps(closing);
    }
    assert(without_blanks(br) =~= Seq::<char>::empty()) by {
        reveal_with_fuel(Seq::filter, 2);
    }
    lemma_without_blanks_body(bytes);
    let tail = br + closing + br;
    assert(without_blanks(tail) =~= closing) by {
        Seq::filter_distributes_over_add(br, closing, not_blank());
        Seq::filter_distributes_over_add(br + closing, br, not_blank());
    }
    let head = opening + br;
    assert(without_blanks(head) =~= opening) by {
        Seq::filter_distributes_over_add(opening, br, not_blank());
    }
    assert(without_blanks(head + body + tail) =~= opening + dense_entries(bytes) + closing) by {
        Seq::filter_distributes_over_add(head, body, not_blank());
        Seq::filter_distributes_over_add(head + body, tail, not_blank());
    }
}

/// Round trip: the literal for `bytes` stands for exactly `bytes`, whatever
/// they are and however many, none included.
pub proof fn lemma_bytes_round_trip(bytes: Seq<u8>)
    ensures
        decode_bytes_literal(bytes_literal(bytes)) == Some(bytes),
{
    lemma_without_blanks_literal(bytes);
    lemma_read_dense_entries(bytes);
    let opening = "Bytes::of(["@;
    let closing = "])"@;
    let dense = without_blanks(bytes_literal(bytes));
    let inner_end = dense.len() - closing.len();
    assert(dense.take(opening.len() as int) =~= opening);
    assert(dense.skip(inner_end) =~= closing);
    assert(dense.subrange(opening.len() as int, inner_end) =~= dense_entries(bytes));
}

} // verus!
