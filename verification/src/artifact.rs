//! The generated source text: a header comment, an empty line, a marker
//! line, and the declaration of a name whose value is the literal.

use crate::binary::{bytes_literal, decode_bytes_literal, lemma_bytes_round_trip, push_bytes_literal};
use crate::text::{decode_text_literal, lemma_text_round_trip, push_text_literal, text_literal};
use vstd::prelude::*;
use vstd::string::StringExecFns;

verus! {

/// A string that may be missing, as contracts see it: its characters, if it
/// is there.
pub open spec fn option_chars(s: Option<&str>) -> Option<Seq<char>> {
    match s {
        Some(s) => Some(s@),
        None => None,
    }
}

/// What the header says of the time: ` on ` and the time stamp where there is
/// one, nothing where there is none.
pub open spec fn stamp_note(stamp: Option<Seq<char>>) -> Seq<char> {
    match stamp {
        Some(t) => " on "@ + t,
        None => Seq::empty(),
    }
}

/// All that stands before the string literal: the header comment, the empty
/// line, the marker line and the declaration up to its `=`.
pub open spec fn text_header(name: Seq<char>, stamp: Option<Seq<char>>) -> Seq<char> {
    "// Generated by `moon tool embed --text`"@ + stamp_note(stamp)
        + ", do not edit.\n\n///|\nlet "@ + name + " : String =\n"@
}

/// All that stands before the byte-array literal: the header comment, the
/// empty line, the marker line and the declaration up to its `=`.
pub open spec fn bytes_header(name: Seq<char>, stamp: Option<Seq<char>>) -> Seq<char> {
    "// Generated by `moon tool embed --binary`"@ + stamp_note(stamp)
        + ", do not edit.\n\n///|\nlet "@ + name + " : Bytes = "@
}

/// The source text that declares `name` as a string with the content `text`.
pub open spec fn text_artifact(name: Seq<char>, stamp: Option<Seq<char>>, text: Seq<char>) -> Seq<
    char,
> {
    text_header(name, stamp) + text_literal(text)
}

/// The source text that declares `name` as a byte array with the content
/// `bytes`.
pub open spec fn bytes_artifact(name: Seq<char>, stamp: Option<Seq<char>>, bytes: Seq<u8>) -> Seq<
    char,
> {
    bytes_header(name, stamp) + bytes_literal(bytes)
}

/// What follows the first `header_len` characters of a generated text: the
/// literal, where `header_len` is the length of its header.
pub open spec fn literal_part(artifact: Seq<char>, header_len: nat) -> Seq<char> {
    artifact.skip(header_len as int)
}

/// Round trip for text: in the generated text the literal follows the
/// header, and it stands for exactly the text that was embedded, under every
/// name and with or without a time stamp.
pub proof fn lemma_text_artifact_round_trip(
    name: Seq<char>,
    stamp: Option<Seq<char>>,
    text: Seq<char>,
)
    ensures
        literal_part(text_artifact(name, stamp, text), text_header(name, stamp).len())
            == text_literal(text),
        decode_text_literal(
            literal_part(text_artifact(name, stamp, text), text_header(name, stamp).len()),
        ) == Some(text),
{
    lemma_text_round_trip(text);
    assert(literal_part(text_artifact(name, stamp, text), text_header(name, stamp).len())
        =~= text_literal(text));
}

/// Round trip for binary data: in the generated text the literal follows the
/// header, and it stands for exactly the bytes that were embedded, under
/// every name and with or without a time stamp.
pub proof fn lemma_bytes_artifact_round_trip(
    name: Seq<char>,
    stamp: Option<Seq<char>>,
    bytes: Seq<u8>,
)
    ensures
        literal_part(bytes_artifact(name, stamp, bytes), bytes_header(name, stamp).len())
            == bytes_literal(bytes),
        decode_bytes_literal(
            literal_part(bytes_artifact(name, stamp, bytes), bytes_header(name, stamp).len()),
        ) == Some(bytes),
{
    lemma_bytes_round_trip(bytes);
    assert(literal_part(bytes_artifact(name, stamp, bytes), bytes_header(name, stamp).len())
        =~= bytes_literal(bytes));
}

/// Appends what the header says of the time.
fn push_stamp_note(out: &mut String, stamp: Option<&str>)
    ensures
        final(out)@ == old(out)@ + stamp_note(option_chars(stamp)),
{
    let ghost before = out@;
    match stamp {
        Some(t) => {
            out.append(" on ");
            out.append(t);
            assert(out@ =~= before + stamp_note(option_chars(stamp)));
        },
        None => {
            assert(out@ =~= before + stamp_note(option_chars(stamp)));
        },
    }
}

/// The source text that declares `name` as a string with the content `text`,
/// with `stamp` in its header where one is given.
pub fn embed_text(name: &str, stamp: Option<&str>, text: &str) -> (artifact: String)
    ensures
        artifact@ == text_artifact(name@, option_chars(stamp), text@),
{
    let mut out = String::new();
    out.append("// Generated by `moon tool embed --text`");
    push_stamp_note(&mut out, stamp);
    out.append(", do not edit.\n\n///|\nlet ");
    out.append(name);
    out.append(" : String =\n");
    assert(out@ =~= text_header(name@, option_chars(stamp)));
    push_text_literal(&mut out, text);
    out
}

/// The source text that declares `name` as a byte array with the content
/// `bytes`, with `stamp` in its header where one is given.
pub fn embed_bytes(name: &str, stamp: Option<&str>, bytes: &[u8]) -> (artifact: String)
    ensures
        artifact@ == bytes_artifact(name@, option_chars(stamp), bytes@),
{
    let mut out = String::new();
    out.append("// Generated by `moon tool embed --binary`");
    push_stamp_note(&mut out, stamp);
    out.append(", do not edit.\n\n///|\nlet ");
    out.append(name);
    out.append(" : Bytes = ");
    assert(out@ =~= bytes_header(name@, option_chars(stamp)));
    push_bytes_literal(&mut out, bytes);
    out
}

} // verus!
