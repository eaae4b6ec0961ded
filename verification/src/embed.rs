//! The request to embed a file, and the run that serves it.
//!
//! A run works on the content of the input, which the caller has read, and
//! gives the text to write to the output. It reads the clock where the request
//! asks for the time, and touches nothing else.

use crate::artifact::{
    bytes_artifact, bytes_header, embed_bytes, embed_text, lemma_bytes_artifact_round_trip,
    lemma_text_artifact_round_trip, literal_part, option_chars, text_artifact, text_header,
};
use crate::binary::decode_bytes_literal;
use crate::clock::{is_timestamp, lemma_timestamp_exists, local_time};
use crate::text::decode_text_literal;
use std::path::PathBuf;
use vstd::prelude::*;
use vstd::utf8::{
    decode_utf8, decode_utf8_encode_utf8, encode_utf8, encode_utf8_decode_utf8, valid_utf8,
};

verus! {

/// `std::path::PathBuf`, a path in the file system, made known as a type of
/// which nothing is stated: the library carries paths and never looks into
/// them.
#[verifier::external_type_specification]
#[verifier::external_body]
pub struct ExPathBuf(std::path::PathBuf);

/// How the input is embedded.
#[derive(Clone, Copy, Debug, PartialEq, Eq, Structural)]
pub enum Mode {
    /// As a multi-line string literal; the input must be UTF-8.
    Text,
    /// As a byte-array literal; the input may hold any bytes.
    Binary,
}

/// Why a request is turned down or a run fails.
#[derive(Clone, Copy, Debug, PartialEq, Eq, Structural)]
pub enum EmbedError {
    /// Both the binary and the text mode were asked for.
    ConflictingModes,
    /// The input cannot be read as text: it is not UTF-8.
    ReadFailure,
}

impl EmbedError {
    /// What the error says to the user, as contracts see it.
    pub open spec fn message_chars(self) -> Seq<char> {
        match self {
            EmbedError::ConflictingModes => "the argument '--binary' cannot be used with '--text'"@,
            EmbedError::ReadFailure => "stream did not contain valid UTF-8"@,
        }
    }

    /// What the error says to the user.
    pub fn message(&self) -> (m: &'static str)
        ensures
            m@ == self.message_chars(),
    {
        match self {
            EmbedError::ConflictingModes => "the argument '--binary' cannot be used with '--text'",
            EmbedError::ReadFailure => "stream did not contain valid UTF-8",
        }
    }
}

/// A request to embed one file: the mode, where the input is and where the
/// output goes, the name to declare, and whether the header shows the time.
/// It is made once, by `Embed::new`, and never changes.
#[derive(Debug)]
pub struct Embed {
    mode: Mode,
    input: PathBuf,
    output: PathBuf,
    name: Option<String>,
    timestamp: bool,
}

/// A request as contracts see it.
pub struct EmbedView {
    pub mode: Mode,
    pub input: PathBuf,
    pub output: PathBuf,
    pub name: Option<Seq<char>>,
    pub timestamp: bool,
}

impl View for Embed {
    type V = EmbedView;

    closed spec fn view(&self) -> EmbedView {
        EmbedView {
            mode: self.mode,
            input: self.input,
            output: self.output,
            name: name_chars(self.name),
            timestamp: self.timestamp,
        }
    }
}

/// A name as contracts see it: the characters of the string, if there is one.
pub open spec fn name_chars(name: Option<String>) -> Option<Seq<char>> {
    match name {
        Some(n) => Some(n@),
        None => None,
    }
}

/// The mode that the two flags select: binary where it is asked for, text
/// otherwise, also where neither flag is set.
pub open spec fn selected_mode(binary: bool) -> Mode {
    if binary {
        Mode::Binary
    } else {
        Mode::Text
    }
}

impl EmbedView {
    /// The name that the generated text declares: the one given, or
    /// `resource` where none is.
    pub open spec fn identifier(self) -> Seq<char> {
        match self.name {
            Some(n) => n,
            None => "resource"@,
        }
    }

    /// The time stamp that the header shows when the clock reads `clock`:
    /// that reading where the request asks for the time, none otherwise.
    pub open spec fn stamp(self, clock: Seq<char>) -> Option<Seq<char>> {
        if self.timestamp {
            Some(clock)
        } else {
            None
        }
    }
}

impl Embed {
    /// The request that the flags and values of a command line make. Asking
    /// for both modes is turned down; asking for neither means text.
    pub fn new(
        binary: bool,
        text: bool,
        input: PathBuf,
        output: PathBuf,
        name: Option<String>,
        timestamp: bool,
    ) -> (r: Result<Embed, EmbedError>)
        ensures
            r is Err <==> binary && text,
            r matches Err(e) ==> e == EmbedError::ConflictingModes,
            r matches Ok(cmd) ==> cmd@ == (EmbedView {
                mode: selected_mode(binary),
                input,
                output,
                name: name_chars(name),
                timestamp,
            }),
    {
        if binary && text {
            return Err(EmbedError::ConflictingModes);
        }
        let mode = if binary {
            Mode::Binary
        } else {
            Mode::Text
        };
        Ok(Embed { mode, input, output, name, timestamp })
    }

    /// The mode of the request.
    pub fn mode(&self) -> (m: Mode)
        ensures
            m == self@.mode,
    {
        self.mode
    }

    /// Where the input is read from.
    pub fn input(&self) -> (p: &PathBuf)
        ensures
            *p == self@.input,
    {
        &self.input
    }

    /// Where the generated text is written to.
    pub fn output(&self) -> (p: &PathBuf)
        ensures
            *p == self@.output,
    {
        &self.output
    }

    /// The name that was given, if one was.
    pub fn name(&self) -> (name: Option<&str>)
        ensures
            option_chars(name) == self@.name,
    {
        match &self.name {
            Some(n) => Some(n.as_str()),
            None => None,
        }
    }

    /// The name that the generated text declares: the one given, or
    /// `resource` where none is.
    pub fn identifier(&self) -> (name: &str)
        ensures
            name@ == self@.identifier(),
    {
        match &self.name {
            Some(n) => n.as_str(),
            None => "resource",
        }
    }

    /// Whether the header shows the time of the run.
    pub fn timestamp(&self) -> (t: bool)
        ensures
            t == self@.timestamp,
    {
        self.timestamp
    }
}

/// `clock` can be what the clock reads in a run of `cmd`: a time stamp where
/// the request asks for the time; anything where it does not, as the clock is
/// then not read.
pub open spec fn possible_reading(cmd: EmbedView, clock: Seq<char>) -> bool {
    cmd.timestamp ==> is_timestamp(clock)
}

/// What embedding `payload` as text gives: the generated text for the
/// characters that the payload encodes, or a read failure where the payload
/// is not UTF-8.
pub open spec fn text_outcome(
    name: Seq<char>,
    stamp: Option<Seq<char>>,
    payload: Seq<u8>,
) -> Result<Seq<char>, EmbedError> {
    if valid_utf8(payload) {
        Ok(text_artifact(name, stamp, decode_utf8(payload)))
    } else {
        Err(EmbedError::ReadFailure)
    }
}

/// What a run as text gives when the clock reads `clock`.
pub open spec fn run_text_outcome(
    cmd: EmbedView,
    payload: Seq<u8>,
    clock: Seq<char>,
) -> Result<Seq<char>, EmbedError> {
    text_outcome(cmd.identifier(), cmd.stamp(clock), payload)
}

/// What a run as binary data gives when the clock reads `clock`.
pub open spec fn run_bin_artifact(cmd: EmbedView, payload: Seq<u8>, clock: Seq<char>) -> Seq<
    char,
> {
    bytes_artifact(cmd.identifier(), cmd.stamp(clock), payload)
}

/// What a run gives when the clock reads `clock`: by the mode of the request.
pub open spec fn run_outcome(cmd: EmbedView, payload: Seq<u8>, clock: Seq<char>) -> Result<
    Seq<char>,
    EmbedError,
> {
    match cmd.mode {
        Mode::Text => run_text_outcome(cmd, payload, clock),
        Mode::Binary => Ok(run_bin_artifact(cmd, payload, clock)),
    }
}

/// The result of a run as contracts see it: the characters of the generated
/// text, or the error.
pub open spec fn outcome_chars(r: Result<String, EmbedError>) -> Result<Seq<char>, EmbedError> {
    match r {
        Ok(s) => Ok(s@),
        Err(e) => Err(e),
    }
}

/// Serves the request on `payload`, the content of its input, as text,
/// whatever the mode of the request says: gives the generated text, or a read
/// failure where the payload is not UTF-8. The clock is read only where the
/// request asks for the time and the payload is UTF-8; without a time stamp
/// the result is the same whenever the run is made.
pub fn run_embed_text(cmd: &Embed, payload: &[u8]) -> (r: Result<String, EmbedError>)
    ensures
        r is Err <==> !valid_utf8(payload@),
        exists|clock: Seq<char>|
            possible_reading(cmd@, clock) && outcome_chars(r) == #[trigger] run_text_outcome(
                cmd@,
                payload@,
                clock,
            ),
        !cmd@.timestamp ==> outcome_chars(r) == text_outcome(cmd@.identifier(), None, payload@),
{
    let text = match core::str::from_utf8(payload) {
        Ok(text) => {
            proof {
                encode_utf8_decode_utf8(text@);
            }
            text
        },
        Err(_) => {
            proof {
                let unread = lemma_timestamp_exists();
                assert(outcome_chars(Err(EmbedError::ReadFailure)) == run_text_outcome(
                    cmd@,
                    payload@,
                    unread,
                ));
            }
            return Err(EmbedError::ReadFailure);
        },
    };
    if cmd.timestamp() {
        let clock = local_time("%Y-%m-%d %H:%M:%S");
        let artifact = embed_text(cmd.identifier(), Some(clock.as_str()), text);
        assert(outcome_chars(Ok(artifact)) == run_text_outcome(cmd@, payload@, clock@));
        Ok(artifact)
    } else {
        let artifact = embed_text(cmd.identifier(), None, text);
        assert(outcome_chars(Ok(artifact)) == run_text_outcome(cmd@, payload@, Seq::empty()));
        Ok(artifact)
    }
}

/// Serves the request on `payload`, the content of its input, as binary data,
/// whatever the mode of the request says: gives the generated text. The
/// clock is read only where the request asks for the time; without a time
/// stamp the result is the same whenever the run is made.
pub fn run_embed_bin(cmd: &Embed, payload: &[u8]) -> (artifact: String)
    ensures
        exists|clock: Seq<char>|
            possible_reading(cmd@, clock) && artifact@ == #[trigger] run_bin_artifact(
                cmd@,
                payload@,
                clock,
            ),
        !cmd@.timestamp ==> artifact@ == bytes_artifact(cmd@.identifier(), None, payload@),
{
    if cmd.timestamp() {
        let clock = local_time("%Y-%m-%d %H:%M:%S");
        let artifact = embed_bytes(cmd.identifier(), Some(clock.as_str()), payload);
        assert(artifact@ == run_bin_artifact(cmd@, payload@, clock@));
        artifact
    } else {
        let artifact = embed_bytes(cmd.identifier(), None, payload);
        assert(artifact@ == run_bin_artifact(cmd@, payload@, Seq::empty()));
        artifact
    }
}

/// Serves the request on `payload`, the content of its input, by its mode:
/// gives the generated text, or a read failure where the mode is text and the
/// payload is not UTF-8. Without a time stamp the result is the same whenever
/// the run is made.
pub fn run_embed(cmd: &Embed, payload: &[u8]) -> (r: Result<String, EmbedError>)
    ensures
        r is Err <==> cmd@.mode == Mode::Text && !valid_utf8(payload@),
        exists|clock: Seq<char>|
            possible_reading(cmd@, clock) && outcome_chars(r) == #[trigger] run_outcome(
                cmd@,
                payload@,
                clock,
            ),
        !cmd@.timestamp ==> outcome_chars(r) == run_outcome(cmd@, payload@, Seq::empty()),
{
    match cmd.mode() {
        Mode::Binary => {
            let artifact = run_embed_bin(cmd, payload);
            let ghost clock = choose|clock: Seq<char>|
                possible_reading(cmd@, clock) && artifact@ == #[trigger] run_bin_artifact(
                    cmd@,
                    payload@,
                    clock,
                );
            assert(outcome_chars(Ok(artifact)) == run_outcome(cmd@, payload@, clock));
            Ok(artifact)
        },
        Mode::Text => {
            let r = run_embed_text(cmd, payload);
            let ghost clock = choose|clock: Seq<char>|
                possible_reading(cmd@, clock) && outcome_chars(r) == #[trigger] run_text_outcome(
                    cmd@,
                    payload@,
                    clock,
                );
            assert(outcome_chars(r) == run_outcome(cmd@, payload@, clock));
            r
        },
    }
}

/// The bytes that the literal in a generated text stands for: in text mode
/// the UTF-8 encoding of the text that the string literal stands for, in
/// binary mode the bytes that the byte-array literal stands for. `None` where
/// what follows the header is no literal of that mode.
pub open spec fn embedded_bytes(cmd: EmbedView, clock: Seq<char>, artifact: Seq<char>) -> Option<
    Seq<u8>,
> {
    match cmd.mode {
        Mode::Text => {
            let header = text_header(cmd.identifier(), cmd.stamp(clock));
            match decode_text_literal(literal_part(artifact, header.len())) {
                Some(text) => Some(encode_utf8(text)),
                None => None,
            }
        },
        Mode::Binary => {
            let header = bytes_header(cmd.identifier(), cmd.stamp(clock));
            decode_bytes_literal(literal_part(artifact, header.len()))
        },
    }
}

/// Round trip of a run: where a run gives a generated text, the literal in
/// it stands for the payload, byte for byte.
pub proof fn lemma_run_round_trip(cmd: EmbedView, payload: Seq<u8>, clock: Seq<char>)
    ensures
        run_outcome(cmd, payload, clock) matches Ok(artifact) ==> embedded_bytes(
            cmd,
            clock,
            artifact,
        ) == Some(payload),
{
    match cmd.mode {
        Mode::Text => {
            if valid_utf8(payload) {
                lemma_text_artifact_round_trip(
                    cmd.identifier(),
                    cmd.stamp(clock),
                    decode_utf8(payload),
                );
                decode_utf8_encode_utf8(payload);
            }
        },
        Mode::Binary => {
            lemma_bytes_artifact_round_trip(cmd.identifier(), cmd.stamp(clock), payload);
        },
    }
}

/// Determinism: two runs without a time stamp, in the same mode, under the
/// same name and on the same payload give the same, whatever the clock reads
/// and wherever input and output are.
pub proof fn lemma_run_is_deterministic(
    a: EmbedView,
    b: EmbedView,
    payload: Seq<u8>,
    clock_a: Seq<char>,
    clock_b: Seq<char>,
)
    requires
        !a.timestamp,
        !b.timestamp,
        a.mode == b.mode,
        a.name == b.name,
    ensures
        run_outcome(a, payload, clock_a) == run_outcome(b, payload, clock_b),
{
}

} // verus!
