//! What this crate takes on trust from the standard library's text types
//! beyond what vstd already states. Nothing here is proved: each item says
//! what the documentation of the standard library promises.

use vstd::prelude::*;
use vstd::string::StringSliceAdditionalSpecFns;
use vstd::utf8::valid_utf8;

verus! {

/// `String::push` appends the one character to the end of the string and
/// leaves what was there untouched. Taken on trust.
pub assume_specification[ String::push ](s: &mut String, ch: char)
    ensures
        final(s)@ == old(s)@.push(ch),
;

/// `core::str::Utf8Error`, the error of `core::str::from_utf8`, made known as
/// a type of which nothing is stated: the library never looks into it.
#[verifier::external_type_specification]
#[verifier::external_body]
pub struct ExUtf8Error(core::str::Utf8Error);

/// `core::str::from_utf8` succeeds exactly on well-formed UTF-8, and the
/// string slice it then returns is made of the very bytes it was given.
/// Taken on trust.
pub assume_specification<'a>[ core::str::from_utf8 ](v: &'a [u8]) -> (r: Result<
    &'a str,
    core::str::Utf8Error,
>)
    ensures
        r is Ok <==> valid_utf8(v@),
        r matches Ok(s) ==> s.spec_bytes() == v@,
;

} // verus!
