use crate::error::SignalError;
use crate::text::{chars_of, trim, trim_bounds};
use vstd::prelude::*;
use vstd::string::{StrSliceExecFns, StringExecFns, StringSliceAdditionalSpecFns};
use vstd::utf8::{decode_utf8, encode_utf8, encode_utf8_decode_utf8, valid_utf8};

verus! {

/// The name of a signal, given what the utility printed for its number: the
/// letters `SIG` and then that text.
pub open spec fn named(printed: Seq<u8>) -> Seq<char> {
    "SIG"@ + decode_utf8(printed)
}

/// What is shown of a name: the name without the whitespace around it,
/// unless that is no longer than the three bytes of `SIG`, which marks a
/// number that the host has no signal for.
pub open spec fn shown(name: Seq<char>) -> Option<Seq<char>> {
    if encode_utf8(trim(name)).len() > 3 {
        Some(trim(name))
    } else {
        None
    }
}

/// `String::from_utf8`: the bytes as a text if they are valid UTF-8, and
/// nothing if they are not. The text is the one that the bytes encode.
#[verifier::external_body]
fn text_of(bytes: Vec<u8>) -> (r: Option<String>)
    ensures
        r is Some <==> valid_utf8(bytes@),
        r matches Some(t) ==> encode_utf8(t@) == bytes@,
{
    match String::from_utf8(bytes) {
        Ok(t) => Some(t),
        Err(_) => None,
    }
}

/// The name of a signal from what the signal enumeration utility reported
/// for its number: whether it succeeded, and the bytes that it printed, which
/// are the signal's abbreviation. The lookup fails if the utility failed or
/// printed bytes that are no text.
pub fn signal_name(success: bool, printed: Vec<u8>) -> (r: Result<String, SignalError>)
    ensures
        match r {
            Ok(name) => success && valid_utf8(printed@) && name@ == named(printed@),
            Err(e) => e == SignalError::NameLookupFailed && !(success && valid_utf8(printed@)),
        },
{
    if !success {
        return Err(SignalError::NameLookupFailed);
    }
    let ghost bytes = printed@;
    match text_of(printed) {
        Some(abbreviation) => {
            proof {
                encode_utf8_decode_utf8(abbreviation@);
            }
            let mut name = String::from_str("SIG");
            name.append(abbreviation.as_str());
            Ok(name)
        },
        None => Err(SignalError::NameLookupFailed),
    }
}

/// The form in which a name is shown, or nothing for the name of a number
/// that the host has no signal for.
pub fn printable_name(name: &str) -> (r: Option<String>)
    ensures
        match r {
            Some(t) => shown(name@) == Some(t@),
            None => shown(name@) is None,
        },
{
    let chars = chars_of(name);
    let (lo, hi) = trim_bounds(chars.as_slice());
    let trimmed = name.substring_char(lo, hi);
    if trimmed.as_bytes().len() > 3 {
        Some(trimmed.to_owned())
    } else {
        None
    }
}

} // verus!
