use vstd::prelude::*;
use vstd::slice::slice_to_vec;
use vstd::string::{StringExecFns, StringSliceAdditionalSpecFns};
use vstd::utf8::{decode_utf8, valid_utf8};

verus! {

/// Everything that can go wrong calling into cricket: a C++ exception propagated across the FFI
/// boundary (bad URDF/SRDF, an unsupported trace language, a malformed template, ...), or a path
/// that can't be handed across the boundary at all because it isn't valid UTF-8.
///
/// A path is held as its raw bytes, which is what a path is on the platforms cricket builds for.
#[derive(Debug)]
pub enum Error {
    Cricket(String),
    NonUtf8Path(Vec<u8>),
}

/// The text a path's bytes stand for, once they are known to be valid UTF-8.
pub open spec fn path_text(path: Seq<u8>) -> Seq<char> {
    decode_utf8(path)
}

/// What `String::from_utf8_lossy` makes of a byte sequence: every maximal run of bytes that is
/// not UTF-8 replaced by U+FFFD. This is also how a path is displayed.
pub uninterp spec fn utf8_lossy(bytes: Seq<u8>) -> Seq<char>;

/// The message an error is displayed with.
pub open spec fn error_message(e: Error) -> Seq<char> {
    match e {
        Error::Cricket(message) => message@,
        Error::NonUtf8Path(path) => "path "@ + utf8_lossy(path@) + " is not valid UTF-8"@,
    }
}

/// Calls `std::str::from_utf8`. Its documentation: the call succeeds exactly when the bytes are
/// valid UTF-8, and the `str` it returns is made of exactly those bytes.
#[verifier::external_body]
fn str_from_utf8(bytes: &[u8]) -> (r: Option<&str>)
    ensures
        r is Some <==> valid_utf8(bytes@),
        r matches Some(s) ==> s.spec_bytes() == bytes@,
{
    std::str::from_utf8(bytes).ok()
}

/// Calls `String::from_utf8_lossy`. Its result is named by `utf8_lossy`; its documentation adds
/// that valid UTF-8 comes back unchanged.
#[verifier::external_body]
fn string_from_utf8_lossy(bytes: &[u8]) -> (r: String)
    ensures
        r@ == utf8_lossy(bytes@),
        valid_utf8(bytes@) ==> r@ == decode_utf8(bytes@),
{
    String::from_utf8_lossy(bytes).into_owned()
}

/// Hands a path across the FFI boundary as text, failing with `NonUtf8Path` (which carries the
/// path) when its bytes are not valid UTF-8.
pub fn path_to_str(path: &[u8]) -> (r: std::result::Result<&str, Error>)
    ensures
        r is Ok <==> valid_utf8(path@),
        r matches Ok(s) ==> s@ == path_text(path@) && s.spec_bytes() == path@,
        r matches Err(e) ==> e matches Error::NonUtf8Path(p) && p@ == path@,
{
    match str_from_utf8(path) {
        Some(s) => {
            proof {
                vstd::utf8::encode_utf8_decode_utf8(s@);
            }
            Ok(s)
        },
        None => Err(Error::NonUtf8Path(slice_to_vec(path))),
    }
}

impl Error {
    /// The human-readable message of this error (what the error displays as).
    pub fn to_string(&self) -> (s: String)
        ensures
            s@ == error_message(*self),
    {
        match self {
            Error::Cricket(message) => message.clone(),
            Error::NonUtf8Path(path) => {
                let mut s = "path ".to_owned();
                let shown = string_from_utf8_lossy(path.as_slice());
                s.append(shown.as_str());
                s.append(" is not valid UTF-8");
                s
            },
        }
    }
}

/// Declares `cxx::Exception`, the error every fallible cricket call reports.
#[verifier::external_type_specification]
#[verifier::external_body]
pub struct ExException(cxx::Exception);

/// The message a C++ exception carries: the text `cxx::Exception::what` returns.
pub uninterp spec fn exception_message(e: cxx::Exception) -> Seq<char>;

/// Calls `cxx::Exception::what`, which returns the message stored in the exception and depends
/// on nothing else; that message is named by `exception_message`.
#[verifier::external_body]
fn exception_what(e: &cxx::Exception) -> (r: String)
    ensures
        r@ == exception_message(*e),
{
    e.what().to_owned()
}

impl From<cxx::Exception> for Error {
    /// A C++ exception becomes a `Cricket` error carrying the exception's message word for word.
    fn from(e: cxx::Exception) -> (r: Self)
        ensures
            r matches Error::Cricket(m) && m@ == exception_message(e),
    {
        Error::Cricket(exception_what(&e))
    }
}

/// The conversion gives a `Cricket` error whose message reads as the exception's message. A
/// `String` is known only by its view, so no one `String` value can be claimed equal to the
/// result; `obeys_from_spec` is therefore left false, and `from` states the message by its view.
impl vstd::std_specs::convert::FromSpecImpl<cxx::Exception> for Error {
    open spec fn obeys_from_spec() -> bool {
        false
    }

    open spec fn from_spec(e: cxx::Exception) -> Error {
        Error::Cricket(choose|m: String| m@ == exception_message(e))
    }
}

} // verus!
