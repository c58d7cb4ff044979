//! The ways in which reading a decimal literal fails.
use vstd::prelude::*;
use vstd::string::StringExecFns;
use vstd::utf8::{decode_utf8, valid_utf8};

verus! {

/// Why a text could not be read as a decimal value.
#[derive(Debug)]
pub enum Error {
    /// The text holds a character that is neither a digit nor the decimal
    /// separator; this is the character.
    InvalidCharacterInput(char),
    /// The value does not fit in 64 bits at the scale asked for, or the text
    /// has more fractional digits than that scale; this is the text.
    Overflow(String),
}

/// An [`Error`] with its text as a sequence of characters.
pub enum ErrorView {
    InvalidCharacterInput(char),
    Overflow(Seq<char>),
}

impl ErrorView {
    /// The message that describes the failure.
    pub open spec fn message(self) -> Seq<char> {
        match self {
            ErrorView::InvalidCharacterInput(c) => "invalid character in input: "@.push(c),
            ErrorView::Overflow(text) => "overflow: "@ + text,
        }
    }
}

impl View for Error {
    type V = ErrorView;

    open spec fn view(&self) -> ErrorView {
        match self {
            Error::InvalidCharacterInput(c) => ErrorView::InvalidCharacterInput(*c),
            Error::Overflow(text) => ErrorView::Overflow(text@),
        }
    }
}

/// The text that `String::from_utf8_lossy` makes of `bytes`.
pub uninterp spec fn utf8_lossy(bytes: Seq<u8>) -> Seq<char>;

/// `String::from_utf8_lossy`, with the result owned.
///
/// The text is a function of the bytes. Bytes that are valid UTF-8 come
/// back as the text they encode; what becomes of other bytes is left to
/// the standard library.
#[verifier::external_body]
pub(crate) fn lossy_text(bytes: &[u8]) -> (text: String)
    ensures
        text@ == utf8_lossy(bytes@),
        valid_utf8(bytes@) ==> text@ == decode_utf8(bytes@),
{
    String::from_utf8_lossy(bytes).into_owned()
}

/// `String::push` appends one character.
pub assume_specification[ String::push ](text: &mut String, ch: char)
    ensures
        final(text)@ == old(text)@.push(ch),
;

impl Error {
    /// The message that describes the failure.
    pub fn to_string(&self) -> (message: String)
        ensures
            message@ == self@.message(),
    {
        match self {
            Error::InvalidCharacterInput(c) => {
                let mut message = "invalid character in input: ".to_owned();
                message.push(*c);
                message
            },
            Error::Overflow(text) => {
                let mut message = "overflow: ".to_owned();
                message.append(text.as_str());
                message
            },
        }
    }
}

} // verus!
