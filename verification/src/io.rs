//! A loaded file: its name and decoded text.

use crate::parse::{DetectedFormat, detect_format, format_of};
use crate::text::{chars_of, has_char};
use vstd::prelude::*;
use vstd::utf8::{decode_utf8, valid_utf8};

verus! {

/// A file's name and decoded text.
#[derive(Clone, Debug, PartialEq, Eq)]
pub struct LoadedFile {
    pub name: String,
    pub text: String,
}

/// The text `String::from_utf8_lossy` decodes from `bytes`, with each
/// invalid sequence replaced by U+FFFD.
pub uninterp spec fn lossy_text(bytes: Seq<u8>) -> Seq<char>;

/// Calls `String::from_utf8_lossy`. The contract names its result and states
/// what its documentation gives: valid UTF-8 decodes unchanged. How invalid
/// sequences are replaced is not stated.
#[verifier::external_body]
fn decode_lossy(bytes: &[u8]) -> (text: String)
    ensures
        text@ == lossy_text(bytes@),
        valid_utf8(bytes@) ==> text@ == decode_utf8(bytes@),
{
    String::from_utf8_lossy(bytes).into_owned()
}

impl LoadedFile {
    pub fn from_bytes(name: String, bytes: &[u8]) -> (file: LoadedFile)
        ensures
            file.name@ == name@,
            file.text@ == lossy_text(bytes@),
            valid_utf8(bytes@) ==> file.text@ == decode_utf8(bytes@),
    {
        LoadedFile { name, text: decode_lossy(bytes) }
    }
}


/// The format a loaded file is read in: the one its name and text give,
/// except that a table named without any `.` is judged by its text alone.
pub open spec fn loaded_format_spec(name: Seq<char>, text: Seq<char>) -> DetectedFormat {
    let by_name = format_of(Some(name), text);
    if by_name == DetectedFormat::Csv && !name.contains('.') {
        format_of(None, text)
    } else {
        by_name
    }
}

impl LoadedFile {
    pub fn format(&self) -> (f: DetectedFormat)
        ensures
            f == loaded_format_spec(self.name@, self.text@),
    {
        let by_name = detect_format(Some(self.name.as_str()), self.text.as_str());
        let name = chars_of(self.name.as_str());
        if by_name == DetectedFormat::Csv && !has_char(&name, '.') {
            detect_format(None, self.text.as_str())
        } else {
            by_name
        }
    }
}

} // verus!
