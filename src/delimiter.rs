//! Resolving a delimiter written as one raw byte or as a backslash escape.

use vstd::prelude::*;
use vstd::string::StringSliceAdditionalSpecFns;

verus! {

/// The byte named by the letter that follows a backslash, if it names one.
pub open spec fn escape_byte(c: u8) -> Option<u8> {
    match c {
        0x61 => Some(0x07u8),  // a: bell
        0x62 => Some(0x08u8),  // b: backspace
        0x66 => Some(0x0cu8),  // f: form feed
        0x6e => Some(0x0au8),  // n: newline
        0x72 => Some(0x0du8),  // r: carriage return
        0x74 => Some(0x09u8),  // t: horizontal tab
        0x76 => Some(0x0bu8),  // v: vertical tab
        0x5c => Some(0x5cu8),  // backslash
        0x27 => Some(0x27u8),  // single quote
        0x22 => Some(0x22u8),  // double quote
        0x3f => Some(0x3fu8),  // question mark
        0x65 => Some(0x1bu8),  // e: escape
        0x30 => Some(0x00u8),  // 0: null
        _ => None,
    }
}

/// The delimiter that the bytes `s` stand for: a single byte stands for
/// itself, a backslash and a letter of the escape table for that escape.
pub open spec fn delimiter_of(s: Seq<u8>) -> Option<u8> {
    if s.len() == 1 {
        Some(s[0])
    } else if s.len() == 2 && s[0] == 0x5c {  // a backslash
        escape_byte(s[1])
    } else {
        None
    }
}

/// The delimiter specification resolves to no single byte.
#[derive(PartialEq, Eq, Debug, Clone, Copy, Structural)]
pub struct UnescapeErr;

/// Resolves a delimiter specification to the byte it stands for.
pub fn unescape_delimiter(input: &str) -> (r: Result<u8, UnescapeErr>)
    ensures
        input.spec_bytes().len() == 1 ==> r == Ok::<u8, UnescapeErr>(input.spec_bytes()[0]),
        r == match delimiter_of(input.spec_bytes()) {
            Some(b) => Ok::<u8, UnescapeErr>(b),
            None => Err(UnescapeErr),
        },
{
    let bytes = input.as_bytes();
    if bytes.len() == 1 {
        return Ok(bytes[0]);
    }
    if bytes.len() != 2 || bytes[0] != 0x5c {  // a backslash
        return Err(UnescapeErr);
    }
    let result: u8 = match bytes[1] {
        0x61 => 7,  // a
        0x62 => 8,  // b
        0x66 => 0x0c,  // f
        0x6e => 0x0a,  // n
        0x72 => 0x0d,  // r
        0x74 => 0x09,  // t
        0x76 => 0x0b,  // v
        0x5c => 0x5c,  // backslash
        0x27 => 0x27,  // single quote
        0x22 => 0x22,  // double quote
        0x3f => 0x3f,  // question mark
        0x65 => 0x1b,  // e
        0x30 => 0,  // 0
        _ => return Err(UnescapeErr),
    };
    Ok(result)
}

} // verus!
