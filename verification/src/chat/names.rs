//! The rule for display names.

use vstd::prelude::*;
use vstd::string::*;
use vstd::utf8::*;

verus! {

/// An ASCII letter or digit.
pub open spec fn is_name_char(c: char) -> bool {
    ||| '0' <= c <= '9'
    ||| 'A' <= c <= 'Z'
    ||| 'a' <= c <= 'z'
}

/// A name may be used in the room exactly when it is non-empty and consists
/// of ASCII letters and digits only.
pub open spec fn valid_name(name: Seq<char>) -> bool {
    &&& name.len() >= 1
    &&& forall|i: int| 0 <= i < name.len() ==> is_name_char(#[trigger] name[i])
}

/// Why a proposed name was turned down.
#[derive(Clone, Copy, Debug, PartialEq, Eq, Structural)]
pub enum Rejection {
    /// The name has no characters.
    EmptyName,
    /// The name holds a character that is not an ASCII letter or digit.
    NonAsciiOrNonAlnum,
    /// A member of the room already carries the name.
    NameTaken,
}

/// The byte of an ASCII letter or digit.
pub open spec fn is_name_byte(b: u8) -> bool {
    ||| 0x30 <= b <= 0x39
    ||| 0x41 <= b <= 0x5a
    ||| 0x61 <= b <= 0x7a
}

fn name_byte(b: u8) -> (ok: bool)
    ensures
        ok == is_name_byte(b),
{
    (0x30 <= b && b <= 0x39) || (0x41 <= b && b <= 0x5a) || (0x61 <= b && b <= 0x7a)
}

/// For an ASCII character, being a name character is a property of its byte.
proof fn lemma_name_char_byte(c: char)
    requires
        '\0' <= c <= '\u{7f}',
    ensures
        is_name_char(c) == is_name_byte(c as u8),
{
}

/// Checks the form of a proposed name: `Ok` exactly for the valid names,
/// otherwise the reason.
pub fn check_name(s: &str) -> (res: Result<(), Rejection>)
    ensures
        res is Ok <==> valid_name(s@),
        res == Err::<(), Rejection>(Rejection::EmptyName) <==> s@.len() == 0,
        res == Err::<(), Rejection>(Rejection::NonAsciiOrNonAlnum) <==> s@.len() > 0 && !valid_name(
            s@,
        ),
{
    if s.is_empty() {
        return Err(Rejection::EmptyName);
    }
    if !s.is_ascii() {
        proof {
            let i = choose|i: int| 0 <= i < s@.len() && !('\0' <= #[trigger] s@[i] <= '\u{7f}');
            assert(!is_name_char(s@[i]));
        }
        return Err(Rejection::NonAsciiOrNonAlnum);
    }
    let bytes = s.as_bytes();
    proof {
        is_ascii_chars_encode_utf8(s@);
    }
    let mut i: usize = 0;
    while i < bytes.len()
        invariant
            is_ascii_chars(s@),
            bytes@ == s.spec_bytes(),
            bytes@.len() == s@.len(),
            forall|j: int| 0 <= j < s@.len() ==> s@[j] as u8 == #[trigger] bytes@[j],
            0 <= i <= bytes.len(),
            forall|j: int| 0 <= j < i ==> is_name_char(#[trigger] s@[j]),
        decreases bytes.len() - i,
    {
        let b = bytes[i];
        proof {
            lemma_name_char_byte(s@[i as int]);
        }
        if !name_byte(b) {
            assert(!is_name_char(s@[i as int]));
            return Err(Rejection::NonAsciiOrNonAlnum);
        }
        i += 1;
    }
    Ok(())
}

/// Whether `s` may be used as a display name.
pub fn validate_username(s: &str) -> (ok: bool)
    ensures
        ok == valid_name(s@),
{
    check_name(s).is_ok()
}

} // verus!
