//! Names: a letter or an underscore, then letters, digits and underscores.
use vstd::prelude::*;

verus! {

/// An ASCII letter or an underscore.
pub open spec fn is_identifier_start(c: char) -> bool {
    ('a' <= c <= 'z') || ('A' <= c <= 'Z') || c == '_'
}

/// An ASCII letter, an ASCII digit or an underscore.
pub open spec fn is_identifier_part(c: char) -> bool {
    is_identifier_start(c) || ('0' <= c <= '9')
}

/// The text is a name: it is not empty, starts with an ASCII letter or an
/// underscore, and goes on with ASCII letters, ASCII digits and underscores.
pub open spec fn valid_identifier(text: Seq<char>) -> bool {
    &&& text.len() > 0
    &&& is_identifier_start(text[0])
    &&& forall|i: int| 1 <= i < text.len() ==> is_identifier_part(#[trigger] text[i])
}

fn is_start_byte(b: u8) -> (r: bool)
    ensures
        r == is_identifier_start(b as char),
{
    (b >= 97 && b <= 122) || (b >= 65 && b <= 90) || b == 95
}

fn is_part_byte(b: u8) -> (r: bool)
    ensures
        r == is_identifier_part(b as char),
{
    is_start_byte(b) || (b >= 48 && b <= 57)
}

/// Whether `s` is a name.
pub fn is_valid_identifier(s: &str) -> (valid: bool)
    ensures
        valid == valid_identifier(s@),
{
    if !s.is_ascii() {
        proof {
            if valid_identifier(s@) {
                assert forall|i: int| 0 <= i < s@.len() implies '\0' <= #[trigger] s@[i]
                    <= '\u{7f}' by {
                    if i >= 1 {
                        assert(is_identifier_part(s@[i]));
                    } else {
                        assert(is_identifier_start(s@[0]));
                    }
                }
                assert(vstd::utf8::is_ascii_chars(s@));
            }
        }
        return false;
    }
    proof {
        vstd::string::is_ascii_spec_bytes(s);
    }
    let bytes = s.as_bytes();
    let length = bytes.len();
    if length == 0 {
        return false;
    }
    assert(bytes@[0] as char == s@[0]);
    if !is_start_byte(bytes[0]) {
        return false;
    }
    let mut i: usize = 1;
    while i < length
        invariant
            1 <= i <= length,
            length == s@.len(),
            length == bytes@.len(),
            vstd::utf8::is_ascii_chars(s@),
            forall|j: int| 0 <= j < length ==> bytes@[j] == s@[j] as u8,
            is_identifier_start(s@[0]),
            forall|j: int| 1 <= j < i ==> is_identifier_part(#[trigger] s@[j]),
        decreases length - i,
    {
        assert(bytes@[i as int] as char == s@[i as int]);
        if !is_part_byte(bytes[i]) {
            return false;
        }
        i += 1;
    }
    true
}

} // verus!
