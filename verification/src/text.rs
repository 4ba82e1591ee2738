//! Byte and character helpers shared by the manifest reader and the mod bookkeeping.
use vstd::prelude::*;
use vstd::string::*;

verus! {

broadcast use vstd::string::axiom_spec_iter;

/// The character that a byte stands for when a manifest is read one byte at a time
/// (every byte value is a valid `char`, so bytes above 0x7F read as Latin-1).
pub open spec fn byte_char(b: u8) -> char {
    b as char
}

/// A run of bytes read one by one, each taken as the character it stands for.
pub open spec fn latin1(bytes: Seq<u8>) -> Seq<char> {
    bytes.map_values(|b: u8| byte_char(b))
}

/// `char::is_whitespace` on a character of the Latin-1 range: the White_Space code points
/// there are U+0009..=U+000D, U+0020, U+0085 and U+00A0.
pub open spec fn is_ws(b: u8) -> bool {
    (9 <= b <= 13) || b == 32 || b == 0x85 || b == 0xA0
}

/// `char::is_numeric` on a character of the Latin-1 range: the decimal digits and the
/// number signs ² ³ ¹ ¼ ½ ¾ (general categories Nd and No).
pub open spec fn is_numeric(b: u8) -> bool {
    (48 <= b <= 57) || b == 0xB2 || b == 0xB3 || b == 0xB9 || b == 0xBC || b == 0xBD
        || b == 0xBE
}

pub fn byte_to_char(b: u8) -> (c: char)
    ensures
        c == byte_char(b),
{
    b as char
}

pub fn byte_is_ws(b: u8) -> (r: bool)
    ensures
        r == is_ws(b),
{
    (9 <= b && b <= 13) || b == 32 || b == 0x85 || b == 0xA0
}

pub fn byte_is_numeric(b: u8) -> (r: bool)
    ensures
        r == is_numeric(b),
{
    (48 <= b && b <= 57) || b == 0xB2 || b == 0xB3 || b == 0xB9 || b == 0xBC || b == 0xBD
        || b == 0xBE
}

/// `String::push`: appends one character to the end of the string.
#[verifier::external_body]
pub(crate) fn push_char(s: &mut String, c: char)
    ensures
        final(s)@ == old(s)@.push(c),
{
    s.push(c)
}

/// The characters that `bytes` stand for, one per byte.
pub fn latin1_string(bytes: &[u8]) -> (s: String)
    ensures
        s@ == latin1(bytes@),
{
    let mut s = String::new();
    let mut i: usize = 0;
    while i < bytes.len()
        invariant
            i <= bytes@.len(),
            s@ == latin1(bytes@.take(i as int)),
        decreases bytes@.len() - i,
    {
        push_char(&mut s, byte_to_char(bytes[i]));
        assert(bytes@.take(i + 1) == bytes@.take(i as int).push(bytes@[i as int]));
        i = i + 1;
    }
    assert(bytes@.take(i as int) == bytes@);
    s
}

/// The string `prefix`, then `c`, then `suffix`.
pub fn surround_char(prefix: &str, c: char, suffix: &str) -> (s: String)
    ensures
        s@ == prefix@.push(c) + suffix@,
{
    let mut s = String::from_str(prefix);
    push_char(&mut s, c);
    s.append(suffix);
    s
}

/// A string of the five parts `a`, `c1`, `b`, `c2`, `d`.
pub fn two_chars(a: &str, c1: char, b: &str, c2: char, d: &str) -> (s: String)
    ensures
        s@ == (a@.push(c1) + b@).push(c2) + d@,
{
    let mut s = String::from_str(a);
    push_char(&mut s, c1);
    s.append(b);
    push_char(&mut s, c2);
    s.append(d);
    s
}

/// The bytes that characters read one byte at a time stand for: each character's code, as a
/// byte (the inverse of [`latin1`]).
pub open spec fn unlatin1(text: Seq<char>) -> Seq<u8> {
    text.map_values(|c: char| (c as u32) as u8)
}

/// The bytes that the characters of `text` stand for (see [`unlatin1`]).
pub fn latin1_bytes(text: &str) -> (r: Vec<u8>)
    ensures
        r@ == unlatin1(text@),
{
    let mut r: Vec<u8> = Vec::new();
    for c in it: text.chars()
        invariant
            it.seq() == text@,
            r@ == unlatin1(it.seq().take(it.index() as int)),
    {
        let code: u32 = c as u32;
        let b: u8 = code as u8;
        r.push(b);
        proof {
            assert(unlatin1(it.seq().take(it.index() + 1)) =~= unlatin1(it.seq().take(it.index() as int)).push(b));
        }
    }
    proof {
        assert(text@.take(text@.len() as int) =~= text@);
    }
    r
}

} // verus!
