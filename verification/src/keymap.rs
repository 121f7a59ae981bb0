//! US-QWERTY shift pairs, used to spot a keystroke that was probably
//! produced twice: once with Shift still held and once after it was
//! released.
use vstd::prelude::*;

verus! {

/// The unshifted twin of a shifted US-QWERTY character: punctuation and
/// digit-row symbols map to the key's unshifted character, capital letters
/// to their lower-case form; every other character has no twin.
pub open spec fn twin_of(shifted: char) -> Option<char> {
    match shifted {
        '~' => Some('`'),
        '!' => Some('1'),
        '@' => Some('2'),
        '#' => Some('3'),
        '$' => Some('4'),
        '%' => Some('5'),
        '^' => Some('6'),
        '&' => Some('7'),
        '*' => Some('8'),
        '(' => Some('9'),
        ')' => Some('0'),
        '_' => Some('-'),
        '+' => Some('='),
        '{' => Some('['),
        '}' => Some(']'),
        '|' => Some('\\'),
        ':' => Some(';'),
        '"' => Some('\''),
        '<' => Some(','),
        '>' => Some('.'),
        '?' => Some('/'),
        _ => if 'A' <= shifted && shifted <= 'Z' {
            Some(((shifted as u32) + 32) as char)
        } else {
            None
        },
    }
}

/// US-QWERTY unshifted twin of a shifted character, e.g. `}` -> `]`.
/// Covers punctuation, the digit row and letters.
pub fn unshifted_twin(shifted: char) -> (r: Option<char>)
    ensures
        r == twin_of(shifted),
{
    match shifted {
        '~' => Some('`'),
        '!' => Some('1'),
        '@' => Some('2'),
        '#' => Some('3'),
        '$' => Some('4'),
        '%' => Some('5'),
        '^' => Some('6'),
        '&' => Some('7'),
        '*' => Some('8'),
        '(' => Some('9'),
        ')' => Some('0'),
        '_' => Some('-'),
        '+' => Some('='),
        '{' => Some('['),
        '}' => Some(']'),
        '|' => Some('\\'),
        ':' => Some(';'),
        '"' => Some('\''),
        '<' => Some(','),
        '>' => Some('.'),
        '?' => Some('/'),
        _ => {
            if 'A' <= shifted && shifted <= 'Z' {
                let code: u8 = shifted as u8;
                Some((code + 32) as char)
            } else {
                None
            }
        },
    }
}

/// A twin is always a different character, and it is itself an unshifted
/// character: it has no twin of its own.
pub proof fn lemma_twin_is_unshifted(c: char)
    ensures
        twin_of(c) matches Some(u) ==> u != c && twin_of(u) is None,
{
    if 'A' <= c && c <= 'Z' {
        let u = ((c as u32) + 32) as char;
        assert('a' <= u && u <= 'z');
    }
}

/// The shifted and unshifted characters of the US-QWERTY keys other than
/// letters, key by key: the digit row, then the punctuation keys.
pub open spec fn us_shifted_keys() -> Seq<char> {
    seq!['~', '!', '@', '#', '$', '%', '^', '&', '*', '(', ')', '_', '+', '{', '}', '|', ':', '"', '<', '>', '?']
}

pub open spec fn us_unshifted_keys() -> Seq<char> {
    seq!['`', '1', '2', '3', '4', '5', '6', '7', '8', '9', '0', '-', '=', '[', ']', '\\', ';', '\'', ',', '.', '/']
}

/// Every shifted symbol has its key's unshifted character as twin; every
/// capital letter (0x41 to 0x5a) has the small letter 0x20 above it; no
/// other character has a twin.
pub proof fn lemma_us_qwerty_pairs(c: char)
    ensures
        forall|i: int| 0 <= i < 21 ==> twin_of(#[trigger] us_shifted_keys()[i]) == Some(us_unshifted_keys()[i]),
        0x41 <= (c as u32) <= 0x5a ==> (twin_of(c) matches Some(u) && (u as u32) == (c as u32) + 0x20),
        !us_shifted_keys().contains(c) && !(0x41 <= (c as u32) <= 0x5a) ==> twin_of(c) is None,
{
    assert(us_shifted_keys().len() == 21);
    if twin_of(c) is Some && !(0x41 <= (c as u32) <= 0x5a) {
        assert(exists|k: int| 0 <= k < 21 && us_shifted_keys()[k] == c) by {
            if c == '~' { assert(us_shifted_keys()[0] == c); }
            else if c == '!' { assert(us_shifted_keys()[1] == c); }
            else if c == '@' { assert(us_shifted_keys()[2] == c); }
            else if c == '#' { assert(us_shifted_keys()[3] == c); }
            else if c == '$' { assert(us_shifted_keys()[4] == c); }
            else if c == '%' { assert(us_shifted_keys()[5] == c); }
            else if c == '^' { assert(us_shifted_keys()[6] == c); }
            else if c == '&' { assert(us_shifted_keys()[7] == c); }
            else if c == '*' { assert(us_shifted_keys()[8] == c); }
            else if c == '(' { assert(us_shifted_keys()[9] == c); }
            else if c == ')' { assert(us_shifted_keys()[10] == c); }
            else if c == '_' { assert(us_shifted_keys()[11] == c); }
            else if c == '+' { assert(us_shifted_keys()[12] == c); }
            else if c == '{' { assert(us_shifted_keys()[13] == c); }
            else if c == '}' { assert(us_shifted_keys()[14] == c); }
            else if c == '|' { assert(us_shifted_keys()[15] == c); }
            else if c == ':' { assert(us_shifted_keys()[16] == c); }
            else if c == '"' { assert(us_shifted_keys()[17] == c); }
            else if c == '<' { assert(us_shifted_keys()[18] == c); }
            else if c == '>' { assert(us_shifted_keys()[19] == c); }
            else { assert(us_shifted_keys()[20] == c); }
        }
    }
}

} // verus!
