use vstd::prelude::*;
use crate::text::{is_scalar, push_char, scalar_from, chars_of};

verus! {

/// Why an escape sequence inside a quoted name could not be decoded.
/// `at` is the index, in characters, of the backslash that starts it.
#[derive(Clone, Copy, Debug, PartialEq, Eq, Structural)]
pub enum EscapeError {
    /// The input ends inside the escape: after the backslash, or before
    /// the four digits of `\u` are complete.
    Truncated { at: usize },
    /// One of the four characters after `\u` is not a hexadecimal digit.
    InvalidHexDigit { at: usize },
    /// The character after the backslash names no escape.
    UnknownEscape { at: usize, letter: char },
    /// The four digits name a surrogate, which is no character.
    InvalidCodePoint { at: usize, value: u32 },
}

/// The character that a one-letter escape stands for.
pub open spec fn short_escape(c: char) -> Option<char> {
    if c == '"' { Some('"') }
    else if c == '\'' { Some('\'') }
    else if c == '\\' { Some('\\') }
    else if c == '/' { Some('/') }
    else if c == 'b' { Some('\u{0008}') }
    else if c == 'f' { Some('\u{000C}') }
    else if c == 'n' { Some('\u{000A}') }
    else if c == 'r' { Some('\u{000D}') }
    else if c == 't' { Some('\u{0009}') }
    else { None }
}

/// The value of a hexadecimal digit, either case.
pub open spec fn hex_value(c: char) -> Option<u32> {
    let n = c as u32;
    if 48 <= n && n <= 57 { Some((n - 48) as u32) }
    else if 65 <= n && n <= 70 { Some((n - 55) as u32) }
    else if 97 <= n && n <= 102 { Some((n - 87) as u32) }
    else { None }
}

/// The number written by the four hexadecimal digits `s[i..i + 4]`.
pub open spec fn hex4(s: Seq<char>, i: int) -> Option<u32> {
    match (hex_value(s[i]), hex_value(s[i + 1]), hex_value(s[i + 2]), hex_value(s[i + 3])) {
        (Some(a), Some(b), Some(c), Some(d)) => Some((a * 4096 + b * 256 + c * 16 + d) as u32),
        _ => None,
    }
}

/// The code point of `c`.
pub open spec fn code_of(c: char) -> int {
    c as int
}

/// The character whose code point is `v`.
pub open spec fn char_of(v: u32) -> char {
    choose|c: char| #[trigger] code_of(c) == v as int
}

/// `r` with `c` in front, when `r` succeeded.
pub open spec fn cons_ok(c: char, r: Result<Seq<char>, EscapeError>) -> Result<Seq<char>, EscapeError> {
    match r {
        Ok(t) => Ok(seq![c] + t),
        Err(e) => Err(e),
    }
}

/// Decoding of `s[i..]`, read left to right.
pub open spec fn decode_from(s: Seq<char>, i: int) -> Result<Seq<char>, EscapeError>
    decreases s.len() - i,
{
    if i < 0 || i >= s.len() {
        Ok(Seq::empty())
    } else if s[i] != '\\' {
        cons_ok(s[i], decode_from(s, i + 1))
    } else if i + 1 >= s.len() {
        Err(EscapeError::Truncated { at: i as usize })
    } else if s[i + 1] == 'u' {
        if i + 6 > s.len() {
            Err(EscapeError::Truncated { at: i as usize })
        } else {
            match hex4(s, i + 2) {
                None => Err(EscapeError::InvalidHexDigit { at: i as usize }),
                Some(v) => if is_scalar(v) {
                    cons_ok(char_of(v), decode_from(s, i + 6))
                } else {
                    Err(EscapeError::InvalidCodePoint { at: i as usize, value: v })
                },
            }
        }
    } else {
        match short_escape(s[i + 1]) {
            Some(c) => cons_ok(c, decode_from(s, i + 2)),
            None => Err(EscapeError::UnknownEscape { at: i as usize, letter: s[i + 1] }),
        }
    }
}

/// The decoding of a whole escaped text.
pub open spec fn decode(s: Seq<char>) -> Result<Seq<char>, EscapeError> {
    decode_from(s, 0)
}

fn short_escape_of(c: char) -> (r: Option<char>)
    ensures
        r == short_escape(c),
{
    match c {
        '"' => Some('"'),
        '\'' => Some('\''),
        '\\' => Some('\\'),
        '/' => Some('/'),
        'b' => Some('\u{0008}'),
        'f' => Some('\u{000C}'),
        'n' => Some('\u{000A}'),
        'r' => Some('\u{000D}'),
        't' => Some('\u{0009}'),
        _ => None,
    }
}

fn hex_value_of(c: char) -> (r: Option<u32>)
    ensures
        r == hex_value(c),
{
    let n = c as u32;
    if 48 <= n && n <= 57 {
        Some(n - 48)
    } else if 65 <= n && n <= 70 {
        Some(n - 55)
    } else if 97 <= n && n <= 102 {
        Some(n - 87)
    } else {
        None
    }
}

fn hex4_of(s: &Vec<char>, i: usize) -> (r: Option<u32>)
    requires
        i + 4 <= s@.len() < usize::MAX,
    ensures
        r == hex4(s@, i as int),
{
    match (hex_value_of(s[i]), hex_value_of(s[i + 1]), hex_value_of(s[i + 2]), hex_value_of(s[i + 3])) {
        (Some(a), Some(b), Some(c), Some(d)) => {
            assert(a < 16 && b < 16 && c < 16 && d < 16);
            Some(a * 4096 + b * 256 + c * 16 + d)
        },
        _ => None,
    }
}

/// Decoding `s[i..]` after `acc` has been decoded from `s[..i]`.
pub open spec fn after(acc: Seq<char>, r: Result<Seq<char>, EscapeError>) -> Result<Seq<char>, EscapeError> {
    match r {
        Ok(t) => Ok(acc + t),
        Err(e) => Err(e),
    }
}

proof fn lemma_after_cons(acc: Seq<char>, c: char, r: Result<Seq<char>, EscapeError>)
    ensures
        after(acc, cons_ok(c, r)) == after(acc.push(c), r),
{
    if let Ok(t) = r {
        assert(acc + (seq![c] + t) =~= acc.push(c) + t);
    }
}

/// Decodes the JSON-style backslash escapes of the characters `s`.
pub fn unescape_chars(s: &Vec<char>) -> (r: Result<String, EscapeError>)
    requires
        s@.len() < usize::MAX,
    ensures
        r matches Ok(t) ==> decode(s@) == Ok::<Seq<char>, EscapeError>(t@),
        r matches Err(e) ==> decode(s@) == Err::<Seq<char>, EscapeError>(e),
{
    let mut out = String::new();
    let mut i: usize = 0;
    assert(after(out@, decode_from(s@, 0)) == decode_from(s@, 0)) by {
        if let Ok(t) = decode_from(s@, 0) {
            assert(out@ + t =~= t);
        }
    }
    while i < s.len()
        invariant
            i <= s@.len() < usize::MAX,
            after(out@, decode_from(s@, i as int)) == decode(s@),
        decreases s@.len() - i,
    {
        let c = s[i];
        if c != '\\' {
            proof { lemma_after_cons(out@, c, decode_from(s@, i + 1)); }
            push_char(&mut out, c);
            i = i + 1;
        } else if i + 1 >= s.len() {
            return Err(EscapeError::Truncated { at: i });
        } else if s[i + 1] == 'u' {
            if s.len() - i < 6 {
                return Err(EscapeError::Truncated { at: i });
            }
            match hex4_of(s, i + 2) {
                None => {
                    return Err(EscapeError::InvalidHexDigit { at: i });
                },
                Some(v) => match scalar_from(v) {
                    None => {
                        return Err(EscapeError::InvalidCodePoint { at: i, value: v });
                    },
                    Some(d) => {
                        assert(code_of(d) == v as int);
                        assert(code_of(char_of(v)) == v as int);
                        assert(d == char_of(v));
                        proof { lemma_after_cons(out@, d, decode_from(s@, i + 6)); }
                        push_char(&mut out, d);
                        i = i + 6;
                    },
                },
            }
        } else {
            match short_escape_of(s[i + 1]) {
                None => {
                    return Err(EscapeError::UnknownEscape { at: i, letter: s[i + 1] });
                },
                Some(d) => {
                    proof { lemma_after_cons(out@, d, decode_from(s@, i + 2)); }
                    push_char(&mut out, d);
                    i = i + 2;
                },
            }
        }
    }
    assert(after(out@, decode_from(s@, i as int)) == Ok::<Seq<char>, EscapeError>(out@)) by {
        assert(out@ + Seq::<char>::empty() =~= out@);
    }
    Ok(out)
}

/// Decodes the JSON-style backslash escapes of `contents`: the one-letter
/// escapes `\" \' \\ \/ \b \f \n \r \t` and `\uXXXX` for a code point.
pub fn unescape(contents: &str) -> (r: Result<String, EscapeError>)
    requires
        contents@.len() < usize::MAX,
    ensures
        r matches Ok(t) ==> decode(contents@) == Ok::<Seq<char>, EscapeError>(t@),
        r matches Err(e) ==> decode(contents@) == Err::<Seq<char>, EscapeError>(e),
{
    let s = chars_of(contents);
    unescape_chars(&s)
}

} // verus!
