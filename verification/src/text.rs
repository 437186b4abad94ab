//! Building the texts that the server sends: numbers in decimal, pieces
//! joined, strings quoted as JSON.

use vstd::prelude::*;

verus! {

#[verifier::external_type_specification]
#[verifier::external_body]
pub struct ExJsonError(serde_json::Error);

/// The decimal digits of `n`, most significant first, without leading zeros.
pub open spec fn decimal(n: nat) -> Seq<char>
    decreases n,
{
    if n < 10 {
        seq![digit_char(n)]
    } else {
        decimal(n / 10) + seq![digit_char(n % 10)]
    }
}

/// The character of the decimal digit `d`.
pub open spec fn digit_char(d: nat) -> char {
    (48 + d) as char
}

/// `s` in lower case, as `str::to_lowercase` maps it by the Unicode tables
/// (a capital sigma by its context, every other character on its own).
pub uninterp spec fn lowercase(s: Seq<char>) -> Seq<char>;

/// The lower-case hexadecimal digit of `d`, below 16.
pub open spec fn hex_digit(d: nat) -> char {
    if d < 10 {
        (48 + d) as char
    } else {
        (87 + d) as char
    }
}

/// How `serde_json` writes the character `c` inside a string literal: a
/// quote, a backslash and the control characters escaped, all else as it is.
pub open spec fn json_escaped_char(c: char) -> Seq<char> {
    let n = c as nat;
    if c == '"' {
        seq!['\\', '"']
    } else if c == '\\' {
        seq!['\\', '\\']
    } else if n == 8 {
        seq!['\\', 'b']
    } else if n == 9 {
        seq!['\\', 't']
    } else if n == 10 {
        seq!['\\', 'n']
    } else if n == 12 {
        seq!['\\', 'f']
    } else if n == 13 {
        seq!['\\', 'r']
    } else if n < 32 {
        seq!['\\', 'u', '0', '0', hex_digit(n / 16), hex_digit(n % 16)]
    } else {
        seq![c]
    }
}

/// The characters of `s`, each written as `json_escaped_char` says.
pub open spec fn json_escaped(s: Seq<char>) -> Seq<char>
    decreases s.len(),
{
    if s.len() == 0 {
        Seq::empty()
    } else {
        json_escaped(s.drop_last()) + json_escaped_char(s.last())
    }
}

/// The JSON string literal that `serde_json` writes for `s`: quotes around
/// it, with the characters that JSON escapes escaped.
pub open spec fn json_quoted(s: Seq<char>) -> Seq<char> {
    seq!['"'] + json_escaped(s) + seq!['"']
}

/// The decimal digit `d` as a string.
fn digit_string(d: usize) -> (r: String)
    requires
        d < 10,
    ensures
        r@ == seq![digit_char(d as nat)],
{
    match d {
        0 => {
            proof {
                reveal_strlit("0");
            }
            "0".to_owned()
        },
        1 => {
            proof {
                reveal_strlit("1");
            }
            "1".to_owned()
        },
        2 => {
            proof {
                reveal_strlit("2");
            }
            "2".to_owned()
        },
        3 => {
            proof {
                reveal_strlit("3");
            }
            "3".to_owned()
        },
        4 => {
            proof {
                reveal_strlit("4");
            }
            "4".to_owned()
        },
        5 => {
            proof {
                reveal_strlit("5");
            }
            "5".to_owned()
        },
        6 => {
            proof {
                reveal_strlit("6");
            }
            "6".to_owned()
        },
        7 => {
            proof {
                reveal_strlit("7");
            }
            "7".to_owned()
        },
        8 => {
            proof {
                reveal_strlit("8");
            }
            "8".to_owned()
        },
        _ => {
            proof {
                reveal_strlit("9");
            }
            "9".to_owned()
        },
    }
}

/// `n` written in decimal, as `usize::to_string` writes it.
pub fn decimal_string(n: usize) -> (r: String)
    ensures
        r@ == decimal(n as nat),
    decreases n,
{
    let last = digit_string(n % 10);
    if n < 10 {
        last
    } else {
        decimal_string(n / 10).concat(last.as_str())
    }
}

/// `serde_json::to_string` on a string slice: its JSON string literal, as
/// `format_escaped_str` writes it with the crate's table of escapes.  The
/// crate writes into a `Vec<u8>`, which never fails to take bytes, so the
/// result is always `Ok`.
#[verifier::external_body]
pub(crate) fn json_string_literal(s: &str) -> (r: Result<String, serde_json::Error>)
    ensures
        r is Ok,
        r matches Ok(q) ==> q@ == json_quoted(s@),
{
    serde_json::to_string(s)
}

/// `str::to_lowercase`: `s` in lower case.
#[verifier::external_body]
pub(crate) fn to_lowercase(s: &str) -> (r: String)
    ensures
        r@ == lowercase(s@),
{
    s.to_lowercase()
}

/// `a`, `b` and `c` one after another.
pub fn join3(a: &str, b: &str, c: &str) -> (r: String)
    ensures
        r@ == a@ + b@ + c@,
{
    let s = a.to_owned();
    let s = s.concat(b);
    s.concat(c)
}

/// `a`, `b`, `c`, `d` and `e` one after another.
pub fn join5(a: &str, b: &str, c: &str, d: &str, e: &str) -> (r: String)
    ensures
        r@ == a@ + b@ + c@ + d@ + e@,
{
    let s = join3(a, b, c);
    let s = s.concat(d);
    s.concat(e)
}

} // verus!
