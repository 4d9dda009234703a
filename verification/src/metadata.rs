//! The session metadata file format: a JSON object
//! `{ name, duration, timestamp }`.
//!
//! The parser accepts the object with its three fields in any order,
//! with string escapes including surrogate pairs, and skips unknown
//! fields holding any well-formed JSON value.
//! The serializer writes the canonical form the store reads back.

use vstd::prelude::*;

use crate::errors::RecError;
use crate::text::{
    dec_digits, digit_char, digit_val, is_dec_digit, push_char, string_from_chars, u64_to_string,
};

verus! {

/// One session's stored metadata.
pub struct Metadata {
    pub name: String,
    pub duration: String,
    pub timestamp: u64,
}

/// JSON insignificant whitespace.
pub open spec fn is_json_ws(c: char) -> bool {
    c == ' ' || c == '\t' || c == '\n' || c == '\r'
}

/// First index at or after `i` holding a non-whitespace character.
pub open spec fn spec_skip_ws(s: Seq<char>, i: int) -> int
    decreases s.len() - i,
{
    if 0 <= i < s.len() && is_json_ws(s[i]) {
        spec_skip_ws(s, i + 1)
    } else {
        i
    }
}

/// A JSON hex digit.
pub open spec fn is_hex_digit(c: char) -> bool {
    is_dec_digit(c) || ('a' as u32 <= c as u32 && c as u32 <= 'f' as u32) || ('A' as u32 <= c as u32
        && c as u32 <= 'F' as u32)
}

/// The value of a hex digit.
pub open spec fn hex_val(c: char) -> nat {
    if is_dec_digit(c) {
        digit_val(c)
    } else if 'a' as u32 <= c as u32 && c as u32 <= 'f' as u32 {
        (c as u32 - 'a' as u32 + 10) as nat
    } else {
        (c as u32 - 'A' as u32 + 10) as nat
    }
}

/// Body of a JSON string after the opening quote: the decoded
/// characters and the index just past the closing quote. Control
/// characters must be escaped; a high-surrogate `\u` escape must be
/// followed by a low one and decodes to the combined scalar, and a
/// lone surrogate escape is rejected.
pub open spec fn spec_jstring_body(s: Seq<char>, i: int, acc: Seq<char>) -> Option<
    (Seq<char>, int),
>
    decreases s.len() - i,
{
    if i < 0 || i >= s.len() {
        None
    } else {
        let c = s[i];
        if c == '"' {
            Some((acc, i + 1))
        } else if c == '\\' {
            if i + 1 >= s.len() {
                None
            } else {
                let e = s[i + 1];
                if e == '"' {
                    spec_jstring_body(s, i + 2, acc.push('"'))
                } else if e == '\\' {
                    spec_jstring_body(s, i + 2, acc.push('\\'))
                } else if e == '/' {
                    spec_jstring_body(s, i + 2, acc.push('/'))
                } else if e == 'b' {
                    spec_jstring_body(s, i + 2, acc.push('\u{0008}'))
                } else if e == 'f' {
                    spec_jstring_body(s, i + 2, acc.push('\u{000C}'))
                } else if e == 'n' {
                    spec_jstring_body(s, i + 2, acc.push('\n'))
                } else if e == 'r' {
                    spec_jstring_body(s, i + 2, acc.push('\r'))
                } else if e == 't' {
                    spec_jstring_body(s, i + 2, acc.push('\t'))
                } else if e == 'u' {
                    if i + 5 >= s.len() {
                        None
                    } else if is_hex_digit(s[i + 2]) && is_hex_digit(s[i + 3]) && is_hex_digit(
                        s[i + 4],
                    ) && is_hex_digit(s[i + 5]) {
                        let v = hex_val(s[i + 2]) * 4096 + hex_val(s[i + 3]) * 256 + hex_val(
                            s[i + 4],
                        ) * 16 + hex_val(s[i + 5]);
                        if 0xD800 <= v < 0xDC00 {
                            if i + 11 >= s.len() {
                                None
                            } else if s[i + 6] == '\\' && s[i + 7] == 'u' && is_hex_digit(
                                s[i + 8],
                            ) && is_hex_digit(s[i + 9]) && is_hex_digit(s[i + 10]) && is_hex_digit(
                                s[i + 11],
                            ) {
                                let w = hex_val(s[i + 8]) * 4096 + hex_val(s[i + 9]) * 256
                                    + hex_val(s[i + 10]) * 16 + hex_val(s[i + 11]);
                                if 0xDC00 <= w < 0xE000 {
                                    let cp = 0x10000 + (v - 0xD800) * 0x400 + (w - 0xDC00);
                                    spec_jstring_body(s, i + 12, acc.push(cp as char))
                                } else {
                                    None
                                }
                            } else {
                                None
                            }
                        } else if 0xDC00 <= v < 0xE000 {
                            None
                        } else {
                            spec_jstring_body(s, i + 6, acc.push(v as char))
                        }
                    } else {
                        None
                    }
                } else {
                    None
                }
            }
        } else if (c as u32) < 32 {
            None
        } else {
            spec_jstring_body(s, i + 1, acc.push(c))
        }
    }
}

/// A JSON string starting at `i`.
pub open spec fn spec_jstring(s: Seq<char>, i: int) -> Option<(Seq<char>, int)> {
    if 0 <= i < s.len() && s[i] == '"' {
        spec_jstring_body(s, i + 1, Seq::empty())
    } else {
        None
    }
}

/// First index at or after `i` holding a non-digit.
pub open spec fn spec_digits_end(s: Seq<char>, i: int) -> int
    decreases s.len() - i,
{
    if 0 <= i < s.len() && is_dec_digit(s[i]) {
        spec_digits_end(s, i + 1)
    } else {
        i
    }
}

/// A JSON unsigned integer starting at `i` that fits in 64 bits: a
/// single zero, or digits without a leading zero.
pub open spec fn spec_jnumber(s: Seq<char>, i: int) -> Option<(u64, int)> {
    if 0 <= i < s.len() && is_dec_digit(s[i]) {
        if s[i] == '0' {
            Some((0u64, i + 1))
        } else {
            let j = spec_digits_end(s, i);
            let v = crate::text::dec_value(s.subrange(i, j));
            if v <= u64::MAX {
                Some((v as u64, j))
            } else {
                None
            }
        }
    } else {
        None
    }
}

/// The literal `true` at `i`.
pub open spec fn true_at(s: Seq<char>, i: int) -> bool {
    0 <= i && i + 4 <= s.len() && s[i] == 't' && s[i + 1] == 'r' && s[i + 2] == 'u' && s[i + 3]
        == 'e'
}

/// The literal `false` at `i`.
pub open spec fn false_at(s: Seq<char>, i: int) -> bool {
    0 <= i && i + 5 <= s.len() && s[i] == 'f' && s[i + 1] == 'a' && s[i + 2] == 'l' && s[i + 3]
        == 's' && s[i + 4] == 'e'
}

/// The literal `null` at `i`.
pub open spec fn null_at(s: Seq<char>, i: int) -> bool {
    0 <= i && i + 4 <= s.len() && s[i] == 'n' && s[i + 1] == 'u' && s[i + 2] == 'l' && s[i + 3]
        == 'l'
}

/// An optional fraction part at `i`.
pub open spec fn spec_skip_frac(s: Seq<char>, i: int) -> Option<int> {
    if 0 <= i < s.len() && s[i] == '.' {
        if i + 1 < s.len() && is_dec_digit(s[i + 1]) {
            Some(spec_digits_end(s, i + 1))
        } else {
            None
        }
    } else {
        Some(i)
    }
}

/// An optional exponent part at `i`.
pub open spec fn spec_skip_exp(s: Seq<char>, i: int) -> Option<int> {
    if 0 <= i < s.len() && (s[i] == 'e' || s[i] == 'E') {
        let j = if i + 1 < s.len() && (s[i + 1] == '+' || s[i + 1] == '-') {
            i + 2
        } else {
            i + 1
        };
        if j < s.len() && is_dec_digit(s[j]) {
            Some(spec_digits_end(s, j))
        } else {
            None
        }
    } else {
        Some(i)
    }
}

/// A JSON number of any shape at `i`: optional sign, an integer part
/// without a leading zero, optional fraction and exponent.
pub open spec fn spec_skip_number(s: Seq<char>, i: int) -> Option<int> {
    let i1 = if 0 <= i < s.len() && s[i] == '-' {
        i + 1
    } else {
        i
    };
    if 0 <= i1 < s.len() && is_dec_digit(s[i1]) {
        let i2 = if s[i1] == '0' {
            i1 + 1
        } else {
            spec_digits_end(s, i1)
        };
        match spec_skip_frac(s, i2) {
            None => None,
            Some(i3) => spec_skip_exp(s, i3),
        }
    } else {
        None
    }
}

/// Any well-formed JSON value at `i`, yielding the index just past
/// it. Used to skip the values of unknown fields.
pub open spec fn spec_skip_value(s: Seq<char>, i: int, fuel: nat) -> Option<int>
    decreases fuel, 0int,
{
    if fuel == 0 {
        None
    } else if 0 <= i < s.len() && s[i] == '"' {
        match spec_jstring(s, i) {
            None => None,
            Some((v, j)) => Some(j),
        }
    } else if true_at(s, i) {
        Some(i + 4)
    } else if false_at(s, i) {
        Some(i + 5)
    } else if null_at(s, i) {
        Some(i + 4)
    } else if 0 <= i < s.len() && (s[i] == '-' || is_dec_digit(s[i])) {
        spec_skip_number(s, i)
    } else if 0 <= i < s.len() && s[i] == '[' {
        let j = spec_skip_ws(s, i + 1);
        if j < s.len() && s[j] == ']' {
            Some(j + 1)
        } else {
            spec_skip_elems(s, j, (fuel - 1) as nat)
        }
    } else if 0 <= i < s.len() && s[i] == '{' {
        let j = spec_skip_ws(s, i + 1);
        if j < s.len() && s[j] == '}' {
            Some(j + 1)
        } else {
            spec_skip_members(s, j, (fuel - 1) as nat)
        }
    } else {
        None
    }
}

/// The elements of an array from the value expected at `i`.
pub open spec fn spec_skip_elems(s: Seq<char>, i: int, fuel: nat) -> Option<int>
    decreases fuel, 1int,
{
    if fuel == 0 {
        None
    } else {
        match spec_skip_value(s, i, fuel) {
            None => None,
            Some(j) => {
                let j2 = spec_skip_ws(s, j);
                if j2 < s.len() && s[j2] == ',' {
                    spec_skip_elems(s, spec_skip_ws(s, j2 + 1), (fuel - 1) as nat)
                } else if j2 < s.len() && s[j2] == ']' {
                    Some(j2 + 1)
                } else {
                    None
                }
            },
        }
    }
}

/// The members of an object from the key expected at `i`.
pub open spec fn spec_skip_members(s: Seq<char>, i: int, fuel: nat) -> Option<int>
    decreases fuel, 1int,
{
    if fuel == 0 {
        None
    } else {
        match spec_jstring(s, i) {
            None => None,
            Some((k, j)) => {
                let j2 = spec_skip_ws(s, j);
                if !(j2 < s.len() && s[j2] == ':') {
                    None
                } else {
                    match spec_skip_value(s, spec_skip_ws(s, j2 + 1), fuel) {
                        None => None,
                        Some(j3) => {
                            let j4 = spec_skip_ws(s, j3);
                            if j4 < s.len() && s[j4] == ',' {
                                spec_skip_members(s, spec_skip_ws(s, j4 + 1), (fuel - 1) as nat)
                            } else if j4 < s.len() && s[j4] == '}' {
                                Some(j4 + 1)
                            } else {
                                None
                            }
                        },
                    }
                }
            },
        }
    }
}

/// The view of an optional string.
pub open spec fn opt_str_view(o: Option<String>) -> Option<Seq<char>> {
    match o {
        None => None,
        Some(x) => Some(x@),
    }
}

/// Parses the fields of the metadata object from a key expected at
/// `i`, with the known fields collected so far; each known field may
/// appear once and all three must be present, while an unknown field
/// with any well-formed value is skipped.
pub open spec fn spec_fields(
    s: Seq<char>,
    i: int,
    nm: Option<Seq<char>>,
    du: Option<Seq<char>>,
    ts: Option<u64>,
    fuel: nat,
) -> Option<(Seq<char>, Seq<char>, u64)>
    decreases fuel, 1int,
{
    if fuel == 0 {
        None
    } else {
        match spec_jstring(s, i) {
            None => None,
            Some((k, i2)) => {
                let i3 = spec_skip_ws(s, i2);
                if !(i3 < s.len() && s[i3] == ':') {
                    None
                } else {
                    let i4 = spec_skip_ws(s, i3 + 1);
                    if k == "name"@ {
                        if nm is Some {
                            None
                        } else {
                            match spec_jstring(s, i4) {
                                None => None,
                                Some((v, i5)) => spec_after_value(s, i5, Some(v), du, ts, fuel),
                            }
                        }
                    } else if k == "duration"@ {
                        if du is Some {
                            None
                        } else {
                            match spec_jstring(s, i4) {
                                None => None,
                                Some((v, i5)) => spec_after_value(s, i5, nm, Some(v), ts, fuel),
                            }
                        }
                    } else if k == "timestamp"@ {
                        if ts is Some {
                            None
                        } else {
                            match spec_jnumber(s, i4) {
                                None => None,
                                Some((v, i5)) => spec_after_value(s, i5, nm, du, Some(v), fuel),
                            }
                        }
                    } else {
                        match spec_skip_value(s, i4, fuel) {
                            None => None,
                            Some(i5) => spec_after_value(s, i5, nm, du, ts, fuel),
                        }
                    }
                }
            },
        }
    }
}

/// After a field's value: a comma brings the next field, a closing
/// brace ends the object, which must then be followed only by
/// whitespace and must have collected all three fields.
pub open spec fn spec_after_value(
    s: Seq<char>,
    i: int,
    nm: Option<Seq<char>>,
    du: Option<Seq<char>>,
    ts: Option<u64>,
    fuel: nat,
) -> Option<(Seq<char>, Seq<char>, u64)>
    decreases fuel, 0int,
{
    if fuel == 0 {
        None
    } else {
        let i6 = spec_skip_ws(s, i);
        if i6 < s.len() && s[i6] == ',' {
            spec_fields(s, spec_skip_ws(s, i6 + 1), nm, du, ts, (fuel - 1) as nat)
        } else if i6 < s.len() && s[i6] == '}' {
            if spec_skip_ws(s, i6 + 1) == s.len() {
                match (nm, du, ts) {
                    (Some(n), Some(d), Some(t)) => Some((n, d, t)),
                    _ => None,
                }
            } else {
                None
            }
        } else {
            None
        }
    }
}

/// What the whole metadata text parses to, if it is well formed.
pub open spec fn spec_parse_metadata(s: Seq<char>) -> Option<(Seq<char>, Seq<char>, u64)> {
    let i0 = spec_skip_ws(s, 0);
    if i0 < s.len() && s[i0] == '{' {
        let i1 = spec_skip_ws(s, i0 + 1);
        spec_fields(s, i1, None, None, None, s.len())
    } else {
        None
    }
}

fn skip_ws_exec(s: &str, i: usize, n: usize) -> (r: usize)
    requires
        n == s@.len(),
        i <= n,
    ensures
        r == spec_skip_ws(s@, i as int),
        i <= r <= n,
    decreases n - i,
{
    if i >= n {
        return i;
    }
    let c = s.get_char(i);
    if c == ' ' || c == '\t' || c == '\n' || c == '\r' {
        skip_ws_exec(s, i + 1, n)
    } else {
        i
    }
}

fn hex_digit_val(c: char) -> (r: Option<u32>)
    ensures
        r == (if is_hex_digit(c) {
            Some(hex_val(c) as u32)
        } else {
            None::<u32>
        }),
{
    let u = c as u32;
    if 48 <= u && u <= 57 {
        Some(u - 48)
    } else if 97 <= u && u <= 102 {
        Some(u - 97 + 10)
    } else if 65 <= u && u <= 70 {
        Some(u - 65 + 10)
    } else {
        None
    }
}

/// Relies on char::from_u32: the scalar value for every code point
/// that is not a surrogate and is at most 0x10FFFF, nothing otherwise.
#[verifier::external_body]
fn char_from_u32(v: u32) -> (r: Option<char>)
    ensures
        r == (if v < 0xD800 || (0xE000 <= v && v <= 0x10FFFF) {
            Some(v as char)
        } else {
            None::<char>
        }),
{
    char::from_u32(v)
}

#[verifier::rlimit(100)]
fn jstring_body_exec(s: &str, i: usize, n: usize, acc: Vec<char>) -> (r: Option<(String, usize)>)
    requires
        n == s@.len(),
        i <= n,
    ensures
        (spec_jstring_body(s@, i as int, acc@) == (match r {
            None => None::<(Seq<char>, int)>,
            Some((t, j)) => Some((t@, j as int)),
        })),
        (match r {
            Some((_, j)) => i < j <= n,
            None => true,
        }),
    decreases n - i,
{
    if i >= n {
        return None;
    }
    let c = s.get_char(i);
    if c == '"' {
        let out = string_from_chars(&acc);
        Some((out, i + 1))
    } else if c == '\\' {
        if i + 1 >= n {
            return None;
        }
        let e = s.get_char(i + 1);
        if e == '"' {
            let mut a = acc;
            a.push('"');
            jstring_body_exec(s, i + 2, n, a)
        } else if e == '\\' {
            let mut a = acc;
            a.push('\\');
            jstring_body_exec(s, i + 2, n, a)
        } else if e == '/' {
            let mut a = acc;
            a.push('/');
            jstring_body_exec(s, i + 2, n, a)
        } else if e == 'b' {
            let mut a = acc;
            a.push('\u{0008}');
            jstring_body_exec(s, i + 2, n, a)
        } else if e == 'f' {
            let mut a = acc;
            a.push('\u{000C}');
            jstring_body_exec(s, i + 2, n, a)
        } else if e == 'n' {
            let mut a = acc;
            a.push('\n');
            jstring_body_exec(s, i + 2, n, a)
        } else if e == 'r' {
            let mut a = acc;
            a.push('\r');
            jstring_body_exec(s, i + 2, n, a)
        } else if e == 't' {
            let mut a = acc;
            a.push('\t');
            jstring_body_exec(s, i + 2, n, a)
        } else if e == 'u' {
            if n - i < 6 {
                return None;
            }
            let h1 = hex_digit_val(s.get_char(i + 2));
            let h2 = hex_digit_val(s.get_char(i + 3));
            let h3 = hex_digit_val(s.get_char(i + 4));
            let h4 = hex_digit_val(s.get_char(i + 5));
            match (h1, h2, h3, h4) {
                (Some(a1), Some(a2), Some(a3), Some(a4)) => {
                    let v: u32 = a1 * 4096 + a2 * 256 + a3 * 16 + a4;
                    if 0xD800 <= v && v < 0xDC00 {
                        if n - i < 12 {
                            return None;
                        }
                        if !(s.get_char(i + 6) == '\\' && s.get_char(i + 7) == 'u') {
                            return None;
                        }
                        let g1 = hex_digit_val(s.get_char(i + 8));
                        let g2 = hex_digit_val(s.get_char(i + 9));
                        let g3 = hex_digit_val(s.get_char(i + 10));
                        let g4 = hex_digit_val(s.get_char(i + 11));
                        match (g1, g2, g3, g4) {
                            (Some(b1), Some(b2), Some(b3), Some(b4)) => {
                                let w: u32 = b1 * 4096 + b2 * 256 + b3 * 16 + b4;
                                if 0xDC00 <= w && w < 0xE000 {
                                    let cp: u32 = 0x10000 + (v - 0xD800) * 1024 + (w - 0xDC00);
                                    match char_from_u32(cp) {
                                        Some(ch) => {
                                            let mut a = acc;
                                            a.push(ch);
                                            jstring_body_exec(s, i + 12, n, a)
                                        },
                                        None => None,
                                    }
                                } else {
                                    None
                                }
                            },
                            _ => None,
                        }
                    } else if 0xDC00 <= v && v < 0xE000 {
                        None
                    } else {
                        match char_from_u32(v) {
                            Some(ch) => {
                                let mut a = acc;
                                a.push(ch);
                                jstring_body_exec(s, i + 6, n, a)
                            },
                            None => None,
                        }
                    }
                },
                _ => None,
            }
        } else {
            None
        }
    } else if (c as u32) < 32 {
        None
    } else {
        let mut a = acc;
        a.push(c);
        jstring_body_exec(s, i + 1, n, a)
    }
}

fn jstring_exec(s: &str, i: usize, n: usize) -> (r: Option<(String, usize)>)
    requires
        n == s@.len(),
        i <= n,
    ensures
        (spec_jstring(s@, i as int) == (match r {
            None => None::<(Seq<char>, int)>,
            Some((t, j)) => Some((t@, j as int)),
        })),
        (match r {
            Some((_, j)) => i < j <= n,
            None => true,
        }),
{
    if i < n && s.get_char(i) == '"' {
        let acc: Vec<char> = Vec::new();
        jstring_body_exec(s, i + 1, n, acc)
    } else {
        None
    }
}

fn is_digit_at(s: &str, j: usize, n: usize) -> (r: bool)
    requires
        n == s@.len(),
        j <= n,
    ensures
        r == (j < n && is_dec_digit(s@[j as int])),
{
    if j < n {
        let u = s.get_char(j) as u32;
        48 <= u && u <= 57
    } else {
        false
    }
}

fn jnumber_exec(s: &str, i: usize, n: usize) -> (r: Option<(u64, usize)>)
    requires
        n == s@.len(),
        i <= n,
    ensures
        (spec_jnumber(s@, i as int) == (match r {
            None => None::<(u64, int)>,
            Some((v, j)) => Some((v, j as int)),
        })),
        (match r {
            Some((_, j)) => i < j <= n,
            None => true,
        }),
{
    if !(i < n) {
        return None;
    }
    let c0 = s.get_char(i);
    let u0 = c0 as u32;
    if u0 < 48 || u0 > 57 {
        return None;
    }
    if c0 == '0' {
        return Some((0, i + 1));
    }
    let mut j: usize = i;
    let mut acc: u64 = 0;
    let mut over: bool = false;
    while is_digit_at(s, j, n)
        invariant
            n == s@.len(),
            i <= j <= n,
            forall|k: int| i <= k < j ==> is_dec_digit(s@[k]),
            spec_digits_end(s@, j as int) == spec_digits_end(s@, i as int),
            !over ==> acc == crate::text::dec_value(s@.subrange(i as int, j as int)),
            over ==> crate::text::dec_value(s@.subrange(i as int, j as int)) > u64::MAX,
        decreases n - j,
    {
        let c = s.get_char(j);
        let d = (c as u32 - 48) as u64;
        let ghost pre = s@.subrange(i as int, j as int);
        proof {
            assert(s@.subrange(i as int, j as int + 1) =~= pre.push(c));
            assert(pre.push(c).drop_last() =~= pre);
        }
        if !over {
            if acc > (u64::MAX - d) / 10 {
                proof {
                    assert(acc * 10 + d > u64::MAX) by (nonlinear_arith)
                        requires
                            acc > (u64::MAX - d) / 10,
                            d < 10,
                    ;
                }
                over = true;
            } else {
                proof {
                    assert(acc * 10 + d <= u64::MAX) by (nonlinear_arith)
                        requires
                            acc <= (u64::MAX - d) / 10,
                            d <= 9,
                    ;
                }
                acc = acc * 10 + d;
            }
        }
        j = j + 1;
    }
    proof {
        assert(spec_digits_end(s@, j as int) == j as int);
        assert(j > i);
    }
    if over {
        None
    } else {
        Some((acc, j))
    }
}

fn digits_end_exec(s: &str, i: usize, n: usize) -> (r: usize)
    requires
        n == s@.len(),
        i <= n,
    ensures
        r as int == spec_digits_end(s@, i as int),
        i <= r <= n,
    decreases n - i,
{
    if i >= n {
        return i;
    }
    let u = s.get_char(i) as u32;
    if 48 <= u && u <= 57 {
        digits_end_exec(s, i + 1, n)
    } else {
        i
    }
}

fn word_true_at(s: &str, i: usize, n: usize) -> (r: bool)
    requires
        n == s@.len(),
        i <= n,
    ensures
        r == true_at(s@, i as int),
{
    n - i >= 4 && s.get_char(i) == 't' && s.get_char(i + 1) == 'r' && s.get_char(i + 2) == 'u'
        && s.get_char(i + 3) == 'e'
}

fn word_false_at(s: &str, i: usize, n: usize) -> (r: bool)
    requires
        n == s@.len(),
        i <= n,
    ensures
        r == false_at(s@, i as int),
{
    n - i >= 5 && s.get_char(i) == 'f' && s.get_char(i + 1) == 'a' && s.get_char(i + 2) == 'l'
        && s.get_char(i + 3) == 's' && s.get_char(i + 4) == 'e'
}

fn word_null_at(s: &str, i: usize, n: usize) -> (r: bool)
    requires
        n == s@.len(),
        i <= n,
    ensures
        r == null_at(s@, i as int),
{
    n - i >= 4 && s.get_char(i) == 'n' && s.get_char(i + 1) == 'u' && s.get_char(i + 2) == 'l'
        && s.get_char(i + 3) == 'l'
}

fn skip_frac_exec(s: &str, i: usize, n: usize) -> (r: Option<usize>)
    requires
        n == s@.len(),
        i <= n,
    ensures
        (spec_skip_frac(s@, i as int) == (match r {
            None => None::<int>,
            Some(j) => Some(j as int),
        })),
        (match r {
            Some(j) => j <= n,
            None => true,
        }),
{
    if i < n && s.get_char(i) == '.' {
        if is_digit_at(s, i + 1, n) {
            Some(digits_end_exec(s, i + 1, n))
        } else {
            None
        }
    } else {
        Some(i)
    }
}

fn skip_exp_exec(s: &str, i: usize, n: usize) -> (r: Option<usize>)
    requires
        n == s@.len(),
        i <= n,
    ensures
        (spec_skip_exp(s@, i as int) == (match r {
            None => None::<int>,
            Some(j) => Some(j as int),
        })),
        (match r {
            Some(j) => j <= n,
            None => true,
        }),
{
    if i >= n {
        return Some(i);
    }
    let c = s.get_char(i);
    if c == 'e' || c == 'E' {
        let mut j: usize = i + 1;
        if i + 1 < n {
            let c2 = s.get_char(i + 1);
            if c2 == '+' || c2 == '-' {
                j = i + 2;
            }
        }
        if is_digit_at(s, j, n) {
            Some(digits_end_exec(s, j, n))
        } else {
            None
        }
    } else {
        Some(i)
    }
}

fn skip_number_exec(s: &str, i: usize, n: usize) -> (r: Option<usize>)
    requires
        n == s@.len(),
        i <= n,
    ensures
        (spec_skip_number(s@, i as int) == (match r {
            None => None::<int>,
            Some(j) => Some(j as int),
        })),
        (match r {
            Some(j) => j <= n,
            None => true,
        }),
{
    let i1: usize = if i < n && s.get_char(i) == '-' {
        i + 1
    } else {
        i
    };
    if !is_digit_at(s, i1, n) {
        return None;
    }
    let i2: usize = if s.get_char(i1) == '0' {
        i1 + 1
    } else {
        digits_end_exec(s, i1, n)
    };
    match skip_frac_exec(s, i2, n) {
        None => None,
        Some(i3) => skip_exp_exec(s, i3, n),
    }
}

fn skip_value_exec(s: &str, i: usize, n: usize, fuel: usize) -> (r: Option<usize>)
    requires
        n == s@.len(),
        i <= n,
    ensures
        (spec_skip_value(s@, i as int, fuel as nat) == (match r {
            None => None::<int>,
            Some(j) => Some(j as int),
        })),
        (match r {
            Some(j) => j <= n,
            None => true,
        }),
    decreases fuel, 0int,
{
    if fuel == 0 {
        return None;
    }
    if i < n && s.get_char(i) == '"' {
        return (match jstring_exec(s, i, n) {
            None => None,
            Some((_, j)) => Some(j),
        });
    }
    if word_true_at(s, i, n) {
        return Some(i + 4);
    }
    if word_false_at(s, i, n) {
        return Some(i + 5);
    }
    if word_null_at(s, i, n) {
        return Some(i + 4);
    }
    if i < n {
        let c = s.get_char(i);
        let u = c as u32;
        if c == '-' || (48 <= u && u <= 57) {
            return skip_number_exec(s, i, n);
        }
        if c == '[' {
            let j = skip_ws_exec(s, i + 1, n);
            if j < n && s.get_char(j) == ']' {
                return Some(j + 1);
            }
            return skip_elems_exec(s, j, n, fuel - 1);
        }
        if c == '{' {
            let j = skip_ws_exec(s, i + 1, n);
            if j < n && s.get_char(j) == '}' {
                return Some(j + 1);
            }
            return skip_members_exec(s, j, n, fuel - 1);
        }
    }
    None
}

fn skip_elems_exec(s: &str, i: usize, n: usize, fuel: usize) -> (r: Option<usize>)
    requires
        n == s@.len(),
        i <= n,
    ensures
        (spec_skip_elems(s@, i as int, fuel as nat) == (match r {
            None => None::<int>,
            Some(j) => Some(j as int),
        })),
        (match r {
            Some(j) => j <= n,
            None => true,
        }),
    decreases fuel, 1int,
{
    if fuel == 0 {
        return None;
    }
    match skip_value_exec(s, i, n, fuel) {
        None => None,
        Some(j) => {
            let j2 = skip_ws_exec(s, j, n);
            if j2 < n && s.get_char(j2) == ',' {
                let j3 = skip_ws_exec(s, j2 + 1, n);
                skip_elems_exec(s, j3, n, fuel - 1)
            } else if j2 < n && s.get_char(j2) == ']' {
                Some(j2 + 1)
            } else {
                None
            }
        },
    }
}

fn skip_members_exec(s: &str, i: usize, n: usize, fuel: usize) -> (r: Option<usize>)
    requires
        n == s@.len(),
        i <= n,
    ensures
        (spec_skip_members(s@, i as int, fuel as nat) == (match r {
            None => None::<int>,
            Some(j) => Some(j as int),
        })),
        (match r {
            Some(j) => j <= n,
            None => true,
        }),
    decreases fuel, 1int,
{
    if fuel == 0 {
        return None;
    }
    match jstring_exec(s, i, n) {
        None => None,
        Some((_, j)) => {
            let j2 = skip_ws_exec(s, j, n);
            if !(j2 < n && s.get_char(j2) == ':') {
                return None;
            }
            let j3 = skip_ws_exec(s, j2 + 1, n);
            match skip_value_exec(s, j3, n, fuel) {
                None => None,
                Some(j4) => {
                    let j5 = skip_ws_exec(s, j4, n);
                    if j5 < n && s.get_char(j5) == ',' {
                        let j6 = skip_ws_exec(s, j5 + 1, n);
                        skip_members_exec(s, j6, n, fuel - 1)
                    } else if j5 < n && s.get_char(j5) == '}' {
                        Some(j5 + 1)
                    } else {
                        None
                    }
                },
            }
        },
    }
}

fn fields_exec(
    s: &str,
    i: usize,
    n: usize,
    nm: Option<String>,
    du: Option<String>,
    ts: Option<u64>,
    fuel: usize,
) -> (r: Option<(String, String, u64)>)
    requires
        n == s@.len(),
        i <= n,
    ensures
        (spec_fields(s@, i as int, opt_str_view(nm), opt_str_view(du), ts, fuel as nat) == (
        match r {
            None => None::<(Seq<char>, Seq<char>, u64)>,
            Some((a, b, t)) => Some((a@, b@, t)),
        })),
    decreases fuel, 1int,
{
    if fuel == 0 {
        return None;
    }
    let key = match jstring_exec(s, i, n) {
        None => {
            return None;
        },
        Some(p) => p,
    };
    let (k, i2) = key;
    let i3 = skip_ws_exec(s, i2, n);
    if !(i3 < n && s.get_char(i3) == ':') {
        return None;
    }
    let i4 = skip_ws_exec(s, i3 + 1, n);
    let name_key: String = "name".to_owned();
    let duration_key: String = "duration".to_owned();
    let timestamp_key: String = "timestamp".to_owned();
    if k == name_key {
        if nm.is_some() {
            None
        } else {
            match jstring_exec(s, i4, n) {
                None => None,
                Some((v, i5)) => after_value_exec(s, i5, n, Some(v), du, ts, fuel),
            }
        }
    } else if k == duration_key {
        if du.is_some() {
            None
        } else {
            match jstring_exec(s, i4, n) {
                None => None,
                Some((v, i5)) => after_value_exec(s, i5, n, nm, Some(v), ts, fuel),
            }
        }
    } else if k == timestamp_key {
        if ts.is_some() {
            None
        } else {
            match jnumber_exec(s, i4, n) {
                None => None,
                Some((v, i5)) => after_value_exec(s, i5, n, nm, du, Some(v), fuel),
            }
        }
    } else {
        match skip_value_exec(s, i4, n, fuel) {
            None => None,
            Some(i5) => after_value_exec(s, i5, n, nm, du, ts, fuel),
        }
    }
}

fn after_value_exec(
    s: &str,
    i: usize,
    n: usize,
    nm: Option<String>,
    du: Option<String>,
    ts: Option<u64>,
    fuel: usize,
) -> (r: Option<(String, String, u64)>)
    requires
        n == s@.len(),
        i <= n,
    ensures
        (spec_after_value(s@, i as int, opt_str_view(nm), opt_str_view(du), ts, fuel as nat) == (
        match r {
            None => None::<(Seq<char>, Seq<char>, u64)>,
            Some((a, b, t)) => Some((a@, b@, t)),
        })),
    decreases fuel, 0int,
{
    if fuel == 0 {
        return None;
    }
    let i6 = skip_ws_exec(s, i, n);
    if i6 < n && s.get_char(i6) == ',' {
        let i7 = skip_ws_exec(s, i6 + 1, n);
        fields_exec(s, i7, n, nm, du, ts, fuel - 1)
    } else if i6 < n && s.get_char(i6) == '}' {
        if skip_ws_exec(s, i6 + 1, n) == n {
            match (nm, du, ts) {
                (Some(a), Some(b), Some(t)) => Some((a, b, t)),
                _ => None,
            }
        } else {
            None
        }
    } else {
        None
    }
}

/// Parses a metadata file's text. Returns the stored fields exactly
/// when the text is a well-formed metadata object.
pub fn parse_metadata(s: &str) -> (r: Option<Metadata>)
    ensures
        (spec_parse_metadata(s@) == (match r {
            None => None::<(Seq<char>, Seq<char>, u64)>,
            Some(m) => Some((m.name@, m.duration@, m.timestamp)),
        })),
{
    let n = s.unicode_len();
    let i0 = skip_ws_exec(s, 0, n);
    if i0 < n && s.get_char(i0) == '{' {
        let i1 = skip_ws_exec(s, i0 + 1, n);
        match fields_exec(s, i1, n, None, None, None, n) {
            None => None,
            Some((a, b, t)) => Some(Metadata { name: a, duration: b, timestamp: t }),
        }
    } else {
        None
    }
}

/// The escape sequence a character is written with inside a JSON
/// string: quote, backslash and control characters are escaped, the
/// rare control characters as a four-digit hex escape.
pub open spec fn esc_char(c: char) -> Seq<char> {
    if c == '"' {
        seq!['\\', '"']
    } else if c == '\\' {
        seq!['\\', '\\']
    } else if c == '\u{0008}' {
        seq!['\\', 'b']
    } else if c == '\t' {
        seq!['\\', 't']
    } else if c == '\n' {
        seq!['\\', 'n']
    } else if c == '\u{000C}' {
        seq!['\\', 'f']
    } else if c == '\r' {
        seq!['\\', 'r']
    } else if (c as u32) < 32 {
        seq!['\\', 'u', '0', '0', hex_char((c as u32 / 16) as nat), hex_char((c as u32 % 16) as nat)]
    } else {
        seq![c]
    }
}

/// The lowercase hex digit for a value below sixteen.
pub open spec fn hex_char(d: nat) -> char {
    if d < 10 {
        crate::text::digit_char(d)
    } else if d == 10 {
        'a'
    } else if d == 11 {
        'b'
    } else if d == 12 {
        'c'
    } else if d == 13 {
        'd'
    } else if d == 14 {
        'e'
    } else {
        'f'
    }
}

/// A whole string escaped for JSON.
pub open spec fn esc_string(t: Seq<char>) -> Seq<char>
    decreases t.len(),
{
    if t.len() == 0 {
        Seq::empty()
    } else {
        esc_char(t[0]) + esc_string(t.drop_first())
    }
}

/// The canonical serialized form of a metadata object.
pub open spec fn meta_json(name: Seq<char>, duration: Seq<char>, timestamp: u64) -> Seq<char> {
    "{\"name\":\""@ + esc_string(name) + "\",\"duration\":\""@ + esc_string(duration)
        + "\",\"timestamp\":"@ + dec_digits(timestamp as nat) + "}"@
}

fn hex_char_exec(d: u32) -> (c: char)
    requires
        d < 16,
    ensures
        c == hex_char(d as nat),
{
    if d < 10 {
        crate::text::digit_char_exec(d as u64)
    } else if d == 10 {
        'a'
    } else if d == 11 {
        'b'
    } else if d == 12 {
        'c'
    } else if d == 13 {
        'd'
    } else if d == 14 {
        'e'
    } else {
        'f'
    }
}

fn push_escaped(out: &mut String, c: char)
    ensures
        final(out)@ == old(out)@ + esc_char(c),
{
    let ghost o0 = out@;
    if c == '"' {
        push_char(out, '\\');
        push_char(out, '"');
    } else if c == '\\' {
        push_char(out, '\\');
        push_char(out, '\\');
    } else if c == '\u{0008}' {
        push_char(out, '\\');
        push_char(out, 'b');
    } else if c == '\t' {
        push_char(out, '\\');
        push_char(out, 't');
    } else if c == '\n' {
        push_char(out, '\\');
        push_char(out, 'n');
    } else if c == '\u{000C}' {
        push_char(out, '\\');
        push_char(out, 'f');
    } else if c == '\r' {
        push_char(out, '\\');
        push_char(out, 'r');
    } else if (c as u32) < 32 {
        push_char(out, '\\');
        push_char(out, 'u');
        push_char(out, '0');
        push_char(out, '0');
        push_char(out, hex_char_exec(c as u32 / 16));
        push_char(out, hex_char_exec(c as u32 % 16));
    } else {
        push_char(out, c);
    }
    proof {
        assert(out@ =~= o0 + esc_char(c));
    }
}

fn append_escaped(out: &mut String, t: &str)
    ensures
        final(out)@ == old(out)@ + esc_string(t@),
{
    let n = t.unicode_len();
    let ghost o0 = out@;
    let mut i: usize = 0;
    proof {
        assert(out@ =~= o0 + esc_string(t@.subrange(0, 0)));
    }
    while i < n
        invariant
            n == t@.len(),
            i <= n,
            out@ == o0 + esc_string(t@.subrange(0, i as int)),
        decreases n - i,
    {
        let c = t.get_char(i);
        push_escaped(out, c);
        i = i + 1;
        proof {
            lemma_esc_string_snoc(t@.subrange(0, i as int));
            assert(t@.subrange(0, i as int).drop_last() =~= t@.subrange(0, i as int - 1));
            assert(out@ =~= o0 + esc_string(t@.subrange(0, i as int)));
        }
    }
    proof {
        assert(t@.subrange(0, n as int) =~= t@);
    }
}

/// Escaping appends one character's escape at a time.
proof fn lemma_esc_string_snoc(t: Seq<char>)
    requires
        t.len() > 0,
    ensures
        esc_string(t) == esc_string(t.drop_last()) + esc_char(t.last()),
    decreases t.len(),
{
    if t.len() == 1 {
        assert(t.drop_last() =~= Seq::<char>::empty());
        assert(esc_string(t.drop_last()) + esc_char(t.last()) =~= esc_char(t[0]) + esc_string(
            t.drop_first(),
        ));
    } else {
        lemma_esc_string_snoc(t.drop_first());
        assert(t.drop_first().drop_last() =~= t.drop_last().drop_first());
        assert(t.drop_last()[0] == t[0]);
        assert(t.drop_first().last() == t.last());
        assert(esc_string(t) == esc_char(t[0]) + esc_string(t.drop_first()));
        assert(esc_char(t[0]) + (esc_string(t.drop_first().drop_last()) + esc_char(t.last()))
            =~= (esc_char(t[0]) + esc_string(t.drop_last().drop_first())) + esc_char(t.last()));
    }
}

/// Serializes a metadata object in the canonical form.
pub fn serialize_metadata(m: &Metadata) -> (r: String)
    ensures
        r@ == meta_json(m.name@, m.duration@, m.timestamp),
{
    let mut out = String::from_str("{\"name\":\"");
    append_escaped(&mut out, m.name.as_str());
    out.append("\",\"duration\":\"");
    append_escaped(&mut out, m.duration.as_str());
    out.append("\",\"timestamp\":");
    let ts = u64_to_string(m.timestamp);
    out.append(ts.as_str());
    out.append("}");
    proof {
        assert(out@ =~= meta_json(m.name@, m.duration@, m.timestamp));
    }
    out
}

/// The rename rule: with no metadata file nothing is written; with a
/// well-formed file only the name is replaced; a corrupt file is a
/// filesystem failure.
pub fn rename_plan(content: Option<&String>, new_name: &str) -> (r: Result<
    Option<String>,
    RecError,
>)
    ensures
        (match content {
            None => r == Ok::<Option<String>, RecError>(None),
            Some(c) => (match spec_parse_metadata(c@) {
                None => r == Err::<Option<String>, RecError>(RecError::Filesystem),
                Some(p) => (r matches Ok(Some(w)) && w@ == meta_json(new_name@, p.1, p.2)),
            }),
        }),
{
    match content {
        None => Ok(None),
        Some(c) => {
            match parse_metadata(c.as_str()) {
                None => Err(RecError::Filesystem),
                Some(m) => {
                    let ghost dur0 = m.duration@;
                    let ghost ts0 = m.timestamp;
                    let updated = Metadata {
                        name: new_name.to_owned(),
                        duration: m.duration,
                        timestamp: m.timestamp,
                    };
                    let w = serialize_metadata(&updated);
                    proof {
                        assert(w@ == meta_json(new_name@, dur0, ts0));
                    }
                    Ok(Some(w))
                },
            }
        },
    }
}


/// The closing quote of a JSON string.
spec fn is_quote(c: char) -> bool {
    c == '"'
}

/// A character that needs no escape inside a JSON string.
spec fn plain_char(c: char) -> bool {
    c != '"' && c != '\\' && c as u32 >= 32
}

/// Decimal digits map back to their values.
proof fn lemma_digit_roundtrip(d: nat)
    requires
        d < 10,
    ensures
        is_dec_digit(digit_char(d)),
        crate::text::digit_val(digit_char(d)) == d,
{
}

/// Hex digits map back to their values, and are ordinary characters.
proof fn lemma_hex_roundtrip(d: nat)
    requires
        d < 16,
    ensures
        is_hex_digit(hex_char(d)),
        hex_val(hex_char(d)) == d,
        hex_char(d) as u32 >= 32,
{
    if d < 10 {
        lemma_digit_roundtrip(d);
    }
}

/// A number's digit string: non-empty, all digits, no leading zero
/// unless the number is zero.
proof fn lemma_dec_digits_shape(n: nat)
    ensures
        dec_digits(n).len() >= 1,
        forall|k: int| 0 <= k < dec_digits(n).len() ==> is_dec_digit(#[trigger] dec_digits(n)[k]),
        n > 0 ==> dec_digits(n)[0] != '0',
        n == 0 ==> dec_digits(n) =~= seq!['0'],
    decreases n,
{
    if n < 10 {
        lemma_digit_roundtrip(n);
        if n > 0 {
            assert(digit_char(n) != '0');
        }
    } else {
        lemma_dec_digits_shape(n / 10);
        lemma_digit_roundtrip(n % 10);
        assert(dec_digits(n) == dec_digits(n / 10).push(digit_char(n % 10)));
        assert(dec_digits(n)[0] == dec_digits(n / 10)[0]);
    }
}

/// Formatting then reading a number gives it back.
proof fn lemma_dec_digits_value(n: nat)
    ensures
        crate::text::dec_value(dec_digits(n)) == n,
    decreases n,
{
    if n < 10 {
        lemma_digit_roundtrip(n);
        let w = seq![digit_char(n)];
        assert(dec_digits(n) == w);
        assert(w.last() == digit_char(n));
        assert(w.drop_last() =~= Seq::<char>::empty());
        assert(crate::text::dec_value(w.drop_last()) == 0);
        assert(crate::text::dec_value(w) == digit_val(w.last()));
    } else {
        lemma_dec_digits_value(n / 10);
        lemma_digit_roundtrip(n % 10);
        let w = dec_digits(n / 10).push(digit_char(n % 10));
        assert(dec_digits(n) == w);
        assert(w.last() == digit_char(n % 10));
        assert(w.drop_last() =~= dec_digits(n / 10));
        assert(crate::text::dec_value(w) == crate::text::dec_value(dec_digits(n / 10)) * 10
            + digit_val(digit_char(n % 10)));
        assert(crate::text::dec_value(w) == (n / 10) * 10 + n % 10);
        assert((n / 10) * 10 + n % 10 == n);
    }
}

/// A run of digits closed by a non-digit ends exactly at the closer.
proof fn lemma_digits_end(s: Seq<char>, i: int, j: int)
    requires
        0 <= i <= j < s.len(),
        forall|k: int| i <= k < j ==> is_dec_digit(s[k]),
        !is_dec_digit(s[j]),
    ensures
        spec_digits_end(s, i) == j,
    decreases j - i,
{
    if i < j {
        lemma_digits_end(s, i + 1, j);
    }
}

/// Whitespace skipping stays put on a non-space character.
proof fn lemma_skip_ws_here(s: Seq<char>, i: int)
    requires
        0 <= i < s.len() ==> !is_json_ws(s[i]),
    ensures
        spec_skip_ws(s, i) == i,
{
}

/// A quoted region of ordinary characters parses to exactly that
/// region.
proof fn lemma_body_plain(s: Seq<char>, i: int, j: int, acc: Seq<char>)
    requires
        0 <= i <= j < s.len(),
        is_quote(s[j]),
        (forall|k: int| i <= k < j ==> plain_char(#[trigger] s[k])),
    ensures
        spec_jstring_body(s, i, acc) == Some((acc + s.subrange(i, j), j + 1)),
    decreases j - i,
{
    if i == j {
        assert(acc + s.subrange(i, j) =~= acc);
    } else {
        lemma_body_plain(s, i + 1, j, acc.push(s[i]));
        assert(acc.push(s[i]) + s.subrange(i + 1, j) =~= acc + s.subrange(i, j));
    }
}

/// A string serialized with `esc_string` and closed by a quote parses
/// back to the original string.
proof fn lemma_body_escaped(
    s: Seq<char>,
    i: int,
    j: int,
    t: Seq<char>,
    acc: Seq<char>,
)
    requires
        0 <= i <= j < s.len(),
        (j - i == esc_string(t).len()),
        (s.subrange(i, j) == esc_string(t)),
        is_quote(s[j]),
    ensures
        (spec_jstring_body(s, i, acc) == Some((acc + t, j + 1))),
    decreases t.len(),
{
    let e = esc_string(t);
    assert forall|k: int| 0 <= k < e.len() implies s[i + k] == #[trigger] e[k] by {
        assert(s.subrange(i, j)[k] == e[k]);
        assert(s.subrange(i, j)[k] == s[i + k]);
    }
    if t.len() == 0 {
        assert(acc + t =~= acc);
    } else {
        let c = t[0];
        let ec = esc_char(c);
        let rest = esc_string(t.drop_first());
        assert(e == ec + rest);
        assert(1 <= ec.len() <= 6);
        assert forall|k: int| 0 <= k < ec.len() implies s[i + k] == #[trigger] ec[k] by {
            assert(s[i + k] == e[k]);
            assert(e[k] == (ec + rest)[k]);
        }
        let i2 = i + ec.len();
        assert forall|k: int| 0 <= k < rest.len() implies s.subrange(i2, j)[k] == #[trigger] rest[k] by {
            assert(s.subrange(i2, j)[k] == s[i2 + k]);
            assert(e[ec.len() + k] == rest[k]);
            assert(s[i2 + k] == e[ec.len() + k]);
        }
        assert(s.subrange(i2, j) =~= rest);
        assert(acc.push(c) + t.drop_first() =~= acc + t);
        if c == '"' || c == '\\' {
            lemma_body_escaped(s, i + 2, j, t.drop_first(), acc.push(c));
        } else if c == '\u{0008}' || c == '\t' || c == '\n' || c == '\u{000C}' || c == '\r' {
            lemma_body_escaped(s, i + 2, j, t.drop_first(), acc.push(c));
        } else if (c as u32) < 32 {
            let hi = (c as u32 / 16) as nat;
            let lo = (c as u32 % 16) as nat;
            lemma_hex_roundtrip(hi);
            lemma_hex_roundtrip(lo);
            lemma_digit_roundtrip(0);
            assert(s[i] == '\\' && s[i + 1] == 'u' && s[i + 2] == '0' && s[i + 3] == '0'
                && s[i + 4] == hex_char(hi) && s[i + 5] == hex_char(lo));
            let v = hex_val(s[i + 2]) * 4096 + hex_val(s[i + 3]) * 256 + hex_val(s[i + 4]) * 16
                + hex_val(s[i + 5]);
            assert(v == c as u32);
            assert(v < 0xD800);
            vstd::utf8::char_u32_cast(c, c as u32);
            assert((v as char) == c);
            assert(i + 5 < s.len());
            lemma_body_escaped(s, i + 6, j, t.drop_first(), acc.push(c));
        } else {
            assert(ec =~= seq![c]);
            assert(s[i] == ec[0]);
            assert(s[i] == c);
            lemma_body_escaped(s, i + 1, j, t.drop_first(), acc.push(c));
        }
    }
}


/// Opening the serialized object reaches the first key.
proof fn lemma_rt_open(name: Seq<char>, duration: Seq<char>, timestamp: u64)
    ensures
        (spec_parse_metadata(meta_json(name, duration, timestamp)) == spec_fields(
            meta_json(name, duration, timestamp),
            1,
            None,
            None,
            None,
            meta_json(name, duration, timestamp).len(),
        )),
{
    reveal_strlit("{\"name\":\"");
    reveal_strlit("\",\"duration\":\"");
    reveal_strlit("\",\"timestamp\":");
    reveal_strlit("}");
    let l1 = "{\"name\":\""@;
    let s = meta_json(name, duration, timestamp);
    lemma_dec_digits_shape(timestamp as nat);
    assert(l1.len() == 9);
    assert(s.len() >= 9);
    assert forall|k: int| 0 <= k < 9 implies s[k] == #[trigger] l1[k] by {}
    assert(s[0] == '{' && s[1] == '"');
    lemma_skip_ws_here(s, 0);
    lemma_skip_ws_here(s, 1);
}

/// The first field: the name key and its value.
proof fn lemma_rt_name(name: Seq<char>, duration: Seq<char>, timestamp: u64, f: nat)
    requires
        f >= 1,
    ensures
        (spec_fields(meta_json(name, duration, timestamp), 1, None, None, None, f) == spec_fields(
            meta_json(name, duration, timestamp),
            11 + esc_string(name).len() as int,
            Some(name),
            None,
            None,
            (f - 1) as nat,
        )),
{
    reveal_strlit("{\"name\":\"");
    reveal_strlit("\",\"duration\":\"");
    reveal_strlit("\",\"timestamp\":");
    reveal_strlit("}");
    reveal_strlit("name");
    let l1 = "{\"name\":\""@;
    let l2 = "\",\"duration\":\""@;
    let e1 = esc_string(name);
    let s = meta_json(name, duration, timestamp);
    let a2 = 9 + e1.len() as int;
    lemma_dec_digits_shape(timestamp as nat);
    assert(l1.len() == 9 && l2.len() == 14);
    assert(s.len() >= a2 + 15);
    assert forall|k: int| 0 <= k < 9 implies s[k] == #[trigger] l1[k] by {}
    assert forall|k: int| 0 <= k < e1.len() implies s[9 + k] == #[trigger] e1[k] by {}
    assert forall|k: int| 0 <= k < 14 implies s[a2 + k] == #[trigger] l2[k] by {}
    assert(s[1] == '"');
    assert(s.subrange(2, 6) =~= "name"@);
    lemma_body_plain(s, 2, 6, Seq::empty());
    assert(Seq::empty() + s.subrange(2, 6) =~= "name"@);
    assert(spec_jstring(s, 1) == Some(("name"@, 7int)));
    lemma_skip_ws_here(s, 7);
    lemma_skip_ws_here(s, 8);
    assert(s[7] == ':' && s[8] == '"');
    assert(s.subrange(9, a2) =~= e1);
    assert(is_quote(s[a2]));
    lemma_body_escaped(s, 9, a2, name, Seq::empty());
    assert(Seq::empty() + name =~= name);
    assert(spec_jstring(s, 8) == Some((name, a2 + 1)));
    lemma_skip_ws_here(s, a2 + 1);
    lemma_skip_ws_here(s, a2 + 2);
    assert(s[a2 + 1] == ',' && s[a2 + 2] == '"');
    assert(spec_fields(s, 1, None, None, None, f) == spec_after_value(
        s,
        a2 + 1,
        Some(name),
        None,
        None,
        f,
    ));
}

/// The second field: the duration key and its value.
#[verifier::rlimit(100)]
proof fn lemma_rt_duration(name: Seq<char>, duration: Seq<char>, timestamp: u64, f: nat)
    requires
        f >= 1,
    ensures
        (spec_fields(
            meta_json(name, duration, timestamp),
            11 + esc_string(name).len() as int,
            Some(name),
            None,
            None,
            f,
        ) == spec_fields(
            meta_json(name, duration, timestamp),
            25 + esc_string(name).len() as int + esc_string(duration).len() as int,
            Some(name),
            Some(duration),
            None,
            (f - 1) as nat,
        )),
{
    reveal_strlit("{\"name\":\"");
    reveal_strlit("\",\"duration\":\"");
    reveal_strlit("\",\"timestamp\":");
    reveal_strlit("}");
    reveal_strlit("duration");
    reveal_strlit("name");
    let l2 = "\",\"duration\":\""@;
    let l3 = "\",\"timestamp\":"@;
    let e1 = esc_string(name);
    let e2 = esc_string(duration);
    let s = meta_json(name, duration, timestamp);
    let a2 = 9 + e1.len() as int;
    let a3 = a2 + 14;
    let a4 = a3 + e2.len() as int;
    lemma_dec_digits_shape(timestamp as nat);
    assert(l2.len() == 14 && l3.len() == 14);
    assert(s.len() >= a4 + 15);
    assert forall|k: int| 0 <= k < 14 implies s[a2 + k] == #[trigger] l2[k] by {}
    assert forall|k: int| 0 <= k < e2.len() implies s[a3 + k] == #[trigger] e2[k] by {}
    assert forall|k: int| 0 <= k < 14 implies s[a4 + k] == #[trigger] l3[k] by {}
    assert(s[a2 + 2] == '"');
    assert(s.subrange(a2 + 3, a2 + 11) =~= "duration"@);
    lemma_body_plain(s, a2 + 3, a2 + 11, Seq::empty());
    assert(Seq::empty() + s.subrange(a2 + 3, a2 + 11) =~= "duration"@);
    assert(spec_jstring(s, a2 + 2) == Some(("duration"@, a2 + 12)));
    lemma_skip_ws_here(s, a2 + 12);
    lemma_skip_ws_here(s, a2 + 13);
    assert(s[a2 + 12] == ':' && s[a2 + 13] == '"');
    assert(s.subrange(a3, a4) =~= e2);
    assert(is_quote(s[a4]));
    lemma_body_escaped(s, a3, a4, duration, Seq::empty());
    assert(Seq::empty() + duration =~= duration);
    assert(spec_jstring(s, a2 + 13) == Some((duration, a4 + 1)));
    assert("duration"@ != "name"@);
    lemma_skip_ws_here(s, a4 + 1);
    lemma_skip_ws_here(s, a4 + 2);
    assert(s[a4 + 1] == ',' && s[a4 + 2] == '"');
    assert(spec_fields(s, a2 + 2, Some(name), None, None, f) == spec_after_value(
        s,
        a4 + 1,
        Some(name),
        Some(duration),
        None,
        f,
    ));
}

/// The last field: the timestamp, the closing brace and the end of
/// the text.
#[verifier::rlimit(100)]
proof fn lemma_rt_timestamp(name: Seq<char>, duration: Seq<char>, timestamp: u64, f: nat)
    requires
        f >= 1,
    ensures
        (spec_fields(
            meta_json(name, duration, timestamp),
            25 + esc_string(name).len() as int + esc_string(duration).len() as int,
            Some(name),
            Some(duration),
            None,
            f,
        ) == Some((name, duration, timestamp))),
{
    reveal_strlit("{\"name\":\"");
    reveal_strlit("\",\"duration\":\"");
    reveal_strlit("\",\"timestamp\":");
    reveal_strlit("}");
    reveal_strlit("timestamp");
    reveal_strlit("name");
    reveal_strlit("duration");
    let l3 = "\",\"timestamp\":"@;
    let e1 = esc_string(name);
    let e2 = esc_string(duration);
    let nd = dec_digits(timestamp as nat);
    let s = meta_json(name, duration, timestamp);
    let a4 = 23 + e1.len() as int + e2.len() as int;
    let a5 = a4 + 14;
    let a6 = a5 + nd.len() as int;
    lemma_dec_digits_shape(timestamp as nat);
    lemma_dec_digits_value(timestamp as nat);
    assert(l3.len() == 14);
    assert(s.len() == a6 + 1);
    assert forall|k: int| 0 <= k < 14 implies s[a4 + k] == #[trigger] l3[k] by {}
    assert forall|k: int| 0 <= k < nd.len() implies s[a5 + k] == #[trigger] nd[k] by {}
    assert(s[a6] == '}');
    assert(s[a4 + 2] == '"');
    assert(s.subrange(a4 + 3, a4 + 12) =~= "timestamp"@);
    lemma_body_plain(s, a4 + 3, a4 + 12, Seq::empty());
    assert(Seq::empty() + s.subrange(a4 + 3, a4 + 12) =~= "timestamp"@);
    assert(spec_jstring(s, a4 + 2) == Some(("timestamp"@, a4 + 13)));
    lemma_skip_ws_here(s, a4 + 13);
    assert(s[a4 + 13] == ':');
    assert(is_dec_digit(s[a5]));
    lemma_skip_ws_here(s, a5);
    assert(s[a5] != '"');
    if timestamp == 0 {
        assert(nd =~= seq!['0']);
        assert(s[a5] == '0');
        assert(a5 + 1 == a6);
        assert(spec_jnumber(s, a5) == Some((0u64, a6)));
    } else {
        assert(s[a5] == nd[0]);
        assert(s[a5] != '0');
        assert(!is_dec_digit(s[a6]));
        lemma_digits_end(s, a5, a6);
        assert(s.subrange(a5, a6) =~= nd);
        assert(crate::text::dec_value(s.subrange(a5, a6)) == timestamp);
        assert(spec_jnumber(s, a5) == Some((timestamp, a6)));
    }
    assert("timestamp"@ != "name"@ && "timestamp"@ != "duration"@);
    lemma_skip_ws_here(s, a6);
    lemma_skip_ws_here(s, a6 + 1);
    assert(spec_skip_ws(s, a6 + 1) == s.len());
    assert(spec_fields(s, a4 + 2, Some(name), Some(duration), None, f) == spec_after_value(
        s,
        a6,
        Some(name),
        Some(duration),
        Some(timestamp),
        f,
    ));
    assert(spec_after_value(s, a6, Some(name), Some(duration), Some(timestamp), f) == Some(
        (name, duration, timestamp),
    ));
}

/// Round trip: a serialized metadata object parses back to exactly
/// the fields it was written from.
pub proof fn lemma_metadata_round_trip(name: Seq<char>, duration: Seq<char>, timestamp: u64)
    ensures
        (spec_parse_metadata(meta_json(name, duration, timestamp)) == Some(
            (name, duration, timestamp),
        )),
{
    let s = meta_json(name, duration, timestamp);
    let f0 = s.len();
    reveal_strlit("{\"name\":\"");
    reveal_strlit("\",\"duration\":\"");
    reveal_strlit("\",\"timestamp\":");
    reveal_strlit("}");
    lemma_dec_digits_shape(timestamp as nat);
    assert(s.len() >= 39);
    lemma_rt_open(name, duration, timestamp);
    lemma_rt_name(name, duration, timestamp, f0);
    lemma_rt_duration(name, duration, timestamp, (f0 - 1) as nat);
    lemma_rt_timestamp(name, duration, timestamp, (f0 - 2) as nat);
}

} // verus!
