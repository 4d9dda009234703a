//! Shared text helpers: decimal formatting and parsing, megabyte size
//! strings, and splitting a diagnostic stream into lines.

use vstd::prelude::*;

verus! {

/// Relies on String::push: appends exactly the given character.
#[verifier::external_body]
pub fn push_char(s: &mut String, c: char)
    ensures
        final(s)@ == old(s)@.push(c),
{
    s.push(c);
}

/// Builds the string whose characters are exactly `v`.
pub fn string_from_chars(v: &Vec<char>) -> (r: String)
    ensures
        r@ == v@,
{
    let mut r = String::new();
    proof {
        assert(r@ =~= v@.subrange(0, 0));
    }
    let mut i: usize = 0;
    while i < v.len()
        invariant
            i <= v@.len(),
            r@ == v@.subrange(0, i as int),
        decreases v@.len() - i,
    {
        push_char(&mut r, v[i]);
        i = i + 1;
        proof {
            assert(r@ =~= v@.subrange(0, i as int));
        }
    }
    proof {
        assert(r@ =~= v@);
    }
    r
}

/// The decimal digit character for a value below ten.
pub open spec fn digit_char(d: nat) -> char {
    if d == 0 {
        '0'
    } else if d == 1 {
        '1'
    } else if d == 2 {
        '2'
    } else if d == 3 {
        '3'
    } else if d == 4 {
        '4'
    } else if d == 5 {
        '5'
    } else if d == 6 {
        '6'
    } else if d == 7 {
        '7'
    } else if d == 8 {
        '8'
    } else {
        '9'
    }
}

/// Whether `c` is an ASCII decimal digit.
pub open spec fn is_dec_digit(c: char) -> bool {
    '0' as u32 <= c as u32 && c as u32 <= '9' as u32
}

/// The numeric value of a decimal digit character.
pub open spec fn digit_val(c: char) -> nat {
    (c as u32 - '0' as u32) as nat
}

pub fn digit_char_exec(d: u64) -> (c: char)
    requires
        d < 10,
    ensures
        c == digit_char(d as nat),
{
    match d {
        0 => '0',
        1 => '1',
        2 => '2',
        3 => '3',
        4 => '4',
        5 => '5',
        6 => '6',
        7 => '7',
        8 => '8',
        _ => '9',
    }
}

/// The decimal digit string of `n`, without sign or padding.
pub open spec fn dec_digits(n: nat) -> Seq<char>
    decreases n,
{
    if n < 10 {
        seq![digit_char(n)]
    } else {
        dec_digits(n / 10).push(digit_char(n % 10))
    }
}

/// Formats `n` in decimal.
pub fn u64_to_string(n: u64) -> (r: String)
    ensures
        r@ == dec_digits(n as nat),
    decreases n,
{
    if n < 10 {
        let mut r = String::new();
        push_char(&mut r, digit_char_exec(n));
        proof {
            assert(r@ =~= dec_digits(n as nat));
        }
        r
    } else {
        let mut r = u64_to_string(n / 10);
        push_char(&mut r, digit_char_exec(n % 10));
        r
    }
}

/// Whether every character of `s` is an ASCII decimal digit.
pub open spec fn all_dec_digits(s: Seq<char>) -> bool {
    forall|i: int| 0 <= i < s.len() ==> is_dec_digit(s[i])
}

/// The value of a string of decimal digits.
pub open spec fn dec_value(s: Seq<char>) -> nat
    decreases s.len(),
{
    if s.len() == 0 {
        0
    } else {
        dec_value(s.drop_last()) * 10 + digit_val(s.last())
    }
}

/// What `str::parse::<u64>` accepts: an optional leading `+`, then one
/// or more digits, whose value fits in 64 bits.
pub open spec fn parsed_u64(s: Seq<char>) -> Option<u64> {
    let t = if s.len() > 0 && s[0] == '+' {
        s.drop_first()
    } else {
        s
    };
    if t.len() > 0 && all_dec_digits(t) && dec_value(t) <= u64::MAX {
        Some(dec_value(t) as u64)
    } else {
        None
    }
}

/// The parsed value, with every failure collapsed to zero.
pub open spec fn parsed_u64_or_zero(s: Seq<char>) -> u64 {
    match parsed_u64(s) {
        Some(v) => v,
        None => 0,
    }
}

/// Parses a decimal `u64` with the same acceptance as `str::parse`.
pub fn parse_u64(s: &str) -> (r: Option<u64>)
    ensures
        r == parsed_u64(s@),
{
    let n = s.unicode_len();
    let start: usize = if n > 0 && s.get_char(0) == '+' {
        1
    } else {
        0
    };
    let ghost t = if start == 1 {
        s@.drop_first()
    } else {
        s@
    };
    proof {
        assert(t =~= s@.subrange(start as int, n as int));
    }
    if n == start {
        return None;
    }
    let mut acc: u64 = 0;
    let mut over: bool = false;
    let mut i: usize = start;
    while i < n
        invariant
            start <= i <= n,
            n == s@.len(),
            start == 0 || start == 1,
            start == 1 <==> (n > 0 && s@[0] == '+'),
            t == s@.subrange(start as int, n as int),
            all_dec_digits(t.subrange(0, i - start)),
            !over ==> acc == dec_value(t.subrange(0, i - start)),
            over ==> dec_value(t.subrange(0, i - start)) > u64::MAX,
        decreases n - i,
    {
        let c = s.get_char(i);
        let u = c as u32;
        if u < 48 || u > 57 {
            proof {
                assert(t[i - start] == c);
                assert(!is_dec_digit(c));
                assert(!all_dec_digits(t));
                assert(parsed_u64(s@) is None);
            }
            return None;
        }
        let d = (u - 48) as u64;
        let ghost pre = t.subrange(0, i - start);
        proof {
            assert(t.subrange(0, i + 1 - start) =~= pre.push(c));
            assert(pre.push(c).drop_last() =~= pre);
            assert(dec_value(pre.push(c)) == dec_value(pre) * 10 + digit_val(c));
            assert(digit_val(c) == d);
        }
        if !over {
            if acc > (u64::MAX - d) / 10 {
                proof {
                    assert(acc * 10 + d > u64::MAX) by (nonlinear_arith)
                        requires
                            acc > (u64::MAX - d) / 10,
                            d < 10,
                    ;
                }
                over = true;
            } else {
                proof {
                    assert(acc * 10 + d <= u64::MAX) by (nonlinear_arith)
                        requires
                            acc <= (u64::MAX - d) / 10,
                            d <= 9,
                    ;
                }
                acc = acc * 10 + d;
            }
        } else {
            proof {
                assert(dec_value(pre) * 10 + digit_val(c) > u64::MAX);
            }
        }
        i = i + 1;
    }
    proof {
        assert(t.subrange(0, n - start) =~= t);
    }
    if over {
        None
    } else {
        Some(acc)
    }
}

/// Parses as `str::parse::<u64>().unwrap_or(0)` does.
pub fn parse_u64_or_zero(s: &str) -> (r: u64)
    ensures
        r == parsed_u64_or_zero(s@),
{
    match parse_u64(s) {
        Some(v) => v,
        None => 0,
    }
}

/// A value of tenths rendered with one decimal place.
pub open spec fn tenths_digits(t: nat) -> Seq<char> {
    dec_digits(t / 10) + seq!['.', digit_char(t % 10)]
}

/// Formats a count of tenths with one decimal place, as the encoder's
/// `volume=` filter argument expects.
pub fn format_tenths(t: u64) -> (r: String)
    ensures
        r@ == tenths_digits(t as nat),
{
    let mut r = u64_to_string(t / 10);
    push_char(&mut r, '.');
    push_char(&mut r, digit_char_exec(t % 10));
    proof {
        assert(r@ =~= tenths_digits(t as nat));
    }
    r
}

/// The artifact size in tenths of a mebibyte, rounded to the nearest
/// tenth with an exact half going to the even neighbour, as the
/// one-decimal rendering of the exact quotient rounds.
pub open spec fn mb_tenths(bytes: nat) -> nat {
    let q = (bytes * 10) / 1048576;
    let r = (bytes * 10) % 1048576;
    if r > 524288 || (r == 524288 && q % 2 == 1) {
        q + 1
    } else {
        q
    }
}

/// The human-readable size string: tenths of a mebibyte plus ` MB`.
pub open spec fn size_mb_text(bytes: nat) -> Seq<char> {
    tenths_digits(mb_tenths(bytes)) + " MB"@
}

/// Formats a byte count as a megabyte string with one decimal place.
pub fn format_size_mb(bytes: u64) -> (r: String)
    ensures
        r@ == size_mb_text(bytes as nat),
{
    let t10: u128 = (bytes as u128) * 10;
    let q128: u128 = t10 / 1048576;
    let r128: u128 = t10 % 1048576;
    proof {
        assert(q128 + 1 <= u64::MAX as u128) by (nonlinear_arith)
            requires
                q128 == t10 / 1048576,
                t10 == (bytes as u128) * 10,
                bytes <= u64::MAX,
        ;
    }
    let up: bool = r128 > 524288 || (r128 == 524288 && q128 % 2 == 1);
    let t: u64 = if up {
        (q128 + 1) as u64
    } else {
        q128 as u64
    };
    let mut r = format_tenths(t);
    push_char(&mut r, ' ');
    push_char(&mut r, 'M');
    push_char(&mut r, 'B');
    proof {
        reveal_strlit(" MB");
        assert(r@ =~= size_mb_text(bytes as nat));
    }
    r
}

/// Index of the first newline in `s`, or `s.len()` if there is none.
pub open spec fn first_nl(s: Seq<char>) -> nat
    decreases s.len(),
{
    if s.len() == 0 {
        0
    } else if s[0] == '\n' {
        0
    } else {
        1 + first_nl(s.drop_first())
    }
}

pub proof fn lemma_first_nl_no_nl(s: Seq<char>)
    requires
        forall|j: int| 0 <= j < s.len() ==> s[j] != '\n',
    ensures
        first_nl(s) == s.len(),
    decreases s.len(),
{
    if s.len() > 0 {
        lemma_first_nl_no_nl(s.drop_first());
    }
}

pub proof fn lemma_first_nl_concat(a: Seq<char>, b: Seq<char>)
    requires
        forall|j: int| 0 <= j < a.len() ==> a[j] != '\n',
        b.len() > 0,
        b[0] == '\n',
    ensures
        first_nl(a + b) == a.len(),
    decreases a.len(),
{
    if a.len() == 0 {
        assert(a + b =~= b);
    } else {
        assert((a + b)[0] == a[0]);
        assert((a + b).drop_first() =~= a.drop_first() + b);
        lemma_first_nl_concat(a.drop_first(), b);
    }
}

/// A line segment with one trailing carriage return removed, as
/// `str::lines` strips it before a newline.
pub open spec fn strip_cr(t: Seq<char>) -> Seq<char> {
    if t.len() > 0 && t.last() == '\r' {
        t.drop_last()
    } else {
        t
    }
}

/// The lines of `s`, split as `str::lines` splits them: at `\n`, with a
/// preceding `\r` stripped, and without a final empty segment.
pub open spec fn split_lines_spec(s: Seq<char>) -> Seq<Seq<char>>
    decreases s.len(),
{
    if s.len() == 0 {
        Seq::empty()
    } else {
        let k = first_nl(s);
        if k >= s.len() {
            seq![s]
        } else {
            seq![strip_cr(s.subrange(0, k as int))] + split_lines_spec(
                s.subrange(k as int + 1, s.len() as int),
            )
        }
    }
}

/// Splits a diagnostic stream into its lines.
pub fn split_lines(s: &str) -> (r: Vec<String>)
    ensures
        r@.map_values(|l: String| l@) == split_lines_spec(s@),
{
    let n = s.unicode_len();
    let mut lines: Vec<String> = Vec::new();
    let mut cur: Vec<char> = Vec::new();
    let mut i: usize = 0;
    proof {
        assert(cur@ + s@.subrange(0, n as int) =~= s@);
        assert(lines@.map_values(|l: String| l@) + split_lines_spec(s@) =~= split_lines_spec(s@));
    }
    while i < n
        invariant
            i <= n,
            n == s@.len(),
            forall|j: int| 0 <= j < cur@.len() ==> cur@[j] != '\n',
            split_lines_spec(s@) == lines@.map_values(|l: String| l@) + split_lines_spec(
                cur@ + s@.subrange(i as int, n as int),
            ),
        decreases n - i,
    {
        let c = s.get_char(i);
        let ghost rest = s@.subrange(i as int, n as int);
        let ghost rest1 = s@.subrange(i as int + 1, n as int);
        proof {
            assert(rest[0] == c);
            assert(rest.drop_first() =~= rest1);
        }
        if c == '\n' {
            proof {
                lemma_first_nl_concat(cur@, rest);
                let u = cur@ + rest;
                assert(u.len() > 0);
                assert(u.subrange(0, cur@.len() as int) =~= cur@);
                assert(u.subrange(cur@.len() as int + 1, u.len() as int) =~= rest1);
                assert(split_lines_spec(u) == seq![strip_cr(cur@)] + split_lines_spec(rest1));
            }
            let line: String = if cur.len() > 0 && cur[cur.len() - 1] == '\r' {
                let ghost full = cur@;
                let short = string_from_chars_trunc(&cur);
                proof {
                    assert(strip_cr(full) =~= full.drop_last());
                }
                short
            } else {
                string_from_chars(&cur)
            };
            proof {
                assert(line@ == strip_cr(cur@));
            }
            let ghost lines0 = lines@;
            lines.push(line);
            cur = Vec::new();
            proof {
                assert(cur@ + rest1 =~= rest1);
                assert(lines@ =~= lines0.push(line));
                assert(lines@.map_values(|l: String| l@) =~= lines0.map_values(
                    |l: String| l@,
                ).push(line@));
            }
        } else {
            let ghost cur0 = cur@;
            cur.push(c);
            proof {
                assert(cur@ + rest1 =~= cur0 + rest);
            }
        }
        i = i + 1;
    }
    proof {
        assert(s@.subrange(n as int, n as int) =~= Seq::<char>::empty());
        assert(cur@ + s@.subrange(n as int, n as int) =~= cur@);
    }
    if cur.len() > 0 {
        proof {
            lemma_first_nl_no_nl(cur@);
            assert(split_lines_spec(cur@) == seq![cur@]);
        }
        let line = string_from_chars(&cur);
        let ghost lines0 = lines@;
        lines.push(line);
        proof {
            assert(lines@ =~= lines0.push(line));
            assert(lines@.map_values(|l: String| l@) =~= lines0.map_values(
                |l: String| l@,
            ).push(line@));
        }
    }
    lines
}

/// Builds the string of all but the last character of `v`.
pub fn string_from_chars_trunc(v: &Vec<char>) -> (r: String)
    requires
        v@.len() > 0,
    ensures
        r@ == v@.drop_last(),
{
    let mut r = String::new();
    proof {
        assert(r@ =~= v@.subrange(0, 0));
    }
    let mut i: usize = 0;
    while i < v.len() - 1
        invariant
            v@.len() > 0,
            i <= v@.len() - 1,
            r@ == v@.subrange(0, i as int),
        decreases v@.len() - i,
    {
        push_char(&mut r, v[i]);
        i = i + 1;
        proof {
            assert(r@ =~= v@.subrange(0, i as int));
        }
    }
    proof {
        assert(r@ =~= v@.drop_last());
    }
    r
}

/// Unicode White_Space, the class `str::trim` and the pattern
/// whitespace match: the ASCII controls and space, next-line, no-break
/// space, ogham space, the typographic spaces, the line and paragraph
/// separators, and the narrow, medium and ideographic spaces.
pub open spec fn is_unicode_space(c: char) -> bool {
    ||| (9 <= c as u32 && c as u32 <= 13)
    ||| c as u32 == 32
    ||| c as u32 == 0x85
    ||| c as u32 == 0xA0
    ||| c as u32 == 0x1680
    ||| (0x2000 <= c as u32 && c as u32 <= 0x200A)
    ||| c as u32 == 0x2028
    ||| c as u32 == 0x2029
    ||| c as u32 == 0x202F
    ||| c as u32 == 0x205F
    ||| c as u32 == 0x3000
}

/// Decides membership in the Unicode White_Space class.
pub fn unicode_space_char(c: char) -> (r: bool)
    ensures
        r == is_unicode_space(c),
{
    let u = c as u32;
    (9 <= u && u <= 13) || u == 32 || u == 0x85 || u == 0xA0 || u == 0x1680 || (0x2000 <= u && u
        <= 0x200A) || u == 0x2028 || u == 0x2029 || u == 0x202F || u == 0x205F || u == 0x3000
}

/// First index at or after `i` holding `c`, or the length if none.
pub open spec fn scan_to(s: Seq<char>, i: int, c: char) -> int
    decreases s.len() - i,
{
    if 0 <= i < s.len() {
        if s[i] == c {
            i
        } else {
            scan_to(s, i + 1, c)
        }
    } else {
        s.len() as int
    }
}

/// Finds the first occurrence of `c` at or after `i`.
pub fn scan_to_exec(s: &str, i: usize, n: usize, c: char) -> (r: usize)
    requires
        n == s@.len(),
        i <= n,
    ensures
        r as int == scan_to(s@, i as int, c),
        i <= r <= n,
        r < n ==> s@[r as int] == c,
    decreases n - i,
{
    if i >= n {
        return n;
    }
    let ch = s.get_char(i);
    if ch == c {
        i
    } else {
        scan_to_exec(s, i + 1, n, c)
    }
}

/// Copies the characters of `s` between `a` and `b` into a string.
pub fn extract_range(s: &str, a: usize, b: usize, n: usize) -> (r: String)
    requires
        n == s@.len(),
        a <= b <= n,
    ensures
        r@ == s@.subrange(a as int, b as int),
{
    let mut r = String::new();
    proof {
        assert(r@ =~= s@.subrange(a as int, a as int));
    }
    let mut k: usize = a;
    while k < b
        invariant
            n == s@.len(),
            a <= k <= b <= n,
            r@ == s@.subrange(a as int, k as int),
        decreases b - k,
    {
        push_char(&mut r, s.get_char(k));
        k = k + 1;
        proof {
            assert(r@ =~= s@.subrange(a as int, k as int));
        }
    }
    r
}

} // verus!
