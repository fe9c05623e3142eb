//! Character and string helpers: whitespace trimming, first-occurrence
//! search, case-insensitive comparison and integer parsing, each specified
//! over the `Seq<char>` view of a string.

use vstd::prelude::*;
use vstd::string::*;

verus! {

/// ASCII whitespace: what `trim` removes from keys and values.
pub open spec fn is_space(c: char) -> bool {
    c == ' ' || c == '\t' || c == '\n' || c == '\r' || c == '\u{b}' || c == '\u{c}'
}

pub fn is_space_exec(c: char) -> (r: bool)
    ensures
        r == is_space(c),
{
    c == ' ' || c == '\t' || c == '\n' || c == '\r' || c == '\u{b}' || c == '\u{c}'
}

/// Index of the first occurrence of `c` in `s` at or after position `i`.
pub open spec fn find_from(s: Seq<char>, c: char, i: int) -> Option<int>
    decreases s.len() - i,
{
    if i < 0 || i >= s.len() {
        None
    } else if s[i] == c {
        Some(i)
    } else {
        find_from(s, c, i + 1)
    }
}

/// First occurrence of `c` in `s`, if any.
pub fn find_char(s: &str, c: char) -> (r: Option<usize>)
    ensures
        match r {
            Some(j) => find_from(s@, c, 0) == Some(j as int),
            None => find_from(s@, c, 0) is None,
        },
{
    let n = s.unicode_len();
    let mut i: usize = 0;
    while i < n
        invariant
            0 <= i <= n,
            n == s@.len(),
            find_from(s@, c, 0) == find_from(s@, c, i as int),
        decreases n - i,
    {
        if s.get_char(i) == c {
            return Some(i);
        }
        i = i + 1;
    }
    None
}

pub open spec fn spec_trim_start(s: Seq<char>) -> Seq<char>
    decreases s.len(),
{
    if s.len() > 0 && is_space(s[0]) {
        spec_trim_start(s.skip(1))
    } else {
        s
    }
}

pub open spec fn spec_trim_end(s: Seq<char>) -> Seq<char>
    decreases s.len(),
{
    if s.len() > 0 && is_space(s[s.len() - 1]) {
        spec_trim_end(s.take(s.len() - 1))
    } else {
        s
    }
}

/// `s` with leading and trailing whitespace removed.
pub open spec fn spec_trim(s: Seq<char>) -> Seq<char> {
    spec_trim_end(spec_trim_start(s))
}

fn trim_start_str<'a>(s: &'a str) -> (r: &'a str)
    ensures
        r@ == spec_trim_start(s@),
    decreases s@.len(),
{
    let n = s.unicode_len();
    if n > 0 {
        let c = s.get_char(0);
        if is_space_exec(c) {
            let t = s.substring_char(1, n);
            proof {
                assert(t@ =~= s@.skip(1));
            }
            return trim_start_str(t);
        }
    }
    s
}

fn trim_end_str<'a>(s: &'a str) -> (r: &'a str)
    ensures
        r@ == spec_trim_end(s@),
    decreases s@.len(),
{
    let n = s.unicode_len();
    if n > 0 {
        let c = s.get_char(n - 1);
        if is_space_exec(c) {
            let t = s.substring_char(0, n - 1);
            proof {
                assert(t@ =~= s@.take(s@.len() - 1));
            }
            return trim_end_str(t);
        }
    }
    s
}

/// `s` with leading and trailing whitespace removed.
pub fn trim_str<'a>(s: &'a str) -> (r: &'a str)
    ensures
        r@ == spec_trim(s@),
{
    trim_end_str(trim_start_str(s))
}

/// Exact string equality, decided on the views.
pub fn str_eq(a: &str, b: &str) -> (r: bool)
    ensures
        r == (a@ == b@),
{
    let sa = a.to_owned();
    let sb = b.to_owned();
    sa == sb
}

/// The code point of `c` with an ASCII upper-case letter folded to lower case.
pub open spec fn lower_u32(c: char) -> u32 {
    if 65 <= c as u32 && c as u32 <= 90 {
        ((c as u32) + 32) as u32
    } else {
        c as u32
    }
}

fn lower_u32_exec(c: char) -> (r: u32)
    ensures
        r == lower_u32(c),
{
    let u = c as u32;
    if 65 <= u && u <= 90 {
        u + 32
    } else {
        u
    }
}

/// Equality of two character sequences up to ASCII case.
pub open spec fn eq_nocase(a: Seq<char>, b: Seq<char>) -> bool {
    a.len() == b.len() && (forall|i: int| 0 <= i < a.len() ==> lower_u32(a[i]) == lower_u32(b[i]))
}

/// Case-insensitive (ASCII) string equality.
pub fn str_eq_nocase(a: &str, b: &str) -> (r: bool)
    ensures
        r == eq_nocase(a@, b@),
{
    let na = a.unicode_len();
    let nb = b.unicode_len();
    if na != nb {
        return false;
    }
    let mut i: usize = 0;
    while i < na
        invariant
            0 <= i <= na,
            na == a@.len(),
            na == b@.len(),
            forall|j: int| 0 <= j < i ==> lower_u32(a@[j]) == lower_u32(b@[j]),
        decreases na - i,
    {
        if lower_u32_exec(a.get_char(i)) != lower_u32_exec(b.get_char(i)) {
            return false;
        }
        i = i + 1;
    }
    true
}

pub open spec fn is_digit(c: char) -> bool {
    48 <= c as u32 && c as u32 <= 57
}

pub open spec fn digit_val(c: char) -> int {
    c as u32 - 48
}

/// Value of a sequence of decimal digits, most significant first.
pub open spec fn digits_val(s: Seq<char>) -> int
    decreases s.len(),
{
    if s.len() == 0 {
        0
    } else {
        digits_val(s.take(s.len() - 1)) * 10 + digit_val(s[s.len() - 1])
    }
}

/// The digits of an integer literal, past any single leading sign.
pub open spec fn int_body(s: Seq<char>) -> Seq<char> {
    if s.len() > 0 && (s[0] == '+' || s[0] == '-') {
        s.skip(1)
    } else {
        s
    }
}

pub open spec fn int_negative(s: Seq<char>) -> bool {
    s.len() > 0 && s[0] == '-'
}

/// `s` is an optional sign followed by one or more decimal digits.
pub open spec fn is_int_literal(s: Seq<char>) -> bool {
    int_body(s).len() > 0 && (forall|i: int|
        0 <= i < int_body(s).len() ==> is_digit(int_body(s)[i]))
}

/// The mathematical value of an integer literal.
pub open spec fn int_value(s: Seq<char>) -> int {
    if int_negative(s) {
        -digits_val(int_body(s))
    } else {
        digits_val(int_body(s))
    }
}

/// `s` parses as a signed 32-bit integer.
pub open spec fn parses_as_i32(s: Seq<char>) -> bool {
    is_int_literal(s) && -0x8000_0000 <= int_value(s) && int_value(s) <= 0x7fff_ffff
}

/// `s` parses as an unsigned 64-bit integer (no minus sign allowed).
pub open spec fn parses_as_u64(s: Seq<char>) -> bool {
    is_int_literal(s) && !int_negative(s) && int_value(s) <= 0xffff_ffff_ffff_ffff
}

/// Parse a signed 32-bit integer: optional sign, then decimal digits.
pub fn parse_i32(s: &str) -> (r: Option<i32>)
    ensures
        match r {
            Some(v) => parses_as_i32(s@) && v as int == int_value(s@),
            None => !parses_as_i32(s@),
        },
{
    let n = s.unicode_len();
    if n == 0 {
        return None;
    }
    let first = s.get_char(0);
    let mut start: usize = 0;
    let mut neg: bool = false;
    if first == '-' {
        start = 1;
        neg = true;
    } else if first == '+' {
        start = 1;
    }
    if start >= n {
        proof {
            assert(int_body(s@).len() == 0);
        }
        return None;
    }
    let ghost body: Seq<char> = int_body(s@);
    proof {
        assert(body =~= s@.subrange(start as int, n as int));
    }
    let mut i: usize = start;
    let mut acc: u64 = 0;
    let mut big: bool = false;
    while i < n
        invariant
            start <= i <= n,
            n == s@.len(),
            start < n,
            body == int_body(s@),
            body =~= s@.subrange(start as int, n as int),
            neg == int_negative(s@),
            forall|j: int| start <= j < i ==> is_digit(s@[j]),
            !big ==> acc as int == digits_val(s@.subrange(start as int, i as int)) && acc
                <= 0x8000_0000u64,
            big ==> digits_val(s@.subrange(start as int, i as int)) > 0x8000_0000,
        decreases n - i,
    {
        let c = s.get_char(i);
        let u = c as u32;
        if !(48 <= u && u <= 57) {
            proof {
                assert(body[i - start as int] == s@[i as int]);
                assert(!is_digit(body[i - start as int]));
            }
            return None;
        }
        let d: u64 = (u - 48) as u64;
        let ghost pre = s.view().subrange(start as int, i as int);
        let ghost post = s.view().subrange(start as int, i + 1 as int);
        proof {
            assert(post.take(post.len() - 1) =~= pre);
            assert(post[post.len() - 1] == s@[i as int]);
            assert(digits_val(post) == digits_val(pre) * 10 + digit_val(s@[i as int]));
        }
        if !big {
            let next: u64 = acc * 10 + d;
            if next > 0x8000_0000 {
                big = true;
            } else {
                acc = next;
            }
        }
        i = i + 1;
    }
    proof {
        assert(forall|j: int| 0 <= j < body.len() ==> is_digit(#[trigger] body[j]));
        assert(is_int_literal(s@));
        assert(digits_val(body) == if big {
            digits_val(s@.subrange(start as int, n as int))
        } else {
            acc as int
        });
    }
    if big {
        return None;
    }
    if neg {
        if acc == 0x8000_0000 {
            return Some(i32::MIN);
        }
        return Some(-(acc as i32));
    }
    if acc > 0x7fff_ffff {
        return None;
    }
    Some(acc as i32)
}

/// Parse an unsigned 64-bit integer: optional plus sign, then decimal digits.
pub fn parse_u64(s: &str) -> (r: Option<u64>)
    ensures
        match r {
            Some(v) => parses_as_u64(s@) && v as int == int_value(s@),
            None => !parses_as_u64(s@),
        },
{
    let n = s.unicode_len();
    if n == 0 {
        return None;
    }
    let first = s.get_char(0);
    let mut start: usize = 0;
    if first == '-' {
        return None;
    }
    if first == '+' {
        start = 1;
    }
    if start >= n {
        proof {
            assert(int_body(s@).len() == 0);
        }
        return None;
    }
    let ghost body: Seq<char> = int_body(s@);
    proof {
        assert(body =~= s@.subrange(start as int, n as int));
    }
    let mut i: usize = start;
    let mut acc: u128 = 0;
    let mut big: bool = false;
    while i < n
        invariant
            start <= i <= n,
            n == s@.len(),
            start < n,
            body == int_body(s@),
            body =~= s@.subrange(start as int, n as int),
            !int_negative(s@),
            forall|j: int| start <= j < i ==> is_digit(s@[j]),
            !big ==> acc as int == digits_val(s@.subrange(start as int, i as int)) && acc
                <= 0xffff_ffff_ffff_ffffu128,
            big ==> digits_val(s@.subrange(start as int, i as int)) > 0xffff_ffff_ffff_ffff,
        decreases n - i,
    {
        let c = s.get_char(i);
        let u = c as u32;
        if !(48 <= u && u <= 57) {
            proof {
                assert(body[i - start as int] == s@[i as int]);
                assert(!is_digit(body[i - start as int]));
            }
            return None;
        }
        let d: u128 = (u - 48) as u128;
        let ghost pre = s.view().subrange(start as int, i as int);
        let ghost post = s.view().subrange(start as int, i + 1 as int);
        proof {
            assert(post.take(post.len() - 1) =~= pre);
            assert(post[post.len() - 1] == s@[i as int]);
            assert(digits_val(post) == digits_val(pre) * 10 + digit_val(s@[i as int]));
        }
        if !big {
            let next: u128 = acc * 10 + d;
            if next > 0xffff_ffff_ffff_ffffu128 {
                big = true;
            } else {
                acc = next;
            }
        }
        i = i + 1;
    }
    proof {
        assert(forall|j: int| 0 <= j < body.len() ==> is_digit(#[trigger] body[j]));
        assert(is_int_literal(s@));
    }
    if big {
        return None;
    }
    Some(acc as u64)
}

} // verus!
