//! Character-level helpers shared by the template compiler, the path builder
//! and the metadata accessors: decimal rendering and parsing of numbers, and
//! small utilities over `&str` and `Vec<char>`.

use vstd::prelude::*;

verus! {

/// Relies on String::push: appends exactly one character at the end of the
/// string; everything before it is unchanged.
#[verifier::external_body]
pub fn push_char(s: &mut String, c: char)
    ensures
        final(s)@ == old(s)@.push(c),
{
    s.push(c);
}

/// The characters of `s`, one vector element per `char`.
pub fn chars_of(s: &str) -> (r: Vec<char>)
    ensures
        r@ == s@,
{
    let len = s.unicode_len();
    let mut r: Vec<char> = Vec::new();
    let mut i: usize = 0;
    while i < len
        invariant
            i <= len,
            len == s@.len(),
            r@ == s@.subrange(0, i as int),
        decreases len - i,
    {
        r.push(s.get_char(i));
        proof {
            assert(r@ =~= s@.subrange(0, i + 1));
        }
        i = i + 1;
    }
    proof {
        assert(r@ =~= s@);
    }
    r
}

/// Character-for-character equality of two string slices.
pub fn str_eq(a: &str, b: &str) -> (r: bool)
    ensures
        r == (a@ == b@),
{
    let la = a.unicode_len();
    let lb = b.unicode_len();
    if la != lb {
        return false;
    }
    let mut i: usize = 0;
    while i < la
        invariant
            i <= la,
            la == a@.len(),
            la == b@.len(),
            forall|j: int| 0 <= j < i ==> a@[j] == b@[j],
        decreases la - i,
    {
        if a.get_char(i) != b.get_char(i) {
            return false;
        }
        i = i + 1;
    }
    proof {
        assert(a@ =~= b@);
    }
    true
}

/// The characters `v[a..b]`, collected into a string.
pub fn string_range(v: &Vec<char>, a: usize, b: usize) -> (r: String)
    requires
        a <= b <= v@.len(),
    ensures
        r@ == v@.subrange(a as int, b as int),
{
    let mut r = String::new();
    let mut k: usize = a;
    while k < b
        invariant
            a <= k <= b <= v@.len(),
            r@ == v@.subrange(a as int, k as int),
        decreases b - k,
    {
        push_char(&mut r, v[k]);
        proof {
            assert(r@ =~= v@.subrange(a as int, k + 1));
        }
        k = k + 1;
    }
    r
}

/// Whether `c` is an ASCII decimal digit.
pub open spec fn spec_is_digit(c: char) -> bool {
    c == '0' || c == '1' || c == '2' || c == '3' || c == '4' || c == '5' || c == '6' || c == '7'
        || c == '8' || c == '9'
}

/// The numeric value of an ASCII decimal digit (0 for anything else).
pub open spec fn spec_digit_val(c: char) -> nat {
    if c == '1' {
        1
    } else if c == '2' {
        2
    } else if c == '3' {
        3
    } else if c == '4' {
        4
    } else if c == '5' {
        5
    } else if c == '6' {
        6
    } else if c == '7' {
        7
    } else if c == '8' {
        8
    } else if c == '9' {
        9
    } else {
        0
    }
}

/// The ASCII digit for a value below ten ('0' for anything else).
pub open spec fn spec_digit_char(d: nat) -> char {
    if d == 1 {
        '1'
    } else if d == 2 {
        '2'
    } else if d == 3 {
        '3'
    } else if d == 4 {
        '4'
    } else if d == 5 {
        '5'
    } else if d == 6 {
        '6'
    } else if d == 7 {
        '7'
    } else if d == 8 {
        '8'
    } else if d == 9 {
        '9'
    } else {
        '0'
    }
}

/// Whether `c` is an ASCII decimal digit.
pub fn is_digit(c: char) -> (r: bool)
    ensures
        r == spec_is_digit(c),
{
    c == '0' || c == '1' || c == '2' || c == '3' || c == '4' || c == '5' || c == '6' || c == '7'
        || c == '8' || c == '9'
}

/// The numeric value of an ASCII decimal digit (0 for anything else).
pub fn digit_val(c: char) -> (r: u32)
    ensures
        r == spec_digit_val(c),
{
    if c == '1' {
        1
    } else if c == '2' {
        2
    } else if c == '3' {
        3
    } else if c == '4' {
        4
    } else if c == '5' {
        5
    } else if c == '6' {
        6
    } else if c == '7' {
        7
    } else if c == '8' {
        8
    } else if c == '9' {
        9
    } else {
        0
    }
}

/// The ASCII digit for a value below ten ('0' for anything else).
pub fn digit_char(d: u32) -> (r: char)
    ensures
        r == spec_digit_char(d as nat),
{
    if d == 1 {
        '1'
    } else if d == 2 {
        '2'
    } else if d == 3 {
        '3'
    } else if d == 4 {
        '4'
    } else if d == 5 {
        '5'
    } else if d == 6 {
        '6'
    } else if d == 7 {
        '7'
    } else if d == 8 {
        '8'
    } else if d == 9 {
        '9'
    } else {
        '0'
    }
}

/// The decimal rendering of `n`, most significant digit first, no sign and no
/// leading zeros (a single '0' for zero itself).
pub open spec fn spec_dec(n: nat) -> Seq<char>
    decreases n,
{
    if n < 10 {
        seq![spec_digit_char(n)]
    } else {
        spec_dec(n / 10).push(spec_digit_char(n % 10))
    }
}

/// Renders `n` in decimal, as `u32::to_string` does.
pub fn u32_to_string(n: u32) -> (r: String)
    ensures
        r@ == spec_dec(n as nat),
{
    let mut digits: Vec<char> = Vec::new();
    let mut m: u32 = n;
    if m == 0 {
        digits.push('0');
        proof {
            assert(digits@.reverse() =~= seq!['0']);
        }
    }
    proof {
        if m > 0 {
            assert(digits@.reverse() =~= Seq::<char>::empty());
        }
    }
    while m > 0
        invariant
            spec_dec(n as nat) == if m > 0 {
                spec_dec(m as nat) + digits@.reverse()
            } else {
                digits@.reverse()
            },
        decreases m,
    {
        let d = digit_char(m % 10);
        let ghost pre = digits@;
        digits.push(d);
        proof {
            assert(digits@.reverse() =~= seq![d] + pre.reverse());
            if m >= 10 {
                assert(spec_dec(m as nat) == spec_dec((m / 10) as nat).push(
                    spec_digit_char((m % 10) as nat),
                ));
                assert(spec_dec((m / 10) as nat).push(d) + pre.reverse() =~= spec_dec(
                    (m / 10) as nat,
                ) + digits@.reverse());
            } else {
                assert(spec_dec(m as nat) =~= seq![d]);
                assert(seq![d] + pre.reverse() =~= digits@.reverse());
            }
        }
        m = m / 10;
    }
    let len = digits.len();
    let mut r = String::new();
    let mut i: usize = 0;
    while i < len
        invariant
            i <= len,
            len == digits@.len(),
            r@ == digits@.reverse().subrange(0, i as int),
        decreases len - i,
    {
        push_char(&mut r, digits[len - 1 - i]);
        proof {
            assert(r@ =~= digits@.reverse().subrange(0, i + 1));
        }
        i = i + 1;
    }
    proof {
        assert(r@ =~= digits@.reverse());
    }
    r
}

/// The end of the maximal run of ASCII decimal digits starting at `i`.
pub open spec fn spec_digit_run(s: Seq<char>, i: int) -> int
    decreases s.len() - i,
{
    if 0 <= i && i < s.len() && spec_is_digit(s[i]) {
        spec_digit_run(s, i + 1)
    } else {
        i
    }
}

/// The value of the decimal digits `s[i..j]`, most significant first.
pub open spec fn spec_digits_value(s: Seq<char>, i: int, j: int) -> nat
    decreases j - i,
{
    if j <= i {
        0
    } else {
        spec_digits_value(s, i, j - 1) * 10 + spec_digit_val(s[j - 1])
    }
}

/// Whether every character of `s[i..j]` is an ASCII decimal digit.
pub open spec fn spec_all_digits(s: Seq<char>, i: int, j: int) -> bool {
    forall|k: int| i <= k < j ==> spec_is_digit(s[k])
}

/// What `str::parse::<u32>` accepts: an optional leading '+', then at least
/// one decimal digit, the whole value fitting in 32 bits.
pub open spec fn spec_parse_u32(s: Seq<char>) -> Option<u32> {
    let start: int = if s.len() > 0 && s[0] == '+' {
        1
    } else {
        0
    };
    if s.len() > start && spec_all_digits(s, start, s.len() as int) && spec_digits_value(
        s,
        start,
        s.len() as int,
    ) <= u32::MAX {
        Some(spec_digits_value(s, start, s.len() as int) as u32)
    } else {
        None
    }
}

/// Parses `s` as `str::parse::<u32>` does, `None` where it would fail.
pub fn parse_u32(s: &str) -> (r: Option<u32>)
    ensures
        r == spec_parse_u32(s@),
{
    let v = chars_of(s);
    let len = v.len();
    let start: usize = if len > 0 && v[0] == '+' {
        1
    } else {
        0
    };
    if len == start {
        return None;
    }
    let cap: u64 = 0x1_0000_0000;
    let mut acc: u64 = 0;
    let mut k: usize = start;
    while k < len
        invariant
            start <= k <= len,
            len == s@.len(),
            v@ == s@,
            start as int == (if s@.len() > 0 && s@[0] == '+' {
                1int
            } else {
                0int
            }),
            cap == 0x1_0000_0000,
            spec_all_digits(s@, start as int, k as int),
            if spec_digits_value(s@, start as int, k as int) <= u32::MAX {
                acc == spec_digits_value(s@, start as int, k as int)
            } else {
                acc == cap
            },
        decreases len - k,
    {
        let c = v[k];
        if !is_digit(c) {
            proof {
                assert(!spec_is_digit(s@[k as int]));
                assert(!spec_all_digits(s@, start as int, s@.len() as int));
            }
            return None;
        }
        let d = digit_val(c);
        proof {
            let old_v = spec_digits_value(s@, start as int, k as int);
            assert(spec_digits_value(s@, start as int, k + 1) == old_v * 10 + spec_digit_val(c));
            if old_v > u32::MAX {
                assert(old_v * 10 >= old_v);
            }
        }
        if acc <= 0xffff_ffff {
            acc = acc * 10 + (d as u64);
            if acc > 0xffff_ffff {
                acc = cap;
            }
        }
        k = k + 1;
    }
    if acc <= 0xffff_ffff {
        Some(acc as u32)
    } else {
        None
    }
}

} // verus!
