//! Decimal digits: parsing and formatting with exact specifications.
use vstd::prelude::*;
use crate::text::{char_is_digit, from_chars, is_digit};

verus! {

/// Value of an ASCII digit.
pub open spec fn digit_value(c: char) -> nat {
    ((c as u32) - ('0' as u32)) as nat
}

/// The character for a digit value below ten.
pub open spec fn digit_char(d: nat) -> char {
    ((d + ('0' as u32)) as u32) as char
}

/// Every character is an ASCII digit.
pub open spec fn all_digits(s: Seq<char>) -> bool {
    forall|i: int| 0 <= i < s.len() ==> is_digit(#[trigger] s[i])
}

/// The number that a string of digits denotes (most significant first).
pub open spec fn digits_value(s: Seq<char>) -> nat
    decreases s.len(),
{
    if s.len() == 0 {
        0
    } else {
        digits_value(s.drop_last()) * 10 + digit_value(s.last())
    }
}

/// What `str::parse` gives for an unsigned integer type, before the range
/// check: an optional `+` sign followed by at least one digit.
pub open spec fn spec_parse_unsigned(s: Seq<char>) -> Option<nat> {
    let body = if s.len() > 0 && s[0] == '+' {
        s.drop_first()
    } else {
        s
    };
    if body.len() > 0 && all_digits(body) {
        Some(digits_value(body))
    } else {
        None
    }
}

/// The shortest decimal notation of `n`.
pub open spec fn decimal(n: nat) -> Seq<char>
    decreases n,
{
    if n < 10 {
        seq![digit_char(n)]
    } else {
        decimal(n / 10).push(digit_char(n % 10))
    }
}

/// `s` left-padded with zeros to at least `width` characters.
pub open spec fn zero_pad(s: Seq<char>, width: nat) -> Seq<char> {
    if s.len() >= width {
        s
    } else {
        Seq::new((width - s.len()) as nat, |i: int| '0') + s
    }
}

proof fn lemma_digits_value_push(s: Seq<char>, c: char)
    ensures
        digits_value(s.push(c)) == digits_value(s) * 10 + digit_value(c),
{
    assert(s.push(c).drop_last() =~= s);
}

/// The value of a digit string.
pub fn parse_digits_u128(s: &[char]) -> (r: Option<u128>)
    requires
        all_digits(s@),
    ensures
        r matches Some(v) ==> v == digits_value(s@) && v <= u64::MAX,
        r is None ==> digits_value(s@) > u64::MAX,
{
    let mut acc: u128 = 0;
    let mut i: usize = 0;
    while i < s.len()
        invariant
            i <= s@.len(),
            all_digits(s@),
            acc == digits_value(s@.subrange(0, i as int)),
            acc <= u64::MAX,
        decreases s@.len() - i,
    {
        let c = s[i];
        let d = ((c as u32) - ('0' as u32)) as u128;
        proof {
            assert(is_digit(s@[i as int]));
            lemma_digits_value_push(s@.subrange(0, i as int), c);
            assert(s@.subrange(0, i + 1) =~= s@.subrange(0, i as int).push(c));
        }
        let next = acc * 10 + d;
        if next > u64::MAX as u128 {
            proof {
                lemma_digits_value_prefix_grows(s@, i as int + 1);
            }
            return None;
        }
        acc = next;
        i += 1;
    }
    proof {
        assert(s@.subrange(0, s@.len() as int) =~= s@);
    }
    Some(acc)
}

/// A longer digit prefix never denotes a smaller number.
proof fn lemma_digits_value_prefix_grows(s: Seq<char>, k: int)
    requires
        0 <= k <= s.len(),
        all_digits(s),
    ensures
        digits_value(s.subrange(0, k)) <= digits_value(s),
    decreases s.len() - k,
{
    if k < s.len() {
        lemma_digits_value_prefix_grows(s, k + 1);
        let p = s.subrange(0, k);
        let c = s[k];
        assert(s.subrange(0, k + 1) =~= p.push(c));
        lemma_digits_value_push(p, c);
    } else {
        assert(s.subrange(0, k) =~= s);
    }
}

/// `str::parse::<u64>` on a character sequence.
pub fn parse_u64(s: &[char]) -> (r: Option<u64>)
    ensures
        r matches Some(v) ==> spec_parse_unsigned(s@) == Some(v as nat),
        r is None ==> (spec_parse_unsigned(s@) is None || spec_parse_unsigned(s@)->0 > u64::MAX),
{
    let start: usize = if s.len() > 0 && s[0] == '+' { 1 } else { 0 };
    if start >= s.len() {
        return None;
    }
    let mut i = start;
    while i < s.len()
        invariant
            start <= i <= s@.len(),
            start == (if s@.len() > 0 && s@[0] == '+' { 1usize } else { 0usize }),
            forall|j: int| start <= j < i ==> is_digit(#[trigger] s@[j]),
        decreases s@.len() - i,
    {
        if !char_is_digit(s[i]) {
            proof {
                let body = s@.subrange(start as int, s@.len() as int);
                assert(body[i - start] == s@[i as int]);
                if start == 1 {
                    assert(body =~= s@.drop_first());
                } else {
                    assert(body =~= s@);
                }
            }
            return None;
        }
        i += 1;
    }
    let body = slice_from(s, start);
    proof {
        if start == 1 {
            assert(body@ =~= s@.drop_first());
        } else {
            assert(body@ =~= s@);
        }
        assert(all_digits(body@)) by {
            assert forall|j: int| 0 <= j < body@.len() implies is_digit(#[trigger] body@[j]) by {
                assert(body@[j] == s@[j + start]);
            }
        }
    }
    match parse_digits_u128(&body) {
        Some(v) => Some(v as u64),
        None => None,
    }
}

/// The characters of `s` from index `start` on.
pub fn slice_from(s: &[char], start: usize) -> (r: Vec<char>)
    requires
        start <= s@.len(),
    ensures
        r@ == s@.subrange(start as int, s@.len() as int),
{
    slice_range(s, start, s.len())
}

/// The characters of `s` in `[start, end)`.
pub fn slice_range(s: &[char], start: usize, end: usize) -> (r: Vec<char>)
    requires
        start <= end <= s@.len(),
    ensures
        r@ == s@.subrange(start as int, end as int),
{
    let mut out: Vec<char> = Vec::new();
    let mut i = start;
    while i < end
        invariant
            start <= i <= end,
            end <= s@.len(),
            out@ == s@.subrange(start as int, i as int),
        decreases end - i,
    {
        out.push(s[i]);
        proof {
            assert(s@.subrange(start as int, i + 1) =~= s@.subrange(start as int, i as int).push(
                s@[i as int],
            ));
        }
        i += 1;
    }
    out
}

/// The decimal digits of `n`.
pub fn decimal_chars(n: u64) -> (r: Vec<char>)
    ensures
        r@ == decimal(n as nat),
    decreases n,
{
    let d = ((n % 10) as u32 + ('0' as u32)) as u8 as char;
    proof {
        assert(d == digit_char((n % 10) as nat));
    }
    if n < 10 {
        let mut v = Vec::new();
        v.push(d);
        proof {
            assert(v@ =~= seq![digit_char(n as nat)]);
        }
        v
    } else {
        let mut v = decimal_chars(n / 10);
        v.push(d);
        v
    }
}

/// `format!("{}", n)`.
pub fn format_u64(n: u64) -> (r: String)
    ensures
        r@ == decimal(n as nat),
{
    let v = decimal_chars(n);
    from_chars(&v)
}

/// `format!("{:0width$}", n)` for an unsigned number.
pub fn format_u64_padded(n: u64, width: usize) -> (r: Vec<char>)
    ensures
        r@ == zero_pad(decimal(n as nat), width as nat),
{
    let digits = decimal_chars(n);
    if digits.len() >= width {
        return digits;
    }
    let mut out: Vec<char> = Vec::new();
    let pad = width - digits.len();
    let mut i: usize = 0;
    while i < pad
        invariant
            i <= pad,
            out@ == Seq::new(i as nat, |k: int| '0'),
        decreases pad - i,
    {
        out.push('0');
        proof {
            assert(out@ =~= Seq::new((i + 1) as nat, |k: int| '0'));
        }
        i += 1;
    }
    let mut j: usize = 0;
    while j < digits.len()
        invariant
            j <= digits@.len(),
            pad == width - digits@.len(),
            out@ == Seq::new(pad as nat, |k: int| '0') + digits@.subrange(0, j as int),
        decreases digits@.len() - j,
    {
        out.push(digits[j]);
        proof {
            assert(digits@.subrange(0, j + 1) =~= digits@.subrange(0, j as int).push(
                digits@[j as int],
            ));
        }
        j += 1;
    }
    proof {
        assert(digits@.subrange(0, digits@.len() as int) =~= digits@);
    }
    out
}

/// The decimal text of an integer, with a leading `-` when negative.
pub open spec fn int_decimal(n: int) -> Seq<char> {
    if n < 0 {
        seq!['-'] + decimal((-n) as nat)
    } else {
        decimal(n as nat)
    }
}

/// `i64::to_string`.
pub fn format_i64(n: i64) -> (r: String)
    ensures
        r@ == int_decimal(n as int),
{
    if n < 0 {
        let mag: u64 = (0i128 - (n as i128)) as u64;
        let digits = decimal_chars(mag);
        let mut out = String::new();
        crate::text::push_char(&mut out, '-');
        crate::text::push_chars(&mut out, &digits);
        proof {
            assert(out@ =~= seq!['-'] + decimal((-n) as nat));
        }
        out
    } else {
        format_u64(n as u64)
    }
}

} // verus!
