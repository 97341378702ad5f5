//! Character classes of the surface syntax, decimal numerals, and the few
//! string operations the rest of the crate builds on.

use vstd::prelude::*;

verus! {

/// Blank characters, which may stand between the words of a text.
pub open spec fn spec_is_space(c: char) -> bool {
    c == ' ' || c == '\n' || c == '\t' || c == '\r'
}

/// Whether `c` is a blank character.
#[verifier::when_used_as_spec(spec_is_space)]
pub fn is_space(c: char) -> (b: bool)
    ensures
        b == spec_is_space(c),
{
    c == ' ' || c == '\n' || c == '\t' || c == '\r'
}

/// The decimal digits.
pub open spec fn spec_is_digit(c: char) -> bool {
    '0' <= c && c <= '9'
}

/// Whether `c` is a decimal digit.
#[verifier::when_used_as_spec(spec_is_digit)]
pub fn is_digit(c: char) -> (b: bool)
    ensures
        b == spec_is_digit(c),
{
    '0' <= c && c <= '9'
}

/// The upper-case letters `A` to `Z`.
pub open spec fn spec_is_upper(c: char) -> bool {
    'A' <= c && c <= 'Z'
}

/// Whether `c` is an upper-case letter.
#[verifier::when_used_as_spec(spec_is_upper)]
pub fn is_upper(c: char) -> (b: bool)
    ensures
        b == spec_is_upper(c),
{
    'A' <= c && c <= 'Z'
}

/// The lower-case letters `a` to `z`.
pub open spec fn spec_is_lower(c: char) -> bool {
    'a' <= c && c <= 'z'
}

/// Whether `c` is a lower-case letter.
#[verifier::when_used_as_spec(spec_is_lower)]
pub fn is_lower(c: char) -> (b: bool)
    ensures
        b == spec_is_lower(c),
{
    'a' <= c && c <= 'z'
}

/// Characters an identifier is made of: letters, digits, `_` and `.`.
pub open spec fn spec_is_name_char(c: char) -> bool {
    spec_is_upper(c) || spec_is_lower(c) || spec_is_digit(c) || c == '_' || c == '.'
}

/// Whether `c` can stand in an identifier.
#[verifier::when_used_as_spec(spec_is_name_char)]
pub fn is_name_char(c: char) -> (b: bool)
    ensures
        b == spec_is_name_char(c),
{
    is_upper(c) || is_lower(c) || is_digit(c) || c == '_' || c == '.'
}

/// Characters that can begin the symbol of a binary operator.
pub open spec fn spec_is_oper_char(c: char) -> bool {
    c == '+' || c == '-' || c == '*' || c == '/' || c == '%' || c == '&' || c == '|' || c == '^'
        || c == '<' || c == '>' || c == '=' || c == '!'
}

/// Whether `c` can begin the symbol of a binary operator.
#[verifier::when_used_as_spec(spec_is_oper_char)]
pub fn is_oper_char(c: char) -> (b: bool)
    ensures
        b == spec_is_oper_char(c),
{
    c == '+' || c == '-' || c == '*' || c == '/' || c == '%' || c == '&' || c == '|' || c == '^'
        || c == '<' || c == '>' || c == '=' || c == '!'
}

/// The numeral for a single decimal digit.
pub open spec fn digit_char(d: int) -> char {
    if d == 0 {
        '0'
    } else if d == 1 {
        '1'
    } else if d == 2 {
        '2'
    } else if d == 3 {
        '3'
    } else if d == 4 {
        '4'
    } else if d == 5 {
        '5'
    } else if d == 6 {
        '6'
    } else if d == 7 {
        '7'
    } else if d == 8 {
        '8'
    } else {
        '9'
    }
}

/// The value of a decimal digit.
pub open spec fn digit_value(c: char) -> int {
    c as int - '0' as int
}

/// The decimal numeral of `n`, without leading zeros.
pub open spec fn decimal(n: nat) -> Seq<char>
    decreases n,
{
    if n < 10 {
        seq![digit_char(n as int)]
    } else {
        decimal(n / 10).push(digit_char((n % 10) as int))
    }
}

/// Every character of `s` is a decimal digit.
pub open spec fn all_digits(s: Seq<char>) -> bool {
    forall|i: int| 0 <= i < s.len() ==> spec_is_digit(#[trigger] s[i])
}

/// The number that the digits of `s` denote in base ten.
pub open spec fn decimal_value(s: Seq<char>) -> nat
    decreases s.len(),
{
    if s.len() == 0 {
        0
    } else {
        (decimal_value(s.drop_last()) * 10 + digit_value(s.last())) as nat
    }
}

/// The number a numeral stands for: it must be a non-empty run of decimal
/// digits whose value fits in 64 bits.
pub open spec fn number_of(s: Seq<char>) -> Option<u64> {
    if s.len() > 0 && all_digits(s) && decimal_value(s) <= u64::MAX {
        Some(decimal_value(s) as u64)
    } else {
        None
    }
}

/// A numeral written by `decimal` consists of digits only and denotes the
/// number it was written for.
pub proof fn lemma_decimal_value(n: nat)
    ensures
        decimal(n).len() > 0,
        all_digits(decimal(n)),
        decimal_value(decimal(n)) == n,
        spec_is_digit(decimal(n)[0]),
    decreases n,
{
    if n < 10 {
        let s = decimal(n);
        assert(s.drop_last() =~= Seq::<char>::empty());
        assert(decimal_value(s.drop_last()) == 0);
    } else {
        lemma_decimal_value(n / 10);
        let p = decimal(n / 10);
        let s = decimal(n);
        assert(s.drop_last() =~= p);
        assert(s.last() == digit_char((n % 10) as int));
        assert forall|i: int| 0 <= i < s.len() implies spec_is_digit(#[trigger] s[i]) by {
            if i < p.len() {
                assert(s[i] == p[i]);
            }
        }
    }
}

/// The value of a run of digits is at least the value of each of its prefixes.
pub proof fn lemma_decimal_value_prefix(s: Seq<char>, k: int)
    requires
        all_digits(s),
        0 <= k <= s.len(),
    ensures
        decimal_value(s.take(k)) <= decimal_value(s),
    decreases s.len(),
{
    if k == s.len() {
        assert(s.take(k) =~= s);
    } else {
        let t = s.drop_last();
        assert(all_digits(t)) by {
            assert forall|i: int| 0 <= i < t.len() implies spec_is_digit(#[trigger] t[i]) by {
                assert(t[i] == s[i]);
            }
        }
        lemma_decimal_value_prefix(t, k);
        assert(t.take(k) =~= s.take(k));
        assert(spec_is_digit(s[s.len() - 1]));
    }
}

/// Appends one character to a string.
///
/// Stands for `String::push`: the string afterwards is the string before with
/// `c` added at its end.
#[verifier::external_body]
pub(crate) fn push_char(s: &mut String, c: char)
    ensures
        final(s)@ == old(s)@.push(c),
{
    s.push(c)
}

/// Whether `n` is a Unicode scalar value, the numbers that a `char` can hold.
pub open spec fn is_scalar_value(n: int) -> bool {
    (0 <= n <= 0xD7FF) || (0xE000 <= n <= 0x10FFFF)
}

/// The code of a character.
pub open spec fn spec_char_code(c: char) -> u64 {
    (c as u32) as u64
}

/// The code of a character.
#[verifier::when_used_as_spec(spec_char_code)]
pub fn char_code(c: char) -> (n: u64)
    ensures
        n == spec_char_code(c),
{
    (c as u32) as u64
}

/// The character with code `n`, for the codes that characters have.
pub open spec fn code_char(n: u64) -> char {
    (n as u32) as char
}

/// The code of a character is a Unicode scalar value, and the character with
/// that code is the character itself.
pub proof fn lemma_char_code(c: char)
    ensures
        is_scalar_value(spec_char_code(c) as int),
        code_char(spec_char_code(c)) == c,
{
    vstd::utf8::char_is_scalar(c);
    vstd::utf8::char_u32_cast(c, c as u32);
}

/// The character of a Unicode scalar value has that value for its code.
pub proof fn lemma_code_char(n: u64)
    requires
        is_scalar_value(n as int),
    ensures
        spec_char_code(code_char(n)) == n,
{
}

/// The character with code `n`, if there is one.
///
/// Stands for `char::from_u32`, which gives the character exactly for the
/// Unicode scalar values and nothing for any other number.
#[verifier::external_body]
pub(crate) fn char_of_code(n: u32) -> (r: Option<char>)
    ensures
        is_scalar_value(n as int) ==> r == Some(n as char),
        !is_scalar_value(n as int) ==> r is None,
{
    char::from_u32(n)
}

/// The numeral of one decimal digit.
pub fn digit_to_char(d: u64) -> (c: char)
    requires
        d < 10,
    ensures
        c == digit_char(d as int),
{
    if d == 0 {
        '0'
    } else if d == 1 {
        '1'
    } else if d == 2 {
        '2'
    } else if d == 3 {
        '3'
    } else if d == 4 {
        '4'
    } else if d == 5 {
        '5'
    } else if d == 6 {
        '6'
    } else if d == 7 {
        '7'
    } else if d == 8 {
        '8'
    } else {
        '9'
    }
}

/// Appends the decimal numeral of `n` to `out`.
pub fn push_decimal(out: &mut String, n: u64)
    ensures
        final(out)@ == old(out)@ + decimal(n as nat),
    decreases n,
{
    if n >= 10 {
        push_decimal(out, n / 10);
    }
    push_char(out, digit_to_char(n % 10));
    proof {
        assert(final(out)@ =~= old(out)@ + decimal(n as nat));
    }
}

/// Reads the numeral in `code[from..to]`.
pub fn read_decimal(code: &[char], from: usize, to: usize) -> (r: Option<u64>)
    requires
        from <= to <= code@.len(),
    ensures
        r == number_of(code@.subrange(from as int, to as int)),
{
    let ghost s = code@.subrange(from as int, to as int);
    if from == to {
        return None;
    }
    let mut acc: u64 = 0;
    let mut i: usize = from;
    while i < to
        invariant
            from <= i <= to <= code@.len(),
            s == code@.subrange(from as int, to as int),
            all_digits(s.take(i - from)),
            acc == decimal_value(s.take(i - from)),
        decreases to - i,
    {
        let c = code[i];
        let ghost before = s.take(i - from);
        let ghost after = s.take(i + 1 - from);
        proof {
            assert(after.drop_last() =~= before);
            assert(after.last() == c);
        }
        if !is_digit(c) {
            proof {
                assert(s[i - from] == c);
            }
            return None;
        }
        let d: u64 = (c as u64) - ('0' as u64);
        if acc > (u64::MAX - d) / 10 {
            proof {
                if all_digits(s) {
                    lemma_decimal_value_prefix(s, i + 1 - from);
                }
            }
            return None;
        }
        acc = acc * 10 + d;
        i += 1;
        proof {
            assert forall|j: int| 0 <= j < after.len() implies spec_is_digit(#[trigger] after[j]) by {
                if j < before.len() {
                    assert(after[j] == before[j]);
                }
            }
        }
    }
    proof {
        assert(s.take(to - from) =~= s);
    }
    Some(acc)
}

/// Whether two texts consist of the same characters.
pub fn same_text(a: &str, b: &str) -> (same: bool)
    ensures
        same == (a@ == b@),
{
    let size: usize = b.unicode_len();
    if a.unicode_len() != size {
        return false;
    }
    let mut k: usize = 0;
    while k < size
        invariant
            size == a@.len(),
            size == b@.len(),
            k <= size,
            forall|m: int| 0 <= m < k ==> a@[m] == b@[m],
        decreases size - k,
    {
        if a.get_char(k) != b.get_char(k) {
            return false;
        }
        k += 1;
    }
    proof {
        assert(a@ =~= b@);
    }
    true
}

} // verus!
