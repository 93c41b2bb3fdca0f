//! Decimal numbers in text.

use crate::text::chars_of;
use crate::text::string_of;
use vstd::prelude::*;

verus! {

/// Whether `c` is a decimal digit.
pub open spec fn is_digit(c: char) -> bool {
    '0' <= c <= '9'
}

/// The value of a decimal digit.
pub open spec fn digit_value(c: char) -> nat
    recommends
        is_digit(c),
{
    (c as u32 - '0' as u32) as nat
}

/// The digit of a value below ten.
pub open spec fn digit_char(d: nat) -> char
    recommends
        d < 10,
{
    (('0' as u32 + d) as u32) as char
}

/// Whether `s` is one or more decimal digits.
pub open spec fn is_digits(s: Seq<char>) -> bool {
    s.len() > 0 && forall|i: int| 0 <= i < s.len() ==> is_digit(#[trigger] s[i])
}

/// The number that a run of decimal digits writes; no digits write zero.
pub open spec fn digits_value(s: Seq<char>) -> nat
    decreases s.len(),
{
    if s.len() == 0 {
        0
    } else {
        digits_value(s.drop_last()) * 10 + digit_value(s.last())
    }
}

/// The number that `s` writes without a minus sign: digits, with a plus sign
/// in front or none.
pub open spec fn parsed_nat(s: Seq<char>) -> Option<nat> {
    let body = if s.len() > 0 && s[0] == '+' {
        s.skip(1)
    } else {
        s
    };
    if is_digits(body) {
        Some(digits_value(body))
    } else {
        None
    }
}

/// The number that `s` writes: digits, with a sign in front or none.
pub open spec fn parsed_int(s: Seq<char>) -> Option<int> {
    if s.len() > 0 && s[0] == '-' {
        if is_digits(s.skip(1)) {
            Some(-(digits_value(s.skip(1)) as int))
        } else {
            None
        }
    } else {
        match parsed_nat(s) {
            Some(n) => Some(n as int),
            None => None,
        }
    }
}

/// The shortest run of decimal digits that writes `n`.
pub open spec fn decimal(n: nat) -> Seq<char>
    decreases n,
{
    if n < 10 {
        seq![digit_char(n)]
    } else {
        decimal(n / 10).push(digit_char(n % 10))
    }
}

/// Writing a number in decimal and reading it back gives the number.
pub proof fn law_decimal_reads_back(n: nat)
    ensures
        is_digits(decimal(n)),
        digits_value(decimal(n)) == n,
        parsed_nat(decimal(n)) == Some(n),
        parsed_int(decimal(n)) == Some(n as int),
    decreases n,
{
    if n < 10 {
        assert(decimal(n).drop_last() =~= Seq::<char>::empty());
        assert(digits_value(Seq::<char>::empty()) == 0);
    } else {
        law_decimal_reads_back(n / 10);
        assert(decimal(n).drop_last() == decimal(n / 10));
    }
    assert(is_digit(decimal(n)[0]));
}

/// More digits write no smaller number.
pub proof fn lemma_digits_value_grows(s: Seq<char>, k: int)
    requires
        0 <= k <= s.len(),
    ensures
        digits_value(s.take(k)) <= digits_value(s),
    decreases s.len() - k,
{
    if k == s.len() {
        assert(s.take(k) == s);
    } else {
        lemma_digits_value_grows(s, k + 1);
        assert(s.take(k + 1).drop_last() == s.take(k));
    }
}

/// Whether `c` is a decimal digit.
pub fn char_is_digit(c: char) -> (r: bool)
    ensures
        r == is_digit(c),
{
    '0' <= c && c <= '9'
}

/// Reads the digits of `s` from `from` on; nothing where they are no digits
/// or their number does not fit.
fn parse_digits(s: &[char], from: usize) -> (r: Option<u64>)
    requires
        from <= s@.len(),
    ensures
        r is Some <==> is_digits(s@.skip(from as int)) && digits_value(s@.skip(from as int))
            <= u64::MAX,
        r matches Some(n) ==> n == digits_value(s@.skip(from as int)),
{
    let ghost body = s@.skip(from as int);
    if from == s.len() {
        return None;
    }
    let mut value: u64 = 0;
    let mut i: usize = from;
    assert(body.take(0) =~= Seq::<char>::empty());
    while i < s.len()
        invariant
            from <= i <= s@.len(),
            body == s@.skip(from as int),
            forall|j: int| 0 <= j < i - from ==> is_digit(#[trigger] body[j]),
            value == digits_value(body.take(i - from)),
        decreases s.len() - i,
    {
        let c = s[i];
        assert(body[i - from] == c);
        if !char_is_digit(c) {
            return None;
        }
        let d: u64 = (c as u32 - '0' as u32) as u64;
        assert(body.take(i - from + 1).drop_last() == body.take(i - from));
        proof {
            lemma_digits_value_grows(body, i - from + 1);
        }
        match value.checked_mul(10) {
            Some(tens) => match tens.checked_add(d) {
                Some(next) => {
                    value = next;
                },
                None => {
                    return None;
                },
            },
            None => {
                return None;
            },
        }
        i = i + 1;
    }
    assert(body.take(body.len() as int) == body);
    Some(value)
}

/// Reads an unsigned 64-bit number.
pub fn parse_u64(s: &str) -> (r: Option<u64>)
    ensures
        r is Some <==> (parsed_nat(s@) matches Some(n) && n <= u64::MAX),
        r matches Some(v) ==> parsed_nat(s@) == Some(v as nat),
{
    let text = chars_of(s);
    assert(s@.skip(0) == s@);
    if text.len() > 0 && text[0] == '+' {
        parse_digits(&text, 1)
    } else {
        parse_digits(&text, 0)
    }
}

/// Reads an unsigned 32-bit number.
pub fn parse_u32(s: &str) -> (r: Option<u32>)
    ensures
        r is Some <==> (parsed_nat(s@) matches Some(n) && n <= u32::MAX),
        r matches Some(v) ==> parsed_nat(s@) == Some(v as nat),
{
    match parse_u64(s) {
        Some(n) => if n <= u32::MAX as u64 {
            Some(n as u32)
        } else {
            None
        },
        None => None,
    }
}

/// Reads a signed 64-bit number.
pub fn parse_i64(s: &str) -> (r: Option<i64>)
    ensures
        r is Some <==> (parsed_int(s@) matches Some(n) && i64::MIN <= n <= i64::MAX),
        r matches Some(v) ==> parsed_int(s@) == Some(v as int),
{
    let text = chars_of(s);
    if text.len() > 0 && text[0] == '-' {
        match parse_digits(&text, 1) {
            Some(n) => if n < 0x8000_0000_0000_0000 {
                Some(-(n as i64))
            } else if n == 0x8000_0000_0000_0000 {
                Some(i64::MIN)
            } else {
                None
            },
            None => None,
        }
    } else {
        match parse_u64(s) {
            Some(n) => if n <= i64::MAX as u64 {
                Some(n as i64)
            } else {
                None
            },
            None => None,
        }
    }
}

fn decimal_chars(n: u64) -> (r: Vec<char>)
    ensures
        r@ == decimal(n as nat),
    decreases n,
{
    if n < 10 {
        let mut out: Vec<char> = Vec::new();
        out.push((n as u8 + 48u8) as char);
        assert(out@ =~= decimal(n as nat));
        out
    } else {
        let mut out = decimal_chars(n / 10);
        out.push(((n % 10) as u8 + 48u8) as char);
        out
    }
}

/// Writes a number in decimal.
pub fn u64_to_string(n: u64) -> (r: String)
    ensures
        r@ == decimal(n as nat),
{
    string_of(&decimal_chars(n))
}

// ---------------------------------------------------------------------------
// Laws
// ---------------------------------------------------------------------------

/// A number is written without zeros in front.
pub proof fn law_decimals_are_short(n: nat)
    ensures
        n > 0 ==> decimal(n)[0] != '0',
        n == 0 ==> decimal(n) == seq!['0'],
    decreases n,
{
    law_decimal_reads_back(n);
    if n == 0 {
        assert(decimal(n) =~= seq!['0']);
    } else if n >= 10 {
        law_decimals_are_short(n / 10);
        law_decimal_reads_back(n / 10);
        assert(decimal(n)[0] == decimal(n / 10)[0]);
    }
}

/// A number is read whatever sign stands in front of it: a minus turns it
/// round, a plus changes nothing, and an unsigned number takes no minus.
pub proof fn law_signs_are_read(n: nat)
    ensures
        parsed_int(seq!['-'] + decimal(n)) == Some(-(n as int)),
        parsed_int(seq!['+'] + decimal(n)) == Some(n as int),
        parsed_nat(seq!['+'] + decimal(n)) == Some(n),
        parsed_nat(seq!['-'] + decimal(n)) is None,
{
    law_decimal_reads_back(n);
    let minus = seq!['-'] + decimal(n);
    let plus = seq!['+'] + decimal(n);
    assert(minus.skip(1) =~= decimal(n));
    assert(plus.skip(1) =~= decimal(n));
    assert(!is_digit(minus[0]));
}

/// A zero in front changes no number.
pub proof fn law_leading_zeros_count_nothing(s: Seq<char>)
    ensures
        digits_value(seq!['0'] + s) == digits_value(s),
    decreases s.len(),
{
    let t = seq!['0'] + s;
    if s.len() == 0 {
        assert(t.drop_last() =~= s);
    } else {
        law_leading_zeros_count_nothing(s.drop_last());
        assert(t.drop_last() =~= seq!['0'] + s.drop_last());
    }
}

/// Exactly the texts of decimal digits, with a sign in front or none, are
/// numbers; blanks, points and letters make no number.
pub proof fn law_only_digits_are_numbers(s: Seq<char>)
    ensures
        parsed_int(s) is Some <==> {
            let from: int = if s.len() > 0 && (s[0] == '+' || s[0] == '-') {
                1
            } else {
                0
            };
            from < s.len() && forall|i: int| from <= i < s.len() ==> '0' <= #[trigger] s[i] <= '9'
        },
        parsed_nat(s) is Some <==> parsed_int(s) is Some && s[0] != '-',
{
    let from: int = if s.len() > 0 && (s[0] == '+' || s[0] == '-') {
        1
    } else {
        0
    };
    let body = s.skip(from);
    assert(s.skip(0) =~= s);
    if from < s.len() && forall|i: int| from <= i < s.len() ==> '0' <= #[trigger] s[i] <= '9' {
        assert forall|i: int| 0 <= i < body.len() implies is_digit(#[trigger] body[i]) by {
            assert(s[i + from] == body[i]);
        }
    }
    if is_digits(body) {
        assert forall|i: int| from <= i < s.len() implies '0' <= #[trigger] s[i] <= '9' by {
            assert(is_digit(body[i - from]));
        }
    }
}

/// Each further digit counts ten times what stands in front of it, and itself;
/// a number of one digit is that digit.
pub proof fn law_each_digit_counts(s: Seq<char>, c: char)
    requires
        '0' <= c <= '9',
    ensures
        parsed_int(seq![c]) == Some(c as int - '0' as int),
        parsed_int(s) is Some ==> parsed_int(s.push(c)) == Some(
            if s[0] == '-' {
                10 * parsed_int(s)->0 - (c as int - '0' as int)
            } else {
                10 * parsed_int(s)->0 + (c as int - '0' as int)
            },
        ),
        parsed_nat(s) matches Some(n) ==> parsed_int(s) == Some(n as int),
{
    let one = seq![c];
    assert(one.drop_last() =~= Seq::<char>::empty());
    assert(digits_value(one.drop_last()) == 0);
    assert(is_digits(one));
    if parsed_int(s) is Some {
        let from: int = if s[0] == '-' || s[0] == '+' {
            1
        } else {
            0
        };
        let body = s.skip(from);
        assert(s.skip(0) =~= s);
        let more = body.push(c);
        let t = s.push(c);
        assert(t.skip(from) =~= more);
        assert(t.skip(0) =~= t);
        assert(more.drop_last() =~= body);
        assert forall|i: int| 0 <= i < more.len() implies is_digit(#[trigger] more[i]) by {
            if i < body.len() {
                assert(more[i] == body[i]);
            }
        }
    }
}

} // verus!
