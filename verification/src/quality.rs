//! Weights of preference: decimal numbers from nothing to one, counted in
//! parts of which one has ten to the power of thirty-eight. What is less than a
//! part, but not nothing, counts as one.

use crate::numbers::char_is_digit;
use crate::numbers::digits_value;
use crate::numbers::is_digit;
use crate::numbers::is_digits;
use crate::numbers::lemma_digits_value_grows;
use crate::numbers::parsed_int;
use crate::text::lower;
use crate::text::lower_chars;
use crate::text::split;
use crate::text::split_chars;
use crate::text::sub_chars;
use vstd::prelude::*;

verus! {

/// The parts of which the weight one has.
pub const ONE: u128 = 100_000_000_000_000_000_000_000_000_000_000_000_000;

/// A tenth of the weight one.
const TENTH: u128 = 10_000_000_000_000_000_000_000_000_000_000_000_000;

/// An exponent beyond which a weight is nothing or too large, whatever its
/// digits.
const EXPONENT_CAP: i128 = 1_000_000_000_000_000_000_000_000_000_000;

/// Ten to the power of `n`.
pub open spec fn pow10(n: nat) -> nat
    decreases n,
{
    if n == 0 {
        1
    } else {
        10 * pow10((n - 1) as nat)
    }
}

/// The whole part of the number that `digits` write, shifted by `shift`
/// decimal places.
pub open spec fn scaled(digits: Seq<char>, shift: int) -> nat {
    if shift >= 0 {
        digits_value(digits) * pow10(shift as nat)
    } else if -shift >= digits.len() {
        0
    } else {
        digits_value(digits.take(digits.len() + shift))
    }
}

/// The digits of a decimal number without a sign, and how many places they
/// are shifted: digits with a point among them or none, and an exponent behind
/// them or none.
pub open spec fn decimal_parts(s: Seq<char>) -> Option<(Seq<char>, int)> {
    let halves = split(lower(s), 'e');
    let exponent = if halves.len() == 1 {
        Some(0int)
    } else if halves.len() == 2 {
        parsed_int(halves[1])
    } else {
        None
    };
    let pieces = split(halves[0], '.');
    let fraction = if pieces.len() == 2 {
        pieces[1]
    } else {
        Seq::empty()
    };
    let digits = pieces[0] + fraction;
    match exponent {
        Some(e) => if pieces.len() <= 2 && is_digits(digits) {
            Some((digits, e - fraction.len()))
        } else {
            None
        },
        None => None,
    }
}

/// The parts of the number that `digits` write, shifted by `shift` decimal
/// places. A number above nothing has at least one part.
pub open spec fn parts_of(digits: Seq<char>, shift: int) -> nat {
    let whole = scaled(digits, shift + 38);
    if whole == 0 && digits_value(digits) > 0 {
        1
    } else {
        whole
    }
}

/// A text without the sign in front of it.
pub open spec fn unsigned(s: Seq<char>) -> Seq<char> {
    if s.len() > 0 && (s[0] == '-' || s[0] == '+') {
        s.skip(1)
    } else {
        s
    }
}

/// The weight that a text writes, in parts. None where it writes no number
/// from nothing to one.
pub open spec fn quality(s: Seq<char>) -> Option<nat> {
    match decimal_parts(unsigned(s)) {
        Some((digits, shift)) => {
            let parts = parts_of(digits, shift);
            if parts > ONE || (s[0] == '-' && parts > 0) {
                None
            } else {
                Some(parts)
            }
        },
        None => None,
    }
}

proof fn lemma_pow10_positive(n: nat)
    ensures
        pow10(n) >= 1,
        n >= 1 ==> pow10(n) >= 10,
    decreases n,
{
    if n > 0 {
        lemma_pow10_positive((n - 1) as nat);
    }
}

/// The number that the first `n` digits write, if it is at most one.
fn capped_value(digits: &[char], n: usize) -> (r: Option<u128>)
    requires
        n <= digits@.len(),
        forall|i: int| 0 <= i < n ==> is_digit(#[trigger] digits@[i]),
    ensures
        match r {
            Some(v) => v == digits_value(digits@.take(n as int)) && v <= ONE,
            None => digits_value(digits@.take(n as int)) > ONE,
        },
{
    let ghost all = digits@.take(n as int);
    let mut value: u128 = 0;
    let mut i: usize = 0;
    assert(all.take(0) =~= Seq::<char>::empty());
    while i < n
        invariant
            i <= n,
            n <= digits@.len(),
            all == digits@.take(n as int),
            forall|j: int| 0 <= j < n ==> is_digit(#[trigger] digits@[j]),
            value == digits_value(all.take(i as int)),
            value <= ONE,
        decreases n - i,
    {
        let c = digits[i];
        assert(is_digit(digits@[i as int]));
        let d: u128 = (c as u32 - '0' as u32) as u128;
        assert(all.take(i as int + 1).drop_last() =~= all.take(i as int));
        assert(all.take(i as int + 1).last() == c);
        assert(digits_value(all.take(i as int + 1)) == value * 10 + d);
        proof {
            lemma_digits_value_grows(all, i as int + 1);
        }
        if value > TENTH {
            return None;
        }
        value = value * 10 + d;
        if value > ONE {
            return None;
        }
        i = i + 1;
    }
    assert(all.take(n as int) =~= all);
    Some(value)
}

/// A number with `places` zeros behind it, if it is at most one.
fn shifted(value: u128, places: i128) -> (r: Option<u128>)
    requires
        value <= ONE,
        places >= 0,
    ensures
        match r {
            Some(v) => v == value * pow10(places as nat) && v <= ONE,
            None => value * pow10(places as nat) > ONE,
        },
{
    if value == 0 {
        return Some(0);
    }
    let mut v: u128 = value;
    let mut left: i128 = places;
    while left > 0
        invariant
            0 <= left <= places,
            1 <= v <= ONE,
            value * pow10(places as nat) == v * pow10(left as nat),
        decreases left,
    {
        proof {
            lemma_pow10_positive((left - 1) as nat);
            let p = pow10((left - 1) as nat);
            assert(pow10(left as nat) == 10 * p);
            assert(v * (10 * p) == (v * 10) * p) by (nonlinear_arith);
            assert((v * 10) * p >= v * 10) by (nonlinear_arith)
                requires
                    p >= 1,
                    v >= 0,
            ;
        }
        if v > TENTH {
            return None;
        }
        v = v * 10;
        left = left - 1;
    }
    assert(v * pow10(0) == v) by (nonlinear_arith)
        requires
            pow10(0) == 1,
    ;
    Some(v)
}

/// The whole part of a shifted number, if it is at most one.
fn scale(digits: &[char], shift: i128) -> (r: Option<u128>)
    requires
        is_digits(digits@),
        i128::MIN < shift,
    ensures
        match r {
            Some(v) => v == scaled(digits@, shift as int) && v <= ONE,
            None => scaled(digits@, shift as int) > ONE,
        },
{
    if shift >= 0 {
        assert(digits@.take(digits@.len() as int) =~= digits@);
        match capped_value(digits, digits.len()) {
            Some(v) => shifted(v, shift),
            None => {
                proof {
                    lemma_pow10_positive(shift as nat);
                    let d = digits_value(digits@);
                    let p = pow10(shift as nat);
                    assert(d * p >= d) by (nonlinear_arith)
                        requires
                            p >= 1,
                            d >= 0,
                    ;
                }
                None
            },
        }
    } else if -shift >= digits.len() as i128 {
        Some(0)
    } else {
        let n: usize = digits.len() - ((-shift) as usize);
        capped_value(digits, n)
    }
}

/// Whether `shown` stands for the exponent `e`: it is that exponent, or both
/// are beyond the cap on the same side.
spec fn stands_for(shown: i128, e: int) -> bool {
    ||| shown == e && -EXPONENT_CAP <= e <= EXPONENT_CAP
    ||| shown == EXPONENT_CAP && e > EXPONENT_CAP
    ||| shown == -EXPONENT_CAP && e < -EXPONENT_CAP
}

/// The exponent that a text writes, kept within the cap.
fn parse_exponent(s: &[char]) -> (r: Option<i128>)
    ensures
        match r {
            Some(e) => parsed_int(s@) is Some && stands_for(e, parsed_int(s@)->0),
            None => parsed_int(s@) is None,
        },
{
    let signed = s.len() > 0 && (s[0] == '-' || s[0] == '+');
    let negative = s.len() > 0 && s[0] == '-';
    let from: usize = if signed {
        1
    } else {
        0
    };
    let ghost body = s@.skip(from as int);
    assert(s@.skip(0) =~= s@);
    if from == s.len() {
        return None;
    }
    let mut value: i128 = 0;
    let mut i: usize = from;
    assert(body.take(0) =~= Seq::<char>::empty());
    while i < s.len()
        invariant
            from <= i <= s@.len(),
            body == s@.skip(from as int),
            from == (if s@.len() > 0 && (s@[0] == '-' || s@[0] == '+') {
                1int
            } else {
                0
            }),
            s@.skip(0) == s@,
            forall|j: int| 0 <= j < i - from ==> is_digit(#[trigger] body[j]),
            0 <= value <= EXPONENT_CAP,
            value == digits_value(body.take(i - from)) || (value == EXPONENT_CAP && digits_value(
                body.take(i - from),
            ) > EXPONENT_CAP),
        decreases s.len() - i,
    {
        let c = s[i];
        assert(body[i - from] == c);
        if !char_is_digit(c) {
            assert(!is_digits(body));
            return None;
        }
        let d: i128 = (c as u32 - '0' as u32) as i128;
        assert(body.take(i - from + 1).drop_last() =~= body.take(i - from));
        assert(digits_value(body.take(i - from + 1)) == digits_value(body.take(i - from)) * 10
            + d);
        if value * 10 + d > EXPONENT_CAP {
            value = EXPONENT_CAP;
        } else {
            value = value * 10 + d;
        }
        i = i + 1;
    }
    assert(body.take(body.len() as int) =~= body);
    assert(is_digits(body));
    if negative {
        Some(-value)
    } else {
        Some(value)
    }
}

/// Beyond the cap the digits alone decide.
proof fn lemma_far_exponent(digits: Seq<char>, shown: i128, e: int, offset: int)
    requires
        is_digits(digits),
        stands_for(shown, e),
        -usize::MAX <= offset <= 38,
        digits.len() <= usize::MAX,
    ensures
        scaled(digits, shown + offset) <= ONE ==> scaled(digits, e + offset) == scaled(
            digits,
            shown + offset,
        ),
        scaled(digits, shown + offset) > ONE ==> scaled(digits, e + offset) > ONE,
{
    let d = digits_value(digits);
    if e > EXPONENT_CAP {
        let a = (shown + offset) as nat;
        let b = (e + offset) as nat;
        if d == 0 {
            assert(d * pow10(a) == 0 && d * pow10(b) == 0) by (nonlinear_arith)
                requires
                    d == 0,
            ;
        } else {
            lemma_pow10_large(a);
            lemma_pow10_large(b);
            let p = pow10(a);
            let q = pow10(b);
            assert(d * p >= p && d * q >= q) by (nonlinear_arith)
                requires
                    d >= 1,
            ;
        }
    }
}

proof fn lemma_pow10_large(n: nat)
    requires
        n >= 39,
    ensures
        pow10(n) > ONE,
    decreases n,
{
    if n == 39 {
        reveal_with_fuel(pow10, 40);
    } else {
        lemma_pow10_large((n - 1) as nat);
    }
}

fn all_digits(s: &[char]) -> (r: bool)
    ensures
        r == is_digits(s@),
{
    if s.len() == 0 {
        return false;
    }
    let mut i: usize = 0;
    while i < s.len()
        invariant
            i <= s@.len(),
            forall|j: int| 0 <= j < i ==> is_digit(#[trigger] s@[j]),
        decreases s.len() - i,
    {
        if !char_is_digit(s[i]) {
            return false;
        }
        i = i + 1;
    }
    true
}

/// Whether digits write a number above nothing.
fn has_value(digits: &[char]) -> (r: bool)
    requires
        is_digits(digits@),
    ensures
        r == (digits_value(digits@) > 0),
{
    let mut i: usize = 0;
    assert(digits@.take(0) =~= Seq::<char>::empty());
    while i < digits.len()
        invariant
            i <= digits@.len(),
            is_digits(digits@),
            digits_value(digits@.take(i as int)) == 0,
        decreases digits.len() - i,
    {
        assert(digits@.take(i as int + 1).drop_last() =~= digits@.take(i as int));
        assert(is_digit(digits@[i as int]));
        if digits[i] != '0' {
            proof {
                lemma_digits_value_grows(digits@, i as int + 1);
            }
            return true;
        }
        i = i + 1;
    }
    assert(digits@.take(digits@.len() as int) =~= digits@);
    false
}

/// Reads a weight.
pub fn parse_quality(s: &[char]) -> (r: Option<u128>)
    ensures
        match r {
            Some(v) => quality(s@) == Some(v as nat) && v <= ONE,
            None => quality(s@) is None,
        },
{
    let signed = s.len() > 0 && (s[0] == '-' || s[0] == '+');
    let from: usize = if signed {
        1
    } else {
        0
    };
    let body = sub_chars(s, from, s.len());
    assert(s@.subrange(from as int, s@.len() as int) =~= s@.skip(from as int));
    assert(s@.skip(0) =~= s@);
    let halves = split_chars(&lower_chars(&body), 'e');
    proof {
        crate::text::lemma_split_non_empty(lower(body@), 'e');
    }
    let exponent: i128 = if halves.len() == 1 {
        0
    } else if halves.len() == 2 {
        match parse_exponent(&halves[1]) {
            Some(e) => e,
            None => {
                return None;
            },
        }
    } else {
        return None;
    };
    let pieces = split_chars(&halves[0], '.');
    proof {
        crate::text::lemma_split_non_empty(halves@[0]@, '.');
    }
    if pieces.len() > 2 {
        return None;
    }
    let mut digits: Vec<char> = sub_chars(&pieces[0], 0, pieces[0].len());
    assert(digits@ =~= pieces@[0]@);
    let mut places: usize = 0;
    if pieces.len() == 2 {
        places = pieces[1].len();
        let mut tail = sub_chars(&pieces[1], 0, pieces[1].len());
        assert(tail@ =~= pieces@[1]@);
        digits.append(&mut tail);
    } else {
        assert(digits@ =~= pieces@[0]@ + Seq::<char>::empty());
    }
    if !all_digits(&digits) {
        return None;
    }
    let offset: i128 = 38 - places as i128;
    let ghost e = if halves@.len() == 1 {
        0int
    } else {
        parsed_int(halves@[1]@)->0
    };
    proof {
        assert(digits.len() <= usize::MAX);
        lemma_far_exponent(digits@, exponent, e, offset as int);
        assert(decimal_parts(body@) == Some((digits@, e - places)));
    }
    match scale(&digits, exponent + offset) {
        Some(whole) => {
            let parts: u128 = if whole == 0 && has_value(&digits) {
                1
            } else {
                whole
            };
            if s[0] == '-' && parts > 0 {
                None
            } else {
                Some(parts)
            }
        },
        None => None,
    }
}

/// A weight is nothing only where the number that is written is nothing,
/// however small it is.
pub proof fn law_small_weights_count(s: Seq<char>)
    requires
        decimal_parts(unsigned(s)) is Some,
    ensures
        quality(s) == Some(0nat) <==> digits_value((decimal_parts(unsigned(s))->0).0) == 0,
{
    let (digits, shift) = decimal_parts(unsigned(s))->0;
    if digits_value(digits) == 0 {
        lemma_nothing_shifted(digits, shift + 38);
    }
}

proof fn lemma_nothing_shifted(digits: Seq<char>, shift: int)
    requires
        is_digits(digits),
        digits_value(digits) == 0,
    ensures
        scaled(digits, shift) == 0,
{
    if shift >= 0 {
        assert(0 * pow10(shift as nat) == 0) by (nonlinear_arith);
    } else if -shift < digits.len() {
        lemma_digits_value_grows(digits, digits.len() + shift);
    }
}

proof fn lemma_digits_below(s: Seq<char>)
    requires
        forall|i: int| 0 <= i < s.len() ==> is_digit(#[trigger] s[i]),
    ensures
        digits_value(s) < pow10(s.len()),
    decreases s.len(),
{
    if s.len() > 0 {
        let front = s.drop_last();
        assert forall|i: int| 0 <= i < front.len() implies is_digit(#[trigger] front[i]) by {
            assert(front[i] == s[i]);
        }
        lemma_digits_below(front);
        assert(is_digit(s[s.len() - 1]));
    }
}

proof fn lemma_pow10_sum(a: nat, b: nat)
    ensures
        pow10(a) * pow10(b) == pow10(a + b),
    decreases b,
{
    if b == 0 {
        assert(pow10(a) * 1 == pow10(a)) by (nonlinear_arith);
    } else {
        lemma_pow10_sum(a, (b - 1) as nat);
        let p = pow10(a);
        let q = pow10((b - 1) as nat);
        assert(p * (10 * q) == 10 * (p * q)) by (nonlinear_arith);
    }
}

proof fn lemma_plain_parts(whole: Seq<char>, fraction: Seq<char>)
    requires
        is_digits(whole),
        forall|i: int| 0 <= i < fraction.len() ==> is_digit(#[trigger] fraction[i]),
    ensures
        decimal_parts(whole) == Some((whole, 0int)),
        decimal_parts(whole.push('.') + fraction) == Some(
            (whole + fraction, -(fraction.len() as int)),
        ),
{
    let s = whole.push('.') + fraction;
    let none = Seq::<char>::empty();
    assert(whole + none =~= whole);
    assert(lower(whole) =~= whole) by {
        assert forall|i: int| 0 <= i < whole.len() implies lower(whole)[i] == whole[i] by {
            assert(is_digit(whole[i]));
        }
    }
    assert(lower(s) =~= s) by {
        assert forall|i: int| 0 <= i < s.len() implies lower(s)[i] == s[i] by {
            if i < whole.len() {
                assert(is_digit(whole[i]));
            } else if i > whole.len() {
                assert(is_digit(fraction[i - whole.len() - 1]));
            }
        }
    }
    assert(!whole.contains('e') && !whole.contains('.')) by {
        if whole.contains('e') {
            assert(is_digit(whole[whole.index_of('e')]));
        }
        if whole.contains('.') {
            assert(is_digit(whole[whole.index_of('.')]));
        }
    }
    assert(!fraction.contains('.')) by {
        if fraction.contains('.') {
            assert(is_digit(fraction[fraction.index_of('.')]));
        }
    }
    assert(!s.contains('e')) by {
        if s.contains('e') {
            let k = s.index_of('e');
            if k < whole.len() {
                assert(is_digit(whole[k]));
            } else if k > whole.len() {
                assert(is_digit(fraction[k - whole.len() - 1]));
            }
        }
    }
    crate::text::lemma_split_without(whole, 'e');
    crate::text::lemma_split_without(whole, '.');
    crate::text::lemma_split_without(s, 'e');
    crate::text::lemma_split_without(fraction, '.');
    crate::text::lemma_split_concat(whole, fraction, '.');
    let digits = whole + fraction;
    assert forall|i: int| 0 <= i < digits.len() implies is_digit(#[trigger] digits[i]) by {
        if i < whole.len() {
            assert(digits[i] == whole[i]);
        } else {
            assert(digits[i] == fraction[i - whole.len()]);
        }
    }
}

proof fn lemma_one_in_parts()
    ensures
        pow10(38) == ONE,
{
    reveal_with_fuel(pow10, 39);
}

/// A weight below one reads as the fraction that its digits write: so many
/// parts of ten to the power of their number.
pub proof fn law_fractions_are_read(fraction: Seq<char>)
    requires
        is_digits(fraction),
        fraction.len() <= 38,
    ensures
        quality(seq!['0', '.'] + fraction) == Some(
            digits_value(fraction) * pow10((38 - fraction.len()) as nat),
        ),
        digits_value(fraction) * pow10((38 - fraction.len()) as nat) < ONE,
        pow10(38) == ONE,
{
    let zero = seq!['0'];
    let s = seq!['0', '.'] + fraction;
    let shift = 38 - fraction.len();
    assert(s =~= zero.push('.') + fraction);
    lemma_plain_parts(zero, fraction);
    crate::numbers::law_leading_zeros_count_nothing(fraction);
    lemma_digits_below(fraction);
    lemma_pow10_positive(shift as nat);
    lemma_pow10_sum(fraction.len(), shift as nat);
    lemma_one_in_parts();
    assert(unsigned(s) == s);
    let d = digits_value(fraction);
    let p = pow10(shift as nat);
    let q = pow10(fraction.len());
    assert(d * p < q * p) by (nonlinear_arith)
        requires
            d < q,
            p >= 1,
    ;
    assert(d > 0 ==> d * p > 0) by (nonlinear_arith)
        requires
            p >= 1,
            d >= 0,
    ;
}

/// The weights nothing and one are read as such, and no greater number is a
/// weight.
pub proof fn law_whole_weights(n: nat)
    ensures
        quality(crate::numbers::decimal(n)) == if n <= 1 {
            Some(n * (ONE as nat))
        } else {
            None
        },
{
    let s = crate::numbers::decimal(n);
    crate::numbers::law_decimal_reads_back(n);
    lemma_plain_parts(s, Seq::empty());
    assert(is_digit(s[0]));
    assert(unsigned(s) == s);
    lemma_one_in_parts();
    let p = pow10(38);
    if n > 1 {
        assert(n * p > p) by (nonlinear_arith)
            requires
                n > 1,
                p >= 1,
        ;
    }
}

/// What is no number is no weight: a text with anything but digits, a point, a
/// sign and an exponent gives none.
pub proof fn law_other_texts_are_no_weights(s: Seq<char>, k: int)
    requires
        0 <= k < s.len(),
        !('0' <= s[k] <= '9') && s[k] != '.' && s[k] != '-' && s[k] != '+' && s[k] != 'e' && s[k]
            != 'E',
    ensures
        quality(s) is None,
{
    let u = unsigned(s);
    let from: int = if s.len() > 0 && (s[0] == '-' || s[0] == '+') {
        1
    } else {
        0
    };
    let j = k - from;
    assert(u[j] == s[k]);
    let l = lower(u);
    let c = l[j];
    assert(c != 'e' && !is_digit(c) && c != '.' && c != '-' && c != '+');
    if decimal_parts(u) is Some {
        let halves = split(l, 'e');
        crate::text::law_join_of_split(l, 'e');
        crate::text::lemma_split_non_empty(l, 'e');
        if halves.len() == 1 {
            assert(halves[0] == l);
            lemma_stray(l, j);
        } else {
            let a = halves[0];
            let b = halves[1];
            assert(halves.drop_last() =~= seq![a]);
            reveal_with_fuel(crate::text::join, 3);
            assert(l == a + seq!['e'] + b);
            if j < a.len() {
                assert(a[j] == c);
                lemma_stray(a, j);
            } else {
                let i = j - a.len() - 1;
                assert(b[i] == c);
                crate::numbers::law_only_digits_are_numbers(b);
            }
        }
    }
}

proof fn lemma_stray(a: Seq<char>, j: int)
    requires
        0 <= j < a.len(),
        !is_digit(a[j]),
        a[j] != '.',
        split(a, '.').len() <= 2,
    ensures
        !is_digits(
            split(a, '.')[0] + if split(a, '.').len() == 2 {
                split(a, '.')[1]
            } else {
                Seq::empty()
            },
        ),
{
    let pieces = split(a, '.');
    crate::text::law_join_of_split(a, '.');
    crate::text::lemma_split_non_empty(a, '.');
    let none = Seq::<char>::empty();
    if pieces.len() == 1 {
        assert(pieces[0] + none =~= a);
    } else {
        let x = pieces[0];
        let y = pieces[1];
        assert(pieces.drop_last() =~= seq![x]);
        reveal_with_fuel(crate::text::join, 3);
        assert(a == x + seq!['.'] + y);
        let digits = x + y;
        if j < x.len() {
            assert(digits[j] == a[j]);
        } else {
            assert(digits[j - 1] == a[j]);
        }
    }
}

/// A number with a point is its digits without the point, shifted by as many
/// places as stand behind it; an exponent shifts them further. Digits may be
/// missing on one side of the point.
pub proof fn law_points_and_exponents(whole: Seq<char>, fraction: Seq<char>, exponent: Seq<char>)
    requires
        whole.len() + fraction.len() > 0,
        forall|i: int| 0 <= i < whole.len() ==> '0' <= #[trigger] whole[i] <= '9',
        forall|i: int| 0 <= i < fraction.len() ==> '0' <= #[trigger] fraction[i] <= '9',
        parsed_int(exponent) is Some,
    ensures
        decimal_parts(whole.push('.') + fraction) == Some(
            (whole + fraction, -(fraction.len() as int)),
        ),
        decimal_parts((whole.push('.') + fraction).push('e') + exponent) == Some(
            (whole + fraction, parsed_int(exponent)->0 - fraction.len()),
        ),
        decimal_parts((whole.push('.') + fraction).push('E') + exponent) == Some(
            (whole + fraction, parsed_int(exponent)->0 - fraction.len()),
        ),
        whole.len() > 0 ==> decimal_parts(whole.push('e') + exponent) == Some(
            (whole, parsed_int(exponent)->0),
        ),
{
    let m = whole.push('.') + fraction;
    let none = Seq::<char>::empty();
    crate::numbers::law_only_digits_are_numbers(exponent);
    lemma_number_text(exponent);
    lemma_mantissa(whole, fraction);
    crate::text::lemma_split_without(m, 'e');
    crate::text::lemma_split_without(exponent, 'e');
    crate::text::lemma_split_concat(m, exponent, 'e');
    let s = m.push('e') + exponent;
    let t = m.push('E') + exponent;
    assert(lower(s) =~= s) by {
        assert forall|i: int| 0 <= i < s.len() implies lower(s)[i] == s[i] by {
            if i < m.len() {
                assert(lower(m)[i] == m[i]);
            } else if i > m.len() {
                assert(lower(exponent)[i - m.len() - 1] == exponent[i - m.len() - 1]);
            }
        }
    }
    assert(lower(t) =~= s) by {
        assert forall|i: int| 0 <= i < s.len() implies lower(t)[i] == s[i] by {
            if i < m.len() {
                assert(lower(m)[i] == m[i]);
            } else if i > m.len() {
                assert(lower(exponent)[i - m.len() - 1] == exponent[i - m.len() - 1]);
            }
        }
    }
    if whole.len() > 0 {
        let u = whole.push('e') + exponent;
        lemma_mantissa(whole, none);
        assert(!whole.contains('e') && !whole.contains('.')) by {
            if whole.contains('e') {
                assert('0' <= whole[whole.index_of('e')] <= '9');
            }
            if whole.contains('.') {
                assert('0' <= whole[whole.index_of('.')] <= '9');
            }
        }
        crate::text::lemma_split_without(whole, 'e');
        crate::text::lemma_split_without(whole, '.');
        crate::text::lemma_split_concat(whole, exponent, 'e');
        assert(whole + none =~= whole);
        assert(lower(u) =~= u) by {
            assert forall|i: int| 0 <= i < u.len() implies lower(u)[i] == u[i] by {
                if i < whole.len() {
                    assert('0' <= whole[i] <= '9');
                } else if i > whole.len() {
                    assert(lower(exponent)[i - whole.len() - 1] == exponent[i - whole.len() - 1]);
                }
            }
        }
    }
}

proof fn lemma_number_text(x: Seq<char>)
    requires
        parsed_int(x) is Some,
    ensures
        !x.contains('e'),
        lower(x) == x,
{
    crate::numbers::law_only_digits_are_numbers(x);
    assert forall|i: int| 0 <= i < x.len() implies x[i] == '+' || x[i] == '-' || '0' <= #[trigger] x[i]
        <= '9' by {}
    if x.contains('e') {
        let k = x.index_of('e');
        assert(x[k] == 'e');
    }
    assert(lower(x) =~= x);
}

proof fn lemma_mantissa(whole: Seq<char>, fraction: Seq<char>)
    requires
        whole.len() + fraction.len() > 0,
        forall|i: int| 0 <= i < whole.len() ==> '0' <= #[trigger] whole[i] <= '9',
        forall|i: int| 0 <= i < fraction.len() ==> '0' <= #[trigger] fraction[i] <= '9',
    ensures
        ({
            let m = whole.push('.') + fraction;
            &&& !m.contains('e')
            &&& lower(m) == m
            &&& split(m, '.') == seq![whole, fraction]
            &&& is_digits(whole + fraction)
        }),
{
    let m = whole.push('.') + fraction;
    assert forall|i: int| 0 <= i < m.len() implies m[i] == '.' || '0' <= #[trigger] m[i] <= '9' by {
        if i < whole.len() {
            assert(m[i] == whole[i]);
        } else if i > whole.len() {
            assert(m[i] == fraction[i - whole.len() - 1]);
        }
    }
    if m.contains('e') {
        assert(m[m.index_of('e')] == 'e');
    }
    assert(lower(m) =~= m);
    if whole.contains('.') {
        assert('0' <= whole[whole.index_of('.')] <= '9');
    }
    if fraction.contains('.') {
        assert('0' <= fraction[fraction.index_of('.')] <= '9');
    }
    crate::text::lemma_split_without(whole, '.');
    crate::text::lemma_split_without(fraction, '.');
    crate::text::lemma_split_concat(whole, fraction, '.');
    assert(seq![whole] + seq![fraction] =~= seq![whole, fraction]);
    let digits = whole + fraction;
    assert forall|i: int| 0 <= i < digits.len() implies is_digit(#[trigger] digits[i]) by {
        if i < whole.len() {
            assert(digits[i] == whole[i]);
        } else {
            assert(digits[i] == fraction[i - whole.len()]);
        }
    }
}

/// The parts of a number: so many as its digits and their shift write, and of
/// more digits than there are parts for what is whole, but never none of a
/// number that is not nothing.
pub proof fn law_parts_of_a_number(digits: Seq<char>, shift: int)
    requires
        forall|i: int| 0 <= i < digits.len() ==> is_digit(#[trigger] digits[i]),
    ensures
        shift >= -38 ==> parts_of(digits, shift) == digits_value(digits) * pow10(
            (shift + 38) as nat,
        ),
        shift < -38 ==> {
            let whole = digits_value(digits) / pow10((-(shift + 38)) as nat);
            parts_of(digits, shift) == if whole == 0 && digits_value(digits) > 0 {
                1
            } else {
                whole
            }
        },
{
    if shift >= -38 {
        lemma_pow10_positive((shift + 38) as nat);
        let d = digits_value(digits);
        let p = pow10((shift + 38) as nat);
        assert(d > 0 ==> d * p > 0) by (nonlinear_arith)
            requires
                p >= 1,
                d >= 0,
        ;
    } else {
        let k = -(shift + 38);
        if k >= digits.len() {
            lemma_digits_below(digits);
            lemma_pow10_grows(digits.len(), k as nat);
            let d = digits_value(digits);
            let p = pow10(k as nat);
            assert(d / p == 0) by (nonlinear_arith)
                requires
                    0 <= d < p,
            ;
        } else {
            lemma_digits_cut(digits, k as nat);
        }
    }
}

proof fn lemma_pow10_grows(a: nat, b: nat)
    requires
        a <= b,
    ensures
        pow10(a) <= pow10(b),
    decreases b,
{
    if a < b {
        lemma_pow10_grows(a, (b - 1) as nat);
    }
}

proof fn lemma_digits_cut(digits: Seq<char>, k: nat)
    requires
        k <= digits.len(),
        forall|i: int| 0 <= i < digits.len() ==> is_digit(#[trigger] digits[i]),
    ensures
        digits_value(digits.take(digits.len() - k)) == digits_value(digits) / pow10(k),
    decreases k,
{
    if k == 0 {
        assert(digits.take(digits.len() as int) =~= digits);
        assert(digits_value(digits) / 1 == digits_value(digits));
    } else {
        let front = digits.drop_last();
        assert forall|i: int| 0 <= i < front.len() implies is_digit(#[trigger] front[i]) by {
            assert(front[i] == digits[i]);
        }
        lemma_digits_cut(front, (k - 1) as nat);
        assert(front.take(front.len() - (k - 1)) =~= digits.take(digits.len() - k));
        assert(is_digit(digits[digits.len() - 1]));
        let v = digits_value(digits) as int;
        let f = digits_value(front) as int;
        let p = pow10((k - 1) as nat) as int;
        lemma_pow10_positive((k - 1) as nat);
        assert(v / 10 == f);
        vstd::arithmetic::div_mod::lemma_div_denominator(v, 10, p);
        assert(v / (10 * p) == (v / 10) / p);
    }
}

/// A plus sign in front changes no weight, and behind a minus sign only nothing
/// is one.
pub proof fn law_signs_of_weights(s: Seq<char>)
    requires
        s.len() == 0 || (s[0] != '+' && s[0] != '-'),
    ensures
        quality(seq!['+'] + s) == quality(s),
        quality(seq!['-'] + s) == if quality(s) == Some(0nat) {
            Some(0nat)
        } else {
            None
        },
{
    assert((seq!['+'] + s).skip(1) =~= s);
    assert((seq!['-'] + s).skip(1) =~= s);
    assert(unsigned(s) == s);
}

} // verus!
