//! The arguments of a handler: a declared parameter, read from a request, with
//! its default where it has one.

use crate::error::ErrorView;
use crate::error::WebError;
use crate::numbers::decimal;
use crate::params::i64_view;
use crate::params::is_truthy;
use crate::params::read_int;
use crate::params::read_nat;
use crate::params::scalar_of;
use crate::params::str_option;
use crate::params::text_view;
use crate::params::truthy;
use crate::params::u32_view;
use crate::params::u64_view;
use crate::params::ExtractedParams;
use crate::params::ExtractedView;
use vstd::prelude::*;

verus! {

/// An outcome with a default in place of an error.
pub open spec fn or_default<T>(r: Result<T, ErrorView>, default: Option<T>) -> Result<
    T,
    ErrorView,
> {
    match (r, default) {
        (Err(_), Some(d)) => Ok(d),
        _ => r,
    }
}

/// A text parameter.
pub open spec fn text_value(e: ExtractedView, name: Seq<char>) -> Result<Seq<char>, ErrorView> {
    match scalar_of(e, name) {
        Some(s) => Ok(s),
        None => Err(ErrorView::BadRequest("Missing parameter: "@ + name)),
    }
}

/// A signed integer parameter.
pub open spec fn int_value(e: ExtractedView, name: Seq<char>) -> Result<int, ErrorView> {
    read_int(
        scalar_of(e, name),
        i64::MIN as int,
        i64::MAX as int,
        "Missing parameter: "@ + name,
        "Invalid integer: "@ + name,
    )
}

/// An unsigned integer parameter.
pub open spec fn u64_value(e: ExtractedView, name: Seq<char>) -> Result<int, ErrorView> {
    read_nat(
        scalar_of(e, name),
        u64::MAX as int,
        "Missing parameter: "@ + name,
        "Invalid u64: "@ + name,
    )
}

/// A short unsigned integer parameter.
pub open spec fn u32_value(e: ExtractedView, name: Seq<char>) -> Result<int, ErrorView> {
    read_nat(
        scalar_of(e, name),
        u32::MAX as int,
        "Missing parameter: "@ + name,
        "Invalid u32: "@ + name,
    )
}

/// A truth value parameter: what the request says, else the default, else
/// false.
pub open spec fn bool_value(e: ExtractedView, name: Seq<char>, default: Option<bool>) -> bool {
    match (scalar_of(e, name), default) {
        (Some(s), _) => truthy(s),
        (None, Some(d)) => d,
        (None, None) => false,
    }
}

/// Reads a text argument.
pub fn string_argument(e: &ExtractedParams, name: &str, default: Option<&str>) -> (r: Result<
    String,
    WebError,
>)
    ensures
        text_view(r) == or_default(text_value(e@, name@), str_option(default)),
{
    match (e.get_string(name), default) {
        (Err(_), Some(d)) => Ok(d.to_owned()),
        (r, _) => r,
    }
}

/// Reads a signed integer argument.
pub fn i64_argument(e: &ExtractedParams, name: &str, default: Option<i64>) -> (r: Result<
    i64,
    WebError,
>)
    ensures
        i64_view(r) == or_default(
            int_value(e@, name@),
            match default {
                Some(d) => Some(d as int),
                None => None,
            },
        ),
{
    match (e.get_i64(name), default) {
        (Err(_), Some(d)) => Ok(d),
        (r, _) => r,
    }
}

/// Reads an unsigned integer argument.
pub fn u64_argument(e: &ExtractedParams, name: &str, default: Option<u64>) -> (r: Result<
    u64,
    WebError,
>)
    ensures
        u64_view(r) == or_default(
            u64_value(e@, name@),
            match default {
                Some(d) => Some(d as int),
                None => None,
            },
        ),
{
    match (e.get_u64(name), default) {
        (Err(_), Some(d)) => Ok(d),
        (r, _) => r,
    }
}

/// Reads a short unsigned integer argument.
pub fn u32_argument(e: &ExtractedParams, name: &str, default: Option<u32>) -> (r: Result<
    u32,
    WebError,
>)
    ensures
        u32_view(r) == or_default(
            u32_value(e@, name@),
            match default {
                Some(d) => Some(d as int),
                None => None,
            },
        ),
{
    match (e.get_u32(name), default) {
        (Err(_), Some(d)) => Ok(d),
        (r, _) => r,
    }
}

/// Reads a truth value argument.
pub fn bool_argument(e: &ExtractedParams, name: &str, default: Option<bool>) -> (r: bool)
    ensures
        r == bool_value(e@, name@, default),
{
    match e.get_text(name) {
        Some(s) => is_truthy(s),
        None => match default {
            Some(d) => d,
            None => false,
        },
    }
}

/// An argument that the request leaves out has its default, and one without a
/// default is missing.
pub proof fn law_defaults_stand_in(
    e: ExtractedView,
    name: Seq<char>,
    text: Seq<char>,
    n: int,
    b: bool,
)
    requires
        scalar_of(e, name) is None,
    ensures
        or_default(text_value(e, name), Some(text)) == Ok::<Seq<char>, ErrorView>(text),
        or_default(int_value(e, name), Some(n)) == Ok::<int, ErrorView>(n),
        or_default(u64_value(e, name), Some(n)) == Ok::<int, ErrorView>(n),
        or_default(u32_value(e, name), Some(n)) == Ok::<int, ErrorView>(n),
        bool_value(e, name, Some(b)) == b,
        or_default(text_value(e, name), None) == Err::<Seq<char>, ErrorView>(
            ErrorView::BadRequest("Missing parameter: "@ + name),
        ),
        or_default(int_value(e, name), None) == Err::<int, ErrorView>(
            ErrorView::BadRequest("Missing parameter: "@ + name),
        ),
        or_default(u64_value(e, name), None) == Err::<int, ErrorView>(
            ErrorView::BadRequest("Missing parameter: "@ + name),
        ),
        or_default(u32_value(e, name), None) == Err::<int, ErrorView>(
            ErrorView::BadRequest("Missing parameter: "@ + name),
        ),
        !bool_value(e, name, None),
{
}

/// What a request says counts, whatever the default: a text is given as it is,
/// a number in decimal as that number where it fits, and a truth value is false
/// for the empty text, `false` and `0` alone.
pub proof fn law_what_a_request_says_counts(
    e: ExtractedView,
    name: Seq<char>,
    s: Seq<char>,
    n: nat,
    text: Option<Seq<char>>,
    number: Option<int>,
    b: Option<bool>,
)
    requires
        scalar_of(e, name) == Some(s),
    ensures
        or_default(text_value(e, name), text) == Ok::<Seq<char>, ErrorView>(s),
        bool_value(e, name, b) <==> s != Seq::<char>::empty() && s != seq!['f', 'a', 'l', 's', 'e']
            && s != seq!['0'],
        s == decimal(n) && n <= i64::MAX ==> or_default(int_value(e, name), number) == Ok::<
            int,
            ErrorView,
        >(n as int),
        s == seq!['-'] + decimal(n) && -(n as int) >= i64::MIN ==> or_default(
            int_value(e, name),
            number,
        ) == Ok::<int, ErrorView>(-(n as int)),
        s == decimal(n) && n <= u64::MAX ==> or_default(u64_value(e, name), number) == Ok::<
            int,
            ErrorView,
        >(n as int),
        s == decimal(n) && n <= u32::MAX ==> or_default(u32_value(e, name), number) == Ok::<
            int,
            ErrorView,
        >(n as int),
        s == decimal(n) && n > u32::MAX ==> or_default(u32_value(e, name), None) == Err::<
            int,
            ErrorView,
        >(ErrorView::BadRequest("Invalid u32: "@ + name)),
        s == decimal(n) && n > u64::MAX ==> or_default(u64_value(e, name), None) == Err::<
            int,
            ErrorView,
        >(ErrorView::BadRequest("Invalid u64: "@ + name)),
        s == decimal(n) && n > i64::MAX ==> or_default(int_value(e, name), None) == Err::<
            int,
            ErrorView,
        >(ErrorView::BadRequest("Invalid integer: "@ + name)),
{
    crate::params::law_three_texts_are_false(s);
    crate::numbers::law_decimal_reads_back(n);
    crate::numbers::law_signs_are_read(n);
}

/// A text that is no number falls back on the default where there is one, and
/// is refused where there is none.
pub proof fn law_defaults_stand_in_for_no_number(
    e: ExtractedView,
    name: Seq<char>,
    s: Seq<char>,
    k: int,
    d: int,
)
    requires
        scalar_of(e, name) == Some(s),
        0 <= k < s.len(),
        !('0' <= s[k] <= '9'),
        k > 0 || (s[0] != '+' && s[0] != '-') || s.len() == 1,
    ensures
        or_default(int_value(e, name), Some(d)) == Ok::<int, ErrorView>(d),
        or_default(u64_value(e, name), Some(d)) == Ok::<int, ErrorView>(d),
        or_default(u32_value(e, name), Some(d)) == Ok::<int, ErrorView>(d),
        or_default(int_value(e, name), None) == Err::<int, ErrorView>(
            ErrorView::BadRequest("Invalid integer: "@ + name),
        ),
        or_default(u64_value(e, name), None) == Err::<int, ErrorView>(
            ErrorView::BadRequest("Invalid u64: "@ + name),
        ),
        or_default(u32_value(e, name), None) == Err::<int, ErrorView>(
            ErrorView::BadRequest("Invalid u32: "@ + name),
        ),
{
    crate::numbers::law_only_digits_are_numbers(s);
}

} // verus!
