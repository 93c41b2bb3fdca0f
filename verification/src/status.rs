//! HTTP status codes.

use vstd::prelude::*;

verus! {

/// A status code: a number of three digits.
#[derive(Clone, Copy, Debug, PartialEq, Eq, Structural)]
pub struct StatusCode {
    code: u16,
}

impl View for StatusCode {
    type V = int;

    closed spec fn view(&self) -> int {
        self.code as int
    }
}

impl StatusCode {
    #[verifier::type_invariant]
    spec fn three_digits(self) -> bool {
        100 <= self.code <= 999
    }

    /// The code `n`, if it has three digits.
    pub fn from_u16(n: u16) -> (r: Option<StatusCode>)
        ensures
            r is Some <==> 100 <= n <= 999,
            r matches Some(s) ==> s@ == n,
    {
        if 100 <= n && n <= 999 {
            Some(StatusCode { code: n })
        } else {
            None
        }
    }

    /// The code as a number.
    pub fn as_u16(&self) -> (r: u16)
        ensures
            r == self@,
            100 <= r <= 999,
    {
        proof {
            use_type_invariant(self);
        }
        self.code
    }

    /// The code `n`, which has three digits.
    pub(crate) fn of(n: u16) -> (r: StatusCode)
        requires
            100 <= n <= 999,
        ensures
            r@ == n,
    {
        StatusCode { code: n }
    }

    /// `101 Switching Protocols`.
    pub fn switching_protocols() -> (r: StatusCode)
        ensures
            r@ == 101,
    {
        StatusCode { code: 101 }
    }

    /// `200 OK`.
    pub fn ok() -> (r: StatusCode)
        ensures
            r@ == 200,
    {
        StatusCode { code: 200 }
    }

    /// `204 No Content`.
    pub fn no_content() -> (r: StatusCode)
        ensures
            r@ == 204,
    {
        StatusCode { code: 204 }
    }
}

} // verus!
