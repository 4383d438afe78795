//! The decisions of the authorization check. The transport layer holds
//! the token, posts the query to the policy service, and parses its
//! response; everything that can be decided from plain values is here:
//! splitting the visit into proposal and session numbers for the query,
//! and turning the response into an allow-or-deny result.

use vstd::prelude::*;
use crate::text::{
    find_char_from, first_index_from, is_dec_digit, parse_usize, spec_parse_usize, str_eq,
    substring,
};

verus! {

/// A visit identifier split for the policy query: the proposal code, the
/// proposal number, and the session number.
#[derive(Debug)]
pub struct Visit(pub String, pub u32, pub u16);

/// The visit identifier could not be split into code, proposal and
/// session.
#[derive(Debug, PartialEq, Eq, Structural)]
pub struct InvalidVisit;

/// The first position at or after `i` holding an ASCII digit.
pub open spec fn first_digit_from(s: Seq<char>, i: int) -> Option<int>
    decreases s.len() - i when 0 <= i <= s.len()
{
    if i >= s.len() {
        None
    } else if is_dec_digit(s[i]) {
        Some(i)
    } else {
        first_digit_from(s, i + 1)
    }
}

/// Where the proposal code of `s` ends: at its first digit, or at its
/// end.
pub open spec fn code_end(s: Seq<char>) -> int {
    match first_digit_from(s, 0) {
        Some(j) => j,
        None => s.len() as int,
    }
}

/// What splitting a visit for the policy query yields: the text before
/// the first `-` splits at its first digit into the code and the
/// proposal number, and the text after the `-` is the session number;
/// the numbers must parse and fit their widths.
pub open spec fn spec_policy_visit(s: Seq<char>) -> Result<(Seq<char>, u32, u16), InvalidVisit> {
    match first_index_from(s, '-', 0) {
        None => Err(InvalidVisit),
        Some(d) => {
            let code_prop = s.subrange(0, d);
            let session = s.subrange(d + 1, s.len() as int);
            let ce = code_end(code_prop);
            let prop = code_prop.subrange(ce, code_prop.len() as int);
            match spec_parse_usize(prop) {
                None => Err(InvalidVisit),
                Some(p) => if p > u32::MAX {
                    Err(InvalidVisit)
                } else {
                    match spec_parse_usize(session) {
                        None => Err(InvalidVisit),
                        Some(v) => if v > u16::MAX {
                            Err(InvalidVisit)
                        } else {
                            Ok((code_prop.subrange(0, ce), p as u32, v as u16))
                        },
                    }
                },
            }
        },
    }
}

fn find_digit(s: &str) -> (r: Option<usize>)
    ensures
        match r {
            Some(j) => j < s@.len() && first_digit_from(s@, 0) == Some(j as int),
            None => first_digit_from(s@, 0) is None,
        },
{
    let len = s.unicode_len();
    let mut i: usize = 0;
    while i < len
        invariant
            len == s@.len(),
            0 <= i <= len,
            first_digit_from(s@, 0) == first_digit_from(s@, i as int),
        decreases len - i,
    {
        if crate::text::dec_digit(s.get_char(i)) {
            return Some(i);
        }
        i = i + 1;
    }
    None
}

impl Visit {
    /// Splits a visit identifier for the policy query.
    pub fn from_str(s: &str) -> (r: Result<Visit, InvalidVisit>)
        ensures
            match r {
                Ok(v) => spec_policy_visit(s@) matches Ok(t) && t.0 == v.0@ && t.1 == v.1 && t.2
                    == v.2,
                Err(e) => spec_policy_visit(s@) == Err::<(Seq<char>, u32, u16), InvalidVisit>(
                    InvalidVisit,
                ),
            },
    {
        let len = s.unicode_len();
        let d = match find_char_from(s, '-', 0) {
            Some(d) => d,
            None => {
                return Err(InvalidVisit);
            },
        };
        let code_prop = substring(s, 0, d);
        let session = substring(s, d + 1, len);
        let ce = match find_digit(code_prop.as_str()) {
            Some(j) => j,
            None => code_prop.unicode_len(),
        };
        let cplen = code_prop.unicode_len();
        proof {
            assert(code_end(code_prop@) == ce as int);
        }
        let prop = substring(code_prop.as_str(), ce, cplen);
        let p = match parse_usize(prop.as_str()) {
            Some(p) => p,
            None => {
                return Err(InvalidVisit);
            },
        };
        if p > u32::MAX as usize {
            return Err(InvalidVisit);
        }
        let v = match parse_usize(session.as_str()) {
            Some(v) => v,
            None => {
                return Err(InvalidVisit);
            },
        };
        if v > u16::MAX as usize {
            return Err(InvalidVisit);
        }
        let code = substring(code_prop.as_str(), 0, ce);
        Ok(Visit(code, p as u32, v as u16))
    }
}

/// Why an authorization check fails, at the specification level.
pub ghost enum SpecAuthError {
    /// The policy service could not be reached; the message describes
    /// how.
    ServerError(Seq<char>),
    /// The policy service denied access, or the request could not be
    /// understood.
    Failed,
    /// The policy service allowed access, but for another beamline.
    BeamlineMismatch(Seq<char>, Seq<char>),
    /// No authorization token was supplied.
    Missing,
}

/// Why an authorization check fails.
#[derive(Debug)]
pub enum AuthError {
    ServerError(String),
    Failed,
    BeamlineMismatch { expected: String, actual: String },
    Missing,
}

impl View for AuthError {
    type V = SpecAuthError;

    open spec fn view(&self) -> SpecAuthError {
        match self {
            AuthError::ServerError(m) => SpecAuthError::ServerError(m@),
            AuthError::Failed => SpecAuthError::Failed,
            AuthError::BeamlineMismatch { expected, actual } => SpecAuthError::BeamlineMismatch(
                expected@,
                actual@,
            ),
            AuthError::Missing => SpecAuthError::Missing,
        }
    }
}

/// Decides the pre-request part of the check: a missing token is
/// rejected outright, an unsplittable visit fails, and otherwise the
/// split visit is what the policy query carries.
pub fn authorize_request(token_present: bool, visit: &str) -> (r: Result<Visit, AuthError>)
    ensures
        !token_present ==> ({ &&& r matches Err(e) &&& e@ == SpecAuthError::Missing }),
        token_present ==> match spec_policy_visit(visit@) {
            Ok(t) => r matches Ok(v) && t.0 == v.0@ && t.1 == v.1 && t.2 == v.2,
            Err(_) => r matches Err(e) && e@ == SpecAuthError::Failed,
        },
{
    if !token_present {
        return Err(AuthError::Missing);
    }
    match Visit::from_str(visit) {
        Ok(v) => Ok(v),
        Err(_) => Err(AuthError::Failed),
    }
}

/// Decides the check from the policy service's response: denied access
/// fails, access granted for another beamline is a mismatch naming both,
/// and otherwise the request is allowed.
pub fn evaluate_decision(access: bool, response_beamline: String, expected: &str) -> (r: Result<
    (),
    AuthError,
>)
    ensures
        !access ==> ({ &&& r matches Err(e) &&& e@ == SpecAuthError::Failed }),
        access && response_beamline@ != expected@ ==> ({
            &&& r matches Err(e)
            &&& e@ == SpecAuthError::BeamlineMismatch(expected@, response_beamline@)
        }),
        access && response_beamline@ == expected@ ==> r is Ok,
{
    if !access {
        Err(AuthError::Failed)
    } else if !str_eq(response_beamline.as_str(), expected) {
        Err(
            AuthError::BeamlineMismatch {
                expected: crate::text::copy_str(expected),
                actual: response_beamline,
            },
        )
    } else {
        Ok(())
    }
}

} // verus!
