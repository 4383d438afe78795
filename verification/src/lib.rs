//! Deterministic filesystem paths and scan numbers for a multi-instrument
//! facility.
//!
//! The crate compiles human-authored path templates into typed segment
//! sequences, renders them against visit/scan/detector contexts, validates
//! untrusted path inputs, and allocates strictly increasing scan numbers per
//! instrument, including the reconciliation rules for a legacy marker-file
//! counter.

use vstd::prelude::*;

pub mod auth;
pub mod context;
pub mod db_service;
pub mod numtracker;
pub mod paths;
pub mod scalars;
pub mod template;
pub mod text;

pub use crate::context::InvalidSubdirectory;
pub use crate::context::Subdirectory;

use crate::text::{
    copy_str, dec_digits, find_char_from, first_index_from, is_ascii_alpha, is_dec_digit,
    lemma_dec_digits_are_digits, lemma_first_index_props, parse_usize, push_char,
    spec_parse_usize, substring, u64_to_string,
};

verus! {

/// What a proposal holds: its alphabetic code and its number.
pub ghost struct ProposalV {
    pub code: Seq<char>,
    pub number: int,
}

/// What a visit holds: its proposal and its session number.
pub ghost struct VisitV {
    pub proposal: ProposalV,
    pub session: int,
}

/// A proposal: an alphabetic code and a number, e.g. `cm12345`.
#[derive(Debug, PartialEq, Eq)]
pub struct Proposal {
    pub code: String,
    pub number: usize,
}

impl View for Proposal {
    type V = ProposalV;

    open spec fn view(&self) -> ProposalV {
        ProposalV { code: self.code@, number: self.number as int }
    }
}

/// An experiment session: a proposal and a session number, written
/// `<code><number>-<session>`, e.g. `cm12345-3`.
#[derive(Debug, PartialEq, Eq)]
pub struct Visit {
    pub proposal: Proposal,
    pub session: usize,
}

impl View for Visit {
    type V = VisitV;

    open spec fn view(&self) -> VisitV {
        VisitV { proposal: self.proposal@, session: self.session as int }
    }
}

/// A named experimental station.
#[derive(Debug)]
pub struct Instrument(String);

impl View for Instrument {
    type V = Seq<char>;

    closed spec fn view(&self) -> Seq<char> {
        self.0@
    }
}

impl Instrument {
    /// The instrument's name.
    pub fn as_str(&self) -> (r: &str)
        ensures
            r@ == self@,
    {
        self.0.as_str()
    }
}

/// The user a request acts for.
#[derive(Debug)]
pub struct User(String);

impl View for User {
    type V = Seq<char>;

    closed spec fn view(&self) -> Seq<char> {
        self.0@
    }
}

/// Why a visit identifier is rejected.
#[derive(Debug, PartialEq, Eq, Structural)]
pub enum InvalidVisit {
    /// The proposal code is empty or not purely alphabetic.
    NonAsciiCode,
    /// The identifier does not split into proposal and session.
    InvalidFormat,
    /// The session part is not a number.
    InvalidSession,
    /// The proposal number part is not a number.
    InvalidProposal,
}

/// The user name may not be empty.
#[derive(Debug)]
pub struct EmptyUsername;

/// A valid proposal code: non-empty and purely ASCII alphabetic.
pub open spec fn spec_valid_code(code: Seq<char>) -> bool {
    code.len() > 0 && forall|i: int| 0 <= i < code.len() ==> is_ascii_alpha(#[trigger] code[i])
}

impl Visit {
    /// Builds a visit from its parts; the proposal code must be
    /// non-empty and purely alphabetic.
    pub fn new(code: &str, proposal: usize, session: usize) -> (r: Result<Visit, InvalidVisit>)
        ensures
            spec_valid_code(code@) ==> ({
                &&& r matches Ok(v)
                &&& v@ == (VisitV {
                    proposal: ProposalV { code: code@, number: proposal as int },
                    session: session as int,
                })
            }),
            !spec_valid_code(code@) ==> r == Err::<Visit, InvalidVisit>(
                InvalidVisit::NonAsciiCode,
            ),
    {
        let len = code.unicode_len();
        if len == 0 {
            return Err(InvalidVisit::NonAsciiCode);
        }
        let mut i: usize = 0;
        while i < len
            invariant
                len == code@.len(),
                0 <= i <= len,
                forall|j: int| 0 <= j < i ==> is_ascii_alpha(#[trigger] code@[j]),
            decreases len - i,
        {
            if !crate::text::ascii_alpha(code.get_char(i)) {
                return Err(InvalidVisit::NonAsciiCode);
            }
            i = i + 1;
        }
        Ok(Visit { proposal: Proposal { code: copy_str(code), number: proposal }, session })
    }

    /// What parsing a visit identifier yields: the text splits at its
    /// first `-` into proposal and session; the session must be a
    /// number; the proposal splits at its first non-alphabetic character
    /// into code and number; the number must parse and the code must be
    /// non-empty.
    pub open spec fn spec_parse(s: Seq<char>) -> Result<VisitV, InvalidVisit> {
        match first_index_from(s, '-', 0) {
            None => Err(InvalidVisit::InvalidFormat),
            Some(d) => {
                let proposal = s.subrange(0, d);
                let session_str = s.subrange(d + 1, s.len() as int);
                match spec_parse_usize(session_str) {
                    None => Err(InvalidVisit::InvalidSession),
                    Some(sess) => match first_non_alpha_from(proposal, 0) {
                        None => Err(InvalidVisit::InvalidFormat),
                        Some(split) => {
                            let code = proposal.subrange(0, split);
                            let num_str = proposal.subrange(split, proposal.len() as int);
                            match spec_parse_usize(num_str) {
                                None => Err(InvalidVisit::InvalidProposal),
                                Some(num) => if spec_valid_code(code) {
                                    Ok(
                                        VisitV {
                                            proposal: ProposalV { code, number: num as int },
                                            session: sess as int,
                                        },
                                    )
                                } else {
                                    Err(InvalidVisit::NonAsciiCode)
                                },
                            }
                        },
                    },
                }
            },
        }
    }

    /// Parses a visit identifier such as `cm12345-3`.
    pub fn from_str(value: &str) -> (r: Result<Visit, InvalidVisit>)
        ensures
            match r {
                Ok(v) => Visit::spec_parse(value@) == Ok::<VisitV, InvalidVisit>(v@),
                Err(e) => Visit::spec_parse(value@) == Err::<VisitV, InvalidVisit>(e),
            },
    {
        let len = value.unicode_len();
        let d = match find_char_from(value, '-', 0) {
            Some(d) => d,
            None => {
                return Err(InvalidVisit::InvalidFormat);
            },
        };
        let proposal = substring(value, 0, d);
        let session_str = substring(value, d + 1, len);
        let session = match parse_usize(session_str.as_str()) {
            Some(sess) => sess,
            None => {
                return Err(InvalidVisit::InvalidSession);
            },
        };
        let plen = proposal.unicode_len();
        let split = match find_non_alpha(proposal.as_str()) {
            Some(j) => j,
            None => {
                return Err(InvalidVisit::InvalidFormat);
            },
        };
        let code = substring(proposal.as_str(), 0, split);
        let num_str = substring(proposal.as_str(), split, plen);
        let number = match parse_usize(num_str.as_str()) {
            Some(n) => n,
            None => {
                return Err(InvalidVisit::InvalidProposal);
            },
        };
        Visit::new(code.as_str(), number, session)
    }

    /// The visit identifier as text: the proposal, a `-`, and the
    /// session number.
    pub fn to_text(&self) -> (r: String)
        ensures
            r@ == self@.proposal.code + dec_digits(self@.proposal.number) + seq!['-'] + dec_digits(
                self@.session,
            ),
    {
        let mut s = self.proposal.to_text();
        push_char(&mut s, '-');
        let r = s.concat(u64_to_string(self.session as u64).as_str());
        proof {
            assert(r@ =~= self@.proposal.code + dec_digits(self@.proposal.number) + seq!['-']
                + dec_digits(self@.session));
        }
        r
    }
}

/// The first position at or after `i` holding a character that is not an
/// ASCII letter.
pub open spec fn first_non_alpha_from(s: Seq<char>, i: int) -> Option<int>
    decreases s.len() - i when 0 <= i <= s.len()
{
    if i >= s.len() {
        None
    } else if !is_ascii_alpha(s[i]) {
        Some(i)
    } else {
        first_non_alpha_from(s, i + 1)
    }
}

fn find_non_alpha(s: &str) -> (r: Option<usize>)
    ensures
        match r {
            Some(j) => j < s@.len() && first_non_alpha_from(s@, 0) == Some(j as int),
            None => first_non_alpha_from(s@, 0) is None,
        },
{
    let len = s.unicode_len();
    let mut i: usize = 0;
    while i < len
        invariant
            len == s@.len(),
            0 <= i <= len,
            first_non_alpha_from(s@, 0) == first_non_alpha_from(s@, i as int),
        decreases len - i,
    {
        if !crate::text::ascii_alpha(s.get_char(i)) {
            return Some(i);
        }
        i = i + 1;
    }
    None
}

impl Proposal {
    /// The proposal as text: the code followed by the number.
    pub fn to_text(&self) -> (r: String)
        ensures
            r@ == self@.code + dec_digits(self@.number),
    {
        let r = copy_str(self.code.as_str()).concat(u64_to_string(self.number as u64).as_str());
        r
    }
}

impl User {
    /// Builds a user; the name may not be empty.
    pub fn new(user: &str) -> (r: Result<User, EmptyUsername>)
        ensures
            user@.len() == 0 ==> r is Err,
            user@.len() > 0 ==> ({
                &&& r matches Ok(u)
                &&& u@ == user@
            }),
    {
        if user.unicode_len() == 0 {
            Err(EmptyUsername)
        } else {
            Ok(User(copy_str(user)))
        }
    }
}

/// What the root request context holds.
pub ghost struct BeamlineContextV {
    pub instrument: Seq<char>,
    pub visit: VisitV,
    pub user: Seq<char>,
    pub subdirectory: Seq<char>,
}

/// The fully validated inputs of one path request: instrument, visit,
/// user and subdirectory.
pub struct BeamlineContext {
    instrument: Instrument,
    visit: Visit,
    user: User,
    subdirectory: Subdirectory,
}

impl View for BeamlineContext {
    type V = BeamlineContextV;

    closed spec fn view(&self) -> BeamlineContextV {
        BeamlineContextV {
            instrument: self.instrument@,
            visit: self.visit@,
            user: self.user@,
            subdirectory: self.subdirectory@,
        }
    }
}

impl BeamlineContext {
    /// A context for the given instrument, visit and user, with the
    /// empty subdirectory.
    pub fn new(instrument: &str, visit: Visit, user: User) -> (r: BeamlineContext)
        ensures
            r@.instrument == instrument@,
            r@.visit == visit@,
            r@.user == user@,
            r@.subdirectory == Seq::<char>::empty(),
    {
        BeamlineContext {
            instrument: Instrument(copy_str(instrument)),
            visit,
            user,
            subdirectory: Subdirectory::default(),
        }
    }

    /// The instrument of this request.
    pub fn instrument(&self) -> (r: &Instrument)
        ensures
            r@ == self@.instrument,
    {
        &self.instrument
    }

    /// The visit of this request.
    pub fn visit(&self) -> (r: &Visit)
        ensures
            r@ == self@.visit,
    {
        &self.visit
    }

    /// This context with its subdirectory replaced.
    pub fn with_subdirectory(self, subdir: Subdirectory) -> (r: BeamlineContext)
        ensures
            r@.instrument == self@.instrument,
            r@.visit == self@.visit,
            r@.user == self@.user,
            r@.subdirectory == subdir@,
    {
        BeamlineContext {
            instrument: self.instrument,
            visit: self.visit,
            user: self.user,
            subdirectory: subdir,
        }
    }
}

/// The proposal is derived from the visit by splitting off its leading
/// alphabetic code and number: in the rendered identifier
/// `<code><number>-<session>`, everything before the first `-` is
/// exactly the proposal text, which is what a rendering context
/// resolves the proposal field to.
pub proof fn lemma_proposal_of_visit_text(v: VisitV)
    requires
        spec_valid_code(v.proposal.code),
        0 <= v.proposal.number,
        0 <= v.session,
    ensures
        crate::context::spec_proposal_of(
            v.proposal.code + dec_digits(v.proposal.number) + seq!['-'] + dec_digits(v.session),
        ) == v.proposal.code + dec_digits(v.proposal.number),
{
    let code = v.proposal.code;
    let num = dec_digits(v.proposal.number);
    let head = code + num;
    let text = code + num + seq!['-'] + dec_digits(v.session);
    let k = head.len() as int;
    lemma_dec_digits_are_digits(v.proposal.number);
    assert forall|m: int| 0 <= m < k implies text[m] != '-' by {
        assert(text[m] == head[m]);
        if m < code.len() {
            assert(head[m] == code[m]);
            assert(is_ascii_alpha(code[m]));
        } else {
            assert(head[m] == num[m - code.len()]);
            assert(is_dec_digit(num[m - code.len()]));
        }
    }
    assert(text[k] == '-');
    assert(first_index_from(text, '-', 0) == Some(k)) by {
        lemma_first_index_props(text, '-', 0);
        match first_index_from(text, '-', 0) {
            Some(j) => {
                if j < k {
                    assert(text[j] != '-');
                } else if j > k {
                    assert(text[k] == '-');
                }
            },
            None => {
                assert(text[k] == '-');
            },
        }
    }
    assert(text.subrange(0, k) =~= head);
}

} // verus!
