//! The untrusted-input types of the network API: a subdirectory that is
//! validated but carried verbatim, and a detector name normalized by
//! collapsing each run of unsafe characters. The transport layer parses
//! wire values into these before they reach the core.

use vstd::prelude::*;
use crate::context::{spec_subdirectory, SpecInvalidSubdirectory};
use crate::text::{is_ascii_alnum, join_parts, spec_join, substring};

pub use crate::context::InvalidSubdirectory;

verus! {

/// A subdirectory as supplied over the wire: validated by the same rules
/// as the core subdirectory, but carrying the original text (the `.`
/// segments are checked, not removed).
#[derive(Debug)]
pub struct Subdirectory(String);

impl View for Subdirectory {
    type V = Seq<char>;

    closed spec fn view(&self) -> Seq<char> {
        self.0@
    }
}

impl Default for Subdirectory {
    /// The empty subdirectory.
    fn default() -> (r: Subdirectory)
        ensures
            r@ == Seq::<char>::empty(),
    {
        Subdirectory(String::new())
    }
}

impl Subdirectory {
    /// Validates a wire subdirectory: the rules of the core validator,
    /// with the original text kept on success.
    pub fn parse(path: String) -> (r: Result<Subdirectory, InvalidSubdirectory>)
        ensures
            match r {
                Ok(d) => spec_subdirectory(path@) is Ok && d@ == path@,
                Err(e) => spec_subdirectory(path@) == Err::<Seq<char>, SpecInvalidSubdirectory>(
                    e@,
                ),
            },
    {
        match crate::context::Subdirectory::new(path.as_str()) {
            Ok(_) => Ok(Subdirectory(path)),
            Err(e) => Err(e),
        }
    }

    /// The validated text.
    pub fn as_str(&self) -> (r: &str)
        ensures
            r@ == self@,
    {
        self.0.as_str()
    }
}

/// The first position at or after `i` holding a character outside ASCII
/// letters and digits.
pub open spec fn first_non_alnum_from(s: Seq<char>, i: int) -> Option<int>
    decreases s.len() - i when 0 <= i <= s.len()
{
    if i >= s.len() {
        None
    } else if !is_ascii_alnum(s[i]) {
        Some(i)
    } else {
        first_non_alnum_from(s, i + 1)
    }
}

/// Where the alphanumeric run starting at `i` ends: at the next unsafe
/// character, or at the end of the name.
pub open spec fn run_end(s: Seq<char>, i: int) -> int {
    match first_non_alnum_from(s, i) {
        Some(j) => j,
        None => s.len() as int,
    }
}

pub proof fn lemma_run_end_range(s: Seq<char>, i: int)
    requires
        0 <= i <= s.len(),
    ensures
        i <= run_end(s, i) <= s.len(),
        i < s.len() && is_ascii_alnum(s[i]) ==> i < run_end(s, i),
        forall|m: int| i <= m < run_end(s, i) ==> is_ascii_alnum(s[m]),
        run_end(s, i) < s.len() ==> !is_ascii_alnum(s[run_end(s, i)]),
    decreases s.len() - i,
{
    if i < s.len() && is_ascii_alnum(s[i]) {
        lemma_run_end_range(s, i + 1);
    }
}

/// The maximal alphanumeric runs of the name from position `i` on, in
/// order, unsafe characters skipped.
pub open spec fn runs_from(s: Seq<char>, i: int) -> Seq<Seq<char>>
    decreases s.len() - i
        when 0 <= i <= s.len()
        via runs_from_decreases
{
    if i >= s.len() {
        seq![]
    } else if !is_ascii_alnum(s[i]) {
        runs_from(s, i + 1)
    } else {
        let j = run_end(s, i);
        seq![s.subrange(i, j)] + runs_from(s, j)
    }
}

#[via_fn]
proof fn runs_from_decreases(s: Seq<char>, i: int) {
    if 0 <= i < s.len() && is_ascii_alnum(s[i]) {
        lemma_run_end_range(s, i);
    }
}

/// What normalizing a wire detector name yields: its maximal
/// alphanumeric runs joined by single underscores. A name that is
/// already safe passes through unchanged; runs of unsafe characters
/// collapse to one `_`, and leading or trailing unsafe characters
/// disappear.
pub open spec fn spec_collapse_detector(s: Seq<char>) -> Seq<char> {
    spec_join(runs_from(s, 0), '_')
}

/// The walk of the name is the walk of its first `i` characters, whose
/// runs are `parts`, followed by the walk from `i`.
pub open spec fn runs_complete(s: Seq<char>, i: int, parts: Seq<Seq<char>>) -> bool {
    runs_from(s, 0) == parts + runs_from(s, i)
}

/// A detector name as supplied over the wire, normalized at
/// construction.
#[derive(Debug)]
pub struct Detector(String);

impl View for Detector {
    type V = Seq<char>;

    closed spec fn view(&self) -> Seq<char> {
        self.0@
    }
}

fn find_non_alnum_from(s: &str, from: usize) -> (r: Option<usize>)
    requires
        from <= s@.len(),
    ensures
        match r {
            Some(j) => from <= j < s@.len() && first_non_alnum_from(s@, from as int) == Some(
                j as int,
            ),
            None => first_non_alnum_from(s@, from as int) is None,
        },
{
    let len = s.unicode_len();
    let mut i: usize = from;
    while i < len
        invariant
            len == s@.len(),
            from <= i <= len,
            first_non_alnum_from(s@, from as int) == first_non_alnum_from(s@, i as int),
        decreases len - i,
    {
        if !crate::text::ascii_alnum(s.get_char(i)) {
            return Some(i);
        }
        i = i + 1;
    }
    None
}

impl Detector {
    /// Normalizes a wire detector name: every maximal run of characters
    /// outside ASCII letters and digits collapses to a single `_`, and
    /// unsafe leading or trailing runs are dropped. Duplicate names after
    /// normalization stay duplicates.
    pub fn parse(name: String) -> (r: Detector)
        ensures
            r@ == spec_collapse_detector(name@),
    {
        let ghost s = name@;
        let len = name.unicode_len();
        let mut parts: Vec<String> = Vec::new();
        let mut i: usize = 0;
        proof {
            assert(parts@.map_values(|p: String| p@) =~= Seq::<Seq<char>>::empty());
            assert(Seq::<Seq<char>>::empty() + runs_from(s, 0) =~= runs_from(s, 0));
        }
        while i < len
            invariant
                len == s.len(),
                s == name@,
                0 <= i <= len,
                runs_complete(s, i as int, parts@.map_values(|p: String| p@)),
            decreases len - i,
        {
            let c = name.get_char(i);
            if !crate::text::ascii_alnum(c) {
                i = i + 1;
                continue;
            }
            let j = match find_non_alnum_from(name.as_str(), i) {
                Some(j) => j,
                None => len,
            };
            proof {
                assert(run_end(s, i as int) == j as int);
                lemma_run_end_range(s, i as int);
            }
            let run = substring(name.as_str(), i, j);
            let ghost old_parts = parts@;
            parts.push(run);
            proof {
                let f = |p: String| p@;
                assert(parts@.map_values(f) =~= old_parts.map_values(f).push(
                    s.subrange(i as int, j as int),
                ));
                let one = seq![s.subrange(i as int, j as int)];
                assert(runs_from(s, i as int) == one + runs_from(s, j as int));
                assert(old_parts.map_values(f) + (one + runs_from(s, j as int)) =~= parts@
                    .map_values(f) + runs_from(s, j as int));
            }
            i = j;
        }
        proof {
            let f = |p: String| p@;
            assert(runs_from(s, len as int) =~= Seq::<Seq<char>>::empty());
            assert(parts@.map_values(f) + Seq::<Seq<char>>::empty() =~= parts@.map_values(f));
        }
        Detector(join_parts(&parts, '_'))
    }

    /// The normalized name, consumed.
    pub fn into_string(self) -> (r: String)
        ensures
            r@ == self@,
    {
        self.0
    }

    /// The normalized name.
    pub fn as_str(&self) -> (r: &str)
        ensures
            r@ == self@,
    {
        self.0.as_str()
    }
}

} // verus!
