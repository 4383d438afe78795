//! The legacy marker-file reconciliation protocol. Some instruments keep
//! a directory of zero-byte files named by scan number, advanced by
//! external software. An allocation with such a directory configured must
//! hold the directory's advisory lock, read the highest marker present,
//! take `max(stored, marker) + 1`, create the new marker, delete only the
//! immediately preceding one (so a gap left by the database getting ahead
//! stays visible), and persist the new high-water mark. The planning and
//! file-name logic here is pure; the caller performs the locking and file
//! operations and hands back what it saw. External writers that ignore
//! the lock can still race the directory scan; that residual race is
//! accepted, not repaired here.

use vstd::prelude::*;
use crate::db_service::spec_next_number;
use crate::text::{
    all_dec_digits, dec_digits, digits_val, find_char_from, first_index_from, is_dec_digit,
    lemma_dec_digits_are_digits, lemma_digits_val_of_dec_digits, parse_usize, push_char,
    spec_parse_usize, str_eq, substring, u64_to_string,
};

verus! {

/// The file operations one fallback allocation performs: the number to
/// hand out, the marker file to create, and the marker file to delete,
/// if any.
#[derive(Debug, PartialEq, Eq, Structural)]
pub struct FallbackPlan {
    /// The allocated scan number.
    pub next_number: u32,
    /// A marker file with this number is created.
    pub create_marker: u32,
    /// A marker file with this number is deleted: the immediately
    /// preceding one, and only when it is the highest marker present.
    pub delete_marker: Option<u32>,
}

/// Plans one allocation against a fallback directory, given the stored
/// high-water mark and the highest marker file found under the lock: the
/// number is one above the larger of the two; its marker file is
/// created; the preceding marker is deleted only when it is the highest
/// present, so older markers and gaps stay visible.
pub fn plan_fallback_allocation(db_high: u32, highest_marker: Option<u32>) -> (r: FallbackPlan)
    requires
        db_high < u32::MAX,
        highest_marker matches Some(m) ==> m < u32::MAX,
    ensures
        r.next_number as int == spec_next_number(db_high as int, highest_marker),
        r.create_marker == r.next_number,
        match highest_marker {
            Some(m) => r.delete_marker == (if m >= db_high {
                Some(m)
            } else {
                None
            }) && (m >= db_high ==> m as int == r.next_number as int - 1),
            None => r.delete_marker is None,
        },
{
    match highest_marker {
        Some(m) => {
            if m >= db_high {
                FallbackPlan { next_number: m + 1, create_marker: m + 1, delete_marker: Some(m) }
            } else {
                FallbackPlan {
                    next_number: db_high + 1,
                    create_marker: db_high + 1,
                    delete_marker: None,
                }
            }
        },
        None => {
            FallbackPlan {
                next_number: db_high + 1,
                create_marker: db_high + 1,
                delete_marker: None,
            }
        },
    }
}

/// A marker file name: the scan number in decimal, a dot, and the
/// configured extension.
pub open spec fn spec_marker_name(n: int, ext: Seq<char>) -> Seq<char> {
    dec_digits(n) + seq!['.'] + ext
}

/// Builds the marker file name for a scan number.
pub fn marker_file_name(n: u32, ext: &str) -> (r: String)
    ensures
        r@ == spec_marker_name(n as int, ext@),
{
    let mut s = u64_to_string(n as u64);
    push_char(&mut s, '.');
    let r = s.concat(ext);
    proof {
        assert(r@ =~= spec_marker_name(n as int, ext@));
    }
    r
}

/// What parsing a marker file name yields: the decimal value before the
/// first dot, provided the rest is exactly the configured extension and
/// the value fits a `u32`.
pub open spec fn spec_parse_marker(name: Seq<char>, ext: Seq<char>) -> Option<u32> {
    match first_index_from(name, '.', 0) {
        None => None,
        Some(i) => {
            if name.subrange(i + 1, name.len() as int) == ext {
                match spec_parse_usize(name.subrange(0, i)) {
                    Some(v) => if v <= u32::MAX {
                        Some(v as u32)
                    } else {
                        None
                    },
                    None => None,
                }
            } else {
                None
            }
        },
    }
}

/// Reads a scan number back from a marker file name; fails when the name
/// has no dot, another extension, or no valid number before the dot.
pub fn parse_marker_file_name(name: &str, ext: &str) -> (r: Option<u32>)
    ensures
        r == spec_parse_marker(name@, ext@),
{
    let len = name.unicode_len();
    let i = match find_char_from(name, '.', 0) {
        Some(i) => i,
        None => {
            return None;
        },
    };
    let rest = substring(name, i + 1, len);
    if !str_eq(rest.as_str(), ext) {
        return None;
    }
    let digits = substring(name, 0, i);
    match parse_usize(digits.as_str()) {
        Some(v) => {
            if v <= u32::MAX as usize {
                Some(v as u32)
            } else {
                None
            }
        },
        None => None,
    }
}

/// Marker file names round-trip: the name built for a number parses back
/// to that number whenever the extension itself contains no dot.
pub proof fn lemma_marker_name_round_trip(n: u32, ext: Seq<char>)
    requires
        forall|i: int| 0 <= i < ext.len() ==> ext[i] != '.',
    ensures
        spec_parse_marker(spec_marker_name(n as int, ext), ext) == Some(n),
{
    let digits = dec_digits(n as int);
    let name = spec_marker_name(n as int, ext);
    lemma_dec_digits_are_digits(n as int);
    lemma_digits_val_of_dec_digits(n as int);
    let dlen = digits.len() as int;
    assert(name.len() == dlen + 1 + ext.len());
    assert(name[dlen] == '.');
    assert forall|i: int| 0 <= i < dlen implies name[i] != '.' by {
        assert(name[i] == digits[i]);
        assert(is_dec_digit(digits[i]));
    }
    assert(first_index_from(name, '.', 0) == Some(dlen)) by {
        crate::text::lemma_first_index_props(name, '.', 0);
        match first_index_from(name, '.', 0) {
            Some(j) => {
                if j < dlen {
                    assert(name[j] != '.');
                } else if j > dlen {
                    assert(name[dlen] == '.');
                }
            },
            None => {
                assert(name[dlen] == '.');
            },
        }
    }
    assert(name.subrange(dlen + 1, name.len() as int) =~= ext);
    assert(name.subrange(0, dlen) =~= digits);
    assert(spec_parse_usize(digits) == Some(n as usize)) by {
        assert(digits.len() > 0);
        assert(all_dec_digits(digits));
        assert(digits_val(digits) == n as int);
    }
}

} // verus!
