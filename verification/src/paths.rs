//! The closed field sets for the three path kinds. A visit path may
//! reference beamline fields; a scan path adds its own fields and delegates
//! to the beamline set; a detector path adds its own field and delegates to
//! the scan set. Delegated fields may be written bare (`{visit}`) or with
//! an explicit prefix naming the delegation step (`{beamline.visit}`,
//! `{scan.scan_number}`).

use vstd::prelude::*;
use crate::text::str_eq;

verus! {

/// Fields available to a visit directory template.
#[derive(Debug, Clone, Copy, PartialEq, Eq, Structural)]
pub enum BeamlineField {
    /// The current year at resolution time.
    Year,
    /// The full visit identifier, e.g. `cm12345-3`.
    Visit,
    /// The proposal part of the visit: everything before the first `-`.
    Proposal,
    /// The instrument (beamline) name.
    Instrument,
}

/// Fields available to a scan file template.
#[derive(Debug, Clone, Copy, PartialEq, Eq, Structural)]
pub enum ScanField {
    /// The request's validated subdirectory.
    Subdirectory,
    /// The allocated scan number.
    ScanNumber,
    /// A delegated beamline field.
    Beamline(BeamlineField),
}

/// Fields available to a detector file template.
#[derive(Debug, Clone, Copy, PartialEq, Eq, Structural)]
pub enum DetectorField {
    /// The normalized detector name.
    Detector,
    /// A delegated scan field.
    Scan(ScanField),
}

/// Which beamline field a placeholder name denotes, if any.
pub open spec fn spec_beamline_field(name: Seq<char>) -> Option<BeamlineField> {
    if name == "year"@ {
        Some(BeamlineField::Year)
    } else if name == "visit"@ {
        Some(BeamlineField::Visit)
    } else if name == "proposal"@ {
        Some(BeamlineField::Proposal)
    } else if name == "instrument"@ {
        Some(BeamlineField::Instrument)
    } else {
        None
    }
}

/// Which scan field a placeholder name denotes, if any. A name with a
/// `beamline.` prefix resolves the rest against the beamline set; a bare
/// name falls through to the beamline set when it is not a scan field.
pub open spec fn spec_scan_field(name: Seq<char>) -> Option<ScanField> {
    if name == "subdirectory"@ {
        Some(ScanField::Subdirectory)
    } else if name == "scan_number"@ {
        Some(ScanField::ScanNumber)
    } else if name.len() > 9 && name.subrange(0, 9) == "beamline."@ {
        match spec_beamline_field(name.subrange(9, name.len() as int)) {
            Some(f) => Some(ScanField::Beamline(f)),
            None => None,
        }
    } else {
        match spec_beamline_field(name) {
            Some(f) => Some(ScanField::Beamline(f)),
            None => None,
        }
    }
}

/// Which detector field a placeholder name denotes, if any. A name with a
/// `scan.` prefix resolves the rest against the scan set; a bare name falls
/// through to the scan set when it is not `detector`.
pub open spec fn spec_detector_field(name: Seq<char>) -> Option<DetectorField> {
    if name == "detector"@ {
        Some(DetectorField::Detector)
    } else if name.len() > 5 && name.subrange(0, 5) == "scan."@ {
        match spec_scan_field(name.subrange(5, name.len() as int)) {
            Some(f) => Some(DetectorField::Scan(f)),
            None => None,
        }
    } else {
        match spec_scan_field(name) {
            Some(f) => Some(DetectorField::Scan(f)),
            None => None,
        }
    }
}

impl BeamlineField {
    /// Parses a placeholder name from the visit field set.
    pub fn parse(name: &str) -> (r: Option<BeamlineField>)
        ensures
            r == spec_beamline_field(name@),
    {
        if str_eq(name, "year") {
            Some(BeamlineField::Year)
        } else if str_eq(name, "visit") {
            Some(BeamlineField::Visit)
        } else if str_eq(name, "proposal") {
            Some(BeamlineField::Proposal)
        } else if str_eq(name, "instrument") {
            Some(BeamlineField::Instrument)
        } else {
            None
        }
    }

    /// The canonical placeholder name of this field.
    pub fn name(&self) -> (r: &'static str)
        ensures
            r@ == spec_beamline_name(*self),
    {
        match self {
            BeamlineField::Year => "year",
            BeamlineField::Visit => "visit",
            BeamlineField::Proposal => "proposal",
            BeamlineField::Instrument => "instrument",
        }
    }
}

/// The canonical placeholder name of a beamline field.
pub open spec fn spec_beamline_name(f: BeamlineField) -> Seq<char> {
    match f {
        BeamlineField::Year => "year"@,
        BeamlineField::Visit => "visit"@,
        BeamlineField::Proposal => "proposal"@,
        BeamlineField::Instrument => "instrument"@,
    }
}

/// The canonical placeholder name of a scan field: delegated fields are
/// written bare.
pub open spec fn spec_scan_name(f: ScanField) -> Seq<char> {
    match f {
        ScanField::Subdirectory => "subdirectory"@,
        ScanField::ScanNumber => "scan_number"@,
        ScanField::Beamline(b) => spec_beamline_name(b),
    }
}

/// The canonical placeholder name of a detector field: delegated fields
/// are written bare.
pub open spec fn spec_detector_name(f: DetectorField) -> Seq<char> {
    match f {
        DetectorField::Detector => "detector"@,
        DetectorField::Scan(s) => spec_scan_name(s),
    }
}

impl ScanField {
    /// Parses a placeholder name from the scan field set.
    pub fn parse(name: &str) -> (r: Option<ScanField>)
        ensures
            r == spec_scan_field(name@),
    {
        if str_eq(name, "subdirectory") {
            Some(ScanField::Subdirectory)
        } else if str_eq(name, "scan_number") {
            Some(ScanField::ScanNumber)
        } else {
            let len = name.unicode_len();
            if len > 9 {
                let head = name.substring_char(0, 9);
                if str_eq(head, "beamline.") {
                    let rest = name.substring_char(9, len);
                    return match BeamlineField::parse(rest) {
                        Some(f) => Some(ScanField::Beamline(f)),
                        None => None,
                    };
                }
            }
            match BeamlineField::parse(name) {
                Some(f) => Some(ScanField::Beamline(f)),
                None => None,
            }
        }
    }

    /// The canonical placeholder name of this field.
    pub fn name(&self) -> (r: &'static str)
        ensures
            r@ == spec_scan_name(*self),
    {
        match self {
            ScanField::Subdirectory => "subdirectory",
            ScanField::ScanNumber => "scan_number",
            ScanField::Beamline(b) => b.name(),
        }
    }
}

impl DetectorField {
    /// Parses a placeholder name from the detector field set.
    pub fn parse(name: &str) -> (r: Option<DetectorField>)
        ensures
            r == spec_detector_field(name@),
    {
        if str_eq(name, "detector") {
            Some(DetectorField::Detector)
        } else {
            let len = name.unicode_len();
            if len > 5 {
                let head = name.substring_char(0, 5);
                if str_eq(head, "scan.") {
                    let rest = name.substring_char(5, len);
                    return match ScanField::parse(rest) {
                        Some(f) => Some(DetectorField::Scan(f)),
                        None => None,
                    };
                }
            }
            match ScanField::parse(name) {
                Some(f) => Some(DetectorField::Scan(f)),
                None => None,
            }
        }
    }

    /// The canonical placeholder name of this field.
    pub fn name(&self) -> (r: &'static str)
        ensures
            r@ == spec_detector_name(*self),
    {
        match self {
            DetectorField::Detector => "detector",
            DetectorField::Scan(s) => s.name(),
        }
    }
}

/// Canonical beamline field names parse back to their fields, and never
/// contain a template delimiter.
pub proof fn lemma_beamline_name_round_trip(f: BeamlineField)
    ensures
        spec_beamline_field(spec_beamline_name(f)) == Some(f),
        spec_beamline_name(f).len() > 0,
        forall|i: int|
            0 <= i < spec_beamline_name(f).len() ==> #[trigger] spec_beamline_name(f)[i] != '{'
                && spec_beamline_name(f)[i] != '}',
{
    reveal_strlit("year");
    reveal_strlit("visit");
    reveal_strlit("proposal");
    reveal_strlit("instrument");
    assert("year"@.len() == 4);
    assert("visit"@.len() == 5);
    assert("proposal"@.len() == 8);
    assert("instrument"@.len() == 10);
    let n = spec_beamline_name(f);
    assert forall|i: int| 0 <= i < n.len() implies #[trigger] n[i] != '{' && n[i] != '}' by {
        match f {
            BeamlineField::Year => {},
            BeamlineField::Visit => {},
            BeamlineField::Proposal => {},
            BeamlineField::Instrument => {},
        }
    }
}

/// Canonical scan field names parse back to their fields, and never
/// contain a template delimiter.
pub proof fn lemma_scan_name_round_trip(f: ScanField)
    ensures
        spec_scan_field(spec_scan_name(f)) == Some(f),
        spec_scan_name(f).len() > 0,
        forall|i: int|
            0 <= i < spec_scan_name(f).len() ==> #[trigger] spec_scan_name(f)[i] != '{'
                && spec_scan_name(f)[i] != '}',
{
    reveal_strlit("subdirectory");
    reveal_strlit("scan_number");
    reveal_strlit("beamline.");
    reveal_strlit("year");
    reveal_strlit("visit");
    reveal_strlit("proposal");
    reveal_strlit("instrument");
    assert("year"@.len() == 4);
    assert("visit"@.len() == 5);
    assert("proposal"@.len() == 8);
    assert("instrument"@.len() == 10);
    assert("subdirectory"@.len() == 12);
    assert("scan_number"@.len() == 11);
    assert("beamline."@.len() == 9);
    let n = spec_scan_name(f);
    match f {
        ScanField::Subdirectory => {
            assert forall|i: int| 0 <= i < n.len() implies #[trigger] n[i] != '{' && n[i]
                != '}' by {}
        },
        ScanField::ScanNumber => {
            assert(n != "subdirectory"@);
            assert forall|i: int| 0 <= i < n.len() implies #[trigger] n[i] != '{' && n[i]
                != '}' by {}
        },
        ScanField::Beamline(b) => {
            lemma_beamline_name_round_trip(b);
            assert(n != "subdirectory"@);
            assert(n != "scan_number"@);
            if n.len() > 9 {
                // Only the instrument name is long enough; it does not
                // start like a delegation prefix.
                assert(n.subrange(0, 9) != "beamline."@) by {
                    assert(n.subrange(0, 9)[0] == n[0]);
                }
            }
        },
    }
}

/// Canonical detector field names parse back to their fields, and never
/// contain a template delimiter.
pub proof fn lemma_detector_name_round_trip(f: DetectorField)
    ensures
        spec_detector_field(spec_detector_name(f)) == Some(f),
        spec_detector_name(f).len() > 0,
        forall|i: int|
            0 <= i < spec_detector_name(f).len() ==> #[trigger] spec_detector_name(f)[i] != '{'
                && spec_detector_name(f)[i] != '}',
{
    reveal_strlit("detector");
    reveal_strlit("scan.");
    reveal_strlit("subdirectory");
    reveal_strlit("scan_number");
    reveal_strlit("beamline.");
    reveal_strlit("year");
    reveal_strlit("visit");
    reveal_strlit("proposal");
    reveal_strlit("instrument");
    assert("year"@.len() == 4);
    assert("visit"@.len() == 5);
    assert("proposal"@.len() == 8);
    assert("instrument"@.len() == 10);
    assert("subdirectory"@.len() == 12);
    assert("scan_number"@.len() == 11);
    assert("detector"@.len() == 8);
    assert("scan."@.len() == 5);
    let n = spec_detector_name(f);
    match f {
        DetectorField::Detector => {
            assert forall|i: int| 0 <= i < n.len() implies #[trigger] n[i] != '{' && n[i]
                != '}' by {}
        },
        DetectorField::Scan(s) => {
            lemma_scan_name_round_trip(s);
            assert(n != "detector"@) by {
                assert("detector"@[0] == 'd');
                assert("proposal"@[0] == 'p');
            }
            if n.len() > 5 {
                assert(n.subrange(0, 5) != "scan."@) by {
                    assert(n.subrange(0, 5)[0] == n[0]);
                    assert(n.subrange(0, 5)[1] == n[1]);
                    assert(n.subrange(0, 5)[4] == n[4]);
                }
            }
        },
    }
}

} // verus!
