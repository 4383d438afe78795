//! Render-time contexts for the three path kinds, and the two name
//! sanitizers: the subdirectory validator and the detector-name
//! normalizer. Contexts resolve fields by delegation: a detector context
//! answers its own field and forwards the rest to its scan context, which
//! forwards beamline fields to its beamline context.

use vstd::prelude::*;
use vstd::seq_lib::*;
use crate::text::{
    ascii_alnum, copy_str, dec_digits, dec_int, find_char_from, first_index_from, i32_to_string,
    is_ascii_alnum, lemma_first_index_props, push_char, str_eq, substring, u64_to_string,
};
use crate::paths::{BeamlineField, DetectorField, ScanField};
use crate::template::{
    flat_segments, item_field, lemma_render_append, lemma_render_field, lemma_render_literal,
    spec_compile_detector, spec_compile_scan, spec_compile_visit, spec_render,
    InvalidPathTemplate, PathTemplate, Segment, SpecTemplateError,
};
use crate::db_service::{
    rows_wf, spec_find, spec_next_number, BeamlineConfiguration, ConfigurationError, RowV,
    ScanPathService, SpecConfigurationError,
};

verus! {

/// A device name made safe for use inside a file name: every character
/// outside ASCII letters and digits is replaced by an underscore.
pub open spec fn spec_normalize_detector(s: Seq<char>) -> Seq<char> {
    s.map_values(|c: char| if is_ascii_alnum(c) { c } else { '_' })
}

/// A detector name, normalized at construction so that it is a safe path
/// segment. Normalizing is total: no input is rejected.
#[derive(Debug)]
pub struct Detector(String);

impl View for Detector {
    type V = Seq<char>;

    closed spec fn view(&self) -> Seq<char> {
        self.0@
    }
}

impl Detector {
    /// Builds a detector name, replacing every character outside ASCII
    /// letters and digits by `_`.
    pub fn from(value: &str) -> (r: Detector)
        ensures
            r@ == spec_normalize_detector(value@),
    {
        let len = value.unicode_len();
        let mut out = String::new();
        let mut i: usize = 0;
        while i < len
            invariant
                len == value@.len(),
                0 <= i <= len,
                out@ =~= spec_normalize_detector(value@.subrange(0, i as int)),
            decreases len - i,
        {
            let c = value.get_char(i);
            if ascii_alnum(c) {
                push_char(&mut out, c);
            } else {
                push_char(&mut out, '_');
            }
            i = i + 1;
            proof {
                let pre = value@.subrange(0, i - 1);
                let cur = value@.subrange(0, i as int);
                assert(cur.drop_last() =~= pre);
                assert(spec_normalize_detector(cur) =~= spec_normalize_detector(pre).push(
                    if is_ascii_alnum(c) { c } else { '_' },
                ));
            }
        }
        proof {
            assert(value@.subrange(0, len as int) =~= value@);
        }
        Detector(out)
    }

    /// The normalized name.
    pub fn as_str(&self) -> (r: &str)
        ensures
            r@ == self@,
    {
        self.0.as_str()
    }
}

/// Normalizing a detector name is idempotent: a name that is already
/// normalized passes through unchanged, so normalizing twice equals
/// normalizing once.
pub proof fn lemma_detector_normalize_idempotent(s: Seq<char>)
    ensures
        spec_normalize_detector(spec_normalize_detector(s)) == spec_normalize_detector(s),
{
    let once = spec_normalize_detector(s);
    let twice = spec_normalize_detector(once);
    assert forall|i: int| 0 <= i < once.len() implies twice[i] == once[i] by {
        assert(!is_ascii_alnum('_'));
    }
    assert(twice =~= once);
}

/// Why a subdirectory is rejected, at the specification level.
pub ghost enum SpecInvalidSubdirectory {
    /// The segment at this index (`.` segments counted) may not appear in
    /// a relative subdirectory.
    InvalidComponent(int),
    /// The path is absolute.
    AbsolutePath,
}

/// Why a subdirectory is rejected. The index counts the path's segments,
/// `.` segments included.
#[derive(Debug, PartialEq, Eq)]
pub enum InvalidSubdirectory {
    InvalidComponent(usize),
    AbsolutePath,
}

impl View for InvalidSubdirectory {
    type V = SpecInvalidSubdirectory;

    open spec fn view(&self) -> SpecInvalidSubdirectory {
        match self {
            InvalidSubdirectory::InvalidComponent(i) => SpecInvalidSubdirectory::InvalidComponent(
                *i as int,
            ),
            InvalidSubdirectory::AbsolutePath => SpecInvalidSubdirectory::AbsolutePath,
        }
    }
}

/// Where the path segment starting at `i` ends: at the next `/`, or at
/// the end of the path.
pub open spec fn seg_end(s: Seq<char>, i: int) -> int {
    match first_index_from(s, '/', i) {
        Some(j) => j,
        None => s.len() as int,
    }
}

pub proof fn lemma_seg_end_range(s: Seq<char>, i: int)
    requires
        0 <= i <= s.len(),
    ensures
        i <= seg_end(s, i) <= s.len(),
        i < s.len() && s[i] != '/' ==> i < seg_end(s, i),
        forall|m: int| i <= m < seg_end(s, i) ==> s[m] != '/',
        seg_end(s, i) < s.len() ==> s[seg_end(s, i)] == '/',
{
    lemma_first_index_props(s, '/', i);
}

/// Walks the path from position `i` (the start of a segment or a `/`),
/// with `idx` segments already seen: empty segments are skipped, `.`
/// segments are dropped, ordinary segments are kept, and a `..` segment
/// is rejected with its index.
pub open spec fn spec_sub_from(s: Seq<char>, i: int, idx: int) -> Result<
    Seq<Seq<char>>,
    SpecInvalidSubdirectory,
>
    decreases s.len() - i
        when 0 <= i <= s.len()
        via spec_sub_from_decreases
{
    if i >= s.len() {
        Ok(seq![])
    } else if s[i] == '/' {
        spec_sub_from(s, i + 1, idx)
    } else {
        let j = seg_end(s, i);
        let seg = s.subrange(i, j);
        if seg == "."@ {
            spec_sub_from(s, j, idx + 1)
        } else if seg == ".."@ {
            Err(SpecInvalidSubdirectory::InvalidComponent(idx))
        } else {
            match spec_sub_from(s, j, idx + 1) {
                Ok(r) => Ok(seq![seg] + r),
                Err(e) => Err(e),
            }
        }
    }
}

#[via_fn]
proof fn spec_sub_from_decreases(s: Seq<char>, i: int, idx: int) {
    if 0 <= i < s.len() && s[i] != '/' {
        lemma_seg_end_range(s, i);
    }
}

/// The kept segments joined with `/`.
pub open spec fn join_slash(parts: Seq<Seq<char>>) -> Seq<char> {
    crate::text::spec_join(parts, '/')
}

/// What validating a subdirectory yields: the normalized relative path,
/// or the first offending segment. An absolute path is rejected outright.
pub open spec fn spec_subdirectory(s: Seq<char>) -> Result<Seq<char>, SpecInvalidSubdirectory> {
    if s.len() > 0 && s[0] == '/' {
        Err(SpecInvalidSubdirectory::AbsolutePath)
    } else {
        match spec_sub_from(s, 0, 0) {
            Ok(parts) => Ok(join_slash(parts)),
            Err(e) => Err(e),
        }
    }
}

/// A validated, normalized relative path with no absolute or
/// parent-directory components. The empty path is valid and is the
/// default.
#[derive(Debug)]
pub struct Subdirectory(String);

impl View for Subdirectory {
    type V = Seq<char>;

    closed spec fn view(&self) -> Seq<char> {
        self.0@
    }
}

impl Default for Subdirectory {
    /// The empty subdirectory.
    fn default() -> (r: Subdirectory)
        ensures
            r@ == Seq::<char>::empty(),
    {
        Subdirectory(String::new())
    }
}

/// The walk of `s` is the walk of its first `i` characters, whose kept
/// segments are `parts`, followed by the walk from `i`; errors from `i`
/// onwards are the walk's errors.
pub open spec fn sub_completes(s: Seq<char>, i: int, idx: int, parts: Seq<Seq<char>>) -> bool {
    match spec_sub_from(s, i, idx) {
        Ok(r) => spec_sub_from(s, 0, 0) == Ok::<Seq<Seq<char>>, SpecInvalidSubdirectory>(
            parts + r,
        ),
        Err(e) => spec_sub_from(s, 0, 0) == Err::<Seq<Seq<char>>, SpecInvalidSubdirectory>(e),
    }
}

impl Subdirectory {
    /// Validates and normalizes a subdirectory: `.` segments and empty
    /// segments are dropped, ordinary segments are kept in order, an
    /// absolute path fails with `AbsolutePath`, and a `..` segment fails
    /// with `InvalidComponent` naming its index.
    pub fn new(sub: &str) -> (r: Result<Subdirectory, InvalidSubdirectory>)
        ensures
            match r {
                Ok(d) => spec_subdirectory(sub@) == Ok::<Seq<char>, SpecInvalidSubdirectory>(d@),
                Err(e) => spec_subdirectory(sub@) == Err::<Seq<char>, SpecInvalidSubdirectory>(
                    e@,
                ),
            },
    {
        let ghost s = sub@;
        let len = sub.unicode_len();
        if len > 0 && sub.get_char(0) == '/' {
            return Err(InvalidSubdirectory::AbsolutePath);
        }
        let mut parts: Vec<String> = Vec::new();
        let mut i: usize = 0;
        let mut idx: usize = 0;
        proof {
            assert(parts@.map_values(|p: String| p@) =~= Seq::<Seq<char>>::empty());
            match spec_sub_from(s, 0, 0) {
                Ok(r) => {
                    assert(Seq::<Seq<char>>::empty() + r =~= r);
                },
                Err(_) => {},
            }
        }
        while i < len
            invariant
                len == s.len(),
                s == sub@,
                s.len() > 0 ==> s[0] != '/',
                0 <= i <= len,
                idx <= i,
                sub_completes(s, i as int, idx as int, parts@.map_values(|p: String| p@)),
            decreases len - i,
        {
            let c = sub.get_char(i);
            if c == '/' {
                i = i + 1;
                continue;
            }
            let j = match find_char_from(sub, '/', i) {
                Some(j) => j,
                None => len,
            };
            proof {
                assert(seg_end(s, i as int) == j as int);
                lemma_seg_end_range(s, i as int);
            }
            let seg = substring(sub, i, j);
            if str_eq(seg.as_str(), ".") {
                idx = idx + 1;
                i = j;
                continue;
            }
            if str_eq(seg.as_str(), "..") {
                proof {
                    assert(spec_sub_from(s, i as int, idx as int) == Err::<
                        Seq<Seq<char>>,
                        SpecInvalidSubdirectory,
                    >(SpecInvalidSubdirectory::InvalidComponent(idx as int)));
                }
                return Err(InvalidSubdirectory::InvalidComponent(idx));
            }
            let ghost old_parts = parts@;
            parts.push(seg);
            proof {
                let f = |p: String| p@;
                assert(parts@.map_values(f) =~= old_parts.map_values(f).push(
                    s.subrange(i as int, j as int),
                ));
                let one = seq![s.subrange(i as int, j as int)];
                match spec_sub_from(s, j as int, idx as int + 1) {
                    Ok(r) => {
                        assert(spec_sub_from(s, i as int, idx as int) == Ok::<
                            Seq<Seq<char>>,
                            SpecInvalidSubdirectory,
                        >(one + r));
                        assert(old_parts.map_values(f) + (one + r) =~= parts@.map_values(f) + r);
                    },
                    Err(_) => {},
                }
            }
            idx = idx + 1;
            i = j;
        }
        proof {
            let f = |p: String| p@;
            assert(spec_sub_from(s, len as int, idx as int) == Ok::<
                Seq<Seq<char>>,
                SpecInvalidSubdirectory,
            >(seq![]));
            assert(parts@.map_values(f) + Seq::<Seq<char>>::empty() =~= parts@.map_values(f));
        }
        let out = crate::text::join_parts(&parts, '/');
        Ok(Subdirectory(out))
    }

    /// The normalized relative path.
    pub fn as_str(&self) -> (r: &str)
        ensures
            r@ == self@,
    {
        self.0.as_str()
    }
}

/// A `..` segment of the path: it starts at a segment boundary, ends at a
/// boundary, and consists of exactly two dots.
pub open spec fn has_dotdot_segment(s: Seq<char>) -> bool {
    exists|i: int|
        #![trigger s.subrange(i, i + 2)]
        0 <= i && i + 2 <= s.len() && (i == 0 || s[i - 1] == '/') && (i + 2 == s.len() || s[i + 2]
            == '/') && s.subrange(i, i + 2) == ".."@
}

proof fn lemma_sub_ok_no_dotdot(s: Seq<char>, i: int, idx: int)
    requires
        0 <= i <= s.len(),
        spec_sub_from(s, i, idx) is Ok,
    ensures
        forall|k: int|
            #![trigger s.subrange(k, k + 2)]
            i <= k && k + 2 <= s.len() && (k == 0 || s[k - 1] == '/') && (k + 2 == s.len() || s[k
                + 2] == '/') ==> s.subrange(k, k + 2) != ".."@,
    decreases s.len() - i,
{
    reveal_strlit(".");
    reveal_strlit("..");
    assert("."@.len() == 1);
    assert(".."@.len() == 2);
    assert(".."@[0] == '.');
    assert(".."@[1] == '.');
    if i >= s.len() {
    } else if s[i] == '/' {
        lemma_sub_ok_no_dotdot(s, i + 1, idx);
        assert forall|k: int|
            #![trigger s.subrange(k, k + 2)]
            i <= k && k + 2 <= s.len() && (k == 0 || s[k - 1] == '/') && (k + 2 == s.len() || s[k
                + 2] == '/') implies s.subrange(k, k + 2) != ".."@ by {
            if k == i {
                assert(s.subrange(k, k + 2)[0] == s[k]);
                assert(s[i] == '/');
            }
        }
    } else {
        let j = seg_end(s, i);
        lemma_seg_end_range(s, i);
        let seg = s.subrange(i, j);
        if seg == "."@ || !(seg == ".."@) {
            lemma_sub_ok_no_dotdot(s, j, idx + 1);
            assert forall|k: int|
                #![trigger s.subrange(k, k + 2)]
                i <= k && k + 2 <= s.len() && (k == 0 || s[k - 1] == '/') && (k + 2 == s.len()
                    || s[k + 2] == '/') implies s.subrange(k, k + 2) != ".."@ by {
                if k < j {
                    // A boundary strictly inside the segment is impossible,
                    // so k == i; a `..` there would make the segment `..`.
                    if k > i {
                        assert(s[k - 1] != '/');
                    } else {
                        if s.subrange(k, k + 2) == ".."@ {
                            assert(s.subrange(k, k + 2)[0] == s[k]);
                            assert(s.subrange(k, k + 2)[1] == s[k + 1]);
                            assert(s[i] == '.' && s[i + 1] == '.');
                            assert(i + 2 == s.len() || s[i + 2] == '/');
                            assert(j == i + 2) by {
                                if j < i + 2 {
                                    // j is a boundary inside the two dots.
                                    assert(j < s.len() && s[j] == '/');
                                } else if j > i + 2 {
                                    assert(i + 2 < s.len());
                                    assert(s[i + 2] != '/');
                                }
                            }
                            assert(seg.len() == 2);
                            assert(seg[0] == s[i] && seg[1] == s[i + 1]);
                            assert(seg =~= ".."@);
                        }
                    }
                }
            }
        }
    }
}

/// A subdirectory is rejected whenever the path is absolute, and whenever
/// a `..` segment appears anywhere in it.
pub proof fn lemma_subdirectory_rejects(s: Seq<char>)
    ensures
        s.len() > 0 && s[0] == '/' ==> spec_subdirectory(s) == Err::<
            Seq<char>,
            SpecInvalidSubdirectory,
        >(SpecInvalidSubdirectory::AbsolutePath),
        has_dotdot_segment(s) ==> spec_subdirectory(s) is Err,
{
    if !(s.len() > 0 && s[0] == '/') && has_dotdot_segment(s) {
        if spec_sub_from(s, 0, 0) is Ok {
            lemma_sub_ok_no_dotdot(s, 0, 0);
            let i = choose|i: int|
                #![trigger s.subrange(i, i + 2)]
                0 <= i && i + 2 <= s.len() && (i == 0 || s[i - 1] == '/') && (i + 2 == s.len()
                    || s[i + 2] == '/') && s.subrange(i, i + 2) == ".."@;
            assert(s.subrange(i, i + 2) != ".."@);
        }
    }
}

/// What a beamline context holds: the instrument name and the visit
/// identifier.
pub ghost struct BeamlineCtx {
    pub instrument: Seq<char>,
    pub visit: Seq<char>,
}

/// What a scan context holds: the request's subdirectory, the allocated
/// scan number, and the enclosing beamline context.
pub ghost struct ScanCtx {
    pub subdirectory: Seq<char>,
    pub scan_number: int,
    pub beamline: BeamlineCtx,
}

/// What a detector context holds: the normalized detector name and the
/// enclosing scan context.
pub ghost struct DetectorCtx {
    pub detector: Seq<char>,
    pub scan: ScanCtx,
}

/// The instrument and visit a path request is for.
pub struct BeamlineContext {
    instrument: String,
    visit: String,
}

/// A beamline context extended with an allocated scan number and a
/// validated subdirectory.
pub struct ScanContext {
    pub subdirectory: Subdirectory,
    pub scan_number: u32,
    pub beamline: BeamlineContext,
}

/// A scan context extended with one normalized detector name.
pub struct DetectorContext<'bl> {
    pub detector: Detector,
    pub scan: &'bl ScanContext,
}

impl View for BeamlineContext {
    type V = BeamlineCtx;

    closed spec fn view(&self) -> BeamlineCtx {
        BeamlineCtx { instrument: self.instrument@, visit: self.visit@ }
    }
}

impl View for ScanContext {
    type V = ScanCtx;

    open spec fn view(&self) -> ScanCtx {
        ScanCtx {
            subdirectory: self.subdirectory@,
            scan_number: self.scan_number as int,
            beamline: self.beamline@,
        }
    }
}

impl<'bl> View for DetectorContext<'bl> {
    type V = DetectorCtx;

    open spec fn view(&self) -> DetectorCtx {
        DetectorCtx { detector: self.detector@, scan: self.scan@ }
    }
}

/// The proposal part of a visit identifier: everything before the first
/// `-`, or the whole identifier if it has none.
pub open spec fn spec_proposal_of(visit: Seq<char>) -> Seq<char> {
    match first_index_from(visit, '-', 0) {
        Some(i) => visit.subrange(0, i),
        None => visit,
    }
}

/// What each beamline field resolves to, given the context and the year.
pub open spec fn spec_resolve_beamline(f: BeamlineField, ctx: BeamlineCtx, year: int) -> Seq<
    char,
> {
    match f {
        BeamlineField::Year => dec_int(year),
        BeamlineField::Visit => ctx.visit,
        BeamlineField::Proposal => spec_proposal_of(ctx.visit),
        BeamlineField::Instrument => ctx.instrument,
    }
}

/// What each scan field resolves to: its own fields directly, beamline
/// fields through the enclosing beamline context.
pub open spec fn spec_resolve_scan(f: ScanField, ctx: ScanCtx, year: int) -> Seq<char> {
    match f {
        ScanField::Subdirectory => ctx.subdirectory,
        ScanField::ScanNumber => dec_digits(ctx.scan_number),
        ScanField::Beamline(b) => spec_resolve_beamline(b, ctx.beamline, year),
    }
}

/// What each detector field resolves to: its own field directly, scan
/// fields through the enclosing scan context.
pub open spec fn spec_resolve_detector(f: DetectorField, ctx: DetectorCtx, year: int) -> Seq<
    char,
> {
    match f {
        DetectorField::Detector => ctx.detector,
        DetectorField::Scan(s) => spec_resolve_scan(s, ctx.scan, year),
    }
}

/// The rendering of compiled visit items against a beamline context for
/// a given year.
pub open spec fn spec_visit_render(
    items: Seq<crate::template::PItem<BeamlineField>>,
    ctx: BeamlineCtx,
    y: int,
) -> Seq<char> {
    spec_render(items, |f: BeamlineField| spec_resolve_beamline(f, ctx, y))
}

/// The rendering of compiled scan items against a scan context for a
/// given year.
pub open spec fn spec_scan_render(
    items: Seq<crate::template::PItem<ScanField>>,
    ctx: ScanCtx,
    y: int,
) -> Seq<char> {
    spec_render(items, |f: ScanField| spec_resolve_scan(f, ctx, y))
}

/// The rendering of compiled detector items against a detector context
/// for a given year.
pub open spec fn spec_detector_render(
    items: Seq<crate::template::PItem<DetectorField>>,
    ctx: DetectorCtx,
    y: int,
) -> Seq<char> {
    spec_render(items, |f: DetectorField| spec_resolve_detector(f, ctx, y))
}

impl BeamlineContext {
    /// A context for the given instrument and visit.
    pub fn new(instrument: String, visit: String) -> (r: BeamlineContext)
        ensures
            r@.instrument == instrument@,
            r@.visit == visit@,
    {
        BeamlineContext { instrument, visit }
    }

    /// The instrument name.
    pub fn instrument(&self) -> (r: &str)
        ensures
            r@ == self@.instrument,
    {
        self.instrument.as_str()
    }

    /// The visit identifier.
    pub fn visit(&self) -> (r: &str)
        ensures
            r@ == self@.visit,
    {
        self.visit.as_str()
    }

    /// Extends this context with an allocated scan number and a
    /// subdirectory.
    pub fn for_scan(&self, scan_number: u32, subdirectory: Subdirectory) -> (r: ScanContext)
        ensures
            r@.scan_number == scan_number as int,
            r@.subdirectory == subdirectory@,
            r@.beamline == self@,
    {
        ScanContext {
            subdirectory,
            scan_number,
            beamline: BeamlineContext {
                instrument: copy_str(self.instrument.as_str()),
                visit: copy_str(self.visit.as_str()),
            },
        }
    }

    /// Resolves one beamline field against this context.
    pub fn resolve(&self, field: &BeamlineField, year: i32) -> (r: String)
        ensures
            r@ == spec_resolve_beamline(*field, self@, year as int),
    {
        match field {
            BeamlineField::Year => i32_to_string(year),
            BeamlineField::Visit => copy_str(self.visit.as_str()),
            BeamlineField::Proposal => {
                match find_char_from(self.visit.as_str(), '-', 0) {
                    Some(i) => substring(self.visit.as_str(), 0, i),
                    None => copy_str(self.visit.as_str()),
                }
            },
            BeamlineField::Instrument => copy_str(self.instrument.as_str()),
        }
    }
}

impl ScanContext {
    /// Extends this context with one detector name, normalizing it.
    pub fn for_detector(&self, det: &str) -> (r: DetectorContext)
        ensures
            r@.detector == spec_normalize_detector(det@),
            r@.scan == self@,
    {
        DetectorContext { scan: self, detector: Detector::from(det) }
    }

    /// Resolves one scan field against this context.
    pub fn resolve(&self, field: &ScanField, year: i32) -> (r: String)
        ensures
            r@ == spec_resolve_scan(*field, self@, year as int),
    {
        match field {
            ScanField::Subdirectory => copy_str(self.subdirectory.as_str()),
            ScanField::ScanNumber => u64_to_string(self.scan_number as u64),
            ScanField::Beamline(b) => self.beamline.resolve(b, year),
        }
    }
}

impl<'bl> DetectorContext<'bl> {
    /// Resolves one detector field against this context.
    pub fn resolve(&self, field: &DetectorField, year: i32) -> (r: String)
        ensures
            r@ == spec_resolve_detector(*field, self@, year as int),
    {
        match field {
            DetectorField::Detector => copy_str(self.detector.as_str()),
            DetectorField::Scan(s) => self.scan.resolve(s, year),
        }
    }
}

impl PathTemplate<BeamlineField> {
    /// Renders this visit template against a beamline context; the year
    /// stands in for the clock. Rendering never fails: the context is
    /// total over the closed field set.
    pub fn render(&self, ctx: &BeamlineContext, year: i32) -> (r: String)
        ensures
            r@ == spec_render(
                self@,
                |f: BeamlineField| spec_resolve_beamline(f, ctx@, year as int),
            ),
    {
        let ghost resolve = |f: BeamlineField| spec_resolve_beamline(f, ctx@, year as int);
        let segs = self.segments();
        let mut out = String::new();
        let mut i: usize = 0;
        proof {
            self.lemma_view_is_flat();
            assert(segs@.take(0) =~= Seq::<Segment<BeamlineField>>::empty());
            assert(segs@.take(0).map_values(|g: Segment<BeamlineField>| g@).len() == 0);
            assert(out@ =~= spec_render(flat_segments(segs@.take(0)), resolve));
        }
        while i < segs.len()
            invariant
                0 <= i <= segs@.len(),
                segs@ == self.spec_segments(),
                self@ == flat_segments(self.spec_segments()),
                out@ == spec_render(flat_segments(segs@.take(i as int)), resolve),
                resolve == (|f: BeamlineField| spec_resolve_beamline(f, ctx@, year as int)),
            decreases segs@.len() - i,
        {
            let ghost done = flat_segments(segs@.take(i as int));
            proof {
                segs@.lemma_flat_map_take_append(|g: Segment<BeamlineField>| g@, i as int);
                lemma_render_append(done, segs@[i as int]@, resolve);
            }
            let seg = &segs[i];
            match seg {
                Segment::Literal(lit) => {
                    out.append(lit.as_str());
                    proof {
                        lemma_render_literal::<BeamlineField>(lit@, resolve);
                    }
                },
                Segment::Field(f) => {
                    let v = ctx.resolve(f, year);
                    out.append(v.as_str());
                    proof {
                        lemma_render_field(*f, resolve);
                        assert(seg@ =~= seq![item_field::<BeamlineField>(*f)]);
                    }
                },
            }
            i = i + 1;
        }
        proof {
            assert(segs@.take(segs@.len() as int) =~= segs@);
        }
        out
    }
}

impl PathTemplate<ScanField> {
    /// Renders this scan template against a scan context; the year stands
    /// in for the clock. Rendering never fails: the context is total over
    /// the closed field set.
    pub fn render(&self, ctx: &ScanContext, year: i32) -> (r: String)
        ensures
            r@ == spec_render(self@, |f: ScanField| spec_resolve_scan(f, ctx@, year as int)),
    {
        let ghost resolve = |f: ScanField| spec_resolve_scan(f, ctx@, year as int);
        let segs = self.segments();
        let mut out = String::new();
        let mut i: usize = 0;
        proof {
            self.lemma_view_is_flat();
            assert(segs@.take(0) =~= Seq::<Segment<ScanField>>::empty());
            assert(segs@.take(0).map_values(|g: Segment<ScanField>| g@).len() == 0);
            assert(out@ =~= spec_render(flat_segments(segs@.take(0)), resolve));
        }
        while i < segs.len()
            invariant
                0 <= i <= segs@.len(),
                segs@ == self.spec_segments(),
                self@ == flat_segments(self.spec_segments()),
                out@ == spec_render(flat_segments(segs@.take(i as int)), resolve),
                resolve == (|f: ScanField| spec_resolve_scan(f, ctx@, year as int)),
            decreases segs@.len() - i,
        {
            let ghost done = flat_segments(segs@.take(i as int));
            proof {
                segs@.lemma_flat_map_take_append(|g: Segment<ScanField>| g@, i as int);
                lemma_render_append(done, segs@[i as int]@, resolve);
            }
            let seg = &segs[i];
            match seg {
                Segment::Literal(lit) => {
                    out.append(lit.as_str());
                    proof {
                        lemma_render_literal::<ScanField>(lit@, resolve);
                    }
                },
                Segment::Field(f) => {
                    let v = ctx.resolve(f, year);
                    out.append(v.as_str());
                    proof {
                        lemma_render_field(*f, resolve);
                        assert(seg@ =~= seq![item_field::<ScanField>(*f)]);
                    }
                },
            }
            i = i + 1;
        }
        proof {
            assert(segs@.take(segs@.len() as int) =~= segs@);
        }
        out
    }
}

impl PathTemplate<DetectorField> {
    /// Renders this detector template against a detector context; the
    /// year stands in for the clock. Rendering never fails: the context
    /// is total over the closed field set.
    pub fn render(&self, ctx: &DetectorContext, year: i32) -> (r: String)
        ensures
            r@ == spec_render(
                self@,
                |f: DetectorField| spec_resolve_detector(f, ctx@, year as int),
            ),
    {
        let ghost resolve = |f: DetectorField| spec_resolve_detector(f, ctx@, year as int);
        let segs = self.segments();
        let mut out = String::new();
        let mut i: usize = 0;
        proof {
            self.lemma_view_is_flat();
            assert(segs@.take(0) =~= Seq::<Segment<DetectorField>>::empty());
            assert(segs@.take(0).map_values(|g: Segment<DetectorField>| g@).len() == 0);
            assert(out@ =~= spec_render(flat_segments(segs@.take(0)), resolve));
        }
        while i < segs.len()
            invariant
                0 <= i <= segs@.len(),
                segs@ == self.spec_segments(),
                self@ == flat_segments(self.spec_segments()),
                out@ == spec_render(flat_segments(segs@.take(i as int)), resolve),
                resolve == (|f: DetectorField| spec_resolve_detector(f, ctx@, year as int)),
            decreases segs@.len() - i,
        {
            let ghost done = flat_segments(segs@.take(i as int));
            proof {
                segs@.lemma_flat_map_take_append(|g: Segment<DetectorField>| g@, i as int);
                lemma_render_append(done, segs@[i as int]@, resolve);
            }
            let seg = &segs[i];
            match seg {
                Segment::Literal(lit) => {
                    out.append(lit.as_str());
                    proof {
                        lemma_render_literal::<DetectorField>(lit@, resolve);
                    }
                },
                Segment::Field(f) => {
                    let v = ctx.resolve(f, year);
                    out.append(v.as_str());
                    proof {
                        lemma_render_field(*f, resolve);
                        assert(seg@ =~= seq![item_field::<DetectorField>(*f)]);
                    }
                },
            }
            i = i + 1;
        }
        proof {
            assert(segs@.take(segs@.len() as int) =~= segs@);
        }
        out
    }
}

/// Relies on chrono's `Local::now` and `Datelike::year` for the current
/// local calendar year. The result depends on the clock, so nothing is
/// promised of it.
#[verifier::external_body]
pub fn current_year() -> i32 {
    chrono::Datelike::year(&chrono::Local::now())
}

/// Why a path request fails, at the specification level.
pub ghost enum SpecPathLookupError {
    /// The configuration lookup failed.
    Config(SpecConfigurationError),
    /// The stored template text does not compile.
    Template(SpecTemplateError),
}

/// Why a path request fails: the instrument has no configuration, the
/// storage layer failed, or the stored template text does not compile.
#[derive(Debug)]
pub enum PathLookupError {
    Config(ConfigurationError),
    Template(InvalidPathTemplate),
}

impl View for PathLookupError {
    type V = SpecPathLookupError;

    open spec fn view(&self) -> SpecPathLookupError {
        match self {
            PathLookupError::Config(e) => SpecPathLookupError::Config(e@),
            PathLookupError::Template(e) => SpecPathLookupError::Template(e@),
        }
    }
}

/// What a visit service holds: the configuration store and the request's
/// beamline context.
pub ghost struct VisitServiceV {
    pub db: Seq<RowV>,
    pub ctx: BeamlineCtx,
}

/// What a scan service holds: the configuration store and the request's
/// scan context.
pub ghost struct ScanServiceV {
    pub db: Seq<RowV>,
    pub ctx: ScanCtx,
}

/// A detector context built in specification: the normalized name over
/// the enclosing scan context.
pub open spec fn spec_detector_ctx(det: Seq<char>, scan: ScanCtx) -> DetectorCtx {
    DetectorCtx { detector: spec_normalize_detector(det), scan }
}

/// The path is the visit template's rendering for some year: what a
/// clock-reading render guarantees, since the year it used is not fixed
/// by the arguments.
pub open spec fn renders_visit_for_some_year(
    p: Seq<char>,
    items: Seq<crate::template::PItem<BeamlineField>>,
    ctx: BeamlineCtx,
) -> bool {
    exists|y: int| p == #[trigger] spec_visit_render(items, ctx, y)
}

/// Path requests for a visit: the visit directory, and the transition to
/// a new scan.
pub struct VisitService {
    db: ScanPathService,
    ctx: BeamlineContext,
}

/// Path requests for one allocated scan: the scan file and the detector
/// files.
pub struct ScanService {
    db: ScanPathService,
    ctx: ScanContext,
}

impl View for VisitService {
    type V = VisitServiceV;

    closed spec fn view(&self) -> VisitServiceV {
        VisitServiceV { db: self.db@, ctx: self.ctx@ }
    }
}

impl View for ScanService {
    type V = ScanServiceV;

    closed spec fn view(&self) -> ScanServiceV {
        ScanServiceV { db: self.db@, ctx: self.ctx@ }
    }
}

impl VisitService {
    /// A service over the given store, for one instrument and visit.
    pub fn new(backend: ScanPathService, ctx: BeamlineContext) -> (r: VisitService)
        ensures
            r@.db == backend@,
            r@.ctx == ctx@,
    {
        VisitService { db: backend, ctx }
    }

    /// The instrument this service answers for.
    pub fn beamline(&self) -> (r: &str)
        ensures
            r@ == self@.ctx.instrument,
    {
        self.ctx.instrument.as_str()
    }

    /// The visit this service answers for.
    pub fn visit(&self) -> (r: &str)
        ensures
            r@ == self@.ctx.visit,
    {
        self.ctx.visit.as_str()
    }

    /// Allocates the next scan number for this instrument and extends
    /// the context with it and the given subdirectory. Fails with
    /// `MissingBeamline` exactly when the instrument has no
    /// configuration, leaving the store unchanged. The instrument's
    /// counter must have room left in its width for one more number.
    pub fn new_scan(self, subdirectory: Subdirectory) -> (r: Result<
        ScanService,
        ConfigurationError,
    >)
        requires
            rows_wf(self@.db),
            match spec_find(self@.db, self@.ctx.instrument) {
                Some(i) => self@.db[i].scan_number < u32::MAX,
                None => true,
            },
        ensures
            match spec_find(self@.db, self@.ctx.instrument) {
                Some(i) => {
                    &&& r matches Ok(s)
                    &&& s@.ctx.beamline == self@.ctx
                    &&& s@.ctx.subdirectory == subdirectory@
                    &&& s@.ctx.scan_number == spec_next_number(self@.db[i].scan_number, None)
                    &&& s@.db == self@.db.update(
                        i,
                        RowV { scan_number: s@.ctx.scan_number, ..self@.db[i] },
                    )
                },
                None => {
                    &&& r matches Err(e)
                    &&& e@ == SpecConfigurationError::MissingBeamline(self@.ctx.instrument)
                },
            },
    {
        let VisitService { db, ctx } = self;
        let mut db = db;
        match db.next_scan_configuration(ctx.instrument.as_str(), None) {
            Ok(cfg) => {
                let number = cfg.scan_number();
                Ok(ScanService { db, ctx: ctx.for_scan(number, subdirectory) })
            },
            Err(e) => Err(e),
        }
    }

    /// The visit directory for the given year: the instrument's stored
    /// visit template rendered against this context.
    pub fn visit_directory_for_year(&self, year: i32) -> (r: Result<String, PathLookupError>)
        ensures
            match spec_find(self@.db, self@.ctx.instrument) {
                None => r matches Err(e) && e@ == SpecPathLookupError::Config(
                    SpecConfigurationError::MissingBeamline(self@.ctx.instrument),
                ),
                Some(i) => match spec_compile_visit(self@.db[i].visit) {
                    Ok(items) => r matches Ok(p) && p@ == spec_visit_render(
                        items,
                        self@.ctx,
                        year as int,
                    ),
                    Err(e) => r matches Err(pe) && pe@ == SpecPathLookupError::Template(e),
                },
            },
    {
        let cfg = match self.db.current_configuration(self.ctx.instrument.as_str()) {
            Ok(c) => c,
            Err(e) => {
                return Err(PathLookupError::Config(e));
            },
        };
        let template = match cfg.visit() {
            Ok(t) => t,
            Err(e) => {
                return Err(PathLookupError::Template(e));
            },
        };
        Ok(template.render(&self.ctx, year))
    }

    /// The visit directory for the current year, as `current_year`
    /// reports it.
    pub fn visit_directory(&self) -> (r: Result<String, PathLookupError>)
        ensures
            match spec_find(self@.db, self@.ctx.instrument) {
                None => r matches Err(e) && e@ == SpecPathLookupError::Config(
                    SpecConfigurationError::MissingBeamline(self@.ctx.instrument),
                ),
                Some(i) => match spec_compile_visit(self@.db[i].visit) {
                    Ok(items) => r matches Ok(p) && renders_visit_for_some_year(
                        p@,
                        items,
                        self@.ctx,
                    ),
                    Err(e) => r matches Err(pe) && pe@ == SpecPathLookupError::Template(e),
                },
            },
    {
        let year = current_year();
        let r = self.visit_directory_for_year(year);
        proof {
            match spec_find(self@.db, self@.ctx.instrument) {
                Some(i) => {
                    match spec_compile_visit(self@.db[i].visit) {
                        Ok(items) => {
                            match &r {
                                Ok(p) => {
                                    assert(renders_visit_for_some_year(
                                        p@,
                                        items,
                                        self@.ctx,
                                    )) by {
                                        assert(p@ == spec_visit_render(
                                            items,
                                            self@.ctx,
                                            year as int,
                                        ));
                                    }
                                },
                                Err(_) => {},
                            }
                        },
                        Err(_) => {},
                    }
                },
                None => {},
            }
        }
        r
    }
}

/// The path is the scan template's rendering for some year.
pub open spec fn renders_scan_for_some_year(
    p: Seq<char>,
    items: Seq<crate::template::PItem<ScanField>>,
    ctx: ScanCtx,
) -> bool {
    exists|y: int| p == #[trigger] spec_scan_render(items, ctx, y)
}

/// The path is the detector template's rendering for some year.
pub open spec fn renders_detector_for_some_year(
    p: Seq<char>,
    items: Seq<crate::template::PItem<DetectorField>>,
    ctx: DetectorCtx,
) -> bool {
    exists|y: int| p == #[trigger] spec_detector_render(items, ctx, y)
}

impl ScanService {
    /// The allocated scan number.
    pub fn scan_number(&self) -> (r: u32)
        ensures
            r as int == self@.ctx.scan_number,
    {
        self.ctx.scan_number
    }

    /// The instrument this scan belongs to.
    pub fn beamline(&self) -> (r: &str)
        ensures
            r@ == self@.ctx.beamline.instrument,
    {
        self.ctx.beamline.instrument.as_str()
    }

    /// The visit this scan belongs to.
    pub fn visit(&self) -> (r: &str)
        ensures
            r@ == self@.ctx.beamline.visit,
    {
        self.ctx.beamline.visit.as_str()
    }

    /// The visit directory for the given year: the instrument's stored
    /// visit template rendered against the enclosing beamline context.
    pub fn visit_directory_for_year(&self, year: i32) -> (r: Result<String, PathLookupError>)
        ensures
            match spec_find(self@.db, self@.ctx.beamline.instrument) {
                None => r matches Err(e) && e@ == SpecPathLookupError::Config(
                    SpecConfigurationError::MissingBeamline(self@.ctx.beamline.instrument),
                ),
                Some(i) => match spec_compile_visit(self@.db[i].visit) {
                    Ok(items) => r matches Ok(p) && p@ == spec_visit_render(
                        items,
                        self@.ctx.beamline,
                        year as int,
                    ),
                    Err(e) => r matches Err(pe) && pe@ == SpecPathLookupError::Template(e),
                },
            },
    {
        let cfg = match self.db.current_configuration(self.ctx.beamline.instrument.as_str()) {
            Ok(c) => c,
            Err(e) => {
                return Err(PathLookupError::Config(e));
            },
        };
        let template = match cfg.visit() {
            Ok(t) => t,
            Err(e) => {
                return Err(PathLookupError::Template(e));
            },
        };
        Ok(template.render(&self.ctx.beamline, year))
    }

    /// The visit directory for the current year, as `current_year`
    /// reports it.
    pub fn visit_directory(&self) -> (r: Result<String, PathLookupError>)
        ensures
            match spec_find(self@.db, self@.ctx.beamline.instrument) {
                None => r matches Err(e) && e@ == SpecPathLookupError::Config(
                    SpecConfigurationError::MissingBeamline(self@.ctx.beamline.instrument),
                ),
                Some(i) => match spec_compile_visit(self@.db[i].visit) {
                    Ok(items) => r matches Ok(p) && renders_visit_for_some_year(
                        p@,
                        items,
                        self@.ctx.beamline,
                    ),
                    Err(e) => r matches Err(pe) && pe@ == SpecPathLookupError::Template(e),
                },
            },
    {
        let year = current_year();
        let r = self.visit_directory_for_year(year);
        proof {
            match spec_find(self@.db, self@.ctx.beamline.instrument) {
                Some(i) => {
                    match spec_compile_visit(self@.db[i].visit) {
                        Ok(items) => {
                            match &r {
                                Ok(p) => {
                                    assert(renders_visit_for_some_year(
                                        p@,
                                        items,
                                        self@.ctx.beamline,
                                    )) by {
                                        assert(p@ == spec_visit_render(
                                            items,
                                            self@.ctx.beamline,
                                            year as int,
                                        ));
                                    }
                                },
                                Err(_) => {},
                            }
                        },
                        Err(_) => {},
                    }
                },
                None => {},
            }
        }
        r
    }

    /// The scan file path for the given year: the instrument's stored
    /// scan template rendered against this scan context. The path has no
    /// extension; the caller chooses the format.
    pub fn scan_file_for_year(&self, year: i32) -> (r: Result<String, PathLookupError>)
        ensures
            match spec_find(self@.db, self@.ctx.beamline.instrument) {
                None => r matches Err(e) && e@ == SpecPathLookupError::Config(
                    SpecConfigurationError::MissingBeamline(self@.ctx.beamline.instrument),
                ),
                Some(i) => match spec_compile_scan(self@.db[i].scan) {
                    Ok(items) => r matches Ok(p) && p@ == spec_scan_render(
                        items,
                        self@.ctx,
                        year as int,
                    ),
                    Err(e) => r matches Err(pe) && pe@ == SpecPathLookupError::Template(e),
                },
            },
    {
        let cfg = match self.db.current_configuration(self.ctx.beamline.instrument.as_str()) {
            Ok(c) => c,
            Err(e) => {
                return Err(PathLookupError::Config(e));
            },
        };
        let template = match cfg.scan() {
            Ok(t) => t,
            Err(e) => {
                return Err(PathLookupError::Template(e));
            },
        };
        Ok(template.render(&self.ctx, year))
    }

    /// The scan file path for the current year, as `current_year`
    /// reports it.
    pub fn scan_file(&self) -> (r: Result<String, PathLookupError>)
        ensures
            match spec_find(self@.db, self@.ctx.beamline.instrument) {
                None => r matches Err(e) && e@ == SpecPathLookupError::Config(
                    SpecConfigurationError::MissingBeamline(self@.ctx.beamline.instrument),
                ),
                Some(i) => match spec_compile_scan(self@.db[i].scan) {
                    Ok(items) => r matches Ok(p) && renders_scan_for_some_year(
                        p@,
                        items,
                        self@.ctx,
                    ),
                    Err(e) => r matches Err(pe) && pe@ == SpecPathLookupError::Template(e),
                },
            },
    {
        let year = current_year();
        let r = self.scan_file_for_year(year);
        proof {
            match spec_find(self@.db, self@.ctx.beamline.instrument) {
                Some(i) => {
                    match spec_compile_scan(self@.db[i].scan) {
                        Ok(items) => {
                            match &r {
                                Ok(p) => {
                                    assert(renders_scan_for_some_year(p@, items, self@.ctx)) by {
                                        assert(p@ == spec_scan_render(
                                            items,
                                            self@.ctx,
                                            year as int,
                                        ));
                                    }
                                },
                                Err(_) => {},
                            }
                        },
                        Err(_) => {},
                    }
                },
                None => {},
            }
        }
        r
    }

    /// The file path for each requested detector, for the given year:
    /// the stored detector template rendered once per name, each against
    /// this scan context extended with that name normalized. Every name
    /// is returned with its path, in request order; duplicate normalized
    /// names yield duplicate paths. An empty request returns an empty
    /// list without touching the configuration.
    pub fn detector_files_for_year(&self, detectors: &Vec<String>, year: i32) -> (r: Result<
        Vec<(String, String)>,
        PathLookupError,
    >)
        ensures
            detectors@.len() == 0 ==> ({ &&& r matches Ok(v) &&& v@.len() == 0 }),
            detectors@.len() > 0 ==> match spec_find(self@.db, self@.ctx.beamline.instrument) {
                None => r matches Err(e) && e@ == SpecPathLookupError::Config(
                    SpecConfigurationError::MissingBeamline(self@.ctx.beamline.instrument),
                ),
                Some(i) => match spec_compile_detector(self@.db[i].detector) {
                    Ok(items) => ({
                        &&& r matches Ok(v)
                        &&& v@.len() == detectors@.len()
                        &&& forall|k: int|
                            0 <= k < v@.len() ==> (#[trigger] v@[k]).0@ == detectors@[k]@
                                && v@[k].1@ == spec_detector_render(
                                items,
                                spec_detector_ctx(detectors@[k]@, self@.ctx),
                                year as int,
                            )
                    }),
                    Err(e) => r matches Err(pe) && pe@ == SpecPathLookupError::Template(e),
                },
            },
    {
        if detectors.len() == 0 {
            return Ok(Vec::new());
        }
        let cfg = match self.db.current_configuration(self.ctx.beamline.instrument.as_str()) {
            Ok(c) => c,
            Err(e) => {
                return Err(PathLookupError::Config(e));
            },
        };
        let template = match cfg.detector() {
            Ok(t) => t,
            Err(e) => {
                return Err(PathLookupError::Template(e));
            },
        };
        let ghost items = template@;
        let mut out: Vec<(String, String)> = Vec::new();
        let mut k: usize = 0;
        while k < detectors.len()
            invariant
                0 <= k <= detectors@.len(),
                out@.len() == k,
                template@ == items,
                forall|j: int|
                    0 <= j < k ==> (#[trigger] out@[j]).0@ == detectors@[j]@ && out@[j].1@
                        == spec_detector_render(
                        items,
                        spec_detector_ctx(detectors@[j]@, self@.ctx),
                        year as int,
                    ),
            decreases detectors@.len() - k,
        {
            let det = &detectors[k];
            let dctx = self.ctx.for_detector(det.as_str());
            let path = template.render(&dctx, year);
            proof {
                assert(dctx@ == spec_detector_ctx(detectors@[k as int]@, self@.ctx));
            }
            out.push((copy_str(det.as_str()), path));
            k = k + 1;
        }
        Ok(out)
    }

    /// The file path for each requested detector, for the current year
    /// as `current_year` reports it.
    pub fn detector_files(&self, detectors: &Vec<String>) -> (r: Result<
        Vec<(String, String)>,
        PathLookupError,
    >)
        ensures
            detectors@.len() == 0 ==> ({ &&& r matches Ok(v) &&& v@.len() == 0 }),
            detectors@.len() > 0 ==> match spec_find(self@.db, self@.ctx.beamline.instrument) {
                None => r matches Err(e) && e@ == SpecPathLookupError::Config(
                    SpecConfigurationError::MissingBeamline(self@.ctx.beamline.instrument),
                ),
                Some(i) => match spec_compile_detector(self@.db[i].detector) {
                    Ok(items) => ({
                        &&& r matches Ok(v)
                        &&& v@.len() == detectors@.len()
                        &&& forall|k: int|
                            0 <= k < v@.len() ==> (#[trigger] v@[k]).0@ == detectors@[k]@
                                && renders_detector_for_some_year(
                                v@[k].1@,
                                items,
                                spec_detector_ctx(detectors@[k]@, self@.ctx),
                            )
                    }),
                    Err(e) => r matches Err(pe) && pe@ == SpecPathLookupError::Template(e),
                },
            },
    {
        let year = current_year();
        let r = self.detector_files_for_year(detectors, year);
        proof {
            if detectors@.len() > 0 {
                match spec_find(self@.db, self@.ctx.beamline.instrument) {
                    Some(i) => {
                        match spec_compile_detector(self@.db[i].detector) {
                            Ok(items) => {
                                match &r {
                                    Ok(v) => {
                                        assert forall|k: int| 0 <= k < v@.len() implies (
                                        #[trigger] v@[k]).0@ == detectors@[k]@
                                            && renders_detector_for_some_year(
                                            v@[k].1@,
                                            items,
                                            spec_detector_ctx(detectors@[k]@, self@.ctx),
                                        ) by {
                                            assert(v@[k].1@ == spec_detector_render(
                                                items,
                                                spec_detector_ctx(detectors@[k]@, self@.ctx),
                                                year as int,
                                            ));
                                        }
                                    },
                                    Err(_) => {},
                                }
                            },
                            Err(_) => {},
                        }
                    },
                    None => {},
                }
            }
        }
        r
    }
}

} // verus!
