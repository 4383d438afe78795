//! The path template engine. A template is literal text interspersed with
//! `{name}` placeholders. Compilation tokenizes the text, resolves every
//! placeholder name against a closed field set, and fails eagerly on
//! malformed delimiters or unknown names; rendering substitutes resolved
//! field values and never fails.

use vstd::prelude::*;
use vstd::seq_lib::*;
use crate::paths::{BeamlineField, DetectorField, ScanField};
use crate::paths::{spec_beamline_field, spec_detector_field, spec_scan_field};
use crate::paths::{spec_beamline_name, spec_detector_name, spec_scan_name};
use crate::text::substring;

verus! {

/// One scanned element of a template: a single literal character or a
/// placeholder with its name and the position of its opening brace.
pub ghost enum RawItem {
    Char(char),
    Placeholder(Seq<char>, int),
}

/// Why a template is rejected, at the specification level.
pub ghost enum SpecTemplateError {
    /// A `{` with no closing `}`; the position of the `{`.
    Unterminated(int),
    /// A `{` inside a placeholder; the position of the inner `{`.
    Nested(int),
    /// A `}` with no opening `{`; its position.
    UnmatchedClose(int),
    /// A placeholder name outside the field set; the name and the
    /// position of its opening brace.
    UnknownField(Seq<char>, int),
}

/// One compiled element: a single literal character or a resolved field.
pub ghost enum PItem<F> {
    Char(char),
    Field(F),
}

/// A single literal character as a raw item.
pub open spec fn raw_char(c: char) -> RawItem {
    RawItem::Char(c)
}

/// A placeholder as a raw item: its name and the position of its opening
/// brace.
pub open spec fn raw_placeholder(name: Seq<char>, pos: int) -> RawItem {
    RawItem::Placeholder(name, pos)
}

/// The first position at or after `i` holding a delimiter character.
pub open spec fn first_delim(s: Seq<char>, i: int) -> Option<int>
    decreases s.len() - i when 0 <= i <= s.len()
{
    if i >= s.len() {
        None
    } else if s[i] == '{' || s[i] == '}' {
        Some(i)
    } else {
        first_delim(s, i + 1)
    }
}

pub proof fn lemma_first_delim_range(s: Seq<char>, i: int)
    requires
        0 <= i <= s.len(),
    ensures
        match first_delim(s, i) {
            Some(k) => i <= k < s.len() && (s[k] == '{' || s[k] == '}'),
            None => true,
        },
    decreases s.len() - i,
{
    if i < s.len() && !(s[i] == '{' || s[i] == '}') {
        lemma_first_delim_range(s, i + 1);
    }
}

/// Scans the template text from position `i` into raw items, rejecting
/// malformed delimiters.
pub open spec fn scan_from(s: Seq<char>, i: int) -> Result<Seq<RawItem>, SpecTemplateError>
    decreases s.len() - i
        when 0 <= i <= s.len()
        via scan_from_decreases
{
    if i >= s.len() {
        Ok(seq![])
    } else if s[i] == '}' {
        Err(SpecTemplateError::UnmatchedClose(i))
    } else if s[i] == '{' {
        match first_delim(s, i + 1) {
            None => Err(SpecTemplateError::Unterminated(i)),
            Some(k) => {
                if s[k] == '{' {
                    Err(SpecTemplateError::Nested(k))
                } else {
                    match scan_from(s, k + 1) {
                        Ok(rest) => Ok(
                            seq![raw_placeholder(s.subrange(i + 1, k), i)] + rest,
                        ),
                        Err(e) => Err(e),
                    }
                }
            },
        }
    } else {
        match scan_from(s, i + 1) {
            Ok(rest) => Ok(seq![raw_char(s[i])] + rest),
            Err(e) => Err(e),
        }
    }
}

#[via_fn]
proof fn scan_from_decreases(s: Seq<char>, i: int) {
    if 0 <= i < s.len() && s[i] == '{' {
        lemma_first_delim_range(s, i + 1);
    }
}

/// Scans a whole template text into raw items.
pub open spec fn spec_scan(s: Seq<char>) -> Result<Seq<RawItem>, SpecTemplateError> {
    scan_from(s, 0)
}

/// Why a template is rejected. Positions are character indices into the
/// template text.
#[derive(Debug, PartialEq, Eq)]
pub enum InvalidPathTemplate {
    /// A `{` with no closing `}`; the position of the `{`.
    Unterminated(usize),
    /// A `{` inside a placeholder; the position of the inner `{`.
    Nested(usize),
    /// A `}` with no opening `{`; its position.
    UnmatchedClose(usize),
    /// A placeholder name outside the field set; the name and the
    /// position of its opening brace.
    UnknownField(String, usize),
}

impl View for InvalidPathTemplate {
    type V = SpecTemplateError;

    open spec fn view(&self) -> SpecTemplateError {
        match self {
            InvalidPathTemplate::Unterminated(p) => SpecTemplateError::Unterminated(*p as int),
            InvalidPathTemplate::Nested(p) => SpecTemplateError::Nested(*p as int),
            InvalidPathTemplate::UnmatchedClose(p) => SpecTemplateError::UnmatchedClose(*p as int),
            InvalidPathTemplate::UnknownField(n, p) => SpecTemplateError::UnknownField(
                n@,
                *p as int,
            ),
        }
    }
}

/// One token of a scanned template: a maximal literal run, or a
/// placeholder with the position of its opening brace.
#[derive(Debug)]
pub enum RawToken {
    Literal(String),
    Placeholder(String, usize),
}

impl View for RawToken {
    type V = Seq<RawItem>;

    open spec fn view(&self) -> Seq<RawItem> {
        match self {
            RawToken::Literal(s) => s@.map_values(|c: char| raw_char(c)),
            RawToken::Placeholder(n, p) => seq![raw_placeholder(n@, *p as int)],
        }
    }
}

/// The raw items of a token sequence, in order.
pub open spec fn flat_tokens(ts: Seq<RawToken>) -> Seq<RawItem> {
    ts.flat_map(|t: RawToken| t@)
}

/// The scan of `s` is the scan of its first `i` characters, already
/// collected in `built`, followed by the scan from `i`; errors from `i`
/// onwards are the scan's errors.
pub open spec fn scan_completes(s: Seq<char>, i: int, built: Seq<RawItem>) -> bool {
    match scan_from(s, i) {
        Ok(rest) => spec_scan(s) == Ok::<Seq<RawItem>, SpecTemplateError>(built + rest),
        Err(e) => spec_scan(s) == Err::<Seq<RawItem>, SpecTemplateError>(e),
    }
}

proof fn lemma_scan_literal_run(s: Seq<char>, i: int, k: int, built: Seq<RawItem>)
    requires
        0 <= i <= k <= s.len(),
        scan_completes(s, i, built),
        forall|j: int| i <= j < k ==> s[j] != '{' && s[j] != '}',
    ensures
        scan_completes(
            s,
            k,
            built + s.subrange(i, k).map_values(|c: char| raw_char(c)),
        ),
    decreases k - i,
{
    if i == k {
        assert(built + s.subrange(i, k).map_values(|c: char| raw_char(c)) =~= built);
    } else {
        // Peel the first character of the run.
        let one = seq![raw_char(s[i])];
        let step = built + one;
        match scan_from(s, i + 1) {
            Ok(rest) => {
                assert(scan_from(s, i) == Ok::<Seq<RawItem>, SpecTemplateError>(one + rest));
                assert(built + (one + rest) =~= step + rest);
            },
            Err(_) => {},
        }
        assert(scan_completes(s, i + 1, step));
        lemma_scan_literal_run(s, i + 1, k, step);
        let full = s.subrange(i, k).map_values(|c: char| raw_char(c));
        let tail = s.subrange(i + 1, k).map_values(|c: char| raw_char(c));
        assert(step + tail =~= built + full);
    }
}

/// Finds the `}` closing the placeholder opened at `open`, rejecting a
/// nested `{` and an unterminated placeholder.
fn find_close(text: &str, open: usize) -> (r: Result<usize, InvalidPathTemplate>)
    requires
        open < text@.len(),
    ensures
        match r {
            Ok(j) => open + 1 <= j < text@.len() && first_delim(text@, open as int + 1) == Some(
                j as int,
            ) && text@[j as int] == '}',
            Err(e) => match first_delim(text@, open as int + 1) {
                None => e@ == SpecTemplateError::Unterminated(open as int),
                Some(k) => text@[k] == '{' && e@ == SpecTemplateError::Nested(k),
            },
        },
{
    let ghost s = text@;
    let len = text.unicode_len();
    let mut j: usize = open + 1;
    while j < len
        invariant
            len == s.len(),
            s == text@,
            open + 1 <= j <= len,
            first_delim(s, open as int + 1) == first_delim(s, j as int),
        decreases len - j,
    {
        let d = text.get_char(j);
        if d == '{' {
            return Err(InvalidPathTemplate::Nested(j));
        }
        if d == '}' {
            return Ok(j);
        }
        j = j + 1;
    }
    Err(InvalidPathTemplate::Unterminated(open))
}

/// Tokenizes template text into maximal literal runs and placeholders,
/// rejecting malformed delimiters.
pub fn tokenize(text: &str) -> (r: Result<Vec<RawToken>, InvalidPathTemplate>)
    ensures
        match r {
            Ok(toks) => spec_scan(text@) == Ok::<Seq<RawItem>, SpecTemplateError>(
                flat_tokens(toks@),
            ),
            Err(e) => spec_scan(text@) == Err::<Seq<RawItem>, SpecTemplateError>(e@),
        },
{
    let ghost s = text@;
    let len = text.unicode_len();
    let mut toks: Vec<RawToken> = Vec::new();
    let mut i: usize = 0;
    proof {
        assert(flat_tokens(toks@) =~= Seq::<RawItem>::empty());
    }
    while i < len
        invariant
            len == s.len(),
            s == text@,
            0 <= i <= len,
            scan_completes(s, i as int, flat_tokens(toks@)),
        decreases len - i,
    {
        let c = text.get_char(i);
        if c == '}' {
            return Err(InvalidPathTemplate::UnmatchedClose(i));
        } else if c == '{' {
            let j = match find_close(text, i) {
                Ok(j) => j,
                Err(e) => {
                    return Err(e);
                },
            };
            let name = substring(text, i + 1, j);
            let ghost pre = flat_tokens(toks@);
            let ghost old_toks = toks@;
            toks.push(RawToken::Placeholder(name, i));
            proof {
                let item = seq![raw_placeholder(s.subrange(i as int + 1, j as int), i as int)];
                old_toks.lemma_flat_map_push(|t: RawToken| t@, toks@.last());
                assert(toks@ =~= old_toks.push(toks@.last()));
                assert(flat_tokens(toks@) =~= pre + item);
                match scan_from(s, j + 1) {
                    Ok(rest) => {
                        assert(scan_from(s, i as int) == Ok::<Seq<RawItem>, SpecTemplateError>(
                            item + rest,
                        ));
                        assert(pre + (item + rest) =~= (pre + item) + rest);
                    },
                    Err(_) => {},
                }
            }
            i = j + 1;
        } else {
            // Collect the maximal literal run starting here.
            let mut k: usize = i + 1;
            while k < len
                invariant
                    len == s.len(),
                    s == text@,
                    i + 1 <= k <= len,
                    forall|j: int| i <= j < k ==> s[j] != '{' && s[j] != '}',
                decreases len - k,
            {
                let d = text.get_char(k);
                if d == '{' || d == '}' {
                    break;
                }
                k = k + 1;
            }
            let lit = substring(text, i, k);
            let ghost pre = flat_tokens(toks@);
            let ghost old_toks = toks@;
            toks.push(RawToken::Literal(lit));
            proof {
                lemma_scan_literal_run(s, i as int, k as int, pre);
                old_toks.lemma_flat_map_push(|t: RawToken| t@, toks@.last());
                assert(toks@ =~= old_toks.push(toks@.last()));
                assert(flat_tokens(toks@) =~= pre + s.subrange(i as int, k as int).map_values(
                    |c: char| raw_char(c),
                ));
            }
            i = k;
        }
    }
    proof {
        assert(scan_from(s, len as int) == Ok::<Seq<RawItem>, SpecTemplateError>(seq![]));
        assert(flat_tokens(toks@) + seq![] =~= flat_tokens(toks@));
    }
    Ok(toks)
}

/// A single literal character as a compiled item.
pub open spec fn item_char<F>(c: char) -> PItem<F> {
    PItem::Char(c)
}

/// A resolved field as a compiled item.
pub open spec fn item_field<F>(f: F) -> PItem<F> {
    PItem::Field(f)
}

/// Resolves every placeholder of a scanned template against a field set,
/// turning raw items into compiled items; the first placeholder whose name
/// is not in the set is the error.
pub open spec fn map_items<F>(
    items: Seq<RawItem>,
    parse: spec_fn(Seq<char>) -> Option<F>,
) -> Result<Seq<PItem<F>>, SpecTemplateError>
    decreases items.len(),
{
    if items.len() == 0 {
        Ok(seq![])
    } else {
        match items[0] {
            RawItem::Char(c) => match map_items(items.drop_first(), parse) {
                Ok(r) => Ok(seq![item_char::<F>(c)] + r),
                Err(e) => Err(e),
            },
            RawItem::Placeholder(name, pos) => match parse(name) {
                Some(f) => match map_items(items.drop_first(), parse) {
                    Ok(r) => Ok(seq![item_field(f)] + r),
                    Err(e) => Err(e),
                },
                None => Err(SpecTemplateError::UnknownField(name, pos)),
            },
        }
    }
}

/// Compiles template text against a field set: scans it, then resolves
/// every placeholder name.
pub open spec fn spec_compile<F>(
    s: Seq<char>,
    parse: spec_fn(Seq<char>) -> Option<F>,
) -> Result<Seq<PItem<F>>, SpecTemplateError> {
    match spec_scan(s) {
        Ok(items) => map_items(items, parse),
        Err(e) => Err(e),
    }
}

/// Compilation of a visit directory template.
pub open spec fn spec_compile_visit(s: Seq<char>) -> Result<
    Seq<PItem<BeamlineField>>,
    SpecTemplateError,
> {
    spec_compile(s, |n: Seq<char>| spec_beamline_field(n))
}

/// Compilation of a scan file template.
pub open spec fn spec_compile_scan(s: Seq<char>) -> Result<
    Seq<PItem<ScanField>>,
    SpecTemplateError,
> {
    spec_compile(s, |n: Seq<char>| spec_scan_field(n))
}

/// Compilation of a detector file template.
pub open spec fn spec_compile_detector(s: Seq<char>) -> Result<
    Seq<PItem<DetectorField>>,
    SpecTemplateError,
> {
    spec_compile(s, |n: Seq<char>| spec_detector_field(n))
}

/// One compiled segment: a literal run or a field placeholder.
#[derive(Debug)]
pub enum Segment<F> {
    Literal(String),
    Field(F),
}

impl<F> View for Segment<F> {
    type V = Seq<PItem<F>>;

    open spec fn view(&self) -> Seq<PItem<F>> {
        match self {
            Segment::Literal(s) => s@.map_values(|c: char| item_char::<F>(c)),
            Segment::Field(f) => seq![item_field(*f)],
        }
    }
}

/// The compiled items of a segment sequence, in order.
pub open spec fn flat_segments<F>(ss: Seq<Segment<F>>) -> Seq<PItem<F>> {
    ss.flat_map(|g: Segment<F>| g@)
}

/// A compiled template: an ordered, immutable sequence of literal and
/// field segments for one field set. Its view is the flat sequence of
/// compiled items, independent of how adjacent literals were grouped.
#[derive(Debug)]
pub struct PathTemplate<F> {
    segments: Vec<Segment<F>>,
}

impl<F> View for PathTemplate<F> {
    type V = Seq<PItem<F>>;

    closed spec fn view(&self) -> Seq<PItem<F>> {
        flat_segments(self.segments@)
    }
}

/// Peeling the front token off a token sequence peels its items off the
/// flattened item sequence.
proof fn lemma_flat_tokens_skip(ts: Seq<RawToken>, i: int)
    requires
        0 <= i < ts.len(),
    ensures
        flat_tokens(ts.skip(i)) == ts[i]@ + flat_tokens(ts.skip(i + 1)),
{
    let f = |t: RawToken| t@;
    assert(ts.skip(i) =~= seq![ts[i]] + ts.skip(i + 1));
    let m = ts.skip(i).map_values(f);
    assert(m.len() > 0);
    assert(m.first() == ts[i]@);
    assert(m.drop_first() =~= ts.skip(i + 1).map_values(f));
    assert(flat_tokens(ts.skip(i)) == m.first() + m.drop_first().flatten());
    assert(m.first() + m.drop_first().flatten() == ts[i]@ + flat_tokens(ts.skip(i + 1)));
}

/// A sequence of segments followed by nothing flattens to itself.
proof fn lemma_flat_tokens_end(ts: Seq<RawToken>)
    ensures
        flat_tokens(ts.skip(ts.len() as int)) == Seq::<RawItem>::empty(),
{
    assert(ts.skip(ts.len() as int) =~= Seq::<RawToken>::empty());
    assert(ts.skip(ts.len() as int).map_values(|t: RawToken| t@).len() == 0);
}

/// The resolution of `all` is the resolution of an already-resolved
/// prefix, collected in `built`, followed by the resolution of `rest`;
/// errors in `rest` are the resolution's errors.
pub open spec fn map_completes<F>(
    all: Seq<RawItem>,
    rest: Seq<RawItem>,
    built: Seq<PItem<F>>,
    parse: spec_fn(Seq<char>) -> Option<F>,
) -> bool {
    match map_items(rest, parse) {
        Ok(r) => map_items(all, parse) == Ok::<Seq<PItem<F>>, SpecTemplateError>(built + r),
        Err(e) => map_items(all, parse) == Err::<Seq<PItem<F>>, SpecTemplateError>(e),
    }
}

/// Resolving a literal run turns each character into a literal item.
proof fn lemma_map_char_run<F>(
    cs: Seq<char>,
    rest: Seq<RawItem>,
    parse: spec_fn(Seq<char>) -> Option<F>,
)
    ensures
        match map_items(rest, parse) {
            Ok(r) => map_items(cs.map_values(|c: char| raw_char(c)) + rest, parse) == Ok::<
                Seq<PItem<F>>,
                SpecTemplateError,
            >(cs.map_values(|c: char| item_char::<F>(c)) + r),
            Err(e) => map_items(cs.map_values(|c: char| raw_char(c)) + rest, parse) == Err::<
                Seq<PItem<F>>,
                SpecTemplateError,
            >(e),
        },
    decreases cs.len(),
{
    let whole = cs.map_values(|c: char| raw_char(c)) + rest;
    if cs.len() == 0 {
        assert(whole =~= rest);
        match map_items(rest, parse) {
            Ok(r) => {
                assert(cs.map_values(|c: char| item_char::<F>(c)) + r =~= r);
            },
            Err(_) => {},
        }
    } else {
        let tail = cs.drop_first();
        assert(whole.len() > 0);
        assert(whole[0] == raw_char(cs[0]));
        assert(whole.drop_first() =~= tail.map_values(|c: char| raw_char(c)) + rest);
        lemma_map_char_run(tail, rest, parse);
        match map_items(rest, parse) {
            Ok(r) => {
                let mapped_tail = tail.map_values(|c: char| item_char::<F>(c));
                assert(map_items(whole.drop_first(), parse) == Ok::<
                    Seq<PItem<F>>,
                    SpecTemplateError,
                >(mapped_tail + r));
                let one = seq![item_char::<F>(cs[0])];
                assert(map_items(whole, parse) == Ok::<Seq<PItem<F>>, SpecTemplateError>(
                    one + (mapped_tail + r),
                ));
                assert(one + (mapped_tail + r) =~= cs.map_values(|c: char| item_char::<F>(c)) + r);
            },
            Err(_) => {},
        }
    }
}

/// Compiles a visit directory template: every placeholder must name a
/// beamline field.
pub fn compile_visit(text: &str) -> (r: Result<PathTemplate<BeamlineField>, InvalidPathTemplate>)
    ensures
        match r {
            Ok(t) => spec_compile_visit(text@) == Ok::<
                Seq<PItem<BeamlineField>>,
                SpecTemplateError,
            >(t@),
            Err(e) => spec_compile_visit(text@) == Err::<
                Seq<PItem<BeamlineField>>,
                SpecTemplateError,
            >(e@),
        },
{
    let ghost parse = |n: Seq<char>| spec_beamline_field(n);
    let toks = match tokenize(text) {
        Ok(t) => t,
        Err(e) => {
            return Err(e);
        },
    };
    let ghost items = flat_tokens(toks@);
    let mut segs: Vec<Segment<BeamlineField>> = Vec::new();
    let mut idx: usize = 0;
    proof {
        assert(toks@.skip(0) =~= toks@);
        assert(flat_segments(segs@) =~= Seq::<PItem<BeamlineField>>::empty());
        match map_items(items, parse) {
            Ok(r) => {
                assert(flat_segments(segs@) + r =~= r);
            },
            Err(_) => {},
        }
    }
    while idx < toks.len()
        invariant
            0 <= idx <= toks@.len(),
            spec_scan(text@) == Ok::<Seq<RawItem>, SpecTemplateError>(items),
            items == flat_tokens(toks@),
            map_completes(items, flat_tokens(toks@.skip(idx as int)), flat_segments(segs@), parse),
            parse == |n: Seq<char>| spec_beamline_field(n),
        decreases toks@.len() - idx,
    {
        let ghost rem = flat_tokens(toks@.skip(idx as int));
        let ghost built = flat_segments(segs@);
        proof {
            lemma_flat_tokens_skip(toks@, idx as int);
        }
        let tok = &toks[idx];
        match tok {
            RawToken::Literal(lit) => {
                let ghost old_segs = segs@;
                let lit2 = crate::text::copy_str(lit.as_str());
                segs.push(Segment::Literal(lit2));
                proof {
                    lemma_map_char_run(lit@, flat_tokens(toks@.skip(idx as int + 1)), parse);
                    old_segs.lemma_flat_map_push(|g: Segment<BeamlineField>| g@, segs@.last());
                    assert(segs@ =~= old_segs.push(segs@.last()));
                    assert(flat_segments(segs@) =~= built + lit@.map_values(
                        |c: char| item_char::<BeamlineField>(c),
                    ));
                    match map_items(flat_tokens(toks@.skip(idx as int + 1)), parse) {
                        Ok(r) => {
                            assert(built + (lit@.map_values(|c: char| item_char::<BeamlineField>(c))
                                + r) =~= flat_segments(segs@) + r);
                        },
                        Err(_) => {},
                    }
                }
            },
            RawToken::Placeholder(name, pos) => {
                let ghost rest2 = flat_tokens(toks@.skip(idx as int + 1));
                proof {
                    assert(rem =~= seq![raw_placeholder(name@, *pos as int)] + rest2);
                    assert(rem[0] == raw_placeholder(name@, *pos as int));
                    assert(rem.drop_first() =~= rest2);
                }
                match BeamlineField::parse(name.as_str()) {
                    Some(f) => {
                        let ghost old_segs = segs@;
                        segs.push(Segment::Field(f));
                        proof {
                            old_segs.lemma_flat_map_push(
                                |g: Segment<BeamlineField>| g@,
                                segs@.last(),
                            );
                            assert(segs@ =~= old_segs.push(segs@.last()));
                            let one = seq![item_field::<BeamlineField>(f)];
                            assert(flat_segments(segs@) =~= built + one);
                            match map_items(rest2, parse) {
                                Ok(r) => {
                                    assert(map_items(rem, parse) == Ok::<
                                        Seq<PItem<BeamlineField>>,
                                        SpecTemplateError,
                                    >(one + r));
                                    assert(built + (one + r) =~= (built + one) + r);
                                },
                                Err(_) => {},
                            }
                        }
                    },
                    None => {
                        let name2 = crate::text::copy_str(name.as_str());
                        proof {
                            assert(map_items(rem, parse) == Err::<
                                Seq<PItem<BeamlineField>>,
                                SpecTemplateError,
                            >(SpecTemplateError::UnknownField(name@, *pos as int)));
                        }
                        return Err(InvalidPathTemplate::UnknownField(name2, *pos));
                    },
                }
            },
        }
        idx = idx + 1;
    }
    proof {
        lemma_flat_tokens_end(toks@);
        match map_items(items, parse) {
            Ok(r) => {
                assert(flat_segments(segs@) + Seq::<PItem<BeamlineField>>::empty() =~= flat_segments(
                    segs@,
                ));
            },
            Err(_) => {},
        }
    }
    Ok(PathTemplate { segments: segs })
}


/// Compiles a scan file template: every placeholder must name a scan
/// field, directly or through its beamline delegation.
pub fn compile_scan(text: &str) -> (r: Result<PathTemplate<ScanField>, InvalidPathTemplate>)
    ensures
        match r {
            Ok(t) => spec_compile_scan(text@) == Ok::<
                Seq<PItem<ScanField>>,
                SpecTemplateError,
            >(t@),
            Err(e) => spec_compile_scan(text@) == Err::<
                Seq<PItem<ScanField>>,
                SpecTemplateError,
            >(e@),
        },
{
    let ghost parse = |n: Seq<char>| spec_scan_field(n);
    let toks = match tokenize(text) {
        Ok(t) => t,
        Err(e) => {
            return Err(e);
        },
    };
    let ghost items = flat_tokens(toks@);
    let mut segs: Vec<Segment<ScanField>> = Vec::new();
    let mut idx: usize = 0;
    proof {
        assert(toks@.skip(0) =~= toks@);
        assert(flat_segments(segs@) =~= Seq::<PItem<ScanField>>::empty());
        match map_items(items, parse) {
            Ok(r) => {
                assert(flat_segments(segs@) + r =~= r);
            },
            Err(_) => {},
        }
    }
    while idx < toks.len()
        invariant
            0 <= idx <= toks@.len(),
            spec_scan(text@) == Ok::<Seq<RawItem>, SpecTemplateError>(items),
            items == flat_tokens(toks@),
            map_completes(items, flat_tokens(toks@.skip(idx as int)), flat_segments(segs@), parse),
            parse == |n: Seq<char>| spec_scan_field(n),
        decreases toks@.len() - idx,
    {
        let ghost rem = flat_tokens(toks@.skip(idx as int));
        let ghost built = flat_segments(segs@);
        proof {
            lemma_flat_tokens_skip(toks@, idx as int);
        }
        let tok = &toks[idx];
        match tok {
            RawToken::Literal(lit) => {
                let ghost old_segs = segs@;
                let lit2 = crate::text::copy_str(lit.as_str());
                segs.push(Segment::Literal(lit2));
                proof {
                    lemma_map_char_run(lit@, flat_tokens(toks@.skip(idx as int + 1)), parse);
                    old_segs.lemma_flat_map_push(|g: Segment<ScanField>| g@, segs@.last());
                    assert(segs@ =~= old_segs.push(segs@.last()));
                    assert(flat_segments(segs@) =~= built + lit@.map_values(
                        |c: char| item_char::<ScanField>(c),
                    ));
                    match map_items(flat_tokens(toks@.skip(idx as int + 1)), parse) {
                        Ok(r) => {
                            assert(built + (lit@.map_values(|c: char| item_char::<ScanField>(c))
                                + r) =~= flat_segments(segs@) + r);
                        },
                        Err(_) => {},
                    }
                }
            },
            RawToken::Placeholder(name, pos) => {
                let ghost rest2 = flat_tokens(toks@.skip(idx as int + 1));
                proof {
                    assert(rem =~= seq![raw_placeholder(name@, *pos as int)] + rest2);
                    assert(rem[0] == raw_placeholder(name@, *pos as int));
                    assert(rem.drop_first() =~= rest2);
                }
                match ScanField::parse(name.as_str()) {
                    Some(f) => {
                        let ghost old_segs = segs@;
                        segs.push(Segment::Field(f));
                        proof {
                            old_segs.lemma_flat_map_push(
                                |g: Segment<ScanField>| g@,
                                segs@.last(),
                            );
                            assert(segs@ =~= old_segs.push(segs@.last()));
                            let one = seq![item_field::<ScanField>(f)];
                            assert(flat_segments(segs@) =~= built + one);
                            match map_items(rest2, parse) {
                                Ok(r) => {
                                    assert(map_items(rem, parse) == Ok::<
                                        Seq<PItem<ScanField>>,
                                        SpecTemplateError,
                                    >(one + r));
                                    assert(built + (one + r) =~= (built + one) + r);
                                },
                                Err(_) => {},
                            }
                        }
                    },
                    None => {
                        let name2 = crate::text::copy_str(name.as_str());
                        proof {
                            assert(map_items(rem, parse) == Err::<
                                Seq<PItem<ScanField>>,
                                SpecTemplateError,
                            >(SpecTemplateError::UnknownField(name@, *pos as int)));
                        }
                        return Err(InvalidPathTemplate::UnknownField(name2, *pos));
                    },
                }
            },
        }
        idx = idx + 1;
    }
    proof {
        lemma_flat_tokens_end(toks@);
        match map_items(items, parse) {
            Ok(r) => {
                assert(flat_segments(segs@) + Seq::<PItem<ScanField>>::empty() =~= flat_segments(
                    segs@,
                ));
            },
            Err(_) => {},
        }
    }
    Ok(PathTemplate { segments: segs })
}


/// Compiles a detector file template: every placeholder must name a
/// detector field, directly or through its scan delegation.
pub fn compile_detector(text: &str) -> (r: Result<PathTemplate<DetectorField>, InvalidPathTemplate>)
    ensures
        match r {
            Ok(t) => spec_compile_detector(text@) == Ok::<
                Seq<PItem<DetectorField>>,
                SpecTemplateError,
            >(t@),
            Err(e) => spec_compile_detector(text@) == Err::<
                Seq<PItem<DetectorField>>,
                SpecTemplateError,
            >(e@),
        },
{
    let ghost parse = |n: Seq<char>| spec_detector_field(n);
    let toks = match tokenize(text) {
        Ok(t) => t,
        Err(e) => {
            return Err(e);
        },
    };
    let ghost items = flat_tokens(toks@);
    let mut segs: Vec<Segment<DetectorField>> = Vec::new();
    let mut idx: usize = 0;
    proof {
        assert(toks@.skip(0) =~= toks@);
        assert(flat_segments(segs@) =~= Seq::<PItem<DetectorField>>::empty());
        match map_items(items, parse) {
            Ok(r) => {
                assert(flat_segments(segs@) + r =~= r);
            },
            Err(_) => {},
        }
    }
    while idx < toks.len()
        invariant
            0 <= idx <= toks@.len(),
            spec_scan(text@) == Ok::<Seq<RawItem>, SpecTemplateError>(items),
            items == flat_tokens(toks@),
            map_completes(items, flat_tokens(toks@.skip(idx as int)), flat_segments(segs@), parse),
            parse == |n: Seq<char>| spec_detector_field(n),
        decreases toks@.len() - idx,
    {
        let ghost rem = flat_tokens(toks@.skip(idx as int));
        let ghost built = flat_segments(segs@);
        proof {
            lemma_flat_tokens_skip(toks@, idx as int);
        }
        let tok = &toks[idx];
        match tok {
            RawToken::Literal(lit) => {
                let ghost old_segs = segs@;
                let lit2 = crate::text::copy_str(lit.as_str());
                segs.push(Segment::Literal(lit2));
                proof {
                    lemma_map_char_run(lit@, flat_tokens(toks@.skip(idx as int + 1)), parse);
                    old_segs.lemma_flat_map_push(|g: Segment<DetectorField>| g@, segs@.last());
                    assert(segs@ =~= old_segs.push(segs@.last()));
                    assert(flat_segments(segs@) =~= built + lit@.map_values(
                        |c: char| item_char::<DetectorField>(c),
                    ));
                    match map_items(flat_tokens(toks@.skip(idx as int + 1)), parse) {
                        Ok(r) => {
                            assert(built + (lit@.map_values(|c: char| item_char::<DetectorField>(c))
                                + r) =~= flat_segments(segs@) + r);
                        },
                        Err(_) => {},
                    }
                }
            },
            RawToken::Placeholder(name, pos) => {
                let ghost rest2 = flat_tokens(toks@.skip(idx as int + 1));
                proof {
                    assert(rem =~= seq![raw_placeholder(name@, *pos as int)] + rest2);
                    assert(rem[0] == raw_placeholder(name@, *pos as int));
                    assert(rem.drop_first() =~= rest2);
                }
                match DetectorField::parse(name.as_str()) {
                    Some(f) => {
                        let ghost old_segs = segs@;
                        segs.push(Segment::Field(f));
                        proof {
                            old_segs.lemma_flat_map_push(
                                |g: Segment<DetectorField>| g@,
                                segs@.last(),
                            );
                            assert(segs@ =~= old_segs.push(segs@.last()));
                            let one = seq![item_field::<DetectorField>(f)];
                            assert(flat_segments(segs@) =~= built + one);
                            match map_items(rest2, parse) {
                                Ok(r) => {
                                    assert(map_items(rem, parse) == Ok::<
                                        Seq<PItem<DetectorField>>,
                                        SpecTemplateError,
                                    >(one + r));
                                    assert(built + (one + r) =~= (built + one) + r);
                                },
                                Err(_) => {},
                            }
                        }
                    },
                    None => {
                        let name2 = crate::text::copy_str(name.as_str());
                        proof {
                            assert(map_items(rem, parse) == Err::<
                                Seq<PItem<DetectorField>>,
                                SpecTemplateError,
                            >(SpecTemplateError::UnknownField(name@, *pos as int)));
                        }
                        return Err(InvalidPathTemplate::UnknownField(name2, *pos));
                    },
                }
            },
        }
        idx = idx + 1;
    }
    proof {
        lemma_flat_tokens_end(toks@);
        match map_items(items, parse) {
            Ok(r) => {
                assert(flat_segments(segs@) + Seq::<PItem<DetectorField>>::empty() =~= flat_segments(
                    segs@,
                ));
            },
            Err(_) => {},
        }
    }
    Ok(PathTemplate { segments: segs })
}


/// The first placeholder whose name is not in the field set, with its
/// position, if any.
pub open spec fn first_unknown<F>(
    items: Seq<RawItem>,
    parse: spec_fn(Seq<char>) -> Option<F>,
) -> Option<(Seq<char>, int)>
    decreases items.len(),
{
    if items.len() == 0 {
        None
    } else {
        match items[0] {
            RawItem::Char(_) => first_unknown(items.drop_first(), parse),
            RawItem::Placeholder(name, pos) => if parse(name) is None {
                Some((name, pos))
            } else {
                first_unknown(items.drop_first(), parse)
            },
        }
    }
}

/// Placeholder resolution fails exactly when some placeholder name is
/// outside the field set, and the error names the first such placeholder
/// and its position.
pub proof fn lemma_unknown_field_rejected<F>(
    items: Seq<RawItem>,
    parse: spec_fn(Seq<char>) -> Option<F>,
)
    ensures
        match first_unknown(items, parse) {
            Some(np) => map_items(items, parse) == Err::<Seq<PItem<F>>, SpecTemplateError>(
                SpecTemplateError::UnknownField(np.0, np.1),
            ),
            None => map_items(items, parse) is Ok,
        },
    decreases items.len(),
{
    if items.len() > 0 {
        lemma_unknown_field_rejected(items.drop_first(), parse);
    }
}

/// Compiling a template that references a name outside the field set
/// always fails with an unknown-field error naming the first such
/// placeholder and its position.
pub proof fn lemma_compile_unknown_field<F>(
    text: Seq<char>,
    parse: spec_fn(Seq<char>) -> Option<F>,
    items: Seq<RawItem>,
    name: Seq<char>,
    pos: int,
)
    requires
        spec_scan(text) == Ok::<Seq<RawItem>, SpecTemplateError>(items),
        first_unknown(items, parse) == Some((name, pos)),
    ensures
        spec_compile(text, parse) == Err::<Seq<PItem<F>>, SpecTemplateError>(
            SpecTemplateError::UnknownField(name, pos),
        ),
{
    lemma_unknown_field_rejected::<F>(items, parse);
}

/// The rendering of compiled items: literal characters verbatim, fields
/// through the context's resolution, concatenated in order.
pub open spec fn spec_render<F>(
    items: Seq<PItem<F>>,
    resolve: spec_fn(F) -> Seq<char>,
) -> Seq<char>
    decreases items.len(),
{
    if items.len() == 0 {
        seq![]
    } else {
        (match items[0] {
            PItem::Char(c) => seq![c],
            PItem::Field(f) => resolve(f),
        }) + spec_render(items.drop_first(), resolve)
    }
}

/// Rendering distributes over concatenation of item sequences.
pub proof fn lemma_render_append<F>(
    a: Seq<PItem<F>>,
    b: Seq<PItem<F>>,
    resolve: spec_fn(F) -> Seq<char>,
)
    ensures
        spec_render(a + b, resolve) == spec_render(a, resolve) + spec_render(b, resolve),
    decreases a.len(),
{
    if a.len() == 0 {
        assert(a + b =~= b);
        assert(spec_render(a, resolve) + spec_render(b, resolve) =~= spec_render(b, resolve));
    } else {
        let w = a + b;
        assert(w[0] == a[0]);
        assert(w.drop_first() =~= a.drop_first() + b);
        lemma_render_append(a.drop_first(), b, resolve);
        let head = match a[0] {
            PItem::Char(c) => seq![c],
            PItem::Field(f) => resolve(f),
        };
        assert(head + (spec_render(a.drop_first(), resolve) + spec_render(b, resolve)) =~= (head
            + spec_render(a.drop_first(), resolve)) + spec_render(b, resolve));
    }
}

/// A literal run renders to itself.
pub proof fn lemma_render_literal<F>(cs: Seq<char>, resolve: spec_fn(F) -> Seq<char>)
    ensures
        spec_render(cs.map_values(|c: char| item_char::<F>(c)), resolve) == cs,
    decreases cs.len(),
{
    let m = cs.map_values(|c: char| item_char::<F>(c));
    if cs.len() == 0 {
        assert(m.len() == 0);
        assert(spec_render(m, resolve) =~= cs);
    } else {
        assert(m[0] == item_char::<F>(cs[0]));
        assert(m.drop_first() =~= cs.drop_first().map_values(|c: char| item_char::<F>(c)));
        lemma_render_literal::<F>(cs.drop_first(), resolve);
        assert(seq![cs[0]] + cs.drop_first() =~= cs);
    }
}

/// A single field renders to its resolved value.
pub proof fn lemma_render_field<F>(f: F, resolve: spec_fn(F) -> Seq<char>)
    ensures
        spec_render(seq![item_field(f)], resolve) == resolve(f),
{
    let m = seq![item_field(f)];
    assert(m.drop_first() =~= Seq::<PItem<F>>::empty());
    assert(resolve(f) + spec_render(m.drop_first(), resolve) =~= resolve(f));
}

/// Rendering a compiled template is deterministic: the compiled items and
/// the rendered path are functions of the template text and the resolved
/// field values alone, so identical text and context always yield an
/// identical path.
pub proof fn lemma_render_deterministic<F>(
    text: Seq<char>,
    parse: spec_fn(Seq<char>) -> Option<F>,
    resolve: spec_fn(F) -> Seq<char>,
    items1: Seq<PItem<F>>,
    items2: Seq<PItem<F>>,
)
    requires
        spec_compile(text, parse) == Ok::<Seq<PItem<F>>, SpecTemplateError>(items1),
        spec_compile(text, parse) == Ok::<Seq<PItem<F>>, SpecTemplateError>(items2),
    ensures
        items1 == items2,
        spec_render(items1, resolve) == spec_render(items2, resolve),
{
}

/// The template text that a sequence of compiled items denotes: literal
/// characters verbatim, each field as `{name}` with its canonical name.
pub open spec fn spec_unparse<F>(
    items: Seq<PItem<F>>,
    name_of: spec_fn(F) -> Seq<char>,
) -> Seq<char>
    decreases items.len(),
{
    if items.len() == 0 {
        seq![]
    } else {
        (match items[0] {
            PItem::Char(c) => seq![c],
            PItem::Field(f) => seq!['{'] + name_of(f) + seq!['}'],
        }) + spec_unparse(items.drop_first(), name_of)
    }
}

/// Unparsing distributes over concatenation of item sequences.
pub proof fn lemma_unparse_append<F>(
    a: Seq<PItem<F>>,
    b: Seq<PItem<F>>,
    name_of: spec_fn(F) -> Seq<char>,
)
    ensures
        spec_unparse(a + b, name_of) == spec_unparse(a, name_of) + spec_unparse(b, name_of),
    decreases a.len(),
{
    if a.len() == 0 {
        assert(a + b =~= b);
        assert(spec_unparse(a, name_of) + spec_unparse(b, name_of) =~= spec_unparse(b, name_of));
    } else {
        let w = a + b;
        assert(w[0] == a[0]);
        assert(w.drop_first() =~= a.drop_first() + b);
        lemma_unparse_append(a.drop_first(), b, name_of);
        let head = match a[0] {
            PItem::Char(c) => seq![c],
            PItem::Field(f) => seq!['{'] + name_of(f) + seq!['}'],
        };
        assert(head + (spec_unparse(a.drop_first(), name_of) + spec_unparse(b, name_of)) =~= (head
            + spec_unparse(a.drop_first(), name_of)) + spec_unparse(b, name_of));
    }
}

/// A literal run unparses to itself.
pub proof fn lemma_unparse_literal<F>(cs: Seq<char>, name_of: spec_fn(F) -> Seq<char>)
    ensures
        spec_unparse(cs.map_values(|c: char| item_char::<F>(c)), name_of) == cs,
    decreases cs.len(),
{
    let m = cs.map_values(|c: char| item_char::<F>(c));
    if cs.len() == 0 {
        assert(m.len() == 0);
        assert(spec_unparse(m, name_of) =~= cs);
    } else {
        assert(m[0] == item_char::<F>(cs[0]));
        assert(m.drop_first() =~= cs.drop_first().map_values(|c: char| item_char::<F>(c)));
        lemma_unparse_literal::<F>(cs.drop_first(), name_of);
        assert(seq![cs[0]] + cs.drop_first() =~= cs);
    }
}

/// A single field unparses to its braced canonical name.
pub proof fn lemma_unparse_field<F>(f: F, name_of: spec_fn(F) -> Seq<char>)
    ensures
        spec_unparse(seq![item_field(f)], name_of) == seq!['{'] + name_of(f) + seq!['}'],
{
    let m = seq![item_field(f)];
    assert(m.drop_first() =~= Seq::<PItem<F>>::empty());
    assert((seq!['{'] + name_of(f) + seq!['}']) + spec_unparse(m.drop_first(), name_of) =~= seq![
        '{',
    ] + name_of(f) + seq!['}']);
}

impl<F> PathTemplate<F> {
    /// The segment sequence behind the flat item view.
    pub closed spec fn spec_segments(&self) -> Seq<Segment<F>> {
        self.segments@
    }

    /// The item view is the flattening of the segments.
    pub proof fn lemma_view_is_flat(&self)
        ensures
            self@ == flat_segments(self.spec_segments()),
    {
    }

    /// The compiled segments, in order.
    pub fn segments(&self) -> (r: &Vec<Segment<F>>)
        ensures
            r@ == self.spec_segments(),
    {
        &self.segments
    }
}

impl PathTemplate<BeamlineField> {
    /// The template text that this compiled visit template denotes.
    pub fn template_text(&self) -> (r: String)
        ensures
            r@ == spec_unparse(self@, |f: BeamlineField| spec_beamline_name(f)),
    {
        let ghost name_of = |f: BeamlineField| spec_beamline_name(f);
        let mut out = String::new();
        let mut i: usize = 0;
        proof {
            assert(self.segments@.take(0) =~= Seq::<Segment<BeamlineField>>::empty());
            assert(self.segments@.take(0).map_values(|g: Segment<BeamlineField>| g@).len() == 0);
            assert(out@ =~= spec_unparse(flat_segments(self.segments@.take(0)), name_of));
        }
        while i < self.segments.len()
            invariant
                0 <= i <= self.segments@.len(),
                out@ == spec_unparse(flat_segments(self.segments@.take(i as int)), name_of),
                name_of == |f: BeamlineField| spec_beamline_name(f),
            decreases self.segments@.len() - i,
        {
            let ghost done = flat_segments(self.segments@.take(i as int));
            let seg = &self.segments[i];
            proof {
                self.segments@.lemma_flat_map_take_append(|g: Segment<BeamlineField>| g@, i as int);
                lemma_unparse_append(done, self.segments@[i as int]@, name_of);
            }
            match seg {
                Segment::Literal(lit) => {
                    out.append(lit.as_str());
                    proof {
                        lemma_unparse_literal::<BeamlineField>(lit@, name_of);
                    }
                },
                Segment::Field(f) => {
                    crate::text::push_char(&mut out, '{');
                    out.append(f.name());
                    crate::text::push_char(&mut out, '}');
                    proof {
                        lemma_unparse_field(*f, name_of);
                        assert(seg@ =~= seq![item_field(*f)]);
                        assert(done + seg@ =~= flat_segments(self.segments@.take(i as int + 1)));
                        assert(out@ =~= spec_unparse(done, name_of) + (seq!['{'] + name_of(*f)
                            + seq!['}']));
                    }
                },
            }
            i = i + 1;
        }
        proof {
            assert(self.segments@.take(self.segments@.len() as int) =~= self.segments@);
        }
        out
    }
}
impl PathTemplate<ScanField> {
    /// The template text that this compiled scan template denotes.
    pub fn template_text(&self) -> (r: String)
        ensures
            r@ == spec_unparse(self@, |f: ScanField| spec_scan_name(f)),
    {
        let ghost name_of = |f: ScanField| spec_scan_name(f);
        let mut out = String::new();
        let mut i: usize = 0;
        proof {
            assert(self.segments@.take(0) =~= Seq::<Segment<ScanField>>::empty());
            assert(self.segments@.take(0).map_values(|g: Segment<ScanField>| g@).len() == 0);
            assert(out@ =~= spec_unparse(flat_segments(self.segments@.take(0)), name_of));
        }
        while i < self.segments.len()
            invariant
                0 <= i <= self.segments@.len(),
                out@ == spec_unparse(flat_segments(self.segments@.take(i as int)), name_of),
                name_of == |f: ScanField| spec_scan_name(f),
            decreases self.segments@.len() - i,
        {
            let ghost done = flat_segments(self.segments@.take(i as int));
            let seg = &self.segments[i];
            proof {
                self.segments@.lemma_flat_map_take_append(|g: Segment<ScanField>| g@, i as int);
                lemma_unparse_append(done, self.segments@[i as int]@, name_of);
            }
            match seg {
                Segment::Literal(lit) => {
                    out.append(lit.as_str());
                    proof {
                        lemma_unparse_literal::<ScanField>(lit@, name_of);
                    }
                },
                Segment::Field(f) => {
                    crate::text::push_char(&mut out, '{');
                    out.append(f.name());
                    crate::text::push_char(&mut out, '}');
                    proof {
                        lemma_unparse_field(*f, name_of);
                        assert(seg@ =~= seq![item_field(*f)]);
                        assert(done + seg@ =~= flat_segments(self.segments@.take(i as int + 1)));
                        assert(out@ =~= spec_unparse(done, name_of) + (seq!['{'] + name_of(*f)
                            + seq!['}']));
                    }
                },
            }
            i = i + 1;
        }
        proof {
            assert(self.segments@.take(self.segments@.len() as int) =~= self.segments@);
        }
        out
    }
}
impl PathTemplate<DetectorField> {
    /// The template text that this compiled detector template denotes.
    pub fn template_text(&self) -> (r: String)
        ensures
            r@ == spec_unparse(self@, |f: DetectorField| spec_detector_name(f)),
    {
        let ghost name_of = |f: DetectorField| spec_detector_name(f);
        let mut out = String::new();
        let mut i: usize = 0;
        proof {
            assert(self.segments@.take(0) =~= Seq::<Segment<DetectorField>>::empty());
            assert(self.segments@.take(0).map_values(|g: Segment<DetectorField>| g@).len() == 0);
            assert(out@ =~= spec_unparse(flat_segments(self.segments@.take(0)), name_of));
        }
        while i < self.segments.len()
            invariant
                0 <= i <= self.segments@.len(),
                out@ == spec_unparse(flat_segments(self.segments@.take(i as int)), name_of),
                name_of == |f: DetectorField| spec_detector_name(f),
            decreases self.segments@.len() - i,
        {
            let ghost done = flat_segments(self.segments@.take(i as int));
            let seg = &self.segments[i];
            proof {
                self.segments@.lemma_flat_map_take_append(|g: Segment<DetectorField>| g@, i as int);
                lemma_unparse_append(done, self.segments@[i as int]@, name_of);
            }
            match seg {
                Segment::Literal(lit) => {
                    out.append(lit.as_str());
                    proof {
                        lemma_unparse_literal::<DetectorField>(lit@, name_of);
                    }
                },
                Segment::Field(f) => {
                    crate::text::push_char(&mut out, '{');
                    out.append(f.name());
                    crate::text::push_char(&mut out, '}');
                    proof {
                        lemma_unparse_field(*f, name_of);
                        assert(seg@ =~= seq![item_field(*f)]);
                        assert(done + seg@ =~= flat_segments(self.segments@.take(i as int + 1)));
                        assert(out@ =~= spec_unparse(done, name_of) + (seq!['{'] + name_of(*f)
                            + seq!['}']));
                    }
                },
            }
            i = i + 1;
        }
        proof {
            assert(self.segments@.take(self.segments@.len() as int) =~= self.segments@);
        }
        out
    }
}

/// Items that unparse to text the compiler accepts back: literal
/// characters are not delimiters, and every field's canonical name is in
/// the set and free of delimiters.
pub open spec fn unparse_safe<F>(
    items: Seq<PItem<F>>,
    name_of: spec_fn(F) -> Seq<char>,
    parse: spec_fn(Seq<char>) -> Option<F>,
) -> bool {
    forall|k: int|
        0 <= k < items.len() ==> match #[trigger] items[k] {
            PItem::Char(c) => c != '{' && c != '}',
            PItem::Field(f) => parse(name_of(f)) == Some(f) && (forall|i: int|
                0 <= i < name_of(f).len() ==> #[trigger] name_of(f)[i] != '{' && name_of(f)[i]
                    != '}'),
        }
}

/// The raw items that scanning unparsed text yields: each literal
/// character as itself, each field as a placeholder under its canonical
/// name, with `pos` the position where the unparsed text starts.
pub open spec fn unparse_raw<F>(
    items: Seq<PItem<F>>,
    name_of: spec_fn(F) -> Seq<char>,
    pos: int,
) -> Seq<RawItem>
    decreases items.len(),
{
    if items.len() == 0 {
        seq![]
    } else {
        match items[0] {
            PItem::Char(c) => seq![raw_char(c)] + unparse_raw(
                items.drop_first(),
                name_of,
                pos + 1,
            ),
            PItem::Field(f) => seq![raw_placeholder(name_of(f), pos)] + unparse_raw(
                items.drop_first(),
                name_of,
                pos + name_of(f).len() + 2,
            ),
        }
    }
}

/// A stretch of non-delimiters ending at a delimiter pins the first
/// delimiter down.
proof fn lemma_first_delim_found(t: Seq<char>, a: int, b: int)
    requires
        0 <= a <= b < t.len(),
        forall|m: int| a <= m < b ==> t[m] != '{' && t[m] != '}',
        t[b] == '{' || t[b] == '}',
    ensures
        first_delim(t, a) == Some(b),
    decreases b - a,
{
    if a < b {
        lemma_first_delim_found(t, a + 1, b);
    }
}

/// Scanning unparsed safe items from their position yields exactly their
/// raw items.
proof fn lemma_scan_of_unparse<F>(
    t: Seq<char>,
    i: int,
    items: Seq<PItem<F>>,
    name_of: spec_fn(F) -> Seq<char>,
    parse: spec_fn(Seq<char>) -> Option<F>,
)
    requires
        0 <= i <= t.len(),
        t.subrange(i, t.len() as int) == spec_unparse(items, name_of),
        unparse_safe(items, name_of, parse),
    ensures
        scan_from(t, i) == Ok::<Seq<RawItem>, SpecTemplateError>(unparse_raw(items, name_of, i)),
    decreases items.len(),
{
    let u = spec_unparse(items, name_of);
    let tail = t.subrange(i, t.len() as int);
    if items.len() == 0 {
        assert(u.len() == 0);
        assert(i == t.len());
    } else {
        let rest = items.drop_first();
        assert(unparse_safe(rest, name_of, parse)) by {
            assert(forall|k: int| 0 <= k < rest.len() ==> #[trigger] rest[k] == items[k + 1]);
        }
        match items[0] {
            PItem::Char(c) => {
                let head = seq![c];
                assert(u == head + spec_unparse(rest, name_of));
                assert(t[i] == tail[0]);
                assert(tail[0] == c);
                assert(c != '{' && c != '}');
                assert(t.subrange(i + 1, t.len() as int) =~= spec_unparse(rest, name_of)) by {
                    assert(forall|m: int|
                        0 <= m < t.len() - i - 1 ==> #[trigger] t.subrange(
                            i + 1,
                            t.len() as int,
                        )[m] == tail[m + 1]);
                }
                lemma_scan_of_unparse(t, i + 1, rest, name_of, parse);
                assert(scan_from(t, i) == Ok::<Seq<RawItem>, SpecTemplateError>(
                    seq![raw_char(t[i])] + unparse_raw(rest, name_of, i + 1),
                ));
                assert(seq![raw_char(t[i])] + unparse_raw(rest, name_of, i + 1) =~= unparse_raw(
                    items,
                    name_of,
                    i,
                ));
            },
            PItem::Field(f) => {
                let n = name_of(f);
                let head = seq!['{'] + n + seq!['}'];
                assert(u == head + spec_unparse(rest, name_of));
                let b = i + 1 + n.len();
                assert(t[i] == tail[0]);
                assert(tail[0] == '{');
                assert forall|m: int| i + 1 <= m < b implies t[m] != '{' && t[m] != '}' by {
                    assert(t[m] == tail[m - i]);
                    assert(tail[m - i] == n[m - i - 1]);
                }
                assert(t[b] == tail[b - i]);
                assert(tail[b - i] == '}');
                lemma_first_delim_found(t, i + 1, b);
                assert(t.subrange(i + 1, b) =~= n) by {
                    assert(forall|m: int|
                        0 <= m < n.len() ==> #[trigger] t.subrange(i + 1, b)[m] == tail[m + 1]);
                }
                assert(t.subrange(b + 1, t.len() as int) =~= spec_unparse(rest, name_of)) by {
                    assert(forall|m: int|
                        0 <= m < t.len() - b - 1 ==> #[trigger] t.subrange(
                            b + 1,
                            t.len() as int,
                        )[m] == tail[m + b + 1 - i]);
                }
                lemma_scan_of_unparse(t, b + 1, rest, name_of, parse);
                assert(scan_from(t, i) == Ok::<Seq<RawItem>, SpecTemplateError>(
                    seq![raw_placeholder(t.subrange(i + 1, b), i)] + unparse_raw(
                        rest,
                        name_of,
                        b + 1,
                    ),
                ));
                assert(seq![raw_placeholder(t.subrange(i + 1, b), i)] + unparse_raw(
                    rest,
                    name_of,
                    b + 1,
                ) =~= unparse_raw(items, name_of, i));
            },
        }
    }
}

/// Resolving the raw items of unparsed safe items yields the items back.
proof fn lemma_map_of_unparse_raw<F>(
    items: Seq<PItem<F>>,
    name_of: spec_fn(F) -> Seq<char>,
    parse: spec_fn(Seq<char>) -> Option<F>,
    pos: int,
)
    requires
        unparse_safe(items, name_of, parse),
    ensures
        map_items(unparse_raw(items, name_of, pos), parse) == Ok::<
            Seq<PItem<F>>,
            SpecTemplateError,
        >(items),
    decreases items.len(),
{
    let raw = unparse_raw(items, name_of, pos);
    if items.len() == 0 {
        assert(raw.len() == 0);
        assert(map_items(raw, parse) == Ok::<Seq<PItem<F>>, SpecTemplateError>(seq![]));
        assert(Seq::<PItem<F>>::empty() =~= items);
    } else {
        let rest = items.drop_first();
        assert(unparse_safe(rest, name_of, parse)) by {
            assert(forall|k: int| 0 <= k < rest.len() ==> #[trigger] rest[k] == items[k + 1]);
        }
        let next_pos: int = match items[0] {
            PItem::Char(_) => pos + 1,
            PItem::Field(f) => pos + name_of(f).len() + 2,
        };
        lemma_map_of_unparse_raw(rest, name_of, parse, next_pos);
        let raw_rest = unparse_raw(rest, name_of, next_pos);
        match items[0] {
            PItem::Char(c) => {
                assert(raw == seq![raw_char(c)] + raw_rest);
                assert(raw.drop_first() =~= raw_rest);
                assert(raw[0] == raw_char(c));
                assert(map_items(raw, parse) == Ok::<Seq<PItem<F>>, SpecTemplateError>(
                    seq![item_char::<F>(c)] + rest,
                ));
                assert(seq![item_char::<F>(c)] + rest =~= items);
            },
            PItem::Field(f) => {
                assert(raw == seq![raw_placeholder(name_of(f), pos)] + raw_rest);
                assert(raw.drop_first() =~= raw_rest);
                assert(raw[0] == raw_placeholder(name_of(f), pos));
                assert(parse(name_of(f)) == Some(f));
                assert(map_items(raw, parse) == Ok::<Seq<PItem<F>>, SpecTemplateError>(
                    seq![item_field(f)] + rest,
                ));
                assert(seq![item_field(f)] + rest =~= items);
            },
        }
    }
}

/// Compiling the canonical text of safe items yields the items back: a
/// template can be stored as text and recompiled without change.
pub proof fn lemma_unparse_compile_round_trip<F>(
    items: Seq<PItem<F>>,
    name_of: spec_fn(F) -> Seq<char>,
    parse: spec_fn(Seq<char>) -> Option<F>,
)
    requires
        unparse_safe(items, name_of, parse),
    ensures
        spec_compile(spec_unparse(items, name_of), parse) == Ok::<
            Seq<PItem<F>>,
            SpecTemplateError,
        >(items),
{
    let t = spec_unparse(items, name_of);
    assert(t.subrange(0, t.len() as int) =~= t);
    lemma_scan_of_unparse(t, 0, items, name_of, parse);
    lemma_map_of_unparse_raw(items, name_of, parse, 0);
}

/// A scan never yields a delimiter as a literal character, and every
/// placeholder name is free of delimiters.
proof fn lemma_scan_items_safe(s: Seq<char>, i: int)
    requires
        0 <= i <= s.len(),
    ensures
        match scan_from(s, i) {
            Ok(raw) => forall|k: int|
                0 <= k < raw.len() ==> match #[trigger] raw[k] {
                    RawItem::Char(c) => c != '{' && c != '}',
                    RawItem::Placeholder(n, _) => forall|m: int|
                        0 <= m < n.len() ==> #[trigger] n[m] != '{' && n[m] != '}',
                },
            Err(_) => true,
        },
    decreases s.len() - i,
{
    if i >= s.len() {
    } else if s[i] == '}' {
    } else if s[i] == '{' {
        lemma_first_delim_range(s, i + 1);
        match first_delim(s, i + 1) {
            None => {},
            Some(k) => {
                if s[k] != '{' {
                    lemma_scan_items_safe(s, k + 1);
                    assert forall|m: int| i + 1 <= m < k implies s[m] != '{' && s[m] != '}' by {
                        lemma_first_delim_not_before(s, i + 1, m);
                    }
                    match scan_from(s, k + 1) {
                        Ok(rest) => {
                            let n = s.subrange(i + 1, k);
                            assert(forall|m: int| 0 <= m < n.len() ==> #[trigger] n[m] == s[m + i
                                + 1]);
                        },
                        Err(_) => {},
                    }
                }
            },
        }
    } else {
        lemma_scan_items_safe(s, i + 1);
    }
}

/// Nothing before the first delimiter is a delimiter.
proof fn lemma_first_delim_not_before(s: Seq<char>, a: int, m: int)
    requires
        0 <= a <= m <= s.len(),
        match first_delim(s, a) {
            Some(k) => m < k,
            None => m < s.len(),
        },
    ensures
        s[m] != '{' && s[m] != '}',
    decreases m - a,
{
    if a < m {
        lemma_first_delim_not_before(s, a + 1, m);
    }
}

/// Resolution preserves literal characters, so compiled items of an
/// accepted template never hold a delimiter as a literal character.
proof fn lemma_map_items_safe<F>(raw: Seq<RawItem>, parse: spec_fn(Seq<char>) -> Option<F>)
    requires
        forall|k: int|
            0 <= k < raw.len() ==> match #[trigger] raw[k] {
                RawItem::Char(c) => c != '{' && c != '}',
                RawItem::Placeholder(n, _) => true,
            },
    ensures
        match map_items(raw, parse) {
            Ok(items) => forall|k: int|
                0 <= k < items.len() ==> match #[trigger] items[k] {
                    PItem::Char(c) => c != '{' && c != '}',
                    PItem::Field(_) => true,
                },
            Err(_) => true,
        },
    decreases raw.len(),
{
    if raw.len() > 0 {
        let rest = raw.drop_first();
        assert(forall|k: int| 0 <= k < rest.len() ==> #[trigger] rest[k] == raw[k + 1]);
        lemma_map_items_safe(rest, parse);
    }
}

/// Compiled visit templates round-trip through their canonical text.
pub proof fn lemma_visit_template_round_trip(text: Seq<char>, items: Seq<PItem<BeamlineField>>)
    requires
        spec_compile_visit(text) == Ok::<Seq<PItem<BeamlineField>>, SpecTemplateError>(items),
    ensures
        spec_compile_visit(
            spec_unparse(items, |f: BeamlineField| spec_beamline_name(f)),
        ) == Ok::<Seq<PItem<BeamlineField>>, SpecTemplateError>(items),
{
    let name_of = |f: BeamlineField| spec_beamline_name(f);
    let parse = |n: Seq<char>| spec_beamline_field(n);
    match spec_scan(text) {
        Ok(raw) => {
            lemma_scan_items_safe(text, 0);
            lemma_map_items_safe(raw, parse);
            assert(unparse_safe(items, name_of, parse)) by {
                assert forall|k: int| 0 <= k < items.len() implies match #[trigger] items[k] {
                    PItem::Char(c) => c != '{' && c != '}',
                    PItem::Field(f) => parse(name_of(f)) == Some(f) && (forall|i: int|
                        0 <= i < name_of(f).len() ==> #[trigger] name_of(f)[i] != '{'
                            && name_of(f)[i] != '}'),
                } by {
                    match items[k] {
                        PItem::Char(_) => {},
                        PItem::Field(f) => {
                            crate::paths::lemma_beamline_name_round_trip(f);
                        },
                    }
                }
            }
            lemma_unparse_compile_round_trip(items, name_of, parse);
        },
        Err(_) => {},
    }
}

/// Compiled scan templates round-trip through their canonical text.
pub proof fn lemma_scan_template_round_trip(text: Seq<char>, items: Seq<PItem<ScanField>>)
    requires
        spec_compile_scan(text) == Ok::<Seq<PItem<ScanField>>, SpecTemplateError>(items),
    ensures
        spec_compile_scan(spec_unparse(items, |f: ScanField| spec_scan_name(f))) == Ok::<
            Seq<PItem<ScanField>>,
            SpecTemplateError,
        >(items),
{
    let name_of = |f: ScanField| spec_scan_name(f);
    let parse = |n: Seq<char>| spec_scan_field(n);
    match spec_scan(text) {
        Ok(raw) => {
            lemma_scan_items_safe(text, 0);
            lemma_map_items_safe(raw, parse);
            assert(unparse_safe(items, name_of, parse)) by {
                assert forall|k: int| 0 <= k < items.len() implies match #[trigger] items[k] {
                    PItem::Char(c) => c != '{' && c != '}',
                    PItem::Field(f) => parse(name_of(f)) == Some(f) && (forall|i: int|
                        0 <= i < name_of(f).len() ==> #[trigger] name_of(f)[i] != '{'
                            && name_of(f)[i] != '}'),
                } by {
                    match items[k] {
                        PItem::Char(_) => {},
                        PItem::Field(f) => {
                            crate::paths::lemma_scan_name_round_trip(f);
                        },
                    }
                }
            }
            lemma_unparse_compile_round_trip(items, name_of, parse);
        },
        Err(_) => {},
    }
}

/// Compiled detector templates round-trip through their canonical text.
pub proof fn lemma_detector_template_round_trip(
    text: Seq<char>,
    items: Seq<PItem<DetectorField>>,
)
    requires
        spec_compile_detector(text) == Ok::<Seq<PItem<DetectorField>>, SpecTemplateError>(items),
    ensures
        spec_compile_detector(
            spec_unparse(items, |f: DetectorField| spec_detector_name(f)),
        ) == Ok::<Seq<PItem<DetectorField>>, SpecTemplateError>(items),
{
    let name_of = |f: DetectorField| spec_detector_name(f);
    let parse = |n: Seq<char>| spec_detector_field(n);
    match spec_scan(text) {
        Ok(raw) => {
            lemma_scan_items_safe(text, 0);
            lemma_map_items_safe(raw, parse);
            assert(unparse_safe(items, name_of, parse)) by {
                assert forall|k: int| 0 <= k < items.len() implies match #[trigger] items[k] {
                    PItem::Char(c) => c != '{' && c != '}',
                    PItem::Field(f) => parse(name_of(f)) == Some(f) && (forall|i: int|
                        0 <= i < name_of(f).len() ==> #[trigger] name_of(f)[i] != '{'
                            && name_of(f)[i] != '}'),
                } by {
                    match items[k] {
                        PItem::Char(_) => {},
                        PItem::Field(f) => {
                            crate::paths::lemma_detector_name_round_trip(f);
                        },
                    }
                }
            }
            lemma_unparse_compile_round_trip(items, name_of, parse);
        },
        Err(_) => {},
    }
}

} // verus!
