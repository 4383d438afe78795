//! Per-instrument configuration rows and the scan-number allocator. A row
//! holds the instrument's high-water mark, its three template texts, and
//! an optional legacy fallback configuration. The store keeps one row per
//! instrument name; the allocator advances the high-water mark to
//! `max(stored, externally observed) + 1` in a single step, so numbers
//! for one instrument are strictly increasing, and gap-free when no
//! external counter intervenes.

use vstd::prelude::*;
use vstd::pervasive::VecAdditionalExecFns;
use crate::paths::{BeamlineField, DetectorField, ScanField};
use crate::paths::{spec_beamline_name, spec_detector_name, spec_scan_name};
use crate::template::{
    compile_detector, compile_scan, compile_visit, spec_compile_detector, spec_compile_scan,
    spec_compile_visit, spec_unparse, InvalidPathTemplate, PItem, PathTemplate,
    SpecTemplateError,
};
use crate::text::{copy_str, str_eq};

verus! {

/// The legacy numbering scheme for one instrument: the marker-file
/// directory and the marker files' extension.
pub ghost struct FallbackCfg {
    pub directory: Seq<char>,
    pub extension: Seq<char>,
}

/// One stored row: the instrument name, its scan-number high-water mark,
/// the three raw template texts, and the raw fallback columns.
pub ghost struct RowV {
    pub name: Seq<char>,
    pub scan_number: int,
    pub visit: Seq<char>,
    pub scan: Seq<char>,
    pub detector: Seq<char>,
    pub fallback_directory: Option<Seq<char>>,
    pub fallback_extension: Option<Seq<char>>,
}

/// A row as handed to callers: the raw fallback columns paired into a
/// fallback configuration, or dropped when no directory is set.
pub ghost struct BeamlineCfg {
    pub name: Seq<char>,
    pub scan_number: int,
    pub visit: Seq<char>,
    pub scan: Seq<char>,
    pub detector: Seq<char>,
    pub fallback: Option<FallbackCfg>,
}

/// How the raw fallback columns combine: no directory means no fallback
/// (even when an extension is set); a directory without an extension
/// defaults the extension to the instrument name.
pub open spec fn spec_pair_fallback(
    name: Seq<char>,
    dir: Option<Seq<char>>,
    ext: Option<Seq<char>>,
) -> Option<FallbackCfg> {
    match dir {
        None => None,
        Some(d) => match ext {
            None => Some(FallbackCfg { directory: d, extension: name }),
            Some(e) => Some(FallbackCfg { directory: d, extension: e }),
        },
    }
}

/// The caller-facing form of a row.
pub open spec fn row_to_cfg(r: RowV) -> BeamlineCfg {
    BeamlineCfg {
        name: r.name,
        scan_number: r.scan_number,
        visit: r.visit,
        scan: r.scan,
        detector: r.detector,
        fallback: spec_pair_fallback(r.name, r.fallback_directory, r.fallback_extension),
    }
}

/// The first row with this name, if any.
pub open spec fn spec_find(rows: Seq<RowV>, name: Seq<char>) -> Option<int>
    decreases rows.len(),
{
    if rows.len() == 0 {
        None
    } else if rows[0].name == name {
        Some(0)
    } else {
        match spec_find(rows.drop_first(), name) {
            Some(i) => Some(i + 1),
            None => None,
        }
    }
}

pub proof fn lemma_spec_find_props(rows: Seq<RowV>, name: Seq<char>)
    ensures
        match spec_find(rows, name) {
            Some(i) => 0 <= i < rows.len() && rows[i].name == name && (forall|j: int|
                0 <= j < i ==> rows[j].name != name),
            None => forall|j: int| 0 <= j < rows.len() ==> rows[j].name != name,
        },
    decreases rows.len(),
{
    if rows.len() > 0 && rows[0].name != name {
        let rest = rows.drop_first();
        lemma_spec_find_props(rest, name);
        match spec_find(rest, name) {
            Some(k) => {
                assert(rows[k + 1] == rest[k]);
                assert forall|j: int| 0 <= j < k + 1 implies rows[j].name != name by {
                    if j > 0 {
                        assert(rows[j] == rest[j - 1]);
                    }
                }
            },
            None => {
                assert forall|j: int| 0 <= j < rows.len() implies rows[j].name != name by {
                    if j > 0 {
                        assert(rows[j] == rest[j - 1]);
                    }
                }
            },
        }
    }
}

/// Well-formed store contents: one row per instrument name.
pub open spec fn rows_wf(rows: Seq<RowV>) -> bool {
    forall|i: int, j: int|
        0 <= i < j < rows.len() ==> (#[trigger] rows[i].name) != (#[trigger] rows[j].name)
}

/// The number issued by an allocation: one above the larger of the stored
/// high-water mark and the externally observed one.
pub open spec fn spec_next_number(stored: int, observed: Option<u32>) -> int {
    let high = match observed {
        Some(h) => h as int,
        None => 0,
    };
    if stored >= high {
        stored + 1
    } else {
        high + 1
    }
}

/// Every allocation is strictly above the stored high-water mark and the
/// externally observed one; with no external counter it is exactly one
/// above the stored mark, so sequential allocations are gap-free.
pub proof fn lemma_allocation_strictly_increases(stored: int, observed: Option<u32>)
    requires
        stored >= 0,
    ensures
        spec_next_number(stored, observed) > stored,
        observed matches Some(h) ==> spec_next_number(stored, observed) > h,
        observed is None ==> spec_next_number(stored, observed) == stored + 1,
{
}

/// The legacy numbering scheme for one instrument.
#[derive(Debug)]
pub struct NumtrackerConfig {
    pub directory: String,
    pub extension: String,
}

impl View for NumtrackerConfig {
    type V = FallbackCfg;

    open spec fn view(&self) -> FallbackCfg {
        FallbackCfg { directory: self.directory@, extension: self.extension@ }
    }
}

#[derive(Debug)]
struct DbBeamlineConfig {
    name: String,
    scan_number: u32,
    visit: String,
    scan: String,
    detector: String,
    fallback_directory: Option<String>,
    fallback_extension: Option<String>,
}

impl View for DbBeamlineConfig {
    type V = RowV;

    closed spec fn view(&self) -> RowV {
        RowV {
            name: self.name@,
            scan_number: self.scan_number as int,
            visit: self.visit@,
            scan: self.scan@,
            detector: self.detector@,
            fallback_directory: match &self.fallback_directory {
                Some(d) => Some(d@),
                None => None,
            },
            fallback_extension: match &self.fallback_extension {
                Some(e) => Some(e@),
                None => None,
            },
        }
    }
}

/// One instrument's configuration as callers see it.
#[derive(Debug)]
pub struct BeamlineConfiguration {
    name: String,
    scan_number: u32,
    visit: String,
    scan: String,
    detector: String,
    fallback: Option<NumtrackerConfig>,
}

impl View for BeamlineConfiguration {
    type V = BeamlineCfg;

    closed spec fn view(&self) -> BeamlineCfg {
        BeamlineCfg {
            name: self.name@,
            scan_number: self.scan_number as int,
            visit: self.visit@,
            scan: self.scan@,
            detector: self.detector@,
            fallback: match &self.fallback {
                Some(f) => Some(f@),
                None => None,
            },
        }
    }
}

impl BeamlineConfiguration {
    /// Builds a configuration from raw columns, pairing the fallback
    /// columns: no directory means no fallback, and a missing extension
    /// defaults to the instrument name.
    pub fn from_parts(
        name: String,
        scan_number: u32,
        visit: String,
        scan: String,
        detector: String,
        fallback_directory: Option<String>,
        fallback_extension: Option<String>,
    ) -> (r: BeamlineConfiguration)
        ensures
            r@.name == name@,
            r@.scan_number == scan_number as int,
            r@.visit == visit@,
            r@.scan == scan@,
            r@.detector == detector@,
            r@.fallback == spec_pair_fallback(
                name@,
                match fallback_directory {
                    Some(d) => Some(d@),
                    None => None,
                },
                match fallback_extension {
                    Some(e) => Some(e@),
                    None => None,
                },
            ),
    {
        let fallback = match fallback_directory {
            None => None,
            Some(directory) => match fallback_extension {
                None => Some(
                    NumtrackerConfig { directory, extension: copy_str(name.as_str()) },
                ),
                Some(extension) => Some(NumtrackerConfig { directory, extension }),
            },
        };
        BeamlineConfiguration { name, scan_number, visit, scan, detector, fallback }
    }

    /// The instrument name.
    pub fn name(&self) -> (r: &str)
        ensures
            r@ == self@.name,
    {
        self.name.as_str()
    }

    /// The stored scan-number high-water mark.
    pub fn scan_number(&self) -> (r: u32)
        ensures
            r as int == self@.scan_number,
    {
        self.scan_number
    }

    /// The legacy fallback configuration, if one is set.
    pub fn fallback(&self) -> (r: Option<&NumtrackerConfig>)
        ensures
            match r {
                Some(f) => self@.fallback == Some(f@),
                None => self@.fallback is None,
            },
    {
        self.fallback.as_ref()
    }

    /// Compiles the stored visit directory template.
    pub fn visit(&self) -> (r: Result<PathTemplate<BeamlineField>, InvalidPathTemplate>)
        ensures
            match r {
                Ok(t) => spec_compile_visit(self@.visit) == Ok::<
                    Seq<PItem<BeamlineField>>,
                    SpecTemplateError,
                >(t@),
                Err(e) => spec_compile_visit(self@.visit) == Err::<
                    Seq<PItem<BeamlineField>>,
                    SpecTemplateError,
                >(e@),
            },
    {
        compile_visit(self.visit.as_str())
    }

    /// Compiles the stored scan file template.
    pub fn scan(&self) -> (r: Result<PathTemplate<ScanField>, InvalidPathTemplate>)
        ensures
            match r {
                Ok(t) => spec_compile_scan(self@.scan) == Ok::<
                    Seq<PItem<ScanField>>,
                    SpecTemplateError,
                >(t@),
                Err(e) => spec_compile_scan(self@.scan) == Err::<
                    Seq<PItem<ScanField>>,
                    SpecTemplateError,
                >(e@),
            },
    {
        compile_scan(self.scan.as_str())
    }

    /// Compiles the stored detector file template.
    pub fn detector(&self) -> (r: Result<PathTemplate<DetectorField>, InvalidPathTemplate>)
        ensures
            match r {
                Ok(t) => spec_compile_detector(self@.detector) == Ok::<
                    Seq<PItem<DetectorField>>,
                    SpecTemplateError,
                >(t@),
                Err(e) => spec_compile_detector(self@.detector) == Err::<
                    Seq<PItem<DetectorField>>,
                    SpecTemplateError,
                >(e@),
            },
    {
        compile_detector(self.detector.as_str())
    }

    fn row(&self) -> (r: DbBeamlineConfig)
        ensures
            row_to_cfg(r@) == self@,
            r@.name == self@.name,
            r@.scan_number == self@.scan_number,
    {
        DbBeamlineConfig {
            name: copy_str(self.name.as_str()),
            scan_number: self.scan_number,
            visit: copy_str(self.visit.as_str()),
            scan: copy_str(self.scan.as_str()),
            detector: copy_str(self.detector.as_str()),
            fallback_directory: match &self.fallback {
                Some(f) => Some(copy_str(f.directory.as_str())),
                None => None,
            },
            fallback_extension: match &self.fallback {
                Some(f) => Some(copy_str(f.extension.as_str())),
                None => None,
            },
        }
    }
}

/// Why a configuration lookup fails, at the specification level.
pub ghost enum SpecConfigurationError {
    /// No row exists for this instrument name.
    MissingBeamline(Seq<char>),
    /// The storage layer failed; the message describes how.
    Db(Seq<char>),
}

/// Why a configuration lookup fails. The in-memory store only ever
/// reports a missing instrument; the storage variant carries failures of
/// a persistent backend.
#[derive(Debug)]
pub enum ConfigurationError {
    MissingBeamline(String),
    Db(String),
}

impl View for ConfigurationError {
    type V = SpecConfigurationError;

    open spec fn view(&self) -> SpecConfigurationError {
        match self {
            ConfigurationError::MissingBeamline(n) => SpecConfigurationError::MissingBeamline(n@),
            ConfigurationError::Db(m) => SpecConfigurationError::Db(m@),
        }
    }
}

/// Why inserting a new configuration fails, at the specification level.
pub ghost enum SpecNewConfigurationError {
    /// A required template was not supplied; the field name says which.
    MissingField(Seq<char>),
    /// The storage layer refused the row; the message describes how.
    Db(Seq<char>),
}

/// Why inserting a new configuration fails.
#[derive(Debug)]
pub enum NewConfigurationError {
    MissingField(String),
    Db(String),
}

impl View for NewConfigurationError {
    type V = SpecNewConfigurationError;

    open spec fn view(&self) -> SpecNewConfigurationError {
        match self {
            NewConfigurationError::MissingField(n) => SpecNewConfigurationError::MissingField(n@),
            NewConfigurationError::Db(m) => SpecNewConfigurationError::Db(m@),
        }
    }
}

/// The store of per-instrument configurations: one row per instrument
/// name, each with a scan-number high-water mark strictly below
/// `u32::MAX`.
pub struct ScanPathService {
    rows: Vec<DbBeamlineConfig>,
}

impl View for ScanPathService {
    type V = Seq<RowV>;

    closed spec fn view(&self) -> Seq<RowV> {
        self.rows@.map_values(|r: DbBeamlineConfig| r@)
    }
}

impl ScanPathService {
    /// An empty store.
    pub fn new() -> (r: ScanPathService)
        ensures
            r@ == Seq::<RowV>::empty(),
            rows_wf(r@),
    {
        let r = ScanPathService { rows: Vec::new() };
        proof {
            assert(r@ =~= Seq::<RowV>::empty());
        }
        r
    }

    fn find_row(&self, beamline: &str) -> (r: Option<usize>)
        ensures
            match r {
                Some(i) => 0 <= i < self@.len() && spec_find(self@, beamline@) == Some(i as int),
                None => spec_find(self@, beamline@) is None,
            },
    {
        let mut i: usize = 0;
        while i < self.rows.len()
            invariant
                0 <= i <= self@.len(),
                self@.len() == self.rows@.len(),
                forall|j: int| 0 <= j < i ==> (#[trigger] self@[j]).name != beamline@,
                forall|j: int|
                    0 <= j < self.rows@.len() ==> (#[trigger] self@[j]) == self.rows@[j]@,
            decreases self.rows@.len() - i,
        {
            if str_eq(self.rows[i].name.as_str(), beamline) {
                proof {
                    lemma_spec_find_props(self@, beamline@);
                    if spec_find(self@, beamline@) is None {
                        assert(self@[i as int].name != beamline@);
                    }
                }
                return Some(i);
            }
            i = i + 1;
        }
        proof {
            lemma_spec_find_props(self@, beamline@);
            match spec_find(self@, beamline@) {
                Some(k) => {
                    assert(self@[k].name != beamline@);
                },
                None => {},
            }
        }
        None
    }

    /// The configuration stored for an instrument; fails with
    /// `MissingBeamline` exactly when no row has that name.
    pub fn current_configuration(&self, beamline: &str) -> (r: Result<
        BeamlineConfiguration,
        ConfigurationError,
    >)
        ensures
            match spec_find(self@, beamline@) {
                Some(i) => r matches Ok(c) && c@ == row_to_cfg(self@[i]),
                None => r matches Err(e) && e@ == SpecConfigurationError::MissingBeamline(
                    beamline@,
                ),
            },
    {
        match self.find_row(beamline) {
            Some(i) => {
                let row = &self.rows[i];
                Ok(
                    BeamlineConfiguration::from_parts(
                        copy_str(row.name.as_str()),
                        row.scan_number,
                        copy_str(row.visit.as_str()),
                        copy_str(row.scan.as_str()),
                        copy_str(row.detector.as_str()),
                        match &row.fallback_directory {
                            Some(d) => Some(copy_str(d.as_str())),
                            None => None,
                        },
                        match &row.fallback_extension {
                            Some(e) => Some(copy_str(e.as_str())),
                            None => None,
                        },
                    ),
                )
            },
            None => Err(ConfigurationError::MissingBeamline(copy_str(beamline))),
        }
    }

    /// Allocates the next scan number for an instrument in one step: the
    /// stored high-water mark becomes `max(stored, observed) + 1` and the
    /// updated row is returned. Fails with `MissingBeamline` exactly when
    /// no row has that name, leaving the store unchanged. The counters
    /// must have room left in their width for one more number.
    pub fn next_scan_configuration(&mut self, beamline: &str, current_high: Option<u32>) -> (r:
        Result<BeamlineConfiguration, ConfigurationError>)
        requires
            rows_wf(old(self)@),
            current_high matches Some(h) ==> h < u32::MAX,
            match spec_find(old(self)@, beamline@) {
                Some(i) => old(self)@[i].scan_number < u32::MAX,
                None => true,
            },
        ensures
            rows_wf(final(self)@),
            match spec_find(old(self)@, beamline@) {
                Some(i) => {
                    &&& r matches Ok(c)
                    &&& c@ == row_to_cfg(final(self)@[i])
                    &&& c@.scan_number == spec_next_number(
                        old(self)@[i].scan_number,
                        current_high,
                    )
                    &&& final(self)@ == old(self)@.update(
                        i,
                        RowV { scan_number: c@.scan_number, ..old(self)@[i] },
                    )
                },
                None => {
                    &&& r matches Err(e)
                    &&& e@ == SpecConfigurationError::MissingBeamline(beamline@)
                    &&& final(self)@ == old(self)@
                },
            },
    {
        match self.find_row(beamline) {
            Some(i) => {
                let observed: u32 = match current_high {
                    Some(h) => h,
                    None => 0,
                };
                proof {
                    assert(self@[i as int] == self.rows@[i as int]@);
                }
                let stored = self.rows[i].scan_number;
                let next: u32 = if stored >= observed {
                    stored + 1
                } else {
                    observed + 1
                };
                let old_row = &self.rows[i];
                let row = DbBeamlineConfig {
                    name: copy_str(old_row.name.as_str()),
                    scan_number: next,
                    visit: copy_str(old_row.visit.as_str()),
                    scan: copy_str(old_row.scan.as_str()),
                    detector: copy_str(old_row.detector.as_str()),
                    fallback_directory: match &old_row.fallback_directory {
                        Some(d) => Some(copy_str(d.as_str())),
                        None => None,
                    },
                    fallback_extension: match &old_row.fallback_extension {
                        Some(e) => Some(copy_str(e.as_str())),
                        None => None,
                    },
                };
                let result = BeamlineConfiguration::from_parts(
                    copy_str(row.name.as_str()),
                    row.scan_number,
                    copy_str(row.visit.as_str()),
                    copy_str(row.scan.as_str()),
                    copy_str(row.detector.as_str()),
                    match &row.fallback_directory {
                        Some(d) => Some(copy_str(d.as_str())),
                        None => None,
                    },
                    match &row.fallback_extension {
                        Some(e) => Some(copy_str(e.as_str())),
                        None => None,
                    },
                );
                self.rows.set(i, row);
                proof {
                    assert(final(self)@ =~= old(self)@.update(
                        i as int,
                        RowV { scan_number: next as int, ..old(self)@[i as int] },
                    ));
                }
                Ok(result)
            },
            None => Err(ConfigurationError::MissingBeamline(copy_str(beamline))),
        }
    }

    /// Every stored configuration, in row order.
    pub fn all_beamlines(&self) -> (r: Vec<BeamlineConfiguration>)
        ensures
            r@.len() == self@.len(),
            forall|i: int| 0 <= i < r@.len() ==> (#[trigger] r@[i])@ == row_to_cfg(self@[i]),
    {
        let mut out: Vec<BeamlineConfiguration> = Vec::new();
        let mut i: usize = 0;
        while i < self.rows.len()
            invariant
                0 <= i <= self.rows@.len(),
                self@.len() == self.rows@.len(),
                out@.len() == i,
                forall|j: int| 0 <= j < i ==> (#[trigger] out@[j])@ == row_to_cfg(self@[j]),
                forall|j: int|
                    0 <= j < self.rows@.len() ==> (#[trigger] self@[j]) == self.rows@[j]@,
            decreases self.rows@.len() - i,
        {
            let row = &self.rows[i];
            out.push(
                BeamlineConfiguration::from_parts(
                    copy_str(row.name.as_str()),
                    row.scan_number,
                    copy_str(row.visit.as_str()),
                    copy_str(row.scan.as_str()),
                    copy_str(row.detector.as_str()),
                    match &row.fallback_directory {
                        Some(d) => Some(copy_str(d.as_str())),
                        None => None,
                    },
                    match &row.fallback_extension {
                        Some(e) => Some(copy_str(e.as_str())),
                        None => None,
                    },
                ),
            );
            i = i + 1;
        }
        out
    }
}

/// A partial update of one instrument's configuration: only the supplied
/// fields change. Templates are supplied compiled, so only validated
/// template text can be stored.
pub ghost struct UpdateV {
    pub name: Seq<char>,
    pub scan_number: Option<u32>,
    pub visit: Option<Seq<PItem<BeamlineField>>>,
    pub scan: Option<Seq<PItem<ScanField>>>,
    pub detector: Option<Seq<PItem<DetectorField>>>,
    pub directory: Option<Seq<char>>,
    pub extension: Option<Seq<char>>,
}

/// A partial update of one instrument's configuration.
#[derive(Debug)]
pub struct BeamlineConfigurationUpdate {
    pub name: String,
    pub scan_number: Option<u32>,
    pub visit: Option<PathTemplate<BeamlineField>>,
    pub scan: Option<PathTemplate<ScanField>>,
    pub detector: Option<PathTemplate<DetectorField>>,
    pub directory: Option<String>,
    pub extension: Option<String>,
}

impl View for BeamlineConfigurationUpdate {
    type V = UpdateV;

    open spec fn view(&self) -> UpdateV {
        UpdateV {
            name: self.name@,
            scan_number: self.scan_number,
            visit: match &self.visit {
                Some(t) => Some(t@),
                None => None,
            },
            scan: match &self.scan {
                Some(t) => Some(t@),
                None => None,
            },
            detector: match &self.detector {
                Some(t) => Some(t@),
                None => None,
            },
            directory: match &self.directory {
                Some(d) => Some(d@),
                None => None,
            },
            extension: match &self.extension {
                Some(e) => Some(e@),
                None => None,
            },
        }
    }
}

/// The row that applying an update to an existing row yields: supplied
/// fields replace the stored ones, templates as their canonical text; a
/// supplied extension equal to the instrument name is dropped, since a
/// missing extension already defaults to it.
pub open spec fn spec_apply_update(row: RowV, u: UpdateV) -> RowV {
    RowV {
        name: row.name,
        scan_number: match u.scan_number {
            Some(n) => n as int,
            None => row.scan_number,
        },
        visit: match u.visit {
            Some(items) => spec_unparse(items, |f: BeamlineField| spec_beamline_name(f)),
            None => row.visit,
        },
        scan: match u.scan {
            Some(items) => spec_unparse(items, |f: ScanField| spec_scan_name(f)),
            None => row.scan,
        },
        detector: match u.detector {
            Some(items) => spec_unparse(items, |f: DetectorField| spec_detector_name(f)),
            None => row.detector,
        },
        fallback_directory: match u.directory {
            Some(d) => Some(d),
            None => row.fallback_directory,
        },
        fallback_extension: match u.extension {
            Some(e) => if e == u.name {
                row.fallback_extension
            } else {
                Some(e)
            },
            None => row.fallback_extension,
        },
    }
}

/// The row that inserting an update as a new configuration yields: the
/// scan number defaults to zero, the fallback columns are stored as
/// supplied. The three templates must all be present.
pub open spec fn spec_insert_row(u: UpdateV) -> RowV
    recommends
        u.visit is Some,
        u.scan is Some,
        u.detector is Some,
{
    RowV {
        name: u.name,
        scan_number: match u.scan_number {
            Some(n) => n as int,
            None => 0,
        },
        visit: spec_unparse(u.visit.unwrap(), |f: BeamlineField| spec_beamline_name(f)),
        scan: spec_unparse(u.scan.unwrap(), |f: ScanField| spec_scan_name(f)),
        detector: spec_unparse(u.detector.unwrap(), |f: DetectorField| spec_detector_name(f)),
        fallback_directory: u.directory,
        fallback_extension: u.extension,
    }
}

impl BeamlineConfigurationUpdate {
    /// Applies this update to the stored row with its name: supplied
    /// fields replace stored ones and the updated configuration is
    /// returned; with no such row the store is unchanged and nothing is
    /// returned.
    pub fn update_beamline(&self, db: &mut ScanPathService) -> (r: Option<BeamlineConfiguration>)
        requires
            rows_wf(old(db)@),
        ensures
            rows_wf(final(db)@),
            match spec_find(old(db)@, self.name@) {
                Some(i) => {
                    &&& final(db)@ == old(db)@.update(
                        i,
                        spec_apply_update(old(db)@[i], self@),
                    )
                    &&& r matches Some(c) && c@ == row_to_cfg(
                        spec_apply_update(old(db)@[i], self@),
                    )
                },
                None => final(db)@ == old(db)@ && r is None,
            },
    {
        match db.find_row(self.name.as_str()) {
            Some(i) => {
                let old_row = &db.rows[i];
                proof {
                    assert(db@[i as int] == db.rows@[i as int]@);
                }
                let row = DbBeamlineConfig {
                    name: copy_str(old_row.name.as_str()),
                    scan_number: match self.scan_number {
                        Some(n) => n,
                        None => old_row.scan_number,
                    },
                    visit: match &self.visit {
                        Some(t) => t.template_text(),
                        None => copy_str(old_row.visit.as_str()),
                    },
                    scan: match &self.scan {
                        Some(t) => t.template_text(),
                        None => copy_str(old_row.scan.as_str()),
                    },
                    detector: match &self.detector {
                        Some(t) => t.template_text(),
                        None => copy_str(old_row.detector.as_str()),
                    },
                    fallback_directory: match &self.directory {
                        Some(d) => Some(copy_str(d.as_str())),
                        None => match &old_row.fallback_directory {
                            Some(d) => Some(copy_str(d.as_str())),
                            None => None,
                        },
                    },
                    fallback_extension: match &self.extension {
                        Some(e) => {
                            if !str_eq(e.as_str(), self.name.as_str()) {
                                Some(copy_str(e.as_str()))
                            } else {
                                match &old_row.fallback_extension {
                                    Some(x) => Some(copy_str(x.as_str())),
                                    None => None,
                                }
                            }
                        },
                        None => match &old_row.fallback_extension {
                            Some(x) => Some(copy_str(x.as_str())),
                            None => None,
                        },
                    },
                };
                let result = BeamlineConfiguration::from_parts(
                    copy_str(row.name.as_str()),
                    row.scan_number,
                    copy_str(row.visit.as_str()),
                    copy_str(row.scan.as_str()),
                    copy_str(row.detector.as_str()),
                    match &row.fallback_directory {
                        Some(d) => Some(copy_str(d.as_str())),
                        None => None,
                    },
                    match &row.fallback_extension {
                        Some(e) => Some(copy_str(e.as_str())),
                        None => None,
                    },
                );
                proof {
                    assert(row@ == spec_apply_update(db@[i as int], self@));
                }
                db.rows.set(i, row);
                proof {
                    assert(final(db)@ =~= old(db)@.update(
                        i as int,
                        spec_apply_update(old(db)@[i as int], self@),
                    ));
                }
                Some(result)
            },
            None => None,
        }
    }

    /// Inserts this update as a new configuration row. All three
    /// templates must be supplied: the first missing one (visit, then
    /// scan, then detector) is the error. A row with this name must not
    /// already exist; inserting over one is a storage error and leaves
    /// the store unchanged.
    pub fn insert_new(self, db: &mut ScanPathService) -> (r: Result<
        BeamlineConfiguration,
        NewConfigurationError,
    >)
        requires
            rows_wf(old(db)@),
        ensures
            rows_wf(final(db)@),
            self@.visit is None ==> ({
                &&& r matches Err(e)
                &&& e@ == SpecNewConfigurationError::MissingField("visit"@)
                &&& final(db)@ == old(db)@
            }),
            self@.visit is Some && self@.scan is None ==> ({
                &&& r matches Err(e)
                &&& e@ == SpecNewConfigurationError::MissingField("scan"@)
                &&& final(db)@ == old(db)@
            }),
            self@.visit is Some && self@.scan is Some && self@.detector is None ==> ({
                &&& r matches Err(e)
                &&& e@ == SpecNewConfigurationError::MissingField("detector"@)
                &&& final(db)@ == old(db)@
            }),
            self@.visit is Some && self@.scan is Some && self@.detector is Some ==> match spec_find(
                old(db)@,
                self.name@,
            ) {
                Some(i) => ({
                    &&& r matches Err(e)
                    &&& e@ == SpecNewConfigurationError::Db("beamline already exists"@)
                    &&& final(db)@ == old(db)@
                }),
                None => {
                    &&& r matches Ok(c)
                    &&& c@ == row_to_cfg(spec_insert_row(self@))
                    &&& final(db)@ == old(db)@.push(spec_insert_row(self@))
                },
            },
    {
        let visit = match self.visit {
            Some(t) => t,
            None => {
                return Err(NewConfigurationError::MissingField(copy_str("visit")));
            },
        };
        let scan = match self.scan {
            Some(t) => t,
            None => {
                return Err(NewConfigurationError::MissingField(copy_str("scan")));
            },
        };
        let detector = match self.detector {
            Some(t) => t,
            None => {
                return Err(NewConfigurationError::MissingField(copy_str("detector")));
            },
        };
        match db.find_row(self.name.as_str()) {
            Some(_) => Err(NewConfigurationError::Db(copy_str("beamline already exists"))),
            None => {
                let row = DbBeamlineConfig {
                    name: self.name,
                    scan_number: match self.scan_number {
                        Some(n) => n,
                        None => 0,
                    },
                    visit: visit.template_text(),
                    scan: scan.template_text(),
                    detector: detector.template_text(),
                    fallback_directory: self.directory,
                    fallback_extension: self.extension,
                };
                let result = BeamlineConfiguration::from_parts(
                    copy_str(row.name.as_str()),
                    row.scan_number,
                    copy_str(row.visit.as_str()),
                    copy_str(row.scan.as_str()),
                    copy_str(row.detector.as_str()),
                    match &row.fallback_directory {
                        Some(d) => Some(copy_str(d.as_str())),
                        None => None,
                    },
                    match &row.fallback_extension {
                        Some(e) => Some(copy_str(e.as_str())),
                        None => None,
                    },
                );
                let ghost prior = db@;
                let ghost new_row = row@;
                db.rows.push(row);
                proof {
                    assert(final(db)@ =~= prior.push(new_row));
                    lemma_spec_find_props(prior, new_row.name);
                    assert forall|i: int, j: int|
                        0 <= i < j < final(db)@.len() implies (#[trigger] final(db)@[i].name)
                        != (#[trigger] final(db)@[j].name) by {
                        if j == final(db)@.len() - 1 {
                            assert(final(db)@[i] == prior[i]);
                        }
                    }
                }
                Ok(result)
            },
        }
    }
}

/// Finding by name only looks at names: stores whose rows carry the same
/// names row for row agree on every lookup.
pub proof fn lemma_spec_find_same_names(rows: Seq<RowV>, rows2: Seq<RowV>, name: Seq<char>)
    requires
        rows.len() == rows2.len(),
        forall|j: int| 0 <= j < rows.len() ==> (#[trigger] rows2[j]).name == rows[j].name,
    ensures
        spec_find(rows2, name) == spec_find(rows, name),
    decreases rows.len(),
{
    if rows.len() > 0 {
        assert(rows2[0].name == rows[0].name);
        let rest = rows.drop_first();
        let rest2 = rows2.drop_first();
        assert forall|j: int| 0 <= j < rest.len() implies (#[trigger] rest2[j]).name
            == rest[j].name by {
            assert(rest[j] == rows[j + 1]);
            assert(rest2[j] == rows2[j + 1]);
        }
        lemma_spec_find_same_names(rest, rest2, name);
    }
}

/// Repeated sequential allocations for one instrument return a strictly
/// increasing sequence of numbers, starting above the stored high-water
/// mark, and the instrument's row stays in place.
pub proof fn lemma_sequential_allocations(rows: Seq<RowV>, name: Seq<char>, i: int)
    requires
        rows_wf(rows),
        spec_find(rows, name) == Some(i),
        rows[i].scan_number >= 0,
    ensures
        ({
            let n1 = spec_next_number(rows[i].scan_number, None);
            let rows2 = rows.update(i, RowV { scan_number: n1, ..rows[i] });
            let n2 = spec_next_number(rows2[i].scan_number, None);
            &&& rows[i].scan_number < n1 < n2
            &&& spec_find(rows2, name) == Some(i)
            &&& rows_wf(rows2)
        }),
{
    lemma_spec_find_props(rows, name);
    let n1 = spec_next_number(rows[i].scan_number, None);
    let rows2 = rows.update(i, RowV { scan_number: n1, ..rows[i] });
    assert forall|j: int| 0 <= j < rows.len() implies (#[trigger] rows2[j]).name
        == rows[j].name by {
    }
    lemma_spec_find_same_names(rows, rows2, name);
}

} // verus!
