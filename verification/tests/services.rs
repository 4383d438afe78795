//! End-to-end path requests through the services.

use numtracker::context::{BeamlineContext, PathLookupError, Subdirectory, VisitService};
use numtracker::db_service::{BeamlineConfigurationUpdate, ConfigurationError, ScanPathService};
use numtracker::template::{compile_detector, compile_scan, compile_visit};

fn configured_db() -> ScanPathService {
    let mut db = ScanPathService::new();
    BeamlineConfigurationUpdate {
        name: "i22".to_string(),
        scan_number: None,
        visit: Some(compile_visit("{instrument}/{visit}").unwrap()),
        scan: Some(compile_scan("{beamline.visit}/{scan_number}").unwrap()),
        detector: Some(compile_detector("{scan.scan_number}_{detector}").unwrap()),
        directory: None,
        extension: None,
    }
    .insert_new(&mut db)
    .unwrap();
    db
}

fn ctx() -> BeamlineContext {
    BeamlineContext::new("i22".to_string(), "cm12345-3".to_string())
}

#[test]
fn end_to_end_scan_and_detector_paths() {
    let service = VisitService::new(configured_db(), ctx());
    assert_eq!(service.beamline(), "i22");
    assert_eq!(service.visit(), "cm12345-3");
    let scan = service.new_scan(Subdirectory::new("").unwrap()).unwrap();
    let n = scan.scan_number();
    assert_eq!(n, 1);
    assert_eq!(scan.scan_file_for_year(2024).unwrap(), format!("cm12345-3/{n}"));
    let detectors = vec!["det 1".to_string(), "det-2".to_string()];
    let files = scan.detector_files_for_year(&detectors, 2024).unwrap();
    assert_eq!(files.len(), 2);
    assert_eq!(files[0].0, "det 1");
    assert_eq!(files[0].1, format!("{n}_det_1"));
    assert_eq!(files[1].0, "det-2");
    assert_eq!(files[1].1, format!("{n}_det_2"));
}

#[test]
fn visit_directory_renders_visit_template() {
    let service = VisitService::new(configured_db(), ctx());
    assert_eq!(service.visit_directory_for_year(2024).unwrap(), "i22/cm12345-3");
    // The template references no clock field, so the clock form agrees.
    assert_eq!(service.visit_directory().unwrap(), "i22/cm12345-3");
}

#[test]
fn unconfigured_instrument_is_a_missing_configuration_error() {
    let service = VisitService::new(
        ScanPathService::new(),
        BeamlineContext::new("b21".to_string(), "cm1-1".to_string()),
    );
    match service.visit_directory_for_year(2024).unwrap_err() {
        PathLookupError::Config(ConfigurationError::MissingBeamline(bl)) => {
            assert_eq!(bl, "b21")
        }
        e => panic!("wrong error: {e:?}"),
    }
    match service.new_scan(Subdirectory::new("").unwrap()) {
        Err(ConfigurationError::MissingBeamline(bl)) => assert_eq!(bl, "b21"),
        Err(e) => panic!("wrong error: {e:?}"),
        Ok(_) => panic!("allocation against an empty store succeeded"),
    }
}

#[test]
fn empty_detector_list_short_circuits() {
    let service = VisitService::new(configured_db(), ctx());
    let scan = service.new_scan(Subdirectory::new("").unwrap()).unwrap();
    let files = scan.detector_files_for_year(&Vec::new(), 2024).unwrap();
    assert!(files.is_empty());
    let files = scan.detector_files(&Vec::new()).unwrap();
    assert!(files.is_empty());
}

#[test]
fn scan_context_carries_instrument_and_visit() {
    let service = VisitService::new(configured_db(), ctx());
    let scan = service.new_scan(Subdirectory::new("sub").unwrap()).unwrap();
    assert_eq!(scan.beamline(), "i22");
    assert_eq!(scan.visit(), "cm12345-3");
    assert_eq!(scan.scan_number(), 1);
    assert_eq!(scan.visit_directory_for_year(2024).unwrap(), "i22/cm12345-3");
}

#[test]
fn subdirectory_flows_into_scan_paths() {
    let mut db = ScanPathService::new();
    BeamlineConfigurationUpdate {
        name: "i22".to_string(),
        scan_number: None,
        visit: Some(compile_visit("{instrument}/{visit}").unwrap()),
        scan: Some(compile_scan("{subdirectory}/{scan_number}").unwrap()),
        detector: Some(compile_detector("{detector}").unwrap()),
        directory: None,
        extension: None,
    }
    .insert_new(&mut db)
    .unwrap();
    let service = VisitService::new(db, ctx());
    let scan = service.new_scan(Subdirectory::new("x/y").unwrap()).unwrap();
    assert_eq!(scan.scan_file_for_year(2024).unwrap(), "x/y/1");
}
