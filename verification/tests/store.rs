//! The configuration store and the scan-number allocator.

use numtracker::db_service::{
    BeamlineConfigurationUpdate, ConfigurationError, NewConfigurationError, ScanPathService,
};
use numtracker::template::{compile_detector, compile_scan, compile_visit};

fn update_for(name: &str, scan_number: Option<u32>) -> BeamlineConfigurationUpdate {
    BeamlineConfigurationUpdate {
        name: name.to_string(),
        scan_number,
        visit: Some(compile_visit("{instrument}/{visit}").unwrap()),
        scan: Some(compile_scan("{beamline.visit}/{scan_number}").unwrap()),
        detector: Some(compile_detector("{scan.scan_number}_{detector}").unwrap()),
        directory: None,
        extension: None,
    }
}

#[test]
fn empty_db_has_no_config() {
    let db = ScanPathService::new();
    let e = db.current_configuration("i22").unwrap_err();
    match e {
        ConfigurationError::MissingBeamline(bl) => assert_eq!(bl, "i22"),
        e => panic!("Unexpected error from missing beamline: {e:?}"),
    }
}

#[test]
fn sequential_allocations_count_up_from_stored_mark() {
    let mut db = ScanPathService::new();
    update_for("i22", Some(5)).insert_new(&mut db).unwrap();
    let a = db.next_scan_configuration("i22", None).unwrap();
    let b = db.next_scan_configuration("i22", None).unwrap();
    let c = db.next_scan_configuration("i22", None).unwrap();
    assert_eq!(a.scan_number(), 6);
    assert_eq!(b.scan_number(), 7);
    assert_eq!(c.scan_number(), 8);
}

#[test]
fn allocation_takes_external_counter_into_account() {
    let mut db = ScanPathService::new();
    update_for("i22", Some(5)).insert_new(&mut db).unwrap();
    let a = db.next_scan_configuration("i22", Some(12)).unwrap();
    assert_eq!(a.scan_number(), 13);
    let b = db.next_scan_configuration("i22", Some(4)).unwrap();
    assert_eq!(b.scan_number(), 14);
}

#[test]
fn allocation_for_unknown_instrument_fails() {
    let mut db = ScanPathService::new();
    update_for("i22", None).insert_new(&mut db).unwrap();
    let e = db.next_scan_configuration("b21", None).unwrap_err();
    assert!(matches!(e, ConfigurationError::MissingBeamline(b) if b == "b21"));
}

#[test]
fn insert_requires_all_templates() {
    let mut db = ScanPathService::new();
    let mut u = update_for("i22", None);
    u.visit = None;
    match u.insert_new(&mut db).unwrap_err() {
        NewConfigurationError::MissingField(f) => assert_eq!(f, "visit"),
        e => panic!("wrong error: {e:?}"),
    }
    let mut u = update_for("i22", None);
    u.scan = None;
    match u.insert_new(&mut db).unwrap_err() {
        NewConfigurationError::MissingField(f) => assert_eq!(f, "scan"),
        e => panic!("wrong error: {e:?}"),
    }
    let mut u = update_for("i22", None);
    u.detector = None;
    match u.insert_new(&mut db).unwrap_err() {
        NewConfigurationError::MissingField(f) => assert_eq!(f, "detector"),
        e => panic!("wrong error: {e:?}"),
    }
}

#[test]
fn duplicate_insert_is_a_storage_error() {
    let mut db = ScanPathService::new();
    update_for("i22", None).insert_new(&mut db).unwrap();
    match update_for("i22", None).insert_new(&mut db).unwrap_err() {
        NewConfigurationError::Db(_) => {}
        e => panic!("wrong error: {e:?}"),
    }
}

#[test]
fn stored_templates_read_back() {
    let mut db = ScanPathService::new();
    update_for("i22", Some(3)).insert_new(&mut db).unwrap();
    let cfg = db.current_configuration("i22").unwrap();
    assert_eq!(cfg.name(), "i22");
    assert_eq!(cfg.scan_number(), 3);
    assert!(cfg.fallback().is_none());
    assert!(cfg.visit().is_ok());
    assert!(cfg.scan().is_ok());
    assert!(cfg.detector().is_ok());
}

#[test]
fn fallback_extension_defaults_to_instrument_name() {
    let mut db = ScanPathService::new();
    let mut u = update_for("i22", None);
    u.directory = Some("/tmp/markers".to_string());
    u.insert_new(&mut db).unwrap();
    let cfg = db.current_configuration("i22").unwrap();
    let fb = cfg.fallback().unwrap();
    assert_eq!(fb.directory, "/tmp/markers");
    assert_eq!(fb.extension, "i22");
}

#[test]
fn extension_without_directory_means_no_fallback() {
    let mut db = ScanPathService::new();
    let mut u = update_for("i22", None);
    u.extension = Some("ext".to_string());
    u.insert_new(&mut db).unwrap();
    let cfg = db.current_configuration("i22").unwrap();
    assert!(cfg.fallback().is_none());
}

#[test]
fn update_changes_only_supplied_fields() {
    let mut db = ScanPathService::new();
    update_for("i22", Some(3)).insert_new(&mut db).unwrap();
    let update = BeamlineConfigurationUpdate {
        name: "i22".to_string(),
        scan_number: Some(9),
        visit: None,
        scan: None,
        detector: None,
        directory: Some("/markers".to_string()),
        extension: Some("mk".to_string()),
    };
    let cfg = update.update_beamline(&mut db).unwrap();
    assert_eq!(cfg.scan_number(), 9);
    let fb = cfg.fallback().unwrap();
    assert_eq!(fb.directory, "/markers");
    assert_eq!(fb.extension, "mk");
    // The stored row matches what was handed back.
    let read = db.current_configuration("i22").unwrap();
    assert_eq!(read.scan_number(), 9);
    assert!(read.visit().is_ok());
}

#[test]
fn update_of_unknown_instrument_changes_nothing() {
    let mut db = ScanPathService::new();
    update_for("i22", None).insert_new(&mut db).unwrap();
    let update = BeamlineConfigurationUpdate {
        name: "b21".to_string(),
        scan_number: Some(9),
        visit: None,
        scan: None,
        detector: None,
        directory: None,
        extension: None,
    };
    assert!(update.update_beamline(&mut db).is_none());
    assert_eq!(db.all_beamlines().len(), 1);
}

#[test]
fn update_extension_matching_name_is_dropped() {
    let mut db = ScanPathService::new();
    update_for("i22", None).insert_new(&mut db).unwrap();
    let update = BeamlineConfigurationUpdate {
        name: "i22".to_string(),
        scan_number: None,
        visit: None,
        scan: None,
        detector: None,
        directory: Some("/markers".to_string()),
        extension: Some("i22".to_string()),
    };
    let cfg = update.update_beamline(&mut db).unwrap();
    // The extension column stays unset, so it defaults to the name.
    let fb = cfg.fallback().unwrap();
    assert_eq!(fb.extension, "i22");
}

#[test]
fn all_beamlines_lists_every_row() {
    let mut db = ScanPathService::new();
    update_for("i22", None).insert_new(&mut db).unwrap();
    update_for("b21", None).insert_new(&mut db).unwrap();
    let all = db.all_beamlines();
    assert_eq!(all.len(), 2);
    assert_eq!(all[0].name(), "i22");
    assert_eq!(all[1].name(), "b21");
}
