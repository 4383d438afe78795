//! Template compilation and rendering.

use numtracker::context::{BeamlineContext, Subdirectory};
use numtracker::template::{compile_detector, compile_scan, compile_visit, InvalidPathTemplate};

fn ctx() -> BeamlineContext {
    BeamlineContext::new("i22".to_string(), "cm12345-3".to_string())
}

#[test]
fn renders_visit_template() {
    let t = compile_visit("/data/{instrument}/{year}/{visit}").unwrap();
    let path = t.render(&ctx(), 2024);
    assert_eq!(path, "/data/i22/2024/cm12345-3");
}

#[test]
fn renders_proposal_from_visit() {
    let t = compile_visit("{proposal}/{visit}").unwrap();
    assert_eq!(t.render(&ctx(), 2024), "cm12345/cm12345-3");
}

#[test]
fn rendering_is_deterministic() {
    let text = "/data/{instrument}/{year}/{visit}";
    let t1 = compile_visit(text).unwrap();
    let t2 = compile_visit(text).unwrap();
    assert_eq!(t1.render(&ctx(), 2024), t2.render(&ctx(), 2024));
    assert_eq!(t1.render(&ctx(), 2024), t1.render(&ctx(), 2024));
}

#[test]
fn unknown_field_names_the_field() {
    match compile_visit("a/{nope}/b").unwrap_err() {
        InvalidPathTemplate::UnknownField(name, pos) => {
            assert_eq!(name, "nope");
            assert_eq!(pos, 2);
        }
        e => panic!("wrong error: {e:?}"),
    }
    // A scan-only field is outside the visit set.
    match compile_visit("{scan_number}").unwrap_err() {
        InvalidPathTemplate::UnknownField(name, 0) => assert_eq!(name, "scan_number"),
        e => panic!("wrong error: {e:?}"),
    }
    // Nested names outside the set fail too.
    match compile_detector("{scan.nope}").unwrap_err() {
        InvalidPathTemplate::UnknownField(name, 0) => assert_eq!(name, "scan.nope"),
        e => panic!("wrong error: {e:?}"),
    }
}

#[test]
fn malformed_delimiters_rejected() {
    assert_eq!(
        compile_visit("a{visit").unwrap_err(),
        InvalidPathTemplate::Unterminated(1)
    );
    assert_eq!(
        compile_visit("{vi{sit}").unwrap_err(),
        InvalidPathTemplate::Nested(3)
    );
    assert_eq!(
        compile_visit("ab}c").unwrap_err(),
        InvalidPathTemplate::UnmatchedClose(2)
    );
}

#[test]
fn scan_template_delegates_to_beamline_fields() {
    let scan_ctx = ctx().for_scan(42, Subdirectory::new("sub/dir").unwrap());
    let t = compile_scan("{beamline.visit}/{scan_number}/{subdirectory}").unwrap();
    assert_eq!(t.render(&scan_ctx, 2024), "cm12345-3/42/sub/dir");
    let bare = compile_scan("{visit}/{scan_number}").unwrap();
    assert_eq!(bare.render(&scan_ctx, 2024), "cm12345-3/42");
}

#[test]
fn detector_template_delegates_through_scan() {
    let scan_ctx = ctx().for_scan(7, Subdirectory::new("").unwrap());
    let dctx = scan_ctx.for_detector("det 1");
    let t = compile_detector("{scan.scan_number}_{detector}").unwrap();
    assert_eq!(t.render(&dctx, 2024), "7_det_1");
    let deep = compile_detector("{scan.beamline.instrument}/{detector}").unwrap();
    assert_eq!(deep.render(&dctx, 2024), "i22/det_1");
}

#[test]
fn negative_year_renders_with_sign() {
    let t = compile_visit("{year}").unwrap();
    assert_eq!(t.render(&ctx(), -44), "-44");
    assert_eq!(t.render(&ctx(), 0), "0");
}

#[test]
fn template_text_is_canonical() {
    let t = compile_visit("/data/{instrument}/{year}").unwrap();
    assert_eq!(t.template_text(), "/data/{instrument}/{year}");
    let s = compile_scan("{beamline.visit}/{scan_number}").unwrap();
    // Delegated fields unparse under their bare names.
    assert_eq!(s.template_text(), "{visit}/{scan_number}");
}

#[test]
fn template_text_recompiles_identically() {
    let scan_ctx = ctx().for_scan(3, Subdirectory::new("s").unwrap());
    let t = compile_scan("run-{beamline.proposal}/{scan_number}").unwrap();
    let text = t.template_text();
    let t2 = compile_scan(&text).unwrap();
    assert_eq!(t2.template_text(), text);
    assert_eq!(t.render(&scan_ctx, 2024), t2.render(&scan_ctx, 2024));
}
