use astroburst_server::server::activity::{record_session_request, Timing};
use astroburst_server::fits::mef_writer::scan_source_hdus;
use astroburst_server::server::error::AppError;
use astroburst_server::server::session::{Session, V2SessionState};
use astroburst_server::server::sessions::SessionManager;
use astroburst_server::server::v2::export::{
    content_disposition, export_source, not_in_session, sanitize_filename_component,
};
use astroburst_server::server::v2::fs::{
    glob_match, is_a_directory, is_not_a_directory, list_dir, list_stat_error, parse_range,
    raw_plan, stat_error, stat_path, type_str, FileFacts, Found, RangeOutcome,
};
use astroburst_server::server::v2::histogram::{
    check_request, default_bins, mode_bin, range_source,
};
use astroburst_server::server::v2::images::{list_images, register_and_respond, Loaded};
use astroburst_server::server::v2::inspect::{
    dtype_for_bitpix, fits_only, header_cards, header_error, key_patterns, shape_for, structure,
    structure_source, Card,
};
use astroburst_server::server::v2::pixel::{
    default_box, neighbourhood, pixel_window, window_values, Window,
};
use astroburst_server::server::v2::region::{
    full_frame, region_values, resolve_region, wcs_required, Region, ResolvedRegion,
};
use astroburst_server::server::v2::sessions::{history, list, summarize, CacheSize, HistoryParams};
use astroburst_server::server::v2::stats::{default_maxiters, rejected};
use astroburst_server::server::v2::values::{count_nan, extent, finite, nan, only_finite};

#[test]
fn glob_matches_extensions_and_wildcards() {
    assert!(glob_match("*.fits", "m51_ha.fits"));
    assert!(glob_match("m51_?.fit", "m51_a.fit"));
    assert!(glob_match("*", "anything"));
    assert!(glob_match("abc", "abc"));
    assert!(!glob_match("*.fits", "m51_ha.fit"));
    assert!(!glob_match("m51_?.fit", "m51_ab.fit"));
    assert!(!glob_match("abc", "abd"));
    // case-sensitive
    assert!(!glob_match("*.fits", "M51.FITS"));
}

#[test]
fn stars_match_any_run() {
    assert!(glob_match("*", ""));
    assert!(glob_match("a*b*c", "a-b-b-c"));
    assert!(!glob_match("a*b*c", "a-c-b"));
    assert!(glob_match("**x", "x"));
    assert!(!glob_match("", "x"));
    assert!(!glob_match("?", ""));
    // A star in the name is matched by one in the pattern as any other character.
    assert!(glob_match("*b", "*ab"));
    assert!(glob_match("a?c", "a*c"));
}

fn found(name: &str, kind: (bool, bool, bool), len: u64) -> Found {
    Found { name: name.into(), file_type: Some(kind), len: Some(len), modified: Some(7) }
}

const FILE: (bool, bool, bool) = (false, false, true);
const DIR: (bool, bool, bool) = (false, true, false);

#[test]
fn list_dir_reports_entries_filtered_and_sorted() {
    let all = vec![
        found("b.fits", FILE, 1),
        found("a.fits", FILE, 2),
        found("note.txt", FILE, 1),
        found(".hidden", FILE, 1),
        found("sub", DIR, 4096),
    ];
    // Full listing (no glob): hidden excluded, dir first, names sorted.
    let v = list_dir(&all, &None, false);
    assert_eq!(v.len(), 4);
    let names: Vec<&str> = v.iter().map(|e| e.name.as_str()).collect();
    assert_eq!(names, vec!["sub", "a.fits", "b.fits", "note.txt"]);
    assert_eq!(v[0].kind, "dir");
    assert_eq!(v[0].size, None);
    assert_eq!(v[1].kind, "file");
    assert_eq!(v[1].size, Some(2));

    // Hidden included.
    assert_eq!(list_dir(&all, &None, true).len(), 5);

    // Glob filter.
    assert_eq!(list_dir(&all, &Some("*.fits".into()), false).len(), 2);

    // Not a directory: an error.
    assert!(matches!(
        is_not_a_directory("/a.fits"),
        AppError::BadRequestWithHint { code: "not_a_directory", .. }
    ));
}

#[test]
fn parse_range_handles_all_forms() {
    let total = 1000u64;
    let sat = |spec: &str, s: u64, l: u64| match parse_range(spec, total) {
        RangeOutcome::Satisfiable(gs, gl) => assert_eq!((gs, gl), (s, l), "spec {spec}"),
        other => panic!("spec {spec}: expected Satisfiable, got {}", tag(&other)),
    };

    // Open-ended and closed ranges.
    sat("bytes=0-99", 0, 100);
    sat("bytes=100-", 100, 900);
    sat("bytes=0-", 0, 1000);
    // Suffix range: last N bytes.
    sat("bytes=-50", 950, 50);
    // Suffix larger than the file clamps to the whole file.
    sat("bytes=-5000", 0, 1000);
    // End past EOF clamps to the last byte.
    sat("bytes=990-100000", 990, 10);
    // Whitespace tolerated.
    sat("  bytes= 10 - 19 ", 10, 10);

    // Well-formed but unsatisfiable: 416.
    for spec in ["bytes=1000-", "bytes=99999-", "bytes=-0"] {
        assert!(matches!(parse_range(spec, total), RangeOutcome::Unsatisfiable), "spec {spec}");
    }
    // Empty file: every satisfiable-looking byte range is unsatisfiable.
    assert!(matches!(parse_range("bytes=0-", 0), RangeOutcome::Unsatisfiable));
    assert!(matches!(parse_range("bytes=-10", 0), RangeOutcome::Unsatisfiable));

    // Malformed, unsupported or invalid: ignored, the full body is served.
    for spec in [
        "bytes=abc",
        "bytes=0-99,200-299",
        "items=0-99",
        "bytes=-",
        "bytes=50-40",
    ] {
        assert!(matches!(parse_range(spec, total), RangeOutcome::Ignore), "spec {spec}");
    }
}

fn tag(o: &RangeOutcome) -> &'static str {
    match o {
        RangeOutcome::Satisfiable(..) => "Satisfiable",
        RangeOutcome::Unsatisfiable => "Unsatisfiable",
        RangeOutcome::Ignore => "Ignore",
    }
}

#[test]
fn files_are_served_in_parts() {
    let p = raw_plan(None, 10);
    assert_eq!((p.status, p.start, p.len, p.content_range), (200, 0, 10, None));
    let p = raw_plan(Some("bytes=2-4"), 10);
    assert_eq!((p.status, p.start, p.len), (206, 2, 3));
    assert_eq!(p.content_range.as_deref(), Some("bytes 2-4/10"));
    let p = raw_plan(Some("bytes=20-"), 10);
    assert_eq!((p.status, p.len), (416, 0));
    assert_eq!(p.content_range.as_deref(), Some("bytes */10"));
    assert_eq!(raw_plan(Some("pages=1-2"), 10).status, 200);
}

#[test]
fn stat_path_reports_existence_and_kind() {
    let f = FileFacts { is_dir: false, is_file: true, len: 5, modified: Some(1) };
    let v = stat_path(Some(f));
    assert!(v.exists);
    assert_eq!(v.kind, Some("file"));
    assert_eq!(v.size, Some(5));

    let d = stat_path(Some(FileFacts { is_dir: true, is_file: false, len: 4096, modified: None }));
    assert!(d.exists);
    assert_eq!(d.kind, Some("dir"));
    assert_eq!(d.size, None);

    let missing = stat_path(None);
    assert!(!missing.exists);
    assert_eq!(missing.kind, None);
}

#[test]
fn file_errors() {
    assert!(matches!(stat_error("/x", true, "r"), AppError::NotFound(m) if m == "no such file: /x"));
    assert!(matches!(
        stat_error("/x", false, "denied"),
        AppError::BadRequest(m) if m == "cannot stat /x: denied"
    ));
    assert_eq!(is_a_directory("/d").reply().message, "/d is a directory");
    assert_eq!(list_stat_error("/d", "gone").reply().code, "fs_not_found");
    assert_eq!(list_stat_error("/d", "gone").reply().message, "cannot stat /d: gone");
    assert_eq!(type_str(true, true, false), "symlink");
    assert_eq!(type_str(false, false, false), "other");
}

fn loaded() -> Loaded {
    Loaded { rows: 3, cols: 4, wcs_present: true, extname: Some("SCI".into()) }
}

#[test]
fn opening_makes_an_image_the_active_one() {
    let mut v2 = V2SessionState::new();
    let name = v2.ref_for_open(None, "/a.fits", Some(1)).unwrap();
    let r = register_and_respond(&mut v2, name, Some("/a.fits".into()), Some(1), &loaded()).unwrap();
    assert_eq!(r.image_ref, "img_0");
    assert_eq!(r.active_ref, "img_0");
    assert_eq!(r.dims, (4, 3));
    assert_eq!(r.hdu, Some(1));
    assert_eq!(r.extname.as_deref(), Some("SCI"));
    assert!(r.wcs_present);
    register_and_respond(&mut v2, "b".into(), None, None, &loaded()).unwrap();
    register_and_respond(&mut v2, "a".into(), None, None, &loaded()).unwrap();
    // A name of another file is refused, and its image stays.
    assert!(matches!(
        register_and_respond(&mut v2, "img_0".into(), Some("/b.fits".into()), None, &loaded()),
        Err(AppError::Conflict(m)) if m == "image ref img_0 already exists in session"
    ));
    assert_eq!(v2.active_ref().as_deref(), Some("a"));
    // The same file and unit again: the image that is there is in use and told of.
    let other = Loaded { rows: 7, cols: 7, wcs_present: false, extname: None };
    let r = register_and_respond(
        &mut v2,
        "img_0".into(),
        Some("/a.fits".into()),
        Some(1),
        &other,
    )
    .unwrap();
    assert_eq!((r.dims, r.hdu, r.extname.as_deref()), ((4, 3), Some(1), Some("SCI")));
    assert_eq!(v2.active_ref().as_deref(), Some("img_0"));
    assert_eq!(v2.image_count(), 3);
    assert_eq!(v2.get("img_0").unwrap().width, 4);
    register_and_respond(&mut v2, "a".into(), None, None, &loaded()).unwrap();
    let names: Vec<String> = list_images(&v2).into_iter().map(|m| m.image_ref).collect();
    assert_eq!(names, vec!["a", "b", "img_0"]);
    assert_eq!(export_source(&v2, Some("img_0".into())).unwrap().1, "/a.fits");
    assert!(matches!(export_source(&v2, None), Err(AppError::BadRequest(m)) if m.contains("no source file")));
    assert!(matches!(
        export_source(&v2, Some("zz".into())),
        Err(AppError::NotFound(m)) if m == "image ref zz not found in session"
    ));
    assert_eq!(structure_source(&v2, Some("img_0".into())).unwrap().1, "/a.fits");
    assert!(structure_source(&v2, Some("zz".into())).is_err());
}

#[test]
fn exported_names_are_safe() {
    assert_eq!(sanitize_filename_component("a/b c.é"), "a_b_c__");
    assert_eq!(sanitize_filename_component("img_0-x"), "img_0-x");
    assert_eq!(
        content_disposition("a\"b"),
        "attachment; filename=\"a_b_compressed.fits\""
    );
    assert_eq!(not_in_session("x"), "image ref x not found in session");
}

#[test]
fn shapes_and_types() {
    assert_eq!(dtype_for_bitpix(-32), "float32");
    assert_eq!(dtype_for_bitpix(8), "uint8");
    assert_eq!(dtype_for_bitpix(7), "unknown");
    assert!(shape_for(0, 1, 2, 3).is_empty());
    assert_eq!(shape_for(1, 10, 20, 30), vec![10]);
    assert_eq!(shape_for(2, 10, 20, 30), vec![20, 10]);
    assert_eq!(shape_for(3, 10, 20, 30), vec![30, 20, 10]);
}

fn card(key: &str, value: &str) -> Card {
    Card { key: key.into(), value: value.into() }
}

#[test]
fn headers_are_filtered_by_key() {
    assert_eq!(key_patterns(" CRVAL*, ,naxis "), vec!["CRVAL*", "naxis"]);
    let cards = vec![card("NAXIS", "2"), card("CRVAL1", "1.5"), card("CRVAL2", "2.5")];
    let keys = |filter: Option<&str>| {
        header_cards(&cards, filter).into_iter().map(|c| c.key).collect::<Vec<_>>()
    };
    assert_eq!(keys(None), vec!["NAXIS", "CRVAL1", "CRVAL2"]);
    assert_eq!(keys(Some("crval?")), vec!["CRVAL1", "CRVAL2"]);
    assert_eq!(keys(Some("CRVAL2,NAXIS")), vec!["NAXIS", "CRVAL2"]);
    assert!(keys(Some("NONE")).is_empty());
    assert!(matches!(header_error("i", true), AppError::BadRequest(m) if m == "image i carries no header"));
    assert!(matches!(
        header_error("i", false),
        AppError::NotFound(m) if m == "image ref i not found in session"
    ));
}

#[test]
fn histograms() {
    assert_eq!(default_bins(), 256);
    assert_eq!((range_source(true), range_source(false)), ("explicit", "auto"));
    assert!(check_request(None, 1).is_ok());
    assert!(check_request(Some(false), 1).is_ok());
    assert_eq!(check_request(Some(true), 1).unwrap_err().reply().code, "not_implemented");
    assert_eq!(check_request(None, 0).unwrap_err().reply().message, "bins must be > 0");
    assert_eq!(mode_bin(&vec![1, 5, 5, 2]), Some(2));
    assert_eq!(mode_bin(&vec![0, 0]), None);
    assert_eq!(mode_bin(&vec![]), None);
}

#[test]
fn neighbourhoods_stay_in_the_image() {
    assert_eq!(default_box(), 1);
    assert_eq!(
        pixel_window(5, 5, 3, 10, 10, "5.5", "5").unwrap(),
        Window { x0: 4, x1: 6, y0: 4, y1: 6 }
    );
    assert_eq!(
        pixel_window(0, 9, 4, 10, 10, "0", "9").unwrap(),
        Window { x0: 0, x1: 2, y0: 7, y1: 9 }
    );
    let r = pixel_window(10, 0, 1, 10, 20, "10.5", "0").unwrap_err().reply();
    assert_eq!(r.code, "pixel_out_of_bounds");
    assert_eq!(r.message, "pixel (10.5, 0) is outside the image extent 10×20");
    assert_eq!(r.hint.as_deref(), Some("x must be in [0, 10) and y in [0, 20)"));
    assert!(pixel_window(-1, 0, 1, 10, 20, "-1", "0").is_err());
}

#[test]
fn neighbourhoods_are_summed_up() {
    let bits: Vec<u32> = [1.0f32, -2.5, f32::NAN, 4.0, f32::INFINITY, -0.0, 7.5, 8.0, 9.0]
        .iter()
        .map(|v| v.to_bits())
        .collect();
    let w = Window { x0: 1, x1: 2, y0: 0, y1: 1 };
    let values = window_values(&bits, 3, w);
    assert_eq!(values, vec![bits[1], bits[2], bits[4], bits[5]]);
    let n = neighbourhood(&values);
    assert_eq!((n.n_pixels, n.n_nan), (2, 2));
    let e = n.extent.unwrap();
    assert_eq!(f32::from_bits(e.least), -2.5);
    assert_eq!(f32::from_bits(e.greatest), 0.0);
    let n = neighbourhood(&vec![f32::NAN.to_bits()]);
    assert_eq!((n.n_pixels, n.n_nan, n.extent), (0, 1, None));
}

#[test]
fn bit_patterns_compare_as_their_numbers() {
    let numbers = [f32::MIN, -1.5, -1.0e-40, 0.0, 1.0e-40, 1.5, f32::MAX];
    for a in numbers {
        assert!(finite(a.to_bits()));
        assert!(!nan(a.to_bits()));
        for b in numbers {
            let e = extent(&vec![a.to_bits(), b.to_bits()]).unwrap();
            assert_eq!(f32::from_bits(e.least), a.min(b));
            assert_eq!(f32::from_bits(e.greatest), a.max(b));
        }
    }
    for v in [f32::NAN, f32::INFINITY, f32::NEG_INFINITY] {
        assert!(!finite(v.to_bits()));
        assert_eq!(nan(v.to_bits()), v.is_nan());
    }
    let mixed = vec![f32::NAN.to_bits(), 1.0f32.to_bits(), f32::INFINITY.to_bits()];
    assert_eq!(only_finite(&mixed), vec![1.0f32.to_bits()]);
    assert_eq!(count_nan(&mixed), 1);
    assert!(extent(&vec![]).is_none());
}

#[test]
fn clipping_counts() {
    assert_eq!(default_maxiters(), 5);
    assert_eq!(rejected(10, 7), 3);
}

#[test]
fn sessions_are_summed_up() {
    let mut s = Session::new("a".into(), 5, 0);
    register_and_respond(&mut s.v2, "img".into(), None, None, &loaded()).unwrap();
    let timing = Timing { unix_ms: 1, duration_ms: 2, status: 200 };
    record_session_request(&mut s.activity, "POST", "open", None, s.v2.active_ref(), timing);
    let r = summarize(&s, 3_000_000_000, 77);
    assert_eq!(r.session_id, "a");
    assert_eq!((r.created_unix, r.idle_secs, r.image_count), (5, 3, 1));
    assert_eq!((r.cache_bytes, r.running_jobs, r.last_seq), (77, 0, 1));
    assert_eq!(r.active_ref.as_deref(), Some("img"));
}

#[test]
fn all_sessions_are_summed_up() {
    let mut m = SessionManager::new(8, 900);
    m.create_with("young".into(), 9, 0);
    m.create_with("old".into(), 1, 0);
    let sizes = vec![CacheSize { session_id: "young".into(), bytes: 77 }];
    let all = list(&m, 2_000_000_000, &sizes);
    let told: Vec<(&str, u64, u64)> =
        all.iter().map(|s| (s.session_id.as_str(), s.idle_secs, s.cache_bytes)).collect();
    assert_eq!(told, vec![("old", 2, 0), ("young", 2, 77)]);
    assert!(list(&SessionManager::new(8, 900), 0, &sizes).is_empty());
}

#[test]
fn values_of_a_region_are_cut_out() {
    let pixels: Vec<u32> = (0..20).collect();
    let region = |x, y, width, height| ResolvedRegion { x, y, width, height, clipped: false };
    assert_eq!(region_values(&pixels, 5, region(1, 2, 3, 2)), vec![11, 12, 13, 16, 17, 18]);
    assert_eq!(region_values(&pixels, 5, full_frame(5, 4)), pixels);
    assert!(region_values(&pixels, 5, region(5, 0, 0, 4)).is_empty());
    assert!(region_values(&pixels, 5, region(0, 4, 5, 0)).is_empty());
    assert_eq!(wcs_required().reply().code, "wcs_required");
    assert_eq!(wcs_required().reply().status, 400);
}

#[test]
fn histories_are_read_by_number() {
    let mut m = SessionManager::new(8, 900);
    m.create_with("a".into(), 1, 0);
    let mut s = m.take("a").unwrap();
    let timing = Timing { unix_ms: 1, duration_ms: 2, status: 200 };
    for _ in 0..5 {
        record_session_request(&mut s.activity, "POST", "open", None, &None, timing);
    }
    m.put(s);
    let h = history(&m, "a", HistoryParams { since_seq: 2, limit: None }).unwrap();
    assert_eq!((h.first_seq, h.last_seq), (1, 5));
    assert_eq!(h.events.iter().map(|e| e.seq).collect::<Vec<_>>(), vec![3, 4, 5]);
    let h = history(&m, "a", HistoryParams { since_seq: 0, limit: Some(2) }).unwrap();
    assert_eq!(h.events.iter().map(|e| e.seq).collect::<Vec<_>>(), vec![4, 5]);
    assert!(matches!(
        history(&m, "x", HistoryParams { since_seq: 0, limit: None }),
        Err(AppError::NotFound(t)) if t == "session x not found"
    ));
}

fn unit(cards: &[(&str, &str)], data: usize) -> Vec<u8> {
    let mut out = Vec::new();
    for (k, v) in cards {
        let mut card = format!("{k:<8}= {v}").into_bytes();
        card.resize(80, b' ');
        out.extend(card);
    }
    let mut end = b"END".to_vec();
    end.resize(80, b' ');
    out.extend(end);
    while out.len() % 2880 != 0 {
        out.push(b' ');
    }
    out.extend(vec![0; data]);
    while out.len() % 2880 != 0 {
        out.push(0);
    }
    out
}

#[test]
fn v2_structure_lists_every_hdu() {
    let mut file = unit(
        &[("SIMPLE", "T"), ("BITPIX", "-32"), ("NAXIS", "2"), ("NAXIS1", "8"), ("NAXIS2", "8")],
        8 * 8 * 4,
    );
    file.extend(unit(
        &[
            ("XTENSION", "'IMAGE   '"),
            ("BITPIX", "-32"),
            ("NAXIS", "2"),
            ("NAXIS1", "16"),
            ("NAXIS2", "4"),
            ("EXTNAME", "'WEIGHT  '"),
        ],
        16 * 4 * 4,
    ));
    let rows = structure(&scan_source_hdus(&file).unwrap());
    assert_eq!(rows.len(), 2);
    assert_eq!(rows[0].index, 0);
    assert_eq!(rows[0].bitpix, -32);
    assert_eq!(rows[0].dtype, "float32");
    assert!(rows[0].has_data);
    // Row-major shape for the 8 by 8 first unit.
    assert_eq!(rows[0].shape, vec![8, 8]);
    assert_eq!(rows[0].extname.as_deref(), Some("PRIMARY"));
    assert_eq!(rows[1].index, 1);
    assert_eq!(rows[1].extname.as_deref(), Some("WEIGHT"));
    assert_eq!(rows[1].extver, 1);
    assert_eq!(rows[1].shape, vec![4, 16]);
    let empty = unit(&[("SIMPLE", "T"), ("BITPIX", "8"), ("NAXIS", "0")], 0);
    let rows = structure(&scan_source_hdus(&empty).unwrap());
    assert!(!rows[0].has_data && rows[0].shape.is_empty());
}

#[test]
fn only_fits_files_have_units() {
    assert!(fits_only(false).is_ok());
    assert_eq!(
        fits_only(true).unwrap_err().reply().message,
        "structure listing is FITS-only; this ref came from an ASDF file"
    );
}

#[test]
fn regions_are_cut_where_they_may_be() {
    let r = |x, y, width, height, clip| Region { x, y, width, height, clip };
    assert_eq!(
        resolve_region(r(2, 2, 4, 4, false), 10, 10).unwrap(),
        ResolvedRegion { x: 2, y: 2, width: 4, height: 4, clipped: false }
    );
    let e = resolve_region(r(5, 0, 8, 4, false), 10, 10).unwrap_err().reply();
    assert_eq!((e.status, e.code.as_str()), (400, "region_out_of_bounds"));
    assert_eq!(
        resolve_region(r(5, 0, 8, 4, true), 10, 10).unwrap(),
        ResolvedRegion { x: 5, y: 0, width: 5, height: 4, clipped: true }
    );
    assert_eq!(
        resolve_region(r(-3, -1, 5, u64::MAX, true), 10, 20).unwrap(),
        ResolvedRegion { x: 0, y: 0, width: 2, height: 20, clipped: true }
    );
    assert!(resolve_region(r(10, 0, 5, 5, true), 10, 10).is_err());
    assert!(resolve_region(r(0, 0, 0, 5, true), 10, 10).is_err());
    assert_eq!(
        full_frame(10, 20),
        ResolvedRegion { x: 0, y: 0, width: 10, height: 20, clipped: false }
    );
}
