use photo_digitizer::jobs::{job_meta, make_job, unknown_photo_message, AppState, BatchStep, PhotoMeta};
use photo_digitizer::service::{DetectedPhoto, EnhancedPhoto};

fn detected(id: &str, rotation: i32, method: &str, extracted: &str) -> DetectedPhoto<f64> {
    DetectedPhoto {
        id: id.to_string(),
        index: 0,
        rotation,
        method: method.to_string(),
        width: 400,
        height: 300,
        extracted: extracted.to_string(),
        thumb_b64: "dGh1bWI=".to_string(),
        quad: vec![1.0, 2.0, 3.0, 4.0, 5.0, 6.0, 7.0, 8.0],
    }
}

fn enhanced(id: &str, path: &str) -> EnhancedPhoto {
    EnhancedPhoto {
        id: id.to_string(),
        enhanced: path.to_string(),
        thumb_b64: "ZW5o".to_string(),
        width: 1600,
        height: 1200,
    }
}

fn same_meta(a: &PhotoMeta<f64>, b: &PhotoMeta<f64>) -> bool {
    a.id == b.id
        && a.source_file == b.source_file
        && a.thumb == b.thumb
        && a.width == b.width
        && a.height == b.height
        && a.rotation == b.rotation
        && a.method == b.method
        && a.quad == b.quad
        && a.enhanced == b.enhanced
        && a.enh_thumb == b.enh_thumb
        && a.enh_width == b.enh_width
        && a.enh_height == b.enh_height
}

#[test]
fn fresh_job_and_meta() {
    let d = detected("s#0", 90, "face", "/j/s_0.png");
    let job = make_job("s.jpg", &d);
    let m = job_meta("s#0", &job);
    assert_eq!(m.id, "s#0");
    assert_eq!(m.source_file, "s.jpg");
    assert_eq!(m.thumb, "dGh1bWI=");
    assert_eq!((m.width, m.height, m.rotation), (400, 300, 90));
    assert_eq!(m.method, "face");
    assert_eq!(m.quad.len(), 8);
    assert!(!m.enhanced);
    assert_eq!((m.enh_thumb, m.enh_width, m.enh_height), (None, None, None));
}

#[test]
fn record_and_look_up_photos() {
    let mut st: AppState<f64> = AppState::new();
    assert_eq!(st.photo_source("s#0"), None);
    let m = st.record_detected("s.jpg", &detected("s#0", 0, "none", "/j/s_0.png"));
    assert_eq!(m.id, "s#0");
    assert_eq!(st.photo_source("s#0"), Some("/j/s_0.png".to_string()));
    st.record_detected("s.jpg", &detected("s#0", 0, "none", "/j/other.png"));
    assert_eq!(st.photo_source("s#0"), Some("/j/other.png".to_string()));
}

#[test]
fn rotation_updates_and_drops_enhancement() {
    let mut st: AppState<f64> = AppState::new();
    st.record_detected("s.jpg", &detected("s#0", 270, "face", "/j/s_0.png"));
    st.photo_enhanced("s#0", &enhanced("s#0", "/j/s_0_enh.png")).unwrap();
    let mut re = detected("s#0", 0, "manual", "/j/s_0.png");
    re.thumb_b64 = "bmV3".to_string();
    re.width = 300;
    re.height = 400;
    let m = st.rotate_photo("s#0", 90, &re).unwrap();
    assert_eq!(m.rotation, 0);
    assert_eq!(m.method, "manual");
    assert_eq!((m.width, m.height), (300, 400));
    assert_eq!(m.thumb, "bmV3");
    assert!(!m.enhanced);
    assert_eq!(m.source_file, "s.jpg");
    let m = st.rotate_photo("s#0", -90, &re).unwrap();
    assert_eq!(m.rotation, 270);
    assert_eq!(st.rotate_photo("zz#1", 90, &re).err(), Some("unknown photo id".to_string()));
}

#[test]
fn re_extraction_records_the_manual_crop() {
    let mut st: AppState<f64> = AppState::new();
    st.record_detected("s.jpg", &detected("s#1", 0, "none", "/j/s_1.png"));
    st.photo_enhanced("s#1", &enhanced("s#1", "/j/s_1_enh.png")).unwrap();
    let mut d = detected("s#1", 180, "face", "/j/s_1.png");
    d.quad = vec![0.0; 8];
    let m = st.re_extract_photo("s#1", &d).unwrap();
    assert_eq!(m.method, "manual (face)");
    assert_eq!(m.rotation, 180);
    assert_eq!(m.quad, vec![0.0; 8]);
    assert!(!m.enhanced);
    assert_eq!(st.re_extract_photo("nope", &d).err(), Some("unknown photo id".to_string()));
}

#[test]
fn enhancement_is_shown_and_saved() {
    let mut st: AppState<f64> = AppState::new();
    st.record_detected("s.jpg", &detected("s#0", 0, "none", "/j/s_0.png"));
    st.record_detected("t.jpg", &detected("t#3", 0, "none", "/j/t_3.png"));
    let m = st.photo_enhanced("s#0", &enhanced("s#0", "/j/s_0_enh.png")).unwrap();
    assert!(m.enhanced);
    assert_eq!(m.enh_thumb, Some("ZW5o".to_string()));
    assert_eq!((m.enh_width, m.enh_height), (Some(1600), Some(1200)));
    assert_eq!(st.photo_enhanced("x#9", &enhanced("x#9", "/p")).err(), Some("unknown photo id".to_string()));

    let ids = vec!["s#0".to_string(), "zz#1".to_string(), "t#3".to_string()];
    let plan = st.save_plan(&ids, "/out", "png");
    assert_eq!(
        plan,
        vec![
            ("/j/s_0_enh.png".to_string(), "/out/s_p0.png".to_string()),
            ("/j/t_3.png".to_string(), "/out/t_p3.png".to_string()),
        ]
    );
    let plan = st.save_plan(&ids, "/out/", "jpeg");
    assert_eq!(plan[1].1, "/out/t_p3.jpg");
    assert!(st.save_plan(&vec!["none#0".to_string()], "/out", "png").is_empty());
}

#[test]
fn reset_restores_the_original_photo() {
    // "Reset to original discards the enhancement — the photo goes back to its
    // original state and can be enhanced again"
    let mut st: AppState<f64> = AppState::new();
    let before = st.record_detected("s.jpg", &detected("s#0", 90, "face", "/j/s_0.png"));
    st.photo_enhanced("s#0", &enhanced("s#0", "/j/s_0_enh.png")).unwrap();
    let after = st.reset_enhancement("s#0").unwrap();
    assert!(same_meta(&before, &after));
    let plan = st.save_plan(&vec!["s#0".to_string()], "/o", "jpg");
    assert_eq!(plan, vec![("/j/s_0.png".to_string(), "/o/s_p0.jpg".to_string())]);
    let again = st.photo_enhanced("s#0", &enhanced("s#0", "/j/s_0_enh2.png")).unwrap();
    assert!(again.enhanced);
    assert_eq!(st.reset_enhancement("q#0").err(), Some("unknown photo id".to_string()));
}

#[test]
fn batch_outcomes() {
    let mut st: AppState<f64> = AppState::new();
    st.record_detected("s.jpg", &detected("s#0", 0, "none", "/j/s_0.png"));
    assert!(matches!(st.finish_enhancement("s#0", Err("cancelled".to_string())), BatchStep::Cancelled));
    match st.finish_enhancement("s#0", Err("model failed".to_string())) {
        BatchStep::Failed(m) => assert_eq!(m, "model failed"),
        _ => panic!("expected a failure"),
    }
    match st.finish_enhancement("gone#1", Ok(enhanced("gone#1", "/p"))) {
        BatchStep::Failed(m) => assert_eq!(m, "unknown photo id"),
        _ => panic!("expected a failure"),
    }
    match st.finish_enhancement("s#0", Ok(enhanced("s#0", "/j/s_0_enh.png"))) {
        BatchStep::Enhanced(m) => {
            assert!(m.enhanced);
            assert_eq!(m.id, "s#0");
        },
        _ => panic!("expected the photo to be enhanced"),
    }
    assert_eq!(unknown_photo_message("a#1"), "unknown photo id a#1");
}
