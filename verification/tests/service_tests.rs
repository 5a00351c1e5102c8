use photo_digitizer::overlay::{box_style, check_quad, check_quads, overlay_manual};
use photo_digitizer::service::{
    cancel_enhance, describe_photo, enhance_photo, enhance_plan, enhance_stages, enhanced_path, enhanced_photo,
    face_progress_due, faces_progress_label, is_cancel_error, photo_from_path, re_extracted_photo, reset_cancel,
    rotated_photo, rotation_path, thumb_b64, CancelFlag, EnhanceAction, EnhanceStep,
};

#[test]
fn base64_thumbnails() {
    assert_eq!(thumb_b64(b"hello"), "aGVsbG8=");
    assert_eq!(thumb_b64(b""), "");
    assert_eq!(thumb_b64(b"hi"), "aGk=");
    assert_eq!(thumb_b64(&[0xff, 0xfe]), "//4=");
    assert_eq!(thumb_b64(b"abc"), "YWJj");
    assert_eq!(thumb_b64(&[0xfb, 0xef, 0xbe]), "++++");
}

#[test]
fn cancel_flag_round_trip() {
    let mut f = CancelFlag::new();
    assert!(!f.is_cancelled());
    cancel_enhance(&mut f);
    assert!(f.is_cancelled());
    cancel_enhance(&mut f);
    assert!(f.is_cancelled());
    reset_cancel(&mut f);
    assert!(!f.is_cancelled());
}

#[test]
fn cancel_errors_are_recognised() {
    assert!(is_cancel_error("cancelled"));
    assert!(is_cancel_error("upscale cancelled by user"));
    assert!(!is_cancel_error("boom"));
    assert!(!is_cancel_error("Cancelled"));
}

#[test]
fn enhancement_stages_and_plan() {
    assert_eq!(enhance_stages(false, false, false), 1);
    assert_eq!(enhance_stages(true, false, false), 1);
    assert_eq!(enhance_stages(true, true, true), 3);
    let plan = enhance_plan(true, true, false);
    let view: Vec<(usize, bool)> = plan.iter().map(|p| (p.stage, p.check_cancel)).collect();
    assert_eq!(view, vec![(0, true), (0, false), (1, true), (1, false)]);
    assert!(matches!(plan[0].step, EnhanceStep::LoadModels));
    assert!(matches!(plan[1].step, EnhanceStep::Upscale));
    assert!(matches!(plan[2].step, EnhanceStep::Colorize));
    assert!(matches!(plan[3].step, EnhanceStep::Save));
    let plan2 = enhance_plan(false, true, true);
    let stages: Vec<usize> = plan2.iter().map(|p| p.stage).collect();
    assert_eq!(stages, vec![0, 0, 0, 0]);
}

fn run_label(a: &EnhanceAction) -> (usize, usize, Option<String>) {
    match a {
        EnhanceAction::Run { stage, stages, label, .. } => (*stage, *stages, label.clone()),
        _ => panic!("expected a step to run"),
    }
}

#[test]
fn enhancement_state_machine() {
    let a = enhance_photo(true, false, true, 0, false);
    assert!(matches!(a, EnhanceAction::Run { step: EnhanceStep::LoadModels, .. }));
    assert_eq!(run_label(&a), (0, 2, Some("loading AI models…".to_string())));
    let a = enhance_photo(true, false, true, 1, false);
    assert!(matches!(a, EnhanceAction::Run { step: EnhanceStep::Upscale, .. }));
    assert_eq!(run_label(&a), (0, 2, Some("starting upscale…".to_string())));
    let a = enhance_photo(true, false, true, 2, false);
    assert!(matches!(a, EnhanceAction::Run { step: EnhanceStep::RestoreFaces, .. }));
    assert_eq!(run_label(&a), (1, 2, Some("restoring faces…".to_string())));
    let a = enhance_photo(true, false, true, 3, false);
    assert!(matches!(a, EnhanceAction::Run { step: EnhanceStep::Save, .. }));
    assert_eq!(run_label(&a), (1, 2, None));
    assert!(matches!(enhance_photo(true, false, true, 4, false), EnhanceAction::Done { stages: 2 }));
    assert!(matches!(enhance_photo(true, false, true, 9, true), EnhanceAction::Done { stages: 2 }));
    // a pending cancel stops before model loading, colorizing and face restoration
    assert!(matches!(enhance_photo(true, false, true, 0, true), EnhanceAction::Cancelled));
    assert!(matches!(enhance_photo(true, false, true, 1, true), EnhanceAction::Run { step: EnhanceStep::Upscale, .. }));
    assert!(matches!(enhance_photo(true, false, true, 2, true), EnhanceAction::Cancelled));
    assert!(matches!(enhance_photo(false, true, false, 1, true), EnhanceAction::Cancelled));
    let a = enhance_photo(false, true, false, 1, false);
    assert_eq!(run_label(&a), (0, 1, Some("colorizing…".to_string())));
    assert!(matches!(enhance_photo(false, false, false, 1, false), EnhanceAction::Run { step: EnhanceStep::Save, .. }));
    assert!(matches!(enhance_photo(false, false, false, 2, false), EnhanceAction::Done { stages: 1 }));
}

#[test]
fn face_progress_reports() {
    assert_eq!(faces_progress_label(2, 5), "restoring faces 2/5");
    assert!(face_progress_due(3, 5, 2));
    assert!(!face_progress_due(2, 5, 2));
    assert!(face_progress_due(5, 5, 5));
}

#[test]
fn photo_descriptions() {
    let d = describe_photo("/tmp/jobs", "sheet", 2, 90, "face", 100, 200, b"hi", vec![1.0f64; 8]);
    assert_eq!(d.id, "sheet#2");
    assert_eq!(d.index, 2);
    assert_eq!(d.rotation, 90);
    assert_eq!(d.method, "face");
    assert_eq!((d.width, d.height), (100, 200));
    assert_eq!(d.extracted, "/tmp/jobs/sheet_2.png");
    assert_eq!(d.thumb_b64, "aGk=");
    assert_eq!(d.quad, vec![1.0f64; 8]);

    assert_eq!(rotation_path("/j", "s#3"), "/j/s_3.png");
    let r = rotated_photo::<f64>("/j", "s#3", -90, 30, 40, b"hi");
    assert_eq!((r.id.as_str(), r.index, r.rotation, r.method.as_str()), ("s#3", 0, 270, "manual"));
    assert_eq!(r.extracted, "/j/s_3.png");
    assert!(r.quad.is_empty());

    let e = re_extracted_photo("/j", "/scans/sheet.jpg", "sheet#4", 180, "object", 5, 6, b"", vec![2.0f64; 8]);
    assert_eq!(e.extracted, "/j/sheet_4.png");
    assert_eq!(e.index, 4);
    assert_eq!(e.rotation, 180);
    let e2 = re_extracted_photo("/j", "/scans/sheet.jpg", "odd", 0, "none", 5, 6, b"", Vec::<f64>::new());
    assert_eq!(e2.extracted, "/j/sheet_odd.png");
    assert_eq!(e2.index, 0);

    assert_eq!(enhanced_path("/j", "/j/sheet_4.png"), "/j/sheet_4_enh.png");
    let en = enhanced_photo("/j", "sheet#4", "/j/sheet_4.png", 2560, 1920, b"abc");
    assert_eq!((en.id.as_str(), en.enhanced.as_str(), en.thumb_b64.as_str()), ("sheet#4", "/j/sheet_4_enh.png", "YWJj"));
    assert_eq!((en.width, en.height), (2560, 1920));

    let p = photo_from_path::<f64>("x#1", "/j/x_1.png", 7, 8, b"hello");
    assert_eq!((p.index, p.rotation, p.method.as_str(), p.extracted.as_str()), (0, 0, "manual", "/j/x_1.png"));
    assert_eq!(p.thumb_b64, "aGVsbG8=");
}

#[test]
fn manual_crops_override_detected_boxes() {
    let quads = vec![vec![0.0f64; 8], vec![1.0f64; 8]];
    let manual = vec![(1usize, vec![9.0f64; 8]), (5, vec![7.0f64; 8]), (0, vec![1.0, 2.0, 3.0])];
    let (boxes, flags) = overlay_manual(&quads, &manual);
    assert_eq!(boxes, vec![vec![0.0f64; 8], vec![9.0f64; 8], vec![7.0f64; 8]]);
    assert_eq!(flags, vec![false, true, true]);
}

#[test]
fn later_manual_crop_for_same_index_wins() {
    let quads = vec![vec![0.0f64; 8]];
    let manual = vec![(3usize, vec![3.0f64; 8]), (0, vec![1.0f64; 8]), (0, vec![2.0f64; 8]), (2, vec![4.0f64; 8])];
    let (boxes, flags) = overlay_manual(&quads, &manual);
    // applied in index order: 0 (twice, the later one wins), then 2 and 3 appended
    assert_eq!(boxes, vec![vec![2.0f64; 8], vec![4.0f64; 8], vec![3.0f64; 8]]);
    assert_eq!(flags, vec![true, true, true]);
    let (same, f2) = overlay_manual(&quads, &Vec::new());
    assert_eq!(same, quads);
    assert_eq!(f2, vec![false]);
}

#[test]
fn quad_validation() {
    assert_eq!(check_quad(&vec![0.0f64; 8]), Ok(()));
    assert_eq!(check_quad(&vec![0.0f64; 7]), Err("quad must have 8 coordinates".to_string()));
    assert_eq!(check_quads(&vec![vec![0.0f64; 8], vec![1.0f64; 8]]), Ok(()));
    assert_eq!(check_quads(&vec![vec![0.0f64; 8], vec![1.0f64; 9]]), Err("quad must have 8 coordinates".to_string()));
    assert_eq!(check_quads::<f64>(&Vec::new()), Ok(()));
}

#[test]
fn preview_box_styles() {
    let s = box_style(0, &vec![]);
    assert_eq!((s.green, s.thickness, s.label.as_str()), (true, 3, "#0"));
    let s = box_style(1, &vec![false, false]);
    assert_eq!((s.green, s.thickness, s.label.as_str()), (false, 3, "#1"));
    let s = box_style(1, &vec![false, true]);
    assert_eq!((s.green, s.thickness, s.label.as_str()), (true, 5, "#1 manual"));
    let s = box_style(12, &vec![true]);
    assert_eq!((s.green, s.thickness, s.label.as_str()), (true, 3, "#12"));
}

#[test]
fn progress_stays_below_stage_count() {
    for mask in 0..8u8 {
        let (u, c, f) = (mask & 1 != 0, mask & 2 != 0, mask & 4 != 0);
        let mut done = 0usize;
        loop {
            match enhance_photo(u, c, f, done, false) {
                EnhanceAction::Run { stage, stages, label, .. } => {
                    if label.is_some() {
                        assert!(stage < stages, "{mask} {done}");
                    }
                    assert!(stage <= stages);
                }
                EnhanceAction::Done { stages } => {
                    assert_eq!(stages, enhance_stages(u, c, f));
                    break;
                }
                EnhanceAction::Cancelled => panic!("no cancel was requested"),
            }
            done += 1;
        }
        assert_eq!(done, enhance_plan(u, c, f).len());
    }
}
