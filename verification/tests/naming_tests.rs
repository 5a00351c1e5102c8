use photo_digitizer::naming::{
    enhanced_name, extracted_name, has_image_ext, id_index, image_names, join_path, model_path, photo_id,
    rotation_file, save_debug, save_name, stem_of, text_le,
};
use photo_digitizer::text::{
    decimal_string, find_first, find_last, parse_usize, text_after_last, text_before_first, text_contains,
    text_second_field,
};

#[test]
fn decimal_string_writes_digits() {
    assert_eq!(decimal_string(0), "0");
    assert_eq!(decimal_string(7), "7");
    assert_eq!(decimal_string(1234), "1234");
    assert_eq!(decimal_string(usize::MAX), usize::MAX.to_string());
}

#[test]
fn parse_usize_reads_like_from_str() {
    assert_eq!(parse_usize("42"), Some(42));
    assert_eq!(parse_usize("+7"), Some(7));
    assert_eq!(parse_usize("007"), Some(7));
    assert_eq!(parse_usize(""), None);
    assert_eq!(parse_usize("+"), None);
    assert_eq!(parse_usize("-1"), None);
    assert_eq!(parse_usize("4 2"), None);
    assert_eq!(parse_usize("x1"), None);
    let max = usize::MAX.to_string();
    assert_eq!(parse_usize(&max), Some(usize::MAX));
    let over = format!("{}0", usize::MAX);
    assert_eq!(parse_usize(&over), None);
    for s in ["0", "12", "+3", "", "-", "1e3", "99999999999999999999999"] {
        assert_eq!(parse_usize(s), s.parse::<usize>().ok(), "input {s:?}");
    }
}

#[test]
fn text_splitting_helpers() {
    assert_eq!(find_first("a#b#c", '#'), 1);
    assert_eq!(find_first("abc", '#'), 3);
    assert_eq!(find_last("a#b#c", '#'), Some(3));
    assert_eq!(find_last("abc", '#'), None);
    assert_eq!(text_before_first("sheet#3", '#'), "sheet");
    assert_eq!(text_before_first("sheet", '#'), "sheet");
    assert_eq!(text_after_last("a#b#c", '#'), "c");
    assert_eq!(text_after_last("abc", '#'), "abc");
    assert_eq!(text_second_field("a#b#c", '#'), Some("b"));
    assert_eq!(text_second_field("a#b", '#'), Some("b"));
    assert_eq!(text_second_field("ab", '#'), None);
    assert!(text_contains("upscale cancelled", "cancel"));
    assert!(text_contains("abc", ""));
    assert!(!text_contains("ab", "abc"));
}

#[test]
fn join_path_follows_unix_rules() {
    assert_eq!(join_path("/a", "b"), "/a/b");
    assert_eq!(join_path("/a/", "b"), "/a/b");
    assert_eq!(join_path("", "b"), "b");
    assert_eq!(join_path("/a", "/b"), "/b");
    assert_eq!(join_path("rel/dir", "f.png"), "rel/dir/f.png");
    for (d, n) in [("/a", "b"), ("/a/", "b"), ("", "b"), ("/a", "/b"), ("x", "y/z")] {
        let expected = std::path::Path::new(d).join(n);
        assert_eq!(join_path(d, n), expected.to_str().unwrap());
    }
}

#[test]
fn photo_ids_and_working_files() {
    assert_eq!(photo_id("sheet", 3), "sheet#3");
    assert_eq!(photo_id("20260829095358_001", 0), "20260829095358_001#0");
    assert_eq!(extracted_name("sheet", "3"), "sheet_3.png");
    assert_eq!(enhanced_name("sheet_3"), "sheet_3_enh.png");
    assert_eq!(rotation_file("s#3"), "s_3.png");
    assert_eq!(rotation_file("s"), "s_0.png");
    assert_eq!(rotation_file("s#3#x"), "s_3.png");
    assert_eq!(id_index("a#12"), 12);
    assert_eq!(id_index("a#b"), 0);
    assert_eq!(id_index("noid"), 0);
    assert_eq!(id_index("x#1#5"), 5);
}

#[test]
fn saved_file_names_follow_readme() {
    // "Files are written as <stem>_p<index>.jpg/png, e.g. 20260829095358_001_p0.jpg"
    assert_eq!(save_name("20260829095358_001#0", "jpg"), "20260829095358_001_p0.jpg");
    assert_eq!(save_name("x#2", "png"), "x_p2.png");
    assert_eq!(save_name("x#2", "tiff"), "x_p2.jpg");
    assert_eq!(save_name("x#2", "PNG"), "x_p2.jpg");
}

#[test]
fn photo_id_round_trips_to_saved_name() {
    for (stem, i) in [("scan_01", 0usize), ("a b", 7), ("20260829095358_001", 12)] {
        let id = photo_id(stem, i);
        assert_eq!(text_before_first(&id, '#'), stem);
        assert_eq!(id_index(&id), i);
        assert_eq!(save_name(&id, "png"), format!("{stem}_p{i}.png"));
    }
}

#[test]
fn image_extension_filter() {
    assert!(has_image_ext("a.jpg"));
    assert!(has_image_ext("a.JPG"));
    assert!(has_image_ext("a.Jpeg"));
    assert!(has_image_ext("b.tiff"));
    assert!(has_image_ext("b.tif"));
    assert!(has_image_ext("c.bmp"));
    assert!(has_image_ext("d.PNG"));
    assert!(has_image_ext("jpg"));
    assert!(!has_image_ext("notes.txt"));
    assert!(!has_image_ext("photo.jpeg.bak"));
    assert!(!has_image_ext(""));
}

#[test]
fn image_names_filters_and_sorts() {
    let names: Vec<String> = ["b.png", "a.JPG", "notes.txt", "c.tif", "B.bmp", "a.jpg"]
        .iter()
        .map(|s| s.to_string())
        .collect();
    let out = image_names(&names);
    assert_eq!(out, vec!["B.bmp", "a.JPG", "a.jpg", "b.png", "c.tif"]);
    assert!(image_names(&Vec::new()).is_empty());
}

#[test]
fn text_le_is_string_order() {
    assert!(text_le("a", "b"));
    assert!(text_le("a", "a"));
    assert!(text_le("ab", "abc"));
    assert!(!text_le("b", "a"));
    assert!(text_le("B", "a"));
}

#[test]
fn stem_of_uses_file_stem() {
    assert_eq!(stem_of("/x/y/sheet.jpg"), "sheet");
    assert_eq!(stem_of("a.tar.gz"), "a.tar");
    assert_eq!(stem_of("noext"), "noext");
    assert_eq!(stem_of("/"), "scan");
    assert_eq!(stem_of(""), "scan");
}

#[test]
fn model_and_debug_paths() {
    assert_eq!(model_path("/m", "yunet.onnx"), "/m/yunet.onnx");
    assert_eq!(save_debug("/out", "/scans/s1.png", 2), Some("/out/s1_debug.png".to_string()));
    assert_eq!(save_debug("/out", "/scans/s1.png", 0), None);
}
