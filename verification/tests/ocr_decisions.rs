use asset_localizer::atlas::AtlasRegion;
use asset_localizer::ocr::{
    crop_region, has_meaningful_text, image_result, join_detected_text, region_result,
    scan_log_step, should_emit_milestone, worker_count, CropRotation, OcrEnginePaths, OcrLogBuffer,
    OcrLogEntry, OcrLogState, OcrSettings,
};

#[test]
fn meaningful_text() {
    assert!(has_meaningful_text("Hello"));
    assert!(has_meaningful_text("  é "));
    assert!(has_meaningful_text("42"));
    assert!(has_meaningful_text("你好"));
    assert!(has_meaningful_text("\u{3001}"));
    assert!(has_meaningful_text("\u{FF01}"));
    assert!(!has_meaningful_text("!!! ..."));
    assert!(!has_meaningful_text("  \n\t "));
    assert!(!has_meaningful_text("\u{3000}"));
    assert!(!has_meaningful_text(""));
}

#[test]
fn joined_lines_skip_empty_ones() {
    let lines: Vec<String> = ["", "a", "", "b c", ""].iter().map(|s| s.to_string()).collect();
    assert_eq!(join_detected_text(&lines), "a\nb c");
    assert_eq!(join_detected_text(&Vec::new()), "");
    let r = image_result("x.png".to_string(), &lines);
    assert_eq!(r.path, "x.png");
    assert_eq!(r.detected_text, "a\nb c");
    assert!(r.has_text);
    let r = region_result("r".to_string(), &vec!["...".to_string()]);
    assert_eq!(r.name, "r");
    assert!(!r.has_text);
}

#[test]
fn milestones() {
    assert!(should_emit_milestone(7, 7));
    assert!(should_emit_milestone(50, 120));
    assert!(should_emit_milestone(100, 120));
    assert!(!should_emit_milestone(51, 120));
    assert!(!should_emit_milestone(0, 10));
    assert!(should_emit_milestone(0, 0));
}

#[test]
fn log_steps() {
    let st = OcrLogState { completed: 0, text_count: 0 };
    let with_text = image_result("a.png".to_string(), &vec!["Hi".to_string()]);
    let (st, logs) = scan_log_step(st, 2, &with_text);
    assert_eq!((st.completed, st.text_count), (1, 1));
    assert_eq!(
        logs,
        vec![OcrLogEntry::Text { index: 1, total: 2, path: "a.png".to_string(), detected_text: "Hi".to_string() }]
    );
    let without = image_result("b.png".to_string(), &vec![]);
    let (st, logs) = scan_log_step(st, 2, &without);
    assert_eq!((st.completed, st.text_count), (2, 1));
    assert_eq!(logs, vec![OcrLogEntry::Milestone { current: 2, total: 2, text_count: 1 }]);
}

#[test]
fn workers() {
    assert_eq!(worker_count(8, 4, 100), 4);
    assert_eq!(worker_count(0, 4, 100), 1);
    assert_eq!(worker_count(3, 4, 2), 2);
    assert_eq!(worker_count(3, 4, 0), 0);
    assert_eq!(OcrSettings::for_parallelism(None).cpu_cores, 4);
    assert_eq!(OcrSettings::for_parallelism(Some(16)).cpu_cores, 16);
    assert!(!OcrSettings::for_parallelism(Some(16)).use_gpu);
}

fn region(x: i32, y: i32, width: i32, height: i32, rotated: bool) -> AtlasRegion {
    AtlasRegion { name: "r".to_string(), x, y, width, height, rotated }
}

#[test]
fn crops() {
    assert_eq!(crop_region(100, 50, &region(10, 5, 20, 10, false), "atlas"), (10, 5, 20, 10, CropRotation::Upright));
    assert_eq!(crop_region(100, 50, &region(-5, -5, 0, 0, true), "plist"), (0, 0, 1, 1, CropRotation::Rotate270));
    assert_eq!(crop_region(100, 50, &region(95, 45, 20, 20, true), "atlas"), (95, 45, 5, 5, CropRotation::Rotate90));
    assert_eq!(crop_region(100, 50, &region(500, 500, 20, 20, false), "atlas"), (99, 49, 1, 1, CropRotation::Upright));
    // every crop of a non-empty texture stays inside it
    for r in [region(-3, 70, 400, 2, false), region(99, 49, 1, 1, false), region(0, 0, i32::MAX, i32::MAX, false)] {
        let (x, y, w, h, _) = crop_region(100, 50, &r, "atlas");
        assert!(w >= 1 && h >= 1 && x + w <= 100 && y + h <= 50);
    }
}

#[test]
fn engine_files() {
    let p = OcrEnginePaths::new("/m", true);
    assert_eq!(p.det_model, "/m/PP-OCRv5_mobile_det.mnn");
    assert_eq!(p.rec_model, "/m/PP-OCRv5_mobile_rec.mnn");
    assert_eq!(p.charset, "/m/ppocr_keys_v5.txt");
    assert_eq!(p.ori_model.as_deref(), Some("/m/PP-LCNet_textline_ori.mnn"));
    assert_eq!(OcrEnginePaths::new("/m/", false).ori_model, None);
}

#[test]
fn log_buffer_gives_back_what_was_pushed() {
    let mut log = OcrLogBuffer::new();
    let e = OcrLogEntry::Milestone { current: 1, total: 1, text_count: 0 };
    log.push(e.clone());
    assert_eq!(log.entries(), vec![e]);
    log.clear();
    assert!(log.entries().is_empty());
}

#[test]
fn milestones_per_run() {
    for total in [1usize, 2, 49, 50, 51, 99, 100, 101, 250] {
        let count = (1..=total).filter(|&c| should_emit_milestone(c, total)).count();
        assert_eq!(count, (total - 1) / 50 + 1);
        assert!(should_emit_milestone(total, total));
    }
}
