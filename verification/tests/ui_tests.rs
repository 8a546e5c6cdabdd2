use picr::file::File;
use picr::process::{overlay_progress, progress_at, should_start, status, Status, Worker};
use picr::ui::{drop_preview_text, file_label, metadata_line, HoveredFile, Picr};

fn file(name: &str) -> File {
    File::new(name.to_string(), name.to_string(), vec![])
}

fn viewer(n: usize) -> Picr {
    let mut p = Picr::new();
    let files: Vec<File> = (0..n).map(|i| file(&format!("f{}.fits", i))).collect();
    p.load_files(files, None);
    p
}

fn culled(p: &Picr) -> Vec<bool> {
    p.files.iter().map(|f| f.culled).collect()
}

#[test]
fn new_viewer_is_empty() {
    let p = Picr::new();
    assert!(p.files.is_empty());
    assert_eq!(p.cursor, 0);
    assert!(!p.show_config);
    assert!(p.picked_path.is_none());
}

#[test]
fn arrows_move_the_selection_within_the_list() {
    let mut p = viewer(3);
    p.input(true, false, false);
    assert_eq!(p.cursor, 1);
    p.input(true, false, false);
    assert_eq!(p.cursor, 2);
    p.input(true, false, false);
    assert_eq!(p.cursor, 2);
    p.input(false, true, false);
    assert_eq!(p.cursor, 1);
    p.input(false, true, false);
    p.input(false, true, false);
    assert_eq!(p.cursor, 0);
    // both keys in one frame: down, then up
    p.input(true, true, false);
    assert_eq!(p.cursor, 0);
}

#[test]
fn left_or_right_flips_the_selected_file() {
    let mut p = viewer(3);
    p.input(true, false, true);
    assert_eq!(culled(&p), vec![false, true, false]);
    p.input(false, false, true);
    assert_eq!(culled(&p), vec![false, false, false]);
}

#[test]
fn clicking_selects_and_reports_the_previous_selection() {
    let mut p = viewer(3);
    assert_eq!(p.select(2), 0);
    assert_eq!(p.cursor, 2);
    assert_eq!(p.select(1), 2);
}

#[test]
fn cull_and_include_buttons() {
    let mut p = viewer(2);
    p.set_culled(true);
    assert_eq!(culled(&p), vec![true, false]);
    p.set_culled(false);
    assert_eq!(culled(&p), vec![false, false]);
}

#[test]
fn options_window_opens_and_closes() {
    let mut p = viewer(1);
    p.open_config();
    assert!(p.show_config);
    p.close_config();
    assert!(!p.show_config);
}

#[test]
fn loading_keeps_the_selection_and_records_the_folder() {
    let mut p = viewer(3);
    p.select(2);
    p.load_files(vec![file("a.fits")], Some("/data".to_string()));
    assert_eq!(p.files.len(), 1);
    assert_eq!(p.cursor, 2);
    assert_eq!(p.picked_path.as_deref(), Some("/data"));
    p.load_files(vec![], None);
    assert_eq!(p.picked_path.as_deref(), Some("/data"));
}

#[test]
fn file_list_labels() {
    assert_eq!(file_label(0, "a.fits", true), "1. \u{274c} a.fits");
    assert_eq!(file_label(9, "b.fits", false), "10. \u{2714} b.fits");
}

#[test]
fn metadata_lines() {
    assert_eq!(metadata_line("BITPIX", "16"), "BITPIX: 16");
}

#[test]
fn drop_overlay_text() {
    let files = vec![
        HoveredFile { path: Some("/tmp/a.fits".to_string()), mime: "image/fits".to_string() },
        HoveredFile { path: None, mime: "text/plain".to_string() },
        HoveredFile { path: None, mime: String::new() },
    ];
    assert_eq!(drop_preview_text(&files), "Dropping files:\n\n/tmp/a.fits\ntext/plain\n???");
    assert_eq!(drop_preview_text(&vec![]), "Dropping files:\n");
}

#[test]
fn worker_status() {
    let p = progress_at(3, 10);
    assert_eq!((p.done, p.total), (3, 10));
    assert!(matches!(status(Worker::Absent, p), Status::NotStarted));
    assert!(matches!(status(Worker::Running, p), Status::Processing(q) if q.done == 3 && q.total == 10));
    assert!(matches!(status(Worker::Finished(Status::Pass), p), Status::Pass));
    assert!(overlay_progress(&Status::Processing(p)).is_some());
    assert!(overlay_progress(&Status::Pass).is_none());
    assert!(overlay_progress(&Status::NotStarted).is_none());
    assert!(should_start(1));
    assert!(!should_start(0));
}
