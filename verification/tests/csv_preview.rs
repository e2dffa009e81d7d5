use file_lister::csvio::{export_to_csv, parse_csv};
use file_lister::app_core::FileListerApp;
use file_lister::preview::{
    is_image_file, is_pdf_file, is_previewable, is_video_file, make_thumbnail, video_seek_offset,
    Capability, PreviewKind, PreviewPipeline, PreviewImage,
};
use file_lister::record::FileInfo;

fn rec(name: &str, ext: &str, rel: &str, size: u64) -> FileInfo {
    let full = format!("{}.{}", name, ext);
    FileInfo {
        name: name.to_string(),
        extension: ext.to_string(),
        full_name: full,
        relative_path: rel.to_string(),
        absolute_path: format!("/abs/{}", rel),
        file_size: size,
        modified_timestamp: 0,
    }
}

#[test]
fn csv_round_trip_through_standard_reader() {
    // export, then re-read with the csv crate after stripping the BOM:
    // same tuples in the same order
    let files = vec![
        rec("a", "txt", "a.txt", 10),
        rec("name, with comma", "txt", "odd name.txt", 20),
        rec("quoted\"inner", "txt", "sub/q.txt", 30),
    ];
    let doc = export_to_csv(&files);
    assert!(doc.starts_with('\u{feff}'));
    let stripped = doc.strip_prefix('\u{feff}').unwrap();
    let mut reader = csv::ReaderBuilder::new()
        .has_headers(true)
        .flexible(true)
        .from_reader(stripped.as_bytes());
    let headers: Vec<String> = reader.headers().unwrap().iter().map(|s| s.to_string()).collect();
    assert_eq!(
        headers,
        vec!["File Name", "Extension", "Size (bytes)", "Relative Path", "Full Path"]
    );
    let rows: Vec<Vec<String>> = reader
        .records()
        .map(|r| r.unwrap().iter().map(|s| s.to_string()).collect())
        .collect();
    assert_eq!(rows.len(), files.len());
    for (row, f) in rows.iter().zip(files.iter()) {
        assert_eq!(row[0], f.name);
        assert_eq!(row[1], f.extension);
        assert_eq!(row[2], f.file_size.to_string());
        assert_eq!(row[3], f.relative_path);
        assert_eq!(row[4], f.absolute_path);
    }
}

#[test]
fn export_writes_exact_document() {
    let files = vec![rec("a", "txt", "a.txt", 10)];
    let doc = export_to_csv(&files);
    assert_eq!(
        doc,
        "\u{feff}File Name,Extension,Size (bytes),Relative Path,Full Path\na,txt,10,a.txt,/abs/a.txt\n"
    );
}

#[test]
fn export_quotes_fields_holding_special_characters() {
    let mut f = rec("odd", "txt", "odd.txt", 1);
    f.name = "two\nlines".to_string();
    f.relative_path = "has,comma".to_string();
    let doc = export_to_csv(&vec![f]);
    assert!(doc.contains("\"two\nlines\""));
    assert!(doc.contains("\"has,comma\""));
}

#[test]
fn own_reader_round_trips_too() {
    let files = vec![rec("plain", "txt", "plain.txt", 5), rec("x,y", "csv", "x.csv", 7)];
    let doc = export_to_csv(&files);
    let chars: Vec<char> = doc.strip_prefix('\u{feff}').unwrap().chars().collect();
    let rows = parse_csv(&chars);
    assert_eq!(rows.len(), 3);
    assert_eq!(rows[1], vec!["plain", "txt", "5", "plain.txt", "/abs/plain.txt"]);
    assert_eq!(rows[2], vec!["x,y", "csv", "7", "x.csv", "/abs/x.csv"]);
}

#[test]
fn parse_csv_handles_quotes_and_crlf() {
    let text: Vec<char> = "a,\"b,c\",\"say \"\"hi\"\"\"\r\n1,2,3\n".chars().collect();
    let rows = parse_csv(&text);
    assert_eq!(rows.len(), 2);
    assert_eq!(rows[0], vec!["a", "b,c", "say \"hi\""]);
    assert_eq!(rows[1], vec!["1", "2", "3"]);
}

fn png_bytes(width: u32, height: u32) -> Vec<u8> {
    let img = image::RgbaImage::from_pixel(width, height, image::Rgba([10, 20, 30, 255]));
    let mut out: Vec<u8> = Vec::new();
    let mut cursor = std::io::Cursor::new(&mut out);
    image::DynamicImage::ImageRgba8(img)
        .write_to(&mut cursor, image::ImageFormat::Png)
        .unwrap();
    out
}

#[test]
fn thumbnail_downscales_larger_dimension_to_cap() {
    let bytes = png_bytes(500, 100);
    let p = make_thumbnail(&bytes).unwrap();
    assert_eq!(p.width, 400);
    assert_eq!(p.height, 80);
    assert_eq!(p.pixels.len(), 4 * 400 * 80);
}

#[test]
fn thumbnail_keeps_small_images() {
    let bytes = png_bytes(120, 80);
    let p = make_thumbnail(&bytes).unwrap();
    assert_eq!(p.width, 120);
    assert_eq!(p.height, 80);
    assert_eq!(p.pixels.len(), 4 * 120 * 80);
    assert_eq!(&p.pixels[0..4], &[10, 20, 30, 255]);
}

#[test]
fn thumbnail_rejects_garbage() {
    let bytes = vec![1u8, 2, 3, 4];
    assert!(make_thumbnail(&bytes).is_none());
}

#[test]
fn preview_request_is_single_flight_and_cached_is_noop() {
    let mut p = PreviewPipeline::new();
    let path = "/abs/a.png".to_string();
    assert!(p.request(&path, true, 1000));
    // the same path is already loading: no new extraction
    assert!(!p.request(&path, true, 2000));
    // a different path replaces the slot
    let other = "/abs/b.png".to_string();
    assert!(p.request(&other, true, 3000));
    let img = PreviewImage { pixels: vec![0; 4], width: 1, height: 1 };
    assert!(p.deliver(other.clone(), img));
    // delivering made it cached: requesting it again does nothing
    assert!(!p.request(&other, true, 4000));
    let got = p.get(&other).unwrap();
    assert_eq!(got.pixels, vec![0; 4]);
    // and a second lookup hands back the same buffer
    let again = p.get(&other).unwrap();
    assert_eq!(again.pixels, vec![0; 4]);
}

#[test]
fn preview_timeout_returns_slot_to_idle_without_caching() {
    let mut p = PreviewPipeline::new();
    let path = "/abs/slow.mp4".to_string();
    assert!(p.request(&path, true, 1000));
    // within the window nothing happens
    assert!(!p.tick(11000));
    assert!(p.request(&path, true, 5000) == false);
    // past the window the slot goes idle and the cache stays empty
    assert!(p.tick(11001 + 1));
    assert!(p.get(&path).is_none());
    // a late result for the abandoned load is discarded
    let img = PreviewImage { pixels: vec![0; 4], width: 1, height: 1 };
    assert!(!p.deliver(path.clone(), img));
    assert!(p.get(&path).is_none());
}

#[test]
fn preview_request_respects_backend_readiness() {
    let mut p = PreviewPipeline::new();
    let path = "/abs/movie.mkv".to_string();
    assert!(!p.request(&path, false, 0));
    assert!(p.request(&path, true, 0));
}

#[test]
fn capability_probe_is_write_once_and_fetch_updates() {
    let mut c = Capability::new();
    assert!(!c.is_ready());
    c.probe_once(false);
    assert!(!c.is_ready());
    // a second probe changes nothing
    c.probe_once(true);
    assert!(!c.is_ready());
    c.begin_fetch();
    assert!(c.is_fetching());
    c.fetch_done(true);
    assert!(c.is_ready());
    let mut d = Capability::new();
    d.probe_once(true);
    assert!(d.is_ready());
}

#[test]
fn file_kind_classification() {
    assert!(is_image_file("JPG"));
    assert!(is_image_file("webp"));
    assert!(!is_image_file("txt"));
    assert!(is_video_file("mkv"));
    assert!(is_video_file("MP4"));
    assert!(!is_video_file("png"));
    assert!(is_pdf_file("pdf"));
    assert!(is_pdf_file("PDF"));
    assert!(is_previewable("gif"));
    assert!(!is_previewable("docx"));
}

#[test]
fn hover_preview_dispatches_by_kind_and_readiness() {
    let mut app = FileListerApp::new();
    app.scan_delivered(
        Ok(vec![rec("pic", "png", "pic.png", 1), rec("clip", "mkv", "clip.mkv", 1)]),
        0,
        0,
    );
    // rows are sorted by relative path: clip.mkv first, pic.png second
    assert_eq!(app.filtered_files[0].extension, "mkv");
    // the video backend has not passed its probe: no job
    assert!(app.load_hover_preview(0, 100).is_none());
    // images need no backend
    let (path, kind) = app.load_hover_preview(1, 200).unwrap();
    assert_eq!(kind, PreviewKind::Image);
    assert_eq!(path, "/abs/pic.png");
    // that path is now loading: asking again starts nothing
    assert!(app.load_hover_preview(1, 300).is_none());
    // once the video backend is ready, its row replaces the slot
    app.video_backend.probe_once(true);
    let (path, kind) = app.load_hover_preview(0, 400).unwrap();
    assert_eq!(kind, PreviewKind::Video);
    assert_eq!(path, "/abs/clip.mkv");
    // a row that is not previewable never yields a job
    let mut app2 = FileListerApp::new();
    app2.scan_delivered(Ok(vec![rec("doc", "txt", "doc.txt", 1)]), 0, 0);
    assert!(app2.load_hover_preview(0, 0).is_none());
    assert!(app2.load_hover_preview(9, 0).is_none());
}

#[test]
fn video_seek_offsets_fall_back_to_start() {
    assert_eq!(video_seek_offset(0), Some(1));
    assert_eq!(video_seek_offset(1), Some(0));
    assert_eq!(video_seek_offset(2), None);
}
